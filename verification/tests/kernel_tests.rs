use wasm_os::console::{Console, Echo};
use wasm_os::kernel::keyboard::{decode_keypress, handle_keypress, try_handle_keypress};
use wasm_os::get_current_byte_in_stdin;
use tinywasm::{Module, Store};
use wasm_os::kernel::wasm::{first_fit_fits, free, guest_getargs, guest_malloc, malloc};
use wasm_os::wasm::blocks_fit;
use wasm_os::wasm::Allocation;

fn block(ptr: usize, size: usize) -> Allocation {
    Allocation { ptr, size }
}

#[test]
fn first_fit_on_empty_list_starts_at_zero() {
    let r = malloc(Vec::new(), 8).unwrap();
    assert_eq!(r.1, 0);
    assert_eq!(r.0, vec![block(0, 8)]);
}

#[test]
fn first_fit_uses_a_gap() {
    let r = malloc(vec![block(0, 10), block(20, 5)], 5).unwrap();
    assert_eq!(r.1, 10);
    assert_eq!(r.0, vec![block(0, 10), block(20, 5), block(10, 5)]);
}

#[test]
fn first_fit_goes_after_the_last_block_when_nothing_fits() {
    let r = malloc(vec![block(0, 10), block(12, 5)], 5).unwrap();
    assert_eq!(r.1, 17);
}

#[test]
fn first_fit_room_at_zero_goes_after_last_block() {
    let r = malloc(vec![block(8, 2), block(20, 1)], 4).unwrap();
    assert_eq!(r.1, 21);
}

#[test]
fn kernel_free_removes_blocks() {
    assert_eq!(free(vec![block(0, 1), block(4, 2)], 0).unwrap(), vec![block(4, 2)]);
}

#[test]
fn scancodes_decode_to_characters() {
    assert_eq!(decode_keypress(0x1e), Some('a'));
    assert_eq!(decode_keypress(0x02), Some('1'));
    assert_eq!(decode_keypress(0x39), Some(' '));
    assert_eq!(decode_keypress(0x0e), Some('\x08'));
    assert_eq!(decode_keypress(0x9e), None);
    assert_eq!(decode_keypress(0x2a), None);
}

#[test]
fn first_fit_checks_for_faults() {
    assert!(first_fit_fits(&vec![block(0, 10), block(20, 5)], 5));
    assert!(first_fit_fits(&Vec::new(), 5));
    // after a gap was filled the list is out of order and a large request underflows
    assert!(!first_fit_fits(&vec![block(0, 10), block(20, 5), block(10, 5)], 100));
    assert!(!first_fit_fits(&vec![block(usize::MAX, 1)], 0));
    assert!(!first_fit_fits(&vec![block(0, usize::MAX), block(usize::MAX, 1)], 1));
}

#[test]
fn bump_checks_for_faults() {
    assert!(blocks_fit(&vec![block(1, 2), block(usize::MAX - 1, 1)]));
    assert!(!blocks_fit(&vec![block(usize::MAX, 1)]));
}

#[test]
fn kernel_guest_allocator() {
    let mut list = Vec::new();
    assert_eq!(guest_malloc(&mut list, 4), 0);
    assert_eq!(guest_malloc(&mut list, 4), 4);
    assert_eq!(list, vec![block(0, 4), block(4, 4)]);
}

#[test]
fn kernel_getargs_places_block_first_fit() {
    let bytes = vec![
        0x00, 0x61, 0x73, 0x6d, 0x01, 0x00, 0x00, 0x00, 0x05, 0x03, 0x01, 0x00, 0x01, 0x07, 0x0a, 0x01, 0x06, b'm', b'e',
        b'm', b'o', b'r', b'y', 0x02, 0x00,
    ];
    let module = Module::parse_bytes(&bytes).unwrap();
    let mut store = Store::default();
    let instance = module.instantiate(&mut store, None).unwrap();
    let mut memory = instance.exported_memory_mut(&mut store, "memory").unwrap();
    let mut list = vec![block(0, 2), block(20, 4)];
    assert_eq!(guest_getargs(&mut memory, &mut list, "a b"), 2);
    assert_eq!(list, vec![block(0, 2), block(20, 4), block(2, 5)]);
    assert_eq!(memory.load_vec(2, 5).unwrap(), b"a\0b\0\0".to_vec());
}

#[test]
fn keypresses_reach_standard_input() {
    let mut console = Console::new();
    assert_eq!(handle_keypress(&mut console, 0x1e), Echo::Print('a'));
    assert_eq!(console.allowed_backspaces(), 1);
    assert_eq!(handle_keypress(&mut console, 0x9e), Echo::Nothing);
    assert_eq!(handle_keypress(&mut console, 0x2a), Echo::Nothing);
    assert_eq!(console.allowed_backspaces(), 1);
    assert_eq!(get_current_byte_in_stdin(&mut console), 'a');
    assert_eq!(handle_keypress(&mut console, 0x0e), Echo::Backspace);
    assert_eq!(console.allowed_backspaces(), 0);
}

#[test]
fn keypress_refused_when_count_is_full() {
    let mut console = Console::new();
    for _ in 0..255 {
        assert_eq!(try_handle_keypress(&mut console, 0x1e), Some(Echo::Print('a')));
    }
    assert_eq!(console.allowed_backspaces(), 255);
    assert_eq!(try_handle_keypress(&mut console, 0x1e), None);
    assert_eq!(console.allowed_backspaces(), 255);
    assert_eq!(try_handle_keypress(&mut console, 0x9e), Some(Echo::Nothing));
    assert_eq!(try_handle_keypress(&mut console, 0x0e), Some(Echo::Backspace));
}
