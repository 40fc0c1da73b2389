use tinywasm::{Module, ModuleInstance, Store};

use wasm_os::random::{guest_rng, guest_seedrng, initial_rng, random_nonnegative};
use wasm_os::wasm::{
    finish_run,
    args_buffer, free, guest_command, guest_free, guest_getargs, guest_malloc, guest_memcpy, guest_memmove,
    guest_memset, guest_ptrsize, guest_seed, malloc, seed_from_bytes, stdin_code, timer_micros, Allocation,
};

/// A module that only exports one page of memory, named "memory".
fn memory_module() -> Vec<u8> {
    vec![
        0x00, 0x61, 0x73, 0x6d, 0x01, 0x00, 0x00, 0x00, // magic and version
        0x05, 0x03, 0x01, 0x00, 0x01, // one memory of one page
        0x07, 0x0a, 0x01, 0x06, b'm', b'e', b'm', b'o', b'r', b'y', 0x02, 0x00, // export it
    ]
}

fn instance() -> (Store, ModuleInstance) {
    let module = Module::parse_bytes(&memory_module()).unwrap();
    let mut store = Store::default();
    let instance = module.instantiate(&mut store, None).unwrap();
    (store, instance)
}

fn block(ptr: usize, size: usize) -> Allocation {
    Allocation { ptr, size }
}

#[test]
fn bump_malloc_starts_at_one() {
    let r = malloc(Vec::new(), 16).unwrap();
    assert_eq!(r.1, 1);
    assert_eq!(r.0, vec![block(1, 16)]);
}

#[test]
fn bump_malloc_goes_after_highest_block() {
    let r = malloc(vec![block(1, 4), block(40, 2), block(10, 2)], 3).unwrap();
    assert_eq!(r.1, 42);
    assert_eq!(r.0, vec![block(1, 4), block(40, 2), block(10, 2), block(42, 3)]);
}

#[test]
fn free_removes_blocks_at_address() {
    let list = vec![block(1, 4), block(5, 2), block(1, 0), block(9, 1)];
    assert_eq!(free(list.clone(), 1).unwrap(), vec![block(5, 2), block(9, 1)]);
    assert_eq!(free(list.clone(), 7).unwrap(), list);
}

#[test]
fn free_undoes_malloc() {
    let list = vec![block(1, 4), block(5, 2)];
    let r = malloc(list.clone(), 8).unwrap();
    assert_eq!(free(r.0, r.1).unwrap(), list);
}

#[test]
fn guest_allocator_round_trip() {
    let mut list = Vec::new();
    let a = guest_malloc(&mut list, 10);
    let b = guest_malloc(&mut list, 20);
    assert_eq!((a, b), (1, 11));
    assert_eq!(guest_ptrsize(&list, 11), 20);
    assert_eq!(guest_ptrsize(&list, 1), 10);
    assert_eq!(guest_ptrsize(&list, 2), -1);
    guest_free(&mut list, 1);
    assert_eq!(list, vec![block(11, 20)]);
    assert_eq!(guest_ptrsize(&list, 1), -1);
    let c = guest_malloc(&mut list, 5);
    assert_eq!(c, 31);
}

#[test]
fn guest_malloc_of_negative_size_takes_it_unsigned() {
    let mut list = Vec::new();
    let a = guest_malloc(&mut list, -1);
    assert_eq!(a, 1);
    assert_eq!(list, vec![block(1, usize::MAX)]);
}

#[test]
fn ptrsize_takes_first_block() {
    let list = vec![block(3, 7), block(3, 9)];
    assert_eq!(guest_ptrsize(&list, 3), 7);
    assert_eq!(guest_ptrsize(&list, -1), -1);
}

#[test]
fn args_block_ends_arguments_with_nuls() {
    assert_eq!(args_buffer("ls -l x"), b"ls\0-l\0x\0\0".to_vec());
    assert_eq!(args_buffer(""), vec![0, 0]);
    assert_eq!(args_buffer("a  b"), b"a\0\0b\0\0".to_vec());
    assert_eq!(args_buffer("é"), vec![0xc3, 0xa9, 0, 0]);
}

#[test]
fn seed_reads_little_endian() {
    assert_eq!(seed_from_bytes(&[1, 0, 0, 0, 0, 0, 0, 0]), Some(1));
    assert_eq!(seed_from_bytes(&[0, 1, 0, 0, 0, 0, 0, 0]), Some(256));
    assert_eq!(seed_from_bytes(&[0xff; 8]), Some(u64::MAX));
    assert_eq!(seed_from_bytes(&[1, 2, 3, 4, 5, 6, 7, 8]), Some(u64::from_le_bytes([1, 2, 3, 4, 5, 6, 7, 8])));
    assert_eq!(seed_from_bytes(&[1, 2, 3]), None);
}

#[test]
fn memset_fills_range() {
    let (mut store, instance) = instance();
    let mut memory = instance.exported_memory_mut(&mut store, "memory").unwrap();
    assert_eq!(guest_memset(&mut memory, (100, 4, 0x1ab)), 0);
    assert_eq!(memory.load_vec(99, 6).unwrap(), vec![0, 0xab, 0xab, 0xab, 0xab, 0]);
    assert_eq!(guest_memset(&mut memory, (65534, 4, 1)), -1);
    assert_eq!(memory.load_vec(65532, 4).unwrap(), vec![0, 0, 0, 0]);
}

#[test]
fn memcpy_copies_range() {
    let (mut store, instance) = instance();
    let mut memory = instance.exported_memory_mut(&mut store, "memory").unwrap();
    memory.store(10, 3, &[1, 2, 3]).unwrap();
    assert_eq!(guest_memcpy(&mut memory, (10, 20, 3)), 0);
    assert_eq!(memory.load_vec(20, 3).unwrap(), vec![1, 2, 3]);
    assert_eq!(memory.load_vec(10, 3).unwrap(), vec![1, 2, 3]);
    assert_eq!(guest_memcpy(&mut memory, (-1, 20, 3)), -1);
    assert_eq!(guest_memcpy(&mut memory, (10, 65535, 3)), -1);
    assert_eq!(memory.load_vec(20, 3).unwrap(), vec![1, 2, 3]);
}

#[test]
fn memmove_exchanges_ranges() {
    let (mut store, instance) = instance();
    let mut memory = instance.exported_memory_mut(&mut store, "memory").unwrap();
    memory.store(0, 4, &[1, 2, 3, 4]).unwrap();
    memory.store(8, 4, &[5, 6, 7, 8]).unwrap();
    assert_eq!(guest_memmove(&mut memory, (0, 8, 4)), 0);
    assert_eq!(memory.load_vec(0, 4).unwrap(), vec![5, 6, 7, 8]);
    assert_eq!(memory.load_vec(8, 4).unwrap(), vec![1, 2, 3, 4]);
    assert_eq!(guest_memmove(&mut memory, (0, 8, 4)), 0);
    assert_eq!(memory.load_vec(0, 4).unwrap(), vec![1, 2, 3, 4]);
    assert_eq!(guest_memmove(&mut memory, (0, 70000, 4)), -1);
    assert_eq!(memory.load_vec(0, 4).unwrap(), vec![1, 2, 3, 4]);
}

#[test]
fn memmove_of_overlapping_ranges_writes_source_first() {
    let (mut store, instance) = instance();
    let mut memory = instance.exported_memory_mut(&mut store, "memory").unwrap();
    memory.store(0, 4, &[1, 2, 3, 4]).unwrap();
    assert_eq!(guest_memmove(&mut memory, (0, 2, 2)), 0);
    // [3,4] is written at 0, then the former [1,2] at 2
    assert_eq!(memory.load_vec(0, 4).unwrap(), vec![3, 4, 1, 2]);
}

#[test]
fn getargs_allocates_and_writes_block() {
    let (mut store, instance) = instance();
    let mut memory = instance.exported_memory_mut(&mut store, "memory").unwrap();
    let mut list = vec![block(1, 9)];
    let at = guest_getargs(&mut memory, &mut list, "run me");
    assert_eq!(at, 10);
    assert_eq!(list, vec![block(1, 9), block(10, 8)]);
    assert_eq!(memory.load_vec(10, 8).unwrap(), b"run\0me\0\0".to_vec());
}

#[test]
fn getargs_out_of_memory_keeps_allocation() {
    let (mut store, instance) = instance();
    let mut memory = instance.exported_memory_mut(&mut store, "memory").unwrap();
    let mut list = vec![block(65530, 4)];
    let at = guest_getargs(&mut memory, &mut list, "abc");
    assert_eq!(at, -1);
    assert_eq!(list, vec![block(65530, 4), block(65534, 5)]);
}

#[test]
fn seed_and_command_read_guest_memory() {
    let (mut store, instance) = instance();
    {
        let mut memory = instance.exported_memory_mut(&mut store, "memory").unwrap();
        memory.store(16, 8, &[2, 0, 0, 0, 0, 0, 0, 0]).unwrap();
        memory.store(32, 6, b"shell\0").unwrap();
        memory.store(65500, 36, &[b'a'; 36]).unwrap();
    }
    let memory = instance.exported_memory(&mut store, "memory").unwrap();
    assert_eq!(guest_seed(&memory, 16), Some(2));
    assert_eq!(guest_seed(&memory, 65530), None);
    assert_eq!(guest_command(&memory, 32), Ok(b"shell".to_vec()));
    assert_eq!(guest_command(&memory, 65500), Err(-1));
    assert_eq!(guest_command(&memory, 65530), Err(-1));
    let mut rng = initial_rng();
    let mut same = initial_rng();
    assert_eq!(guest_seedrng(&memory, 65535, &mut rng), -1);
    let kept: Vec<i32> = (0..5).map(|_| guest_rng(&mut rng)).collect();
    let first: Vec<i32> = (0..5).map(|_| guest_rng(&mut same)).collect();
    assert_eq!(kept, first);
    // equal seed bytes give equal sequences
    let mut a = initial_rng();
    let mut b = initial_rng();
    guest_rng(&mut b);
    assert_eq!(guest_seedrng(&memory, 16, &mut a), 0);
    assert_eq!(guest_seedrng(&memory, 16, &mut b), 0);
    let from_a: Vec<i32> = (0..5).map(|_| guest_rng(&mut a)).collect();
    let from_b: Vec<i32> = (0..5).map(|_| guest_rng(&mut b)).collect();
    assert_eq!(from_a, from_b);
}

#[test]
fn random_numbers_are_not_negative() {
    assert_eq!(random_nonnegative(0xffff_ffff), 0x7fff_ffff);
    assert_eq!(random_nonnegative(0x8000_0000), 0);
    assert_eq!(random_nonnegative(5), 5);
    let mut rng = initial_rng();
    for _ in 0..100 {
        assert!(guest_rng(&mut rng) >= 0);
    }
}

#[test]
fn stdin_and_timer_codes() {
    assert_eq!(stdin_code(Some(vec![b'q', 1])), b'q' as i32);
    assert_eq!(stdin_code(None), -1);
    assert_eq!(timer_micros(0), 0);
    assert_eq!(timer_micros(200), 10_000_000);
    assert_eq!(timer_micros(50_000), (2_500_000_000u64 as u32) as i32);
}

#[test]
fn finishing_a_run_forgets_the_blocks() {
    let mut list = vec![block(1, 4)];
    assert_eq!(finish_run(&mut list, Err("trap".to_string())), Err("trap".to_string()));
    assert!(list.is_empty());
    let mut list = vec![block(1, 4)];
    assert_eq!(finish_run(&mut list, Ok(())), Ok(()));
    assert!(list.is_empty());
}

#[test]
fn ptrsize_follows_an_allocation_until_freed() {
    let mut list = vec![block(1, 3)];
    let p = guest_malloc(&mut list, 6);
    assert_eq!(guest_ptrsize(&list, p), 6);
    let q = guest_malloc(&mut list, 2);
    assert_eq!(guest_ptrsize(&list, p), 6);
    guest_free(&mut list, q);
    assert_eq!(guest_ptrsize(&list, p), 6);
    guest_free(&mut list, p);
    assert_eq!(guest_ptrsize(&list, p), -1);
}
