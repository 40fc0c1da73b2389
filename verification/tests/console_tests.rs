use wasm_os::apps::{app_name, app_to_run, exit_status, is_whitespace, register_app, run_outcome, AppRegistry};
use wasm_os::console::{Console, Echo, BACKSPACE};
use wasm_os::{get_current_byte_in_stdin, reset_allowed_backspaces, set_current_byte_in_stdin, QemuExitCode};

#[test]
fn key_is_read_once() {
    let mut console = Console::new();
    assert_eq!(get_current_byte_in_stdin(&mut console), '\0');
    assert_eq!(set_current_byte_in_stdin(&mut console, 'k'), Echo::Print('k'));
    assert_eq!(get_current_byte_in_stdin(&mut console), 'k');
    assert_eq!(get_current_byte_in_stdin(&mut console), '\0');
}

#[test]
fn backspace_erases_only_echoed_characters() {
    let mut console = Console::new();
    assert_eq!(set_current_byte_in_stdin(&mut console, BACKSPACE), Echo::Nothing);
    assert_eq!(set_current_byte_in_stdin(&mut console, 'a'), Echo::Print('a'));
    assert_eq!(set_current_byte_in_stdin(&mut console, 'b'), Echo::Print('b'));
    assert_eq!(console.allowed_backspaces(), 2);
    assert_eq!(set_current_byte_in_stdin(&mut console, BACKSPACE), Echo::Backspace);
    assert_eq!(set_current_byte_in_stdin(&mut console, BACKSPACE), Echo::Backspace);
    assert_eq!(set_current_byte_in_stdin(&mut console, BACKSPACE), Echo::Nothing);
    assert_eq!(get_current_byte_in_stdin(&mut console), BACKSPACE);
}

#[test]
fn reset_forbids_erasing_earlier_output() {
    let mut console = Console::new();
    set_current_byte_in_stdin(&mut console, 'a');
    reset_allowed_backspaces(&mut console);
    assert_eq!(set_current_byte_in_stdin(&mut console, BACKSPACE), Echo::Nothing);
    assert_eq!(get_current_byte_in_stdin(&mut console), BACKSPACE);
    assert_eq!(console.allowed_backspaces(), 0);
}

#[test]
fn command_line_first_word_names_the_app() {
    assert_eq!(app_name("  shell -v  x"), "shell");
    assert_eq!(app_name("fib"), "fib");
    assert_eq!(app_name("\t\ncollatz\u{3000}5"), "collatz");
    assert_eq!(app_name("   "), "");
    assert_eq!(app_name(""), "");
}

#[test]
fn whitespace_matches_std() {
    for u in 0u32..=0x10ffff {
        if let Some(c) = char::from_u32(u) {
            assert_eq!(is_whitespace(c), c.is_whitespace(), "{:x}", u);
        }
    }
}

#[test]
fn registered_app_is_found_by_first_word() {
    let mut registry = AppRegistry::new();
    assert_eq!(app_to_run(&registry, "fib 10"), Err(1));
    register_app(&mut registry, "fib", &[1, 2]);
    register_app(&mut registry, "shell", &[3]);
    register_app(&mut registry, "fib", &[9]);
    assert_eq!(app_to_run(&registry, "fib 10"), Ok(vec![1, 2]));
    assert_eq!(app_to_run(&registry, "  shell"), Ok(vec![3]));
    assert_eq!(app_to_run(&registry, "fibonacci"), Err(1));
    assert_eq!(app_to_run(&registry, ""), Err(1));
}

#[test]
fn run_results_become_statuses() {
    assert_eq!(run_outcome(Ok(())), Ok(()));
    assert_eq!(run_outcome(Err("trap".to_string())), Err(2));
    assert_eq!(exit_status(Ok(())), 0);
    assert_eq!(exit_status(Err(1)), 1);
    assert_eq!(exit_status(Err(2)), 2);
}

#[test]
fn guest_print_codes() {
    assert_eq!(wasm_os::hydro_std::print("Hi"), vec![72, 105]);
    assert_eq!(wasm_os::hydro_std::println("Hi"), vec![72, 105, 10]);
    assert_eq!(wasm_os::hydro_std::println(""), vec![10]);
    assert_eq!(wasm_os::hydro_std::print("é"), vec![0xe9]);
}

#[test]
fn qemu_exit_port_values() {
    assert_eq!(QemuExitCode::Success.port_value(), 0x10);
    assert_eq!(QemuExitCode::Failed.port_value(), 0x11);
}

#[test]
fn backspaces_never_erase_more_than_printed() {
    let mut console = Console::new();
    set_current_byte_in_stdin(&mut console, 'x');
    reset_allowed_backspaces(&mut console);
    let keys = ['a', BACKSPACE, BACKSPACE, 'b', 'c', BACKSPACE, BACKSPACE, BACKSPACE];
    let mut printed = 0;
    let mut erased = 0;
    for key in keys {
        match set_current_byte_in_stdin(&mut console, key) {
            Echo::Print(_) => printed += 1,
            Echo::Backspace => erased += 1,
            Echo::Nothing => {}
        }
        assert!(erased <= printed);
        assert_eq!(console.allowed_backspaces() as i32, printed - erased);
    }
    assert_eq!((printed, erased), (3, 3));
}
