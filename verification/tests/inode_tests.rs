use std::sync::atomic::{AtomicUsize, Ordering};
use std::sync::Mutex;

use wasm_os::inode::{get_inode, init_dev, Inode, InodeType};
use wasm_os::wasm::guest_putchar;

type Node = Inode<fn(Vec<u8>), fn() -> Vec<u8>>;

static WRITTEN: Mutex<Vec<u8>> = Mutex::new(Vec::new());
static STDOUT_CALLS: AtomicUsize = AtomicUsize::new(0);

fn record_input(data: Vec<u8>) {
    STDOUT_CALLS.fetch_add(1, Ordering::SeqCst);
    WRITTEN.lock().unwrap().extend(data);
}

fn ignore_input(_data: Vec<u8>) {}

fn produce_x() -> Vec<u8> {
    vec![b'x']
}

fn produce_y() -> Vec<u8> {
    vec![b'y']
}

fn root_with_dev() -> Node {
    let mut root = Node::create_directory("/");
    init_dev(&mut root, record_input, ignore_input, produce_x);
    root
}

fn names(node: &Node) -> Vec<String> {
    node.list_directory().unwrap()
}

#[test]
fn file_read_after_create_and_write() {
    let mut file = Node::create_file("notes", vec![1, 2, 3]);
    assert!(matches!(file.get_type(), InodeType::File));
    assert_eq!(file.read_file(), Some(vec![1, 2, 3]));
    file.write_file(vec![9]);
    assert_eq!(file.read_file(), Some(vec![9]));
    file.write_file(Vec::new());
    assert_eq!(file.read_file(), Some(Vec::new()));
}

#[test]
fn non_files_do_not_read_or_write() {
    let mut dir = Node::create_directory("d");
    assert_eq!(dir.read_file(), None);
    dir.write_file(vec![1]);
    assert_eq!(dir.read_file(), None);
    assert_eq!(names(&dir), Vec::<String>::new());
    let file = Node::create_file("f", vec![]);
    assert_eq!(file.list_directory(), None);
    let out = Node::create_outputter("o", produce_x);
    assert_eq!(out.read_file(), None);
    assert_eq!(out.list_directory(), None);
}

#[test]
fn types_of_each_kind() {
    assert!(matches!(Node::create_file("a", vec![]).get_type(), InodeType::File));
    assert!(matches!(Node::create_directory("a").get_type(), InodeType::Directory));
    assert!(matches!(Node::create_inputreciever("a", ignore_input).get_type(), InodeType::InputReciever));
    assert!(matches!(Node::create_outputter("a", produce_x).get_type(), InodeType::Outputter));
}

#[test]
fn init_dev_adds_three_devices() {
    let root = root_with_dev();
    assert_eq!(names(&root), vec!["dev".to_string()]);
    let dev = get_inode(&root, "/dev").unwrap();
    assert_eq!(names(&dev), vec!["stdout".to_string(), "serial0".to_string(), "stdin".to_string()]);
    assert!(matches!(get_inode(&root, "/dev/stdout").unwrap().get_type(), InodeType::InputReciever));
    assert!(matches!(get_inode(&root, "/dev/serial0").unwrap().get_type(), InodeType::InputReciever));
    assert!(matches!(get_inode(&root, "/dev/stdin").unwrap().get_type(), InodeType::Outputter));
}

#[test]
fn init_dev_on_a_file_changes_nothing() {
    let mut file = Node::create_file("f", vec![7]);
    init_dev(&mut file, ignore_input, ignore_input, produce_x);
    assert_eq!(file.read_file(), Some(vec![7]));
    assert_eq!(file.list_directory(), None);
}

#[test]
fn lookup_of_root_paths() {
    let root = root_with_dev();
    assert_eq!(names(&get_inode(&root, "").unwrap()), vec!["dev".to_string()]);
    assert_eq!(names(&get_inode(&root, "/").unwrap()), vec!["dev".to_string()]);
    assert_eq!(names(&get_inode(&root, "///").unwrap()), vec!["dev".to_string()]);
}

#[test]
fn lookup_ignores_extra_slashes() {
    let root = root_with_dev();
    assert!(matches!(get_inode(&root, "//dev///stdin/").unwrap().get_type(), InodeType::Outputter));
    assert!(matches!(get_inode(&root, "dev/stdin").unwrap().get_type(), InodeType::Outputter));
}

#[test]
fn lookup_of_missing_paths() {
    let mut root = root_with_dev();
    assert!(get_inode(&root, "/nothing").is_none());
    assert!(get_inode(&root, "/dev/nothing").is_none());
    assert!(get_inode(&root, "/dev/stdin/deeper").is_none());
    if let Some(_) = get_inode(&root, "/Dev") {
        panic!("names are case sensitive");
    }
    Node::delete(&mut root, "dev");
    assert!(get_inode(&root, "/dev/stdin").is_none());
}

#[test]
fn lookup_takes_first_of_equal_names() {
    let mut root = Node::create_directory("/");
    init_dev(&mut root, ignore_input, ignore_input, produce_x);
    init_dev(&mut root, ignore_input, ignore_input, produce_y);
    assert_eq!(names(&root), vec!["dev".to_string(), "dev".to_string()]);
    let found = get_inode(&root, "/dev/stdin").unwrap();
    assert_eq!(found.read_outputter(), Some(vec![b'x']));
}

#[test]
fn lookup_returns_a_copy_of_a_subtree() {
    let mut root = Node::create_directory("/");
    init_dev(&mut root, ignore_input, ignore_input, produce_x);
    let dev = get_inode(&root, "/dev").unwrap();
    let mut copy = dev.clone();
    Node::delete(&mut copy, "stdin");
    assert_eq!(names(&copy), vec!["stdout".to_string(), "serial0".to_string()]);
    assert_eq!(names(&get_inode(&root, "/dev").unwrap()).len(), 3);
    let again = dev.duplicate();
    assert_eq!(names(&again), names(&dev));
}

#[test]
fn delete_removes_every_entry_of_the_name() {
    let mut root = Node::create_directory("/");
    init_dev(&mut root, ignore_input, ignore_input, produce_x);
    init_dev(&mut root, ignore_input, ignore_input, produce_x);
    let mut dev = get_inode(&root, "/dev").unwrap();
    Node::delete(&mut dev, "serial0");
    assert_eq!(names(&dev), vec!["stdout".to_string(), "stdin".to_string()]);
    Node::delete(&mut dev, "serial0");
    assert_eq!(names(&dev), vec!["stdout".to_string(), "stdin".to_string()]);
    Node::delete(&mut root, "dev");
    assert_eq!(names(&root), Vec::<String>::new());
}

#[test]
fn delete_compares_the_whole_path() {
    let mut root = root_with_dev();
    Node::delete(&mut root, "/dev");
    assert_eq!(names(&root), vec!["dev".to_string()]);
}

#[test]
fn delete_on_a_file_changes_nothing() {
    let mut file = Node::create_file("dev", vec![1]);
    Node::delete(&mut file, "dev");
    assert_eq!(file.read_file(), Some(vec![1]));
}

#[test]
fn devices_call_their_handlers() {
    let root = root_with_dev();
    let stdout = get_inode(&root, "/dev/stdout").unwrap();
    let before = STDOUT_CALLS.load(Ordering::SeqCst);
    stdout.write_inputreciever(vec![b'h', b'i']);
    assert!(STDOUT_CALLS.load(Ordering::SeqCst) > before);
    assert!(WRITTEN.lock().unwrap().ends_with(b"hi") || WRITTEN.lock().unwrap().windows(2).any(|w| w == b"hi"));
    let stdin = get_inode(&root, "/dev/stdin").unwrap();
    assert_eq!(stdin.read_outputter(), Some(vec![b'x']));
    assert_eq!(stdout.read_outputter(), None);
    let file = Node::create_file("f", vec![]);
    assert_eq!(file.read_outputter(), None);
    file.write_inputreciever(vec![1]);
}

#[test]
fn putchar_writes_one_byte_to_the_device() {
    let root = root_with_dev();
    let before = STDOUT_CALLS.load(Ordering::SeqCst);
    assert!(guest_putchar(&root, "/dev/stdout", 0x141));
    assert!(STDOUT_CALLS.load(Ordering::SeqCst) > before);
    assert!(WRITTEN.lock().unwrap().contains(&0x41));
    assert!(guest_putchar(&root, "/dev/serial0", 7));
    assert!(!guest_putchar(&root, "/dev/stdin", 7));
    assert!(!guest_putchar(&root, "/dev/missing", 7));
    let empty = Node::create_directory("/");
    assert!(!guest_putchar(&empty, "/dev/stdout", 7));
}
