pub mod apps;
pub mod console;
pub mod guest_memory;
pub mod hydro_std;
pub mod inode;
pub mod kernel;
pub mod qemu;
pub mod random;
pub mod seq_facts;
pub mod wasm;

pub use console::{get_current_byte_in_stdin, reset_allowed_backspaces, set_current_byte_in_stdin};
pub use qemu::QemuExitCode;
