pub mod keyboard;
pub mod wasm;
