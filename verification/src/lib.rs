//! Host functions that let a Go program compiled to WebAssembly run inside a
//! deterministic interpreter: the value codec, the object arena, the virtual
//! clock and random stream, the timers, and the bridge calls built on them.

pub mod number;
pub mod value;
pub mod pool;
pub mod clock;
pub mod rng;
pub mod timers;
pub mod names;
pub mod host;
pub mod bridge;
pub mod call;
