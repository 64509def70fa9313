//! What the library promises of each operation, from what goes in to what
//! comes out.

pub mod drawing;
pub mod embedding;
pub mod gpus;
pub mod line;
pub mod reading;
pub mod rows;
pub mod server;
pub mod settings;
pub mod slots;
pub mod window;
pub mod words;
