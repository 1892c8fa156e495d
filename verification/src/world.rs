pub mod swap_buffer;
pub mod update;
pub mod world;
