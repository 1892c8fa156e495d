pub mod tile;
pub mod uniform;
