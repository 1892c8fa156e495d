pub mod data;
pub mod uniform;
