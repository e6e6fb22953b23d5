pub mod memory;
pub mod text_based_interface;
