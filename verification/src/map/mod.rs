pub mod generation;
pub mod map;
pub mod table;
