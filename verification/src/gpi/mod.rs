pub mod errors;
pub mod logic_array;
pub mod value;
pub mod vector;
