pub mod alu_item;
pub mod checks;
