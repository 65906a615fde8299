pub mod tokens;
pub mod test_attr;
pub mod component_derive;
pub mod expand;
