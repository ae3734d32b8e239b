pub mod decimal;
pub mod field_element;
pub mod field_laws;
pub mod modular;
pub mod number_theory;
pub mod point;
pub mod residue;
