pub mod activation_ops;
pub mod array_ops;
pub mod math_ops;
