//! Reverse-mode automatic differentiation over exact rational scalars,
//! together with the strided tensor storage layer that backs tensor-valued
//! nodes: shape/stride addressing, matrices with matmul and transpose, a
//! forward-mode variable that records per-operand sensitivities, and a
//! graph engine whose backward traversal accumulates gradients by the
//! chain rule.

pub mod common_ops;
pub mod differentiable;
pub mod errors;
pub mod graph;
pub mod math_ops;
pub mod matrix;
pub mod oracle;
pub mod rng;
pub mod scalar;
pub mod tensor;
pub mod variable;
pub mod vector;
