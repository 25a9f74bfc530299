//! Dense matrix and vector containers over a flat buffer, with a choice of
//! storage order, bounds-checked access, eager transpose and strided views.

pub mod error;
pub mod scalar;
pub mod data_struct;
pub mod vector_data;
pub mod slice;
pub mod util;
