pub mod number_sum;
pub mod personal;
pub mod root;
pub mod shared;
