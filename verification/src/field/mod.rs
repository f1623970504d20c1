pub mod constants;
pub mod modmath;
pub mod goldilocks;
pub mod laws;
pub mod prime_field;
pub mod fermat;
