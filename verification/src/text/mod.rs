pub mod decimal;
pub mod truncate;
