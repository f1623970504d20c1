pub mod comparison;
pub mod oath_tiers;
pub mod scaling;
