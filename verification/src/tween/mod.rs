pub mod lerp;
pub mod repr;
pub mod value;
