pub mod text;
pub mod strmap;
pub mod model;
pub mod sorting;
pub mod discovery;
pub mod bragi;
pub mod input;
pub mod rgb;
