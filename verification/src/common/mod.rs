pub mod clock;
pub mod config;
pub mod decimal;
pub mod error;
pub mod text;
pub mod txt;
