pub mod error;
pub mod text;
pub mod data;
pub mod ui;
pub mod app;
