pub mod text;
pub mod rounding;
pub mod models;
pub mod output;
pub mod headings;
pub mod collectors;
pub mod session;
