pub mod bridge;
pub mod locator;
pub mod path;
pub mod text;
pub mod wire;
