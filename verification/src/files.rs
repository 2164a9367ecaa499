pub mod format;
pub mod loader;
pub mod saver;
pub mod seal;
pub mod scene;
