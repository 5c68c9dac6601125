pub mod chord;
pub mod event;
pub mod laws;
pub mod timeline;
