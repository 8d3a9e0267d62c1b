pub mod backend;
pub mod custody;
pub mod laws;
pub mod popup;
pub mod request_laws;
pub mod surface;
pub mod toplevel;
