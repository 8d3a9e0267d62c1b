pub mod buffer;
pub mod data_device;
pub mod keyboard;
pub mod keyboard_laws;
pub mod laws;
pub mod output;
pub mod shm;
pub mod shm_buffer_backing;
pub mod surface;
pub mod surface_state;
pub mod timeline;
