pub mod dmabuf;
pub mod mesa_drm;
pub mod wl;
pub mod xdg;
