pub mod client;
pub mod collections;
pub mod commit_laws;
pub mod compositor;
pub mod error;
pub mod event;
pub mod frame_dispatcher;
pub mod inbox;
pub mod message;
pub mod panel_item_provider;
pub mod panel_item_ui;
pub mod plugin;
pub mod presentation;
pub mod protocols;
pub mod scene;
pub mod service_laws;
pub mod signal_on_drop;
pub mod socket;
pub mod socket_finder;
pub mod surface_laws;
pub mod surface_requests;
pub mod text;
pub mod types;
pub mod vulkan_ctx;
pub mod window_laws;
