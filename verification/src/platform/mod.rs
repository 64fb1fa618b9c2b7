//! What the program decides around the operating system: the tray menu, the
//! modifier keys, the keys that are pressed for the user, and the window.

pub mod keys;
pub mod modifier_watcher;
pub mod startup;
pub mod tray;
pub mod window;

pub use modifier_watcher::ModifierState;
pub use tray::init_tray;
pub use tray::update_tray_config;
pub use tray::update_tray_model;
pub use tray::update_tray_probe;
pub use tray::update_tray_requests;
pub use tray::update_tray_telemetry;
pub use tray::TrayAction;
pub use tray::TrayModel;
