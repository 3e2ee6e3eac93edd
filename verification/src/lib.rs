//! Rules and data behind the proxy part of a system tray.
//!
//! The crate decides what the tray shows and does. The native menu, the core that measures delays
//! and reports connections, and the tasks in the background belong to the application around it.
pub mod config;
pub mod decimal;
pub mod delay;
pub mod group_test;
pub mod latency;
pub mod menu;
pub mod menu_id;
pub mod menu_laws;
pub mod operations;
pub mod percent;
pub mod proxies;
pub mod speed;
pub mod speed_task;
pub mod style;
pub mod text;
