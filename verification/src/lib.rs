//! Core logic of a lightweight terminal dashboard: the event bus, layout and
//! plugin bindings, panel view models, text fitting, and the parsers and
//! renderers behind each panel.

pub mod bus;
pub mod clock;
pub mod dns;
pub mod file_nav;
pub mod layout;
pub mod lifecycle;
pub mod procfs;
pub mod pty;
pub mod manager;
pub mod manifest;
pub mod metrics;
pub mod order;
pub mod ring;
pub mod runtime;
pub mod screen;
pub mod text;
