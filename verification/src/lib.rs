//! The verified core of the OpenWidGet desktop widget runtime: Anchor Shortcut
//! planning and lifecycle receipts, desktop icon-grid geometry, and the
//! reconciliation of observed anchors with their target slots.
pub mod anchor_shortcuts;
pub mod app_status;
pub mod desktop_grid;
pub mod laws;
pub mod text;
