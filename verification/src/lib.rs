//! Verified core of a terminal system monitor: sample history, text
//! formatting, snapshot building, key navigation, effect scheduling and
//! screen layout.

pub mod ring;
pub mod history;
pub mod text;
pub mod snapshot;
pub mod top;
pub mod join;
pub mod bluetooth;
pub mod cache;
pub mod nav;
pub mod pulse;
pub mod layout;
