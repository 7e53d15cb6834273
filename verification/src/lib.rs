//! In-memory clipboard history.
//!
//! The library holds the logic of a clipboard-history utility: the event
//! type produced when the OS clipboard changes, the deduplicating history
//! store shared between a listener thread and the render loop, the
//! listener's shutdown protocol, the visibility / always-on-top state
//! machine driven by tray clicks and a global hotkey, and the timestamp
//! formatting used by the logger. Everything that touches the OS — the
//! clipboard, the window, the tray icon, the key poller — lives outside,
//! hands the library plain values and carries out the window commands the
//! library returns.

pub mod change;
pub mod clip;
pub mod frame;
pub mod history;
pub mod listener;
pub mod timefmt;
pub mod window;

pub use clip::Clip;
pub use clip::ClipView;
pub use history::History;
