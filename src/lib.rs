//! Software-defined keyboard layers: a tap-hold state machine that decides,
//! event by event, whether a key event is passed, dropped, rewritten or
//! held back for a later replay.

pub mod event_stream;
pub mod hardcoded_processor;
pub mod keycodes;
pub mod layer_laws;
pub mod stats_processor;

pub use event_stream::{Decision, EventProcessor, EventStream, EventType, KeyEvent};
pub use hardcoded_processor::HardcodedProcessor;
pub use stats_processor::StatsProcessor;
