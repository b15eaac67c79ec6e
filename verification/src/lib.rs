//! The verified core of a MIDI monitor: the mapping between MIDI controller
//! numbers and the monitor's lanes, per-channel note tracking, the bounded
//! per-controller histories the display reads, and a triple buffer that hands
//! messages from a writer to a reader in order.

pub mod midi;
pub mod cc_mon;
pub mod plugin;
pub mod comm_channel;
