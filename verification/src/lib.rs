//! Verified control and command logic of a small bench power supply:
//! decimal and command parsing for the web interface, the websocket
//! event decisions, batching of measurement samples for streaming, and
//! the perturb-and-observe state of the maximum power point tracker.

pub mod decimal;
pub mod command;
pub mod batch;
pub mod mppt;
pub mod ws;
