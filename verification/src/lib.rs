//! The logic of a remote desktop server that streams an X display, or single windows of it, to a
//! browser.
//!
//! - What clients send and what it leads to: [`input`], [`injection`], [`keycodes`], [`control`],
//!   [`session`].
//! - What clients are sent: [`frames`], [`streams`], [`coherence`].
//! - The windows of the display: [`window_monitor`], [`description`], [`tracking`],
//!   [`window_pipeline`].
//! - The display and its capture: [`config`], [`display`], [`pipeline`].
//! - Who may connect, and where: [`auth`], [`payload`], [`certificate`], [`http`].
//! - What the others build on: [`wire`], [`text`], [`decimal`], [`base64`].
//!
//! Nothing here does I/O. Where the server has to act, functions give the steps to take, or take
//! what came of them.

use vstd::prelude::*;

pub mod auth;
pub mod base64;
pub mod certificate;
pub mod coherence;
pub mod config;
pub mod control;
pub mod decimal;
pub mod description;
pub mod display;
pub mod frames;
pub mod http;
pub mod injection;
pub mod input;
pub mod keycodes;
pub mod payload;
pub mod pipeline;
pub mod session;
pub mod streams;
pub mod text;
pub mod tracking;
pub mod window_monitor;
pub mod window_pipeline;
pub mod wire;

pub use config::{Config, EncoderType};
pub use input::{estimate_event_length, parse_input_event, InputEvent};

verus! {

} // verus!
