//! The verified core of a small messaging bot: a long-polling update cursor,
//! a registry of known recipients, a halving-backoff notification scheduler,
//! an echo relay with a failure-tolerant outbound dispatcher, the JSON wire
//! codec of the remote messaging API, and the calendar rules the scheduled
//! notifications come from. Transport, clocks and channels live outside; every
//! decision and every byte of the wire format is specified and proved here.

pub mod calendar;
pub mod codec;
pub mod cursor;
pub mod json;
pub mod registry;
pub mod relay;
pub mod scheduler;
pub mod telegram;
