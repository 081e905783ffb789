//! Closed-loop fan-speed control: a hysteresis state machine driving a PWM
//! duty cycle from temperature samples, an event bridge that coalesces
//! asynchronous signal deliveries into a 64-bit pending mask, and the pure
//! decoding helpers for the sensor and configuration boundary data.
//!
//! All temperatures are carried in millikelvin (`u32`), so that the sentinel
//! "unreachably low" previous reading is simply `0` (absolute zero) and all
//! arithmetic stays non-negative. Duty cycles are carried in per-mille of the
//! PWM period (`u32`, a fraction of [`control::DUTY_SCALE`]).

pub mod control;
pub mod ini;
pub mod sensor;
pub mod signal;
