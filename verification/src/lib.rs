//! The logic of a countdown timer for the terminal: splitting a time into
//! days, hours, minutes, seconds and milliseconds, putting it out as a
//! terminal redraw, a file line or JSON, reading timestamps, and the
//! decisions of the countdown and of its waits.

pub mod text;
pub mod json;
pub mod clock;
pub mod display;
pub mod timestamp;
pub mod countdown;
pub mod roundtrip;

pub use json::produce_json;
