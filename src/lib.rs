//! A countdown timer driven by a frame clock: a minutes entry starts it, each
//! frame's tick counts it down, and once it runs out it flashes until dismissed.

pub mod clock_text;
pub mod minutes;
pub mod timer;

pub use clock_text::format_time;
pub use minutes::{parse_minutes, StartError};
pub use timer::{TimerApp, TimerState, FLASH_INTERVAL_MS, MS_PER_SEC};
