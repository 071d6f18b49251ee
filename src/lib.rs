//! Spaced-repetition scheduling: review outcomes, the integer part of a card's
//! review schedule, and the parser for flashcard files.

pub mod card;
pub mod review;
pub mod schedule;
pub mod text;

pub use card::{
    content_to_card, find_cloze_ranges, is_markdown, is_md_extension, validate_file_can_be_card,
    Card, CardContent, CardError,
};
pub use review::ReviewStatus;
pub use schedule::{
    add_days, clamp_interval, elapsed_seconds, schedule_review, Schedule, Timestamp,
    MAX_INTERVAL_DAYS, MIN_INTERVAL_DAYS, SECONDS_PER_DAY,
};
pub use text::{strip_tag, trim_line};
