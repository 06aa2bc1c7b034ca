//! Real-time accounting of what a meeting costs.
//!
//! The cost of a meeting follows from who attends it, what each attendee
//! earns per year and how long the meeting has been running.  This crate holds
//! the accounting engine, with every function under a contract that Verus
//! proves:
//!
//! - [`model`]: the validated salary category, and lists of categories;
//! - [`meeting`]: the meeting with its roster of attendees, its timer and its
//!   cost;
//! - [`snapshot`]: the roster as an attendee list, to be saved and restored;
//! - [`storage`]: categories and attendee lists as TOML documents;
//! - [`input`]: what a user types for a category or a count;
//! - [`console`]: what a key does in each mode of the interactive program;
//! - [`timefmt`]: durations as clock text;
//! - [`lines`]: the lines of text that the program shows.
//!
//! Two modules state what is taken on trust of the code this crate calls:
//! [`clock`] for the standard library's clock and durations, [`document`] for
//! the `toml` crate.
//!
//! Reading the clock is the only thing here that depends on anything but the
//! arguments.  Every operation that reads it has a twin that takes the reading
//! as an argument, such as [`Meeting::stop_after`] beside [`Meeting::stop`].
//! Files are left to the caller: [`load_categories`] takes the content of a
//! file and [`save_categories`] returns it.

pub mod clock;
pub mod console;
pub mod document;
pub mod input;
pub mod lines;
pub mod meeting;
pub mod model;
pub mod snapshot;
pub mod storage;
pub mod timefmt;

pub use meeting::Meeting;
pub use model::{EmployeeCategory, EmployeeCategoryError, MILLIS_PER_WORK_YEAR};
pub use storage::{
    load_attendees, load_categories, save_attendees, save_categories, AttendeeInfo, StorageError,
};
pub use timefmt::format_duration;
