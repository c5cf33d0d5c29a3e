//! What the library does, said of its inputs and results: relations in plain
//! numbers and fields that hold whatever way a result is computed.

pub mod popover;
pub mod nodes;
pub mod history;
pub mod sums;
pub mod pings;
pub mod writing;
pub mod settings;
pub mod places;
pub mod flows;


