//! Moving around the buffer: motions, jump and change lists, search, and what
//! lies under the cursor.

pub mod block_labels;
pub mod cursor;
pub mod export;
pub mod lists;
pub mod motions;
pub mod open;
pub mod quick_select;
pub mod readers;
pub mod reading;
pub mod search;
pub mod swoop;
pub mod vim;
