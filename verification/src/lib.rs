//! Decoder for the whitespace-aligned tabular output of the system `ps`
//! command.
//!
//! The first line of `ps` output is a header naming each column; the width of
//! a column depends on the widest value printed in it, numeric columns are
//! right-aligned, and the last column may overflow its nominal width.  This
//! crate scans the header to recover the column boundaries, then slices every
//! following line at those boundaries and converts each slice into a typed
//! value, producing one [`Process`] record per line.
//!
//! Running the external command and capturing its output is left to the
//! caller; the library is a pure function from raw text to records.

pub mod default;
pub mod duration;
pub mod error;
pub mod field;
pub mod header;
pub mod manager;
pub mod num;
pub mod process;
pub mod text;

pub use process::get_pid_by_port;
pub use process::ListOpts;
pub use process::Process;
