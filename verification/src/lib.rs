//! Conversion and comparison of bank transaction records between the
//! YPBankCsv, YPBankText and YPBankBin formats.
//!
//! Every format is read into a list of [`Transaction`]s and written from one; the
//! [`converter`] chooses a format by name and the [`comparer`] tells whether two sources
//! hold the same transactions.

pub mod byte_lines;
pub mod comparer;
pub mod converter;
pub mod endian;
pub mod error;
pub mod fields;
pub mod formats;
pub mod helpers;
pub mod strings;
pub mod text;
pub mod transaction;
pub mod warning;

pub use comparer::compare;
pub use converter::Format;
pub use error::ReadError;
pub use helpers::parse_u64;
pub use transaction::{StatusType, Transaction, TransactionType};
pub use warning::Warning;
