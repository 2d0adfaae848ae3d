//! Export of directory entries to LDIF, JSON, CSV and spreadsheet tables,
//! with attribute selection and case-insensitive attribute lookup, and the
//! decision logic of the profile dialogs.

pub mod attrs;
pub mod csv;
pub mod dialog;
pub mod entry;
pub mod export;
pub mod json;
pub mod layout_bar;
pub mod ldif;
pub mod util;
