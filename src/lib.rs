//! Recording and reviewing medicine doses: the entry defaults, the time
//! window of a listing, its chronological order and the per-medicine totals.

mod civil;
mod clock;
mod entry;
mod report;

pub use civil::{Stamp, TimeOfDay};
pub use entry::{add_entry, entry_from_input, new_entry, DoseEntry};
pub use report::{build_report, list_entries, dosage_label, dosage_totals, select_entries, window_entries, ListMode, Report, Row, Total};
