//! Options portfolio library: CSV import of broker lots, lot matching,
//! realised gains, scenario trades and tax-profile aggregation.

use vstd::prelude::*;

pub mod tax;
pub mod text;
pub mod money;
pub mod calendar;
pub mod import;
pub mod clock;
pub mod option;
pub mod lots;
pub mod lot_laws;
pub mod position;
pub mod realized;
pub mod keys;
pub mod scenario;
pub mod evaluation;
pub mod coverage;
pub mod market;
pub mod api;
pub mod glossary;
pub mod format;
pub mod revisions;
pub mod parcels;
pub mod laws;
pub mod forms;
pub mod combo;

verus! {
} // verus!
