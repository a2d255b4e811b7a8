//! A double-entry accounting ledger core.
//!
//! The library stores accounts, journals and immutable entries, expands
//! parameterized transaction templates into balanced transactions, posts them
//! atomically, maintains per-(journal, account, currency) running balances
//! across settlement layers, and emits an ordered change record for every
//! mutation.  Pagination over the stored collections uses opaque cursor
//! tokens.

pub mod cursor;
pub mod decimal;
pub mod expand;
pub mod laws;
pub mod ledger;
pub mod expr;
pub mod parse;
pub mod template;
pub mod params;
pub mod types;

use vstd::prelude::*;

verus! {

} // verus!
