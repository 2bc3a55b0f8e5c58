//! A circulation desk for a small lending library: a catalog of books with
//! copy counts, a roster of patrons with borrowing limits and fines, and a
//! ledger of loans with due dates and overdue fines.
//!
//! Money is counted in whole cents and time in seconds since the epoch, so
//! that every rule is a statement about integers.

pub mod book;
pub mod consistency;
pub mod error;
pub mod library;
pub mod patron;
pub mod record;
pub mod text;

use vstd::prelude::*;

verus! {

/// A clock that stands still at the first second of 2022 (UTC), for
/// demonstrations that must give the same dates on every run.
pub fn get_current_timestamp() -> (t: u64)
    ensures
        t == 1640995200,
{
    1640995200
}

} // verus!
