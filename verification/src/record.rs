//! One loan in the ledger: open until the book comes back, then closed for good.

use vstd::prelude::*;
use crate::error::LibraryError;

verus! {

/// The seconds in one day.
pub const SECONDS_PER_DAY: u64 = 86400;

/// The whole days by which `date` lies after `due_date`; 0 where it does not.
pub open spec fn days_late(due_date: u64, date: u64) -> nat {
    if date > due_date {
        ((date - due_date) / 86400) as nat
    } else {
        0
    }
}

/// One loan of one book to one patron. Dates are seconds since the epoch,
/// the fine is in cents.
#[derive(Debug, Clone)]
pub struct BorrowRecord {
    pub patron_id: u32,
    pub isbn: String,
    pub borrow_date: u64,
    pub due_date: u64,
    pub return_date: Option<u64>,
    pub fine_amount: u64,
}

impl BorrowRecord {
    /// The book has not come back yet.
    pub open spec fn is_open(&self) -> bool {
        self.return_date.is_none()
    }

    /// The loan is open and `current_date` lies after the due date.
    pub open spec fn overdue_at(&self, current_date: u64) -> bool {
        self.is_open() && current_date > self.due_date
    }

    /// The fine in cents that falls due at `current_date`: the daily rate for
    /// each whole day after the due date, and nothing on a loan that is not
    /// overdue.
    pub open spec fn fine_at(&self, current_date: u64, daily_fine_rate: u16) -> nat {
        if self.overdue_at(current_date) {
            days_late(self.due_date, current_date) * (daily_fine_rate as nat)
        } else {
            0
        }
    }

    /// A new open loan, due `loan_period_days` days after `borrow_date`.
    pub fn new(patron_id: u32, isbn: String, borrow_date: u64, loan_period_days: u32) -> (record:
        BorrowRecord)
        requires
            borrow_date + loan_period_days * 86400 <= u64::MAX,
        ensures
            record == (BorrowRecord {
                patron_id,
                isbn,
                borrow_date,
                due_date: (borrow_date + loan_period_days * 86400) as u64,
                return_date: None,
                fine_amount: 0,
            }),
    {
        let period: u64 = loan_period_days as u64 * SECONDS_PER_DAY;
        BorrowRecord {
            patron_id,
            isbn,
            borrow_date,
            due_date: borrow_date + period,
            return_date: None,
            fine_amount: 0,
        }
    }

    /// Whether the loan is open and past its due date at `current_date`.
    pub fn is_overdue(&self, current_date: u64) -> (r: bool)
        ensures
            r == self.overdue_at(current_date),
    {
        self.return_date.is_none() && current_date > self.due_date
    }

    /// The fine in cents at `current_date`, at `daily_fine_rate` cents a day.
    pub fn calculate_fine(&self, current_date: u64, daily_fine_rate: u16) -> (fine: u64)
        ensures
            fine == self.fine_at(current_date, daily_fine_rate),
    {
        if self.is_overdue(current_date) {
            let days: u64 = (current_date - self.due_date) / SECONDS_PER_DAY;
            assert(days * daily_fine_rate <= u64::MAX) by (nonlinear_arith)
                requires
                    days <= 213503982334601,
                    daily_fine_rate <= 65535,
            ;
            days * (daily_fine_rate as u64)
        } else {
            0
        }
    }

    /// Closes the loan at `return_date` and fixes its fine as of that moment.
    /// A loan that is already closed is left as it is.
    pub fn mark_returned(&mut self, return_date: u64, daily_fine_rate: u16) -> (r: Result<
        (),
        LibraryError,
    >)
        ensures
            !old(self).is_open() ==> r == Err::<(), LibraryError>(
                LibraryError::InternalInconsistency,
            ) && *final(self) == *old(self),
            old(self).is_open() ==> r.is_ok() && *final(self) == (BorrowRecord {
                return_date: Some(return_date),
                fine_amount: old(self).fine_at(return_date, daily_fine_rate) as u64,
                ..*old(self)
            }),
    {
        if self.return_date.is_some() {
            return Err(LibraryError::InternalInconsistency);
        }
        let fine: u64 = self.calculate_fine(return_date, daily_fine_rate);
        self.return_date = Some(return_date);
        self.fine_amount = fine;
        Ok(())
    }
}

/// A loan that comes back on or before its due date costs nothing.
pub proof fn lemma_no_fine_when_on_time(record: BorrowRecord, date: u64, daily_fine_rate: u16)
    requires
        date <= record.due_date,
    ensures
        record.fine_at(date, daily_fine_rate) == 0,
{
}

/// The fine on a loan never shrinks as the days go by, nor do the days late.
pub proof fn lemma_fine_monotonic(
    record: BorrowRecord,
    earlier: u64,
    later: u64,
    daily_fine_rate: u16,
)
    requires
        earlier <= later,
    ensures
        record.fine_at(earlier, daily_fine_rate) <= record.fine_at(later, daily_fine_rate),
        days_late(record.due_date, earlier) <= days_late(record.due_date, later),
{
    let a = days_late(record.due_date, earlier);
    let b = days_late(record.due_date, later);
    if earlier > record.due_date {
        assert((earlier - record.due_date) / 86400 <= (later - record.due_date) / 86400)
            by (nonlinear_arith)
            requires
                0 <= earlier - record.due_date <= later - record.due_date,
        ;
    }
    assert(a <= b);
    assert(a * (daily_fine_rate as nat) <= b * (daily_fine_rate as nat)) by (nonlinear_arith)
        requires
            a <= b,
    ;
}

} // verus!
