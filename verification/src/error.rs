//! The conditions under which a circulation operation is refused.

use vstd::prelude::*;

verus! {

/// Why an operation was refused. Every refusal leaves the state untouched.
#[derive(Debug, Clone, Copy, PartialEq, Eq, Structural)]
pub enum LibraryError {
    /// The catalog already holds a book with this ISBN.
    DuplicateISBN,
    /// The catalog holds no book with this ISBN.
    BookNotFound,
    /// A copy was asked of a book that has none on the shelf.
    NoCopiesAvailable,
    /// A copy was handed back to a book whose copies are all on the shelf.
    AllCopiesPresent,
    /// The book is in the catalog, but no copy is on the shelf.
    BookUnavailable,
    /// The roster holds no patron with this id.
    PatronNotFound,
    /// The patron is inactive, holds too many books or owes too much.
    PatronCannotBorrow,
    /// The ledger holds no open loan of this book to this patron.
    NoActiveLoan,
    /// Ledger, roster and catalog disagree, or a loan was closed twice.
    InternalInconsistency,
}

} // verus!
