//! The desk itself: it owns catalog, roster and ledger, and runs the borrow
//! and return protocols over them. Each operation checks everything first and
//! changes state only when nothing stands in the way.

use vstd::prelude::*;
use crate::book::Book;
use crate::error::LibraryError;
use crate::patron::{first_index, lemma_first_index_unique, without_first, Patron};
use crate::record::BorrowRecord;
use crate::text::lowered_chars;

verus! {

/// The days a book may be kept.
pub const LOAN_PERIOD_DAYS: u32 = 14;

/// The seconds a book may be kept.
pub const LOAN_PERIOD_SECONDS: u64 = 1209600;

/// The fine for each whole day late, in cents.
pub const DAILY_FINE_RATE_CENTS: u16 = 25;

/// What a patron is told on borrowing.
#[derive(Debug, Clone)]
pub struct LoanReceipt {
    pub title: String,
    pub due_date: u64,
}

/// What a patron is told on bringing a book back. The fine is in cents.
#[derive(Debug, Clone)]
pub struct ReturnReceipt {
    pub title: String,
    pub fine_charged: u64,
}

/// The figures of the library at one moment. Money is in cents.
#[derive(Debug, Clone, Copy, PartialEq, Eq)]
pub struct Report {
    pub total_books: usize,
    pub total_copies: u128,
    pub copies_on_loan: u128,
    pub total_patrons: usize,
    pub active_patrons: usize,
    pub total_fines: u128,
    pub overdue_loans: usize,
}

/// The sum of the numbers of `s`.
pub open spec fn sum(s: Seq<nat>) -> nat
    decreases s.len(),
{
    if s.len() == 0 {
        0
    } else {
        sum(s.drop_last()) + s.last()
    }
}

/// Catalog, roster and ledger of one library. Books stand in the order in
/// which they were added; the patron with id `n` is the `n`-th of the roster;
/// the ledger is in order of borrowing and only ever grows.
#[derive(Debug)]
pub struct Library {
    pub name: String,
    pub books: Vec<Book>,
    pub patrons: Vec<Patron>,
    pub borrow_records: Vec<BorrowRecord>,
    pub next_patron_id: u32,
}

impl Library {
    /// Every book keeps its copy count in bounds, no ISBN occurs twice, and
    /// patron ids run from 1 upwards with the next one free.
    pub open spec fn wf(&self) -> bool {
        &&& forall|i: int| 0 <= i < self.books@.len() ==> (#[trigger] self.books@[i]).wf()
        &&& forall|i: int, j: int|
            0 <= i < j < self.books@.len() ==> (#[trigger] self.books@[i]).isbn@ != (
            #[trigger] self.books@[j]).isbn@
        &&& forall|i: int|
            0 <= i < self.patrons@.len() ==> (#[trigger] self.patrons@[i]).id == i + 1
        &&& self.next_patron_id == self.patrons@.len() + 1
    }

    /// The catalog holds a book with this ISBN.
    pub open spec fn has_book(&self, isbn: Seq<char>) -> bool {
        exists|i: int| 0 <= i < self.books@.len() && (#[trigger] self.books@[i]).isbn@ == isbn
    }

    /// The place in the catalog of the book with this ISBN, where there is one.
    pub open spec fn book_index(&self, isbn: Seq<char>) -> int {
        choose|i: int| 0 <= i < self.books@.len() && (#[trigger] self.books@[i]).isbn@ == isbn
    }

    /// The roster holds a patron with this id.
    pub open spec fn has_patron(&self, patron_id: u32) -> bool {
        1 <= patron_id <= self.patrons@.len()
    }

    /// The `k`-th loan of the ledger is an open loan of this book to this patron.
    pub open spec fn is_open_loan(&self, patron_id: u32, isbn: Seq<char>, k: int) -> bool {
        &&& 0 <= k < self.borrow_records@.len()
        &&& self.borrow_records@[k].patron_id == patron_id
        &&& self.borrow_records@[k].isbn@ == isbn
        &&& self.borrow_records@[k].is_open()
    }

    /// The ledger holds an open loan of this book to this patron.
    pub open spec fn has_open_loan(&self, patron_id: u32, isbn: Seq<char>) -> bool {
        exists|k: int| self.is_open_loan(patron_id, isbn, k)
    }

    /// The `k`-th loan is the most recent open loan of this book to this patron.
    pub open spec fn is_latest_open_loan(&self, patron_id: u32, isbn: Seq<char>, k: int) -> bool {
        &&& self.is_open_loan(patron_id, isbn, k)
        &&& forall|j: int| k < j ==> !self.is_open_loan(patron_id, isbn, j)
    }

    /// The place in the ledger of the most recent open loan of this book to
    /// this patron, where there is one.
    pub open spec fn latest_open_loan(&self, patron_id: u32, isbn: Seq<char>) -> int {
        choose|k: int| self.is_latest_open_loan(patron_id, isbn, k)
    }

    /// Why a request to borrow is refused; `None` where it is granted. The
    /// patron is looked at before the book.
    pub open spec fn borrow_refusal(&self, patron_id: u32, isbn: Seq<char>) -> Option<
        LibraryError,
    > {
        if !self.has_patron(patron_id) {
            Some(LibraryError::PatronNotFound)
        } else if !self.patrons@[patron_id - 1].eligible() {
            Some(LibraryError::PatronCannotBorrow)
        } else if !self.has_book(isbn) {
            Some(LibraryError::BookNotFound)
        } else if self.books@[self.book_index(isbn)].available_copies == 0 {
            Some(LibraryError::BookUnavailable)
        } else {
            None
        }
    }

    /// The state after a granted request to borrow, at time `now`: one copy
    /// fewer on the shelf, the ISBN added to the books the patron holds, and a
    /// new open loan at the end of the ledger.
    pub open spec fn borrowed(
        pre: Library,
        post: Library,
        patron_id: u32,
        isbn: Seq<char>,
        now: u64,
    ) -> bool {
        let b = pre.book_index(isbn);
        let p = patron_id - 1;
        let loan = post.borrow_records@.last();
        &&& post.name == pre.name
        &&& post.next_patron_id == pre.next_patron_id
        &&& post.books@ == pre.books@.update(
            b,
            pre.books@[b].with_available(pre.books@[b].available_copies - 1),
        )
        &&& post.patrons@ == pre.patrons@.update(p, post.patrons@[p])
        &&& post.patrons@[p] == (Patron {
            borrowed_books: post.patrons@[p].borrowed_books,
            ..pre.patrons@[p]
        })
        &&& post.patrons@[p].held() == pre.patrons@[p].held().push(isbn)
        &&& post.borrow_records@.len() == pre.borrow_records@.len() + 1
        &&& post.borrow_records@.drop_last() == pre.borrow_records@
        &&& loan == (BorrowRecord {
            patron_id,
            isbn: loan.isbn,
            borrow_date: now,
            due_date: (now + LOAN_PERIOD_SECONDS) as u64,
            return_date: None,
            fine_amount: 0,
        })
        &&& loan.isbn@ == isbn
    }

    /// The fine in cents that a return at `now` would charge on the most
    /// recent open loan of this book to this patron.
    pub open spec fn fine_due(&self, patron_id: u32, isbn: Seq<char>, now: u64) -> nat {
        self.borrow_records@[self.latest_open_loan(patron_id, isbn)].fine_at(
            now,
            DAILY_FINE_RATE_CENTS,
        )
    }

    /// Why a return is refused; `None` where it is accepted. The patron is
    /// looked at first, then the ledger, then the patron's balance and books
    /// held, then the catalog.
    pub open spec fn return_refusal(&self, patron_id: u32, isbn: Seq<char>, now: u64) -> Option<
        LibraryError,
    > {
        if !self.has_patron(patron_id) {
            Some(LibraryError::PatronNotFound)
        } else if !self.has_open_loan(patron_id, isbn) {
            Some(LibraryError::NoActiveLoan)
        } else if self.patrons@[patron_id - 1].fines_owed + self.fine_due(patron_id, isbn, now)
            > u64::MAX {
            Some(LibraryError::InternalInconsistency)
        } else if !self.patrons@[patron_id - 1].held().contains(isbn) {
            Some(LibraryError::InternalInconsistency)
        } else if !self.has_book(isbn) {
            Some(LibraryError::BookNotFound)
        } else if self.books@[self.book_index(isbn)].available_copies >= self.books@[self.book_index(
            isbn,
        )].total_copies {
            Some(LibraryError::AllCopiesPresent)
        } else {
            None
        }
    }

    /// The state after an accepted return at time `now`: the most recent open
    /// loan closed with its fine, the fine added to what the patron owes, the
    /// ISBN struck once from the books held, and one copy more on the shelf.
    pub open spec fn returned(
        pre: Library,
        post: Library,
        patron_id: u32,
        isbn: Seq<char>,
        now: u64,
    ) -> bool {
        let b = pre.book_index(isbn);
        let p = patron_id - 1;
        let k = pre.latest_open_loan(patron_id, isbn);
        let fine = pre.fine_due(patron_id, isbn, now);
        &&& post.name == pre.name
        &&& post.next_patron_id == pre.next_patron_id
        &&& post.books@ == pre.books@.update(
            b,
            pre.books@[b].with_available(pre.books@[b].available_copies + 1),
        )
        &&& post.patrons@ == pre.patrons@.update(p, post.patrons@[p])
        &&& post.patrons@[p] == (Patron {
            borrowed_books: post.patrons@[p].borrowed_books,
            fines_owed: (pre.patrons@[p].fines_owed + fine) as u64,
            ..pre.patrons@[p]
        })
        &&& post.patrons@[p].held() == without_first(pre.patrons@[p].held(), isbn)
        &&& post.patrons@[p].borrowed_books@ == pre.patrons@[p].borrowed_books@.remove(
            first_index(pre.patrons@[p].held(), isbn),
        )
        &&& post.borrow_records@ == pre.borrow_records@.update(
            k,
            BorrowRecord {
                return_date: Some(now),
                fine_amount: fine as u64,
                ..pre.borrow_records@[k]
            },
        )
    }

    /// Two places of the catalog that hold the same ISBN are one place.
    pub proof fn lemma_book_index(&self, isbn: Seq<char>, i: int)
        requires
            self.wf(),
            0 <= i < self.books@.len(),
            self.books@[i].isbn@ == isbn,
        ensures
            self.has_book(isbn),
            self.book_index(isbn) == i,
    {
        let j = self.book_index(isbn);
        assert(0 <= j < self.books@.len() && self.books@[j].isbn@ == isbn);
        if i < j {
            assert(self.books@[i].isbn@ != self.books@[j].isbn@);
        }
        if j < i {
            assert(self.books@[j].isbn@ != self.books@[i].isbn@);
        }
    }

    /// Only one loan can be the most recent open one.
    pub proof fn lemma_latest_open_loan(&self, patron_id: u32, isbn: Seq<char>, k: int)
        requires
            self.is_latest_open_loan(patron_id, isbn, k),
        ensures
            self.has_open_loan(patron_id, isbn),
            self.latest_open_loan(patron_id, isbn) == k,
    {
        let j = self.latest_open_loan(patron_id, isbn);
        assert(self.is_latest_open_loan(patron_id, isbn, j));
        if k < j {
            assert(!self.is_open_loan(patron_id, isbn, j));
        }
        if j < k {
            assert(!self.is_open_loan(patron_id, isbn, k));
        }
    }

    /// A patron who already holds the most books allowed is refused another,
    /// whatever the book.
    pub proof fn lemma_full_hands_refused(&self, patron_id: u32, isbn: Seq<char>)
        requires
            self.has_patron(patron_id),
            self.patrons@[patron_id - 1].borrowed_books@.len() >= 5,
        ensures
            !self.patrons@[patron_id - 1].eligible(),
            self.borrow_refusal(patron_id, isbn) == Some(LibraryError::PatronCannotBorrow),
    {
    }

    /// A patron who owes fifty dollars or more is refused, whatever the book.
    pub proof fn lemma_debtor_refused(&self, patron_id: u32, isbn: Seq<char>)
        requires
            self.has_patron(patron_id),
            self.patrons@[patron_id - 1].fines_owed >= 5000,
        ensures
            !self.patrons@[patron_id - 1].eligible(),
            self.borrow_refusal(patron_id, isbn) == Some(LibraryError::PatronCannotBorrow),
    {
    }

    /// Lending keeps the library well formed.
    pub proof fn lemma_borrowed_wf(
        pre: Library,
        post: Library,
        patron_id: u32,
        isbn: Seq<char>,
        now: u64,
    )
        requires
            pre.wf(),
            pre.borrow_refusal(patron_id, isbn).is_none(),
            Library::borrowed(pre, post, patron_id, isbn, now),
        ensures
            post.wf(),
            post.has_patron(patron_id),
            post.has_book(isbn),
            post.book_index(isbn) == pre.book_index(isbn),
    {
        let b = pre.book_index(isbn);
        let p = patron_id - 1;
        assert(0 <= b < pre.books@.len() && pre.books@[b].isbn@ == isbn);
        assert(pre.books@[b].wf());
        assert(post.patrons@.len() == pre.patrons@.len());
        assert forall|i: int| 0 <= i < post.patrons@.len() implies (#[trigger] post.patrons@[i]).id
            == i + 1 by {
            assert(pre.patrons@[i].id == i + 1);
        }
        assert forall|i: int| 0 <= i < post.books@.len() implies (#[trigger] post.books@[i]).wf() by {
            assert(pre.books@[i].wf());
        }
        assert forall|i: int, j: int| 0 <= i < j < post.books@.len() implies (
        #[trigger] post.books@[i]).isbn@ != (#[trigger] post.books@[j]).isbn@ by {
            assert(pre.books@[i].isbn@ != pre.books@[j].isbn@);
        }
        post.lemma_book_index(isbn, b);
    }

    /// A book that was just borrowed can be brought back: whenever the
    /// patron returns it, the return is accepted, and the loan it closes is the
    /// one just made.
    pub proof fn lemma_return_after_borrow(
        pre: Library,
        mid: Library,
        patron_id: u32,
        isbn: Seq<char>,
        borrowed_at: u64,
        returned_at: u64,
    )
        requires
            pre.wf(),
            borrowed_at + LOAN_PERIOD_SECONDS <= u64::MAX,
            pre.borrow_refusal(patron_id, isbn).is_none(),
            Library::borrowed(pre, mid, patron_id, isbn, borrowed_at),
        ensures
            mid.return_refusal(patron_id, isbn, returned_at).is_none(),
            mid.latest_open_loan(patron_id, isbn) == mid.borrow_records@.len() - 1,
            mid.book_index(isbn) == pre.book_index(isbn),
    {
        let b = pre.book_index(isbn);
        let p = patron_id - 1;
        let held = pre.patrons@[p].held();
        Library::lemma_borrowed_wf(pre, mid, patron_id, isbn, borrowed_at);
        assert(0 <= b < pre.books@.len() && pre.books@[b].isbn@ == isbn);
        assert(pre.books@[b].wf());
        let k = mid.borrow_records@.len() - 1;
        assert(mid.is_open_loan(patron_id, isbn, k));
        mid.lemma_latest_open_loan(patron_id, isbn, k);
        assert(mid.fine_due(patron_id, isbn, returned_at) <= 213503982334601 * 25) by {
            let due = mid.borrow_records@[k].due_date;
            if returned_at > due {
                assert((returned_at - due) / 86400 <= 213503982334601);
                assert(((returned_at - due) / 86400) * 25 <= 213503982334601 * 25);
            }
        }
        assert(mid.patrons@[p].held()[held.len() as int] == isbn);
        assert(mid.patrons@[p].held().contains(isbn));
    }

    /// A book that is borrowed and then brought back leaves the catalog as it
    /// was, with as many copies on the shelf as before. The patron holds what
    /// was held before with the ISBN added at the end and its first occurrence
    /// struck: where the patron did not hold the ISBN before, exactly the
    /// books held before.
    pub proof fn lemma_borrow_then_return(
        pre: Library,
        mid: Library,
        post: Library,
        patron_id: u32,
        isbn: Seq<char>,
        borrowed_at: u64,
        returned_at: u64,
    )
        requires
            pre.wf(),
            borrowed_at + LOAN_PERIOD_SECONDS <= u64::MAX,
            pre.borrow_refusal(patron_id, isbn).is_none(),
            Library::borrowed(pre, mid, patron_id, isbn, borrowed_at),
            Library::returned(mid, post, patron_id, isbn, returned_at),
        ensures
            post.books@ == pre.books@,
            post.patrons@[patron_id - 1].held() == without_first(
                pre.patrons@[patron_id - 1].held().push(isbn),
                isbn,
            ),
            !pre.patrons@[patron_id - 1].held().contains(isbn) ==> post.patrons@[patron_id
                - 1].held() == pre.patrons@[patron_id - 1].held(),
    {
        let b = pre.book_index(isbn);
        let held = pre.patrons@[patron_id - 1].held();
        Library::lemma_return_after_borrow(pre, mid, patron_id, isbn, borrowed_at, returned_at);
        assert(0 <= b < pre.books@.len() && pre.books@[b].isbn@ == isbn);
        assert(post.books@ =~= pre.books@);
        if !held.contains(isbn) {
            let grown = held.push(isbn);
            assert forall|j: int| 0 <= j < held.len() implies grown[j] != isbn by {
                assert(held[j] == grown[j]);
                assert(held.contains(held[j]));
            }
            lemma_first_index_unique(grown, isbn, held.len() as int);
            assert(grown.remove(held.len() as int) =~= held);
        }
    }

    /// An empty library of this name. The first patron will get the id 1.
    pub fn new(name: String) -> (library: Library)
        ensures
            library.name == name,
            library.books@ == Seq::<Book>::empty(),
            library.patrons@ == Seq::<Patron>::empty(),
            library.borrow_records@ == Seq::<BorrowRecord>::empty(),
            library.next_patron_id == 1,
            library.wf(),
            library.consistent(),
    {
        let library = Library {
            name,
            books: Vec::new(),
            patrons: Vec::new(),
            borrow_records: Vec::new(),
            next_patron_id: 1,
        };
        proof {
            library.lemma_empty_ledger_consistent();
        }
        library
    }

    /// The place in the catalog of the book with this ISBN, if there is one.
    pub fn find_book(&self, isbn: &str) -> (found: Option<usize>)
        requires
            self.wf(),
        ensures
            found.is_some() == self.has_book(isbn@),
            found.is_some() ==> found.unwrap() == self.book_index(isbn@) && found.unwrap()
                < self.books@.len() && self.books@[found.unwrap() as int].isbn@ == isbn@,
    {
        let key = String::from_str(isbn);
        let n: usize = self.books.len();
        let mut i: usize = 0;
        while i < n
            invariant
                self.wf(),
                n == self.books@.len(),
                i <= n,
                key@ == isbn@,
                forall|j: int| 0 <= j < i ==> (#[trigger] self.books@[j]).isbn@ != isbn@,
            decreases n - i,
        {
            if self.books[i].isbn == key {
                proof {
                    self.lemma_book_index(isbn@, i as int);
                }
                return Some(i);
            }
            i += 1;
        }
        None
    }

    /// The place in the ledger of the most recent open loan of this book to
    /// this patron, if there is one.
    pub fn find_open_loan(&self, patron_id: u32, isbn: &str) -> (found: Option<usize>)
        ensures
            found.is_some() == self.has_open_loan(patron_id, isbn@),
            found.is_some() ==> found.unwrap() == self.latest_open_loan(patron_id, isbn@)
                && self.is_latest_open_loan(patron_id, isbn@, found.unwrap() as int),
    {
        let key = String::from_str(isbn);
        let n: usize = self.borrow_records.len();
        let mut k: usize = n;
        while k > 0
            invariant
                n == self.borrow_records@.len(),
                k <= n,
                key@ == isbn@,
                forall|j: int| k <= j ==> !self.is_open_loan(patron_id, isbn@, j),
            decreases k,
        {
            k -= 1;
            let rec = &self.borrow_records[k];
            if rec.patron_id == patron_id && rec.return_date.is_none() && rec.isbn == key {
                proof {
                    assert(self.is_open_loan(patron_id, isbn@, k as int));
                    self.lemma_latest_open_loan(patron_id, isbn@, k as int);
                }
                return Some(k);
            }
        }
        None
    }

    /// Adds a book to the end of the catalog, unless its ISBN is there already.
    pub fn add_book(&mut self, book: Book) -> (r: Result<(), LibraryError>)
        requires
            old(self).wf(),
            book.wf(),
        ensures
            final(self).wf(),
            old(self).has_book(book.isbn@) ==> r == Err::<(), LibraryError>(
                LibraryError::DuplicateISBN,
            ) && *final(self) == *old(self),
            !old(self).has_book(book.isbn@) ==> r.is_ok() && *final(self) == (Library {
                books: final(self).books,
                ..*old(self)
            }) && final(self).books@ == old(self).books@.push(book),
            old(self).consistent() && book.available_copies == book.total_copies
                ==> final(self).consistent(),
    {
        if self.find_book(book.isbn.as_str()).is_some() {
            return Err(LibraryError::DuplicateISBN);
        }
        self.books.push(book);
        proof {
            assert(self.books@.drop_last() =~= old(self).books@);
            if old(self).consistent() && book.available_copies == book.total_copies {
                Library::lemma_added_consistent(*old(self), *self);
            }
        }
        Ok(())
    }

    /// Enters a new patron in the roster and returns the id given: the next
    /// free one, which is then used up.
    pub fn register_patron(&mut self, name: String, email: String, phone: String) -> (id: u32)
        requires
            old(self).wf(),
            old(self).next_patron_id < u32::MAX,
        ensures
            final(self).wf(),
            id == old(self).next_patron_id,
            final(self).next_patron_id == id + 1,
            final(self).has_patron(id),
            final(self).patrons@.len() == old(self).patrons@.len() + 1,
            final(self).patrons@.drop_last() == old(self).patrons@,
            final(self).patrons@.last().id == id,
            final(self).patrons@.last().name == name,
            final(self).patrons@.last().email == email,
            final(self).patrons@.last().phone == phone,
            final(self).patrons@.last().borrowed_books@ == Seq::<String>::empty(),
            final(self).patrons@.last().fines_owed == 0,
            final(self).patrons@.last().is_active,
            final(self).name == old(self).name,
            final(self).books == old(self).books,
            final(self).borrow_records == old(self).borrow_records,
            old(self).consistent() ==> final(self).consistent(),
    {
        let id: u32 = self.next_patron_id;
        self.patrons.push(Patron::new(id, name, email, phone));
        self.next_patron_id = id + 1;
        proof {
            assert(self.patrons@.drop_last() =~= old(self).patrons@);
            if old(self).consistent() {
                Library::lemma_registered_consistent(*old(self), *self);
            }
        }
        id
    }

    /// Lends a book at time `now`. The request is refused, and nothing
    /// changes, where `borrow_refusal` names a reason; otherwise the state
    /// moves as `borrowed` says and the receipt names the title and the due
    /// date, which is the loan period after `now`.
    pub fn borrow_book(&mut self, patron_id: u32, isbn: &str, now: u64) -> (r: Result<
        LoanReceipt,
        LibraryError,
    >)
        requires
            old(self).wf(),
            now + LOAN_PERIOD_SECONDS <= u64::MAX,
        ensures
            final(self).wf(),
            match old(self).borrow_refusal(patron_id, isbn@) {
                Some(e) => r == Err::<LoanReceipt, LibraryError>(e) && *final(self) == *old(self),
                None => r.is_ok() && Library::borrowed(
                    *old(self),
                    *final(self),
                    patron_id,
                    isbn@,
                    now,
                ) && r.unwrap().title == old(self).books@[old(self).book_index(isbn@)].title
                    && r.unwrap().due_date == now + LOAN_PERIOD_SECONDS,
            },
            old(self).consistent() ==> final(self).consistent(),
    {
        if patron_id == 0 || patron_id as usize > self.patrons.len() {
            return Err(LibraryError::PatronNotFound);
        }
        let p: usize = (patron_id - 1) as usize;
        if !self.patrons[p].can_borrow() {
            return Err(LibraryError::PatronCannotBorrow);
        }
        let b: usize = match self.find_book(isbn) {
            Some(b) => b,
            None => {
                return Err(LibraryError::BookNotFound);
            },
        };
        if !self.books[b].is_available() {
            return Err(LibraryError::BookUnavailable);
        }
        let title = self.books[b].title.clone();
        let _ = self.books[b].borrow_copy();
        let record = BorrowRecord::new(patron_id, String::from_str(isbn), now, LOAN_PERIOD_DAYS);
        let due_date: u64 = record.due_date;
        self.borrow_records.push(record);
        self.patrons[p].add_borrowed_book(String::from_str(isbn));
        proof {
            assert(self.borrow_records@.drop_last() =~= old(self).borrow_records@);
            assert(self.patrons@ =~= old(self).patrons@.update(p as int, self.patrons@[p as int]));
            if old(self).consistent() {
                Library::lemma_borrowed_consistent(*old(self), *self, patron_id, isbn@, now);
            }
        }
        Ok(LoanReceipt { title, due_date })
    }

    /// Takes a book back at time `now`. The return is refused, and nothing
    /// changes, where `return_refusal` names a reason; otherwise the state
    /// moves as `returned` says and the receipt names the title and the fine
    /// charged.
    pub fn return_book(&mut self, patron_id: u32, isbn: &str, now: u64) -> (r: Result<
        ReturnReceipt,
        LibraryError,
    >)
        requires
            old(self).wf(),
        ensures
            final(self).wf(),
            match old(self).return_refusal(patron_id, isbn@, now) {
                Some(e) => r == Err::<ReturnReceipt, LibraryError>(e) && *final(self) == *old(
                    self,
                ),
                None => r.is_ok() && Library::returned(
                    *old(self),
                    *final(self),
                    patron_id,
                    isbn@,
                    now,
                ) && r.unwrap().title == old(self).books@[old(self).book_index(isbn@)].title
                    && r.unwrap().fine_charged == old(self).fine_due(patron_id, isbn@, now),
            },
            old(self).consistent() ==> final(self).consistent(),
    {
        if patron_id == 0 || patron_id as usize > self.patrons.len() {
            return Err(LibraryError::PatronNotFound);
        }
        let p: usize = (patron_id - 1) as usize;
        let k: usize = match self.find_open_loan(patron_id, isbn) {
            Some(k) => k,
            None => {
                return Err(LibraryError::NoActiveLoan);
            },
        };
        let fine: u64 = self.borrow_records[k].calculate_fine(now, DAILY_FINE_RATE_CENTS);
        if fine > u64::MAX - self.patrons[p].fines_owed {
            return Err(LibraryError::InternalInconsistency);
        }
        if !self.patrons[p].holds_book(isbn) {
            return Err(LibraryError::InternalInconsistency);
        }
        let b: usize = match self.find_book(isbn) {
            Some(b) => b,
            None => {
                return Err(LibraryError::BookNotFound);
            },
        };
        if self.books[b].available_copies >= self.books[b].total_copies {
            return Err(LibraryError::AllCopiesPresent);
        }
        let title = self.books[b].title.clone();
        let _ = self.borrow_records[k].mark_returned(now, DAILY_FINE_RATE_CENTS);
        if fine > 0 {
            self.patrons[p].add_fine(fine);
        }
        let _ = self.patrons[p].remove_borrowed_book(isbn);
        let _ = self.books[b].return_copy();
        proof {
            assert(self.patrons@ =~= old(self).patrons@.update(p as int, self.patrons@[p as int]));
            if old(self).consistent() {
                Library::lemma_returned_consistent(*old(self), *self, patron_id, isbn@, now);
            }
        }
        Ok(ReturnReceipt { title, fine_charged: fine })
    }

    /// The books that match the query, in the order of the catalog.
    pub open spec fn matching_books(&self, query: Seq<char>) -> Seq<Book> {
        self.books@.filter(|b: Book| b.matches(query))
    }

    /// The loans that are open and past their due date at `current_date`, in
    /// the order of the ledger.
    pub open spec fn overdue_loans(&self, current_date: u64) -> Seq<BorrowRecord> {
        self.borrow_records@.filter(|r: BorrowRecord| r.overdue_at(current_date))
    }

    /// The figures that a report at `current_date` shows.
    pub open spec fn figures(&self, current_date: u64) -> Report {
        Report {
            total_books: self.books@.len() as usize,
            total_copies: sum(self.books@.map_values(|b: Book| b.total_copies as nat)) as u128,
            copies_on_loan: sum(
                self.books@.map_values(|b: Book| (b.total_copies - b.available_copies) as nat),
            ) as u128,
            total_patrons: self.patrons@.len() as usize,
            active_patrons: self.patrons@.filter(|p: Patron| p.is_active).len() as usize,
            total_fines: sum(self.patrons@.map_values(|p: Patron| p.fines_owed as nat)) as u128,
            overdue_loans: self.overdue_loans(current_date).len() as usize,
        }
    }

    /// Finds the books in whose title, author or ISBN the query occurs,
    /// without regard to case, in the order of the catalog.
    pub fn search_books(&self, query: &str) -> (found: Vec<&Book>)
        ensures
            found@.map_values(|b: &Book| *b) == self.matching_books(query@),
    {
        let lowered = lowered_chars(query);
        let ghost pred = |b: Book| b.matches(query@);
        let mut found: Vec<&Book> = Vec::new();
        let n: usize = self.books.len();
        let mut i: usize = 0;
        proof {
            reveal(Seq::filter);
            assert(found@.map_values(|b: &Book| *b) =~= self.books@.take(0).filter(pred));
        }
        while i < n
            invariant
                n == self.books@.len(),
                i <= n,
                lowered@ == crate::text::lowercase(query@),
                pred == |b: Book| b.matches(query@),
                found@.map_values(|b: &Book| *b) == self.books@.take(i as int).filter(pred),
            decreases n - i,
        {
            let ghost before = found@;
            let book = &self.books[i];
            let hit = book.matches_lowered(&lowered);
            if hit {
                found.push(book);
            }
            proof {
                reveal(Seq::filter);
                let next = self.books@.take(i + 1);
                assert(next.drop_last() =~= self.books@.take(i as int));
                assert(next.last() == self.books@[i as int]);
                assert(pred(self.books@[i as int]) == hit);
                assert(found@.map_values(|b: &Book| *b) =~= next.filter(pred));
            }
            i += 1;
        }
        assert(self.books@.take(n as int) =~= self.books@);
        found
    }

    /// The loans that are overdue at `current_date`, in the order of the
    /// ledger. A loan that was closed is never among them.
    pub fn get_overdue_books(&self, current_date: u64) -> (overdue: Vec<&BorrowRecord>)
        ensures
            overdue@.map_values(|r: &BorrowRecord| *r) == self.overdue_loans(current_date),
    {
        let ghost pred = |r: BorrowRecord| r.overdue_at(current_date);
        let mut overdue: Vec<&BorrowRecord> = Vec::new();
        let n: usize = self.borrow_records.len();
        let mut i: usize = 0;
        proof {
            reveal(Seq::filter);
            assert(overdue@.map_values(|r: &BorrowRecord| *r) =~= self.borrow_records@.take(
                0,
            ).filter(pred));
        }
        while i < n
            invariant
                n == self.borrow_records@.len(),
                i <= n,
                pred == |r: BorrowRecord| r.overdue_at(current_date),
                overdue@.map_values(|r: &BorrowRecord| *r) == self.borrow_records@.take(
                    i as int,
                ).filter(pred),
            decreases n - i,
        {
            let record = &self.borrow_records[i];
            let hit = record.is_overdue(current_date);
            if hit {
                overdue.push(record);
            }
            proof {
                reveal(Seq::filter);
                let next = self.borrow_records@.take(i + 1);
                assert(next.drop_last() =~= self.borrow_records@.take(i as int));
                assert(next.last() == self.borrow_records@[i as int]);
                assert(pred(self.borrow_records@[i as int]) == hit);
                assert(overdue@.map_values(|r: &BorrowRecord| *r) =~= next.filter(pred));
            }
            i += 1;
        }
        assert(self.borrow_records@.take(n as int) =~= self.borrow_records@);
        overdue
    }

    /// Counts books, copies, copies on loan, patrons, active patrons, fines
    /// outstanding and the loans overdue at `current_date`. Nothing changes.
    pub fn generate_report(&self, current_date: u64) -> (report: Report)
        requires
            self.wf(),
        ensures
            report == self.figures(current_date),
    {
        let ghost totals = self.books@.map_values(|b: Book| b.total_copies as nat);
        let ghost lent = self.books@.map_values(
            |b: Book| (b.total_copies - b.available_copies) as nat,
        );
        let mut total_copies: u128 = 0;
        let mut copies_on_loan: u128 = 0;
        let n: usize = self.books.len();
        let mut i: usize = 0;
        assert(totals.take(0) =~= Seq::<nat>::empty());
        assert(lent.take(0) =~= Seq::<nat>::empty());
        while i < n
            invariant
                self.wf(),
                n == self.books@.len(),
                i <= n,
                totals == self.books@.map_values(|b: Book| b.total_copies as nat),
                lent == self.books@.map_values(
                    |b: Book| (b.total_copies - b.available_copies) as nat,
                ),
                total_copies == sum(totals.take(i as int)),
                copies_on_loan == sum(lent.take(i as int)),
                total_copies <= i * 0xFFFF_FFFF,
                copies_on_loan <= i * 0xFFFF_FFFF,
            decreases n - i,
        {
            let book = &self.books[i];
            assert(book.wf());
            proof {
                assert(totals.take(i + 1).drop_last() =~= totals.take(i as int));
                assert(lent.take(i + 1).drop_last() =~= lent.take(i as int));
            }
            total_copies = total_copies + book.total_copies as u128;
            copies_on_loan = copies_on_loan + (book.total_copies - book.available_copies) as u128;
            i += 1;
        }
        assert(totals.take(n as int) =~= totals);
        assert(lent.take(n as int) =~= lent);

        let ghost debts = self.patrons@.map_values(|p: Patron| p.fines_owed as nat);
        let ghost active = |p: Patron| p.is_active;
        let mut total_fines: u128 = 0;
        let mut active_patrons: usize = 0;
        let m: usize = self.patrons.len();
        let mut j: usize = 0;
        proof {
            reveal(Seq::filter);
            assert(debts.take(0) =~= Seq::<nat>::empty());
            assert(self.patrons@.take(0) =~= Seq::<Patron>::empty());
        }
        while j < m
            invariant
                m == self.patrons@.len(),
                j <= m,
                debts == self.patrons@.map_values(|p: Patron| p.fines_owed as nat),
                active == |p: Patron| p.is_active,
                total_fines == sum(debts.take(j as int)),
                total_fines <= j * 0xFFFF_FFFF_FFFF_FFFF,
                active_patrons == self.patrons@.take(j as int).filter(active).len(),
                active_patrons <= j,
            decreases m - j,
        {
            let patron = &self.patrons[j];
            proof {
                reveal(Seq::filter);
                assert(debts.take(j + 1).drop_last() =~= debts.take(j as int));
                assert(self.patrons@.take(j + 1).drop_last() =~= self.patrons@.take(j as int));
            }
            total_fines = total_fines + patron.fines_owed as u128;
            if patron.is_active {
                active_patrons += 1;
            }
            j += 1;
        }
        assert(debts.take(m as int) =~= debts);
        assert(self.patrons@.take(m as int) =~= self.patrons@);

        let ghost late = |r: BorrowRecord| r.overdue_at(current_date);
        let mut overdue_loans: usize = 0;
        let l: usize = self.borrow_records.len();
        let mut k: usize = 0;
        proof {
            reveal(Seq::filter);
            assert(self.borrow_records@.take(0) =~= Seq::<BorrowRecord>::empty());
        }
        while k < l
            invariant
                l == self.borrow_records@.len(),
                k <= l,
                late == |r: BorrowRecord| r.overdue_at(current_date),
                overdue_loans == self.borrow_records@.take(k as int).filter(late).len(),
                overdue_loans <= k,
            decreases l - k,
        {
            proof {
                reveal(Seq::filter);
                assert(self.borrow_records@.take(k + 1).drop_last() =~= self.borrow_records@.take(
                    k as int,
                ));
            }
            if self.borrow_records[k].is_overdue(current_date) {
                overdue_loans += 1;
            }
            k += 1;
        }
        assert(self.borrow_records@.take(l as int) =~= self.borrow_records@);
        Report {
            total_books: n,
            total_copies,
            copies_on_loan,
            total_patrons: m,
            active_patrons,
            total_fines,
            overdue_loans,
        }
    }
}

} // verus!
