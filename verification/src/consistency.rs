//! Ledger, roster and catalog tell one story: a patron holds exactly the
//! books of that patron's open loans, and a book misses from the shelf
//! exactly the copies of its open loans. Lending and returning keep it so.

use vstd::prelude::*;
use crate::library::Library;
use crate::patron::{first_index, is_first_index};
use crate::record::BorrowRecord;

verus! {

/// How often `x` stands in `s`.
pub open spec fn occurrences(s: Seq<Seq<char>>, x: Seq<char>) -> nat
    decreases s.len(),
{
    if s.len() == 0 {
        0
    } else {
        occurrences(s.drop_last(), x) + if s.last() == x {
            1nat
        } else {
            0nat
        }
    }
}

/// The record is an open loan of this book to this patron.
pub open spec fn lends(record: BorrowRecord, patron_id: u32, isbn: Seq<char>) -> bool {
    record.is_open() && record.patron_id == patron_id && record.isbn@ == isbn
}

/// The open loans of this book to this patron in the ledger.
pub open spec fn open_loans(ledger: Seq<BorrowRecord>, patron_id: u32, isbn: Seq<char>) -> nat
    decreases ledger.len(),
{
    if ledger.len() == 0 {
        0
    } else {
        open_loans(ledger.drop_last(), patron_id, isbn) + if lends(
            ledger.last(),
            patron_id,
            isbn,
        ) {
            1nat
        } else {
            0nat
        }
    }
}

/// The open loans of this book, to whomever, in the ledger.
pub open spec fn copies_out(ledger: Seq<BorrowRecord>, isbn: Seq<char>) -> nat
    decreases ledger.len(),
{
    if ledger.len() == 0 {
        0
    } else {
        copies_out(ledger.drop_last(), isbn) + if ledger.last().is_open() && ledger.last().isbn@
            == isbn {
            1nat
        } else {
            0nat
        }
    }
}

/// Striking one place from a sequence takes one occurrence of what stood
/// there and none of anything else.
pub proof fn lemma_occurrences_remove(s: Seq<Seq<char>>, i: int, x: Seq<char>)
    requires
        0 <= i < s.len(),
    ensures
        occurrences(s.remove(i), x) + (if s[i] == x {
            1nat
        } else {
            0nat
        }) == occurrences(s, x),
    decreases s.len(),
{
    if i == s.len() - 1 {
        assert(s.remove(i) =~= s.drop_last());
    } else {
        assert(s.remove(i).drop_last() =~= s.drop_last().remove(i));
        assert(s.remove(i).last() == s.last());
        lemma_occurrences_remove(s.drop_last(), i, x);
    }
}

/// What occurs at least once is contained, and the other way round.
pub proof fn lemma_occurrences_contains(s: Seq<Seq<char>>, x: Seq<char>)
    ensures
        occurrences(s, x) > 0 <==> s.contains(x),
    decreases s.len(),
{
    if s.len() > 0 {
        lemma_occurrences_contains(s.drop_last(), x);
        if s.drop_last().contains(x) {
            let i = choose|i: int| 0 <= i < s.drop_last().len() && s.drop_last()[i] == x;
            assert(s[i] == x);
        }
        if s.last() == x {
            assert(s[s.len() - 1] == x);
        }
        if s.contains(x) {
            let i = choose|i: int| 0 <= i < s.len() && s[i] == x;
            if i < s.len() - 1 {
                assert(s.drop_last()[i] == x);
            }
        }
    }
}

/// What is contained has a first place.
pub proof fn lemma_first_index_exists(s: Seq<Seq<char>>, x: Seq<char>)
    requires
        s.contains(x),
    ensures
        is_first_index(s, x, first_index(s, x)),
    decreases s.len(),
{
    let t = s.drop_last();
    if t.contains(x) {
        lemma_first_index_exists(t, x);
        let i = first_index(t, x);
        assert(s[i] == t[i]);
        assert forall|j: int| 0 <= j < i implies s[j] != x by {
            assert(t[j] != x);
        }
        assert(is_first_index(s, x, i));
    } else {
        let i = choose|i: int| 0 <= i < s.len() && s[i] == x;
        if i < s.len() - 1 {
            assert(t[i] == x);
        }
        assert forall|j: int| 0 <= j < s.len() - 1 implies s[j] != x by {
            assert(t[j] == s[j]);
            if s[j] == x {
                assert(t.contains(x));
            }
        }
        assert(is_first_index(s, x, s.len() - 1));
    }
}

/// Putting another record in one place of the ledger changes each count by
/// what the old record gave and the new one gives.
pub proof fn lemma_counts_update(
    ledger: Seq<BorrowRecord>,
    k: int,
    record: BorrowRecord,
    patron_id: u32,
    isbn: Seq<char>,
)
    requires
        0 <= k < ledger.len(),
    ensures
        open_loans(ledger.update(k, record), patron_id, isbn) + (if lends(
            ledger[k],
            patron_id,
            isbn,
        ) {
            1nat
        } else {
            0nat
        }) == open_loans(ledger, patron_id, isbn) + (if lends(record, patron_id, isbn) {
            1nat
        } else {
            0nat
        }),
        copies_out(ledger.update(k, record), isbn) + (if ledger[k].is_open() && ledger[k].isbn@
            == isbn {
            1nat
        } else {
            0nat
        }) == copies_out(ledger, isbn) + (if record.is_open() && record.isbn@ == isbn {
            1nat
        } else {
            0nat
        }),
    decreases ledger.len(),
{
    let next = ledger.update(k, record);
    if k == ledger.len() - 1 {
        assert(next.drop_last() =~= ledger.drop_last());
    } else {
        assert(next.drop_last() =~= ledger.drop_last().update(k, record));
        assert(next.last() == ledger.last());
        lemma_counts_update(ledger.drop_last(), k, record, patron_id, isbn);
    }
}

/// A count is zero exactly where no record of the ledger is counted.
pub proof fn lemma_counts_zero(ledger: Seq<BorrowRecord>, patron_id: u32, isbn: Seq<char>)
    ensures
        open_loans(ledger, patron_id, isbn) == 0 <==> (forall|k: int|
            0 <= k < ledger.len() ==> !lends(#[trigger] ledger[k], patron_id, isbn)),
        copies_out(ledger, isbn) == 0 <==> (forall|k: int|
            0 <= k < ledger.len() ==> !((#[trigger] ledger[k]).is_open() && ledger[k].isbn@
                == isbn)),
    decreases ledger.len(),
{
    if ledger.len() > 0 {
        let t = ledger.drop_last();
        lemma_counts_zero(t, patron_id, isbn);
        assert(ledger.last() == ledger[ledger.len() - 1]);
        assert forall|k: int| 0 <= k < t.len() implies t[k] == ledger[k] by {}
        if open_loans(ledger, patron_id, isbn) == 0 {
            assert forall|k: int| 0 <= k < ledger.len() implies !lends(
                #[trigger] ledger[k],
                patron_id,
                isbn,
            ) by {
                if k < t.len() {
                    assert(!lends(t[k], patron_id, isbn));
                }
            }
        }
        if copies_out(ledger, isbn) == 0 {
            assert forall|k: int| 0 <= k < ledger.len() implies !((#[trigger] ledger[k]).is_open()
                && ledger[k].isbn@ == isbn) by {
                if k < t.len() {
                    assert(!(t[k].is_open() && t[k].isbn@ == isbn));
                }
            }
        }
    }
}

impl Library {
    /// Each patron holds an ISBN as often as the ledger has open loans of it
    /// to that patron; each book misses as many copies from the shelf as the
    /// ledger has open loans of it; and every open loan is of a book of the
    /// catalog to a patron of the roster.
    pub open spec fn consistent(&self) -> bool {
        &&& forall|q: int, x: Seq<char>|
            0 <= q < self.patrons@.len() ==> #[trigger] occurrences(self.patrons@[q].held(), x)
                == open_loans(self.borrow_records@, self.patrons@[q].id, x)
        &&& forall|c: int|
            0 <= c < self.books@.len() ==> (#[trigger] self.books@[c]).total_copies
                - self.books@[c].available_copies == copies_out(
                self.borrow_records@,
                self.books@[c].isbn@,
            )
        &&& forall|k: int|
            0 <= k < self.borrow_records@.len() && (#[trigger] self.borrow_records@[k]).is_open()
                ==> self.has_patron(self.borrow_records@[k].patron_id) && self.has_book(
                self.borrow_records@[k].isbn@,
            )
    }

    proof fn lemma_latest_below(&self, patron_id: u32, isbn: Seq<char>, bound: int)
        requires
            0 <= bound <= self.borrow_records@.len(),
            self.has_open_loan(patron_id, isbn),
            forall|j: int| bound <= j ==> !self.is_open_loan(patron_id, isbn, j),
        ensures
            exists|k: int| self.is_latest_open_loan(patron_id, isbn, k),
        decreases bound,
    {
        if bound == 0 {
            let k = choose|k: int| self.is_open_loan(patron_id, isbn, k);
            assert(!self.is_open_loan(patron_id, isbn, k));
        } else if self.is_open_loan(patron_id, isbn, bound - 1) {
            assert(self.is_latest_open_loan(patron_id, isbn, bound - 1));
        } else {
            self.lemma_latest_below(patron_id, isbn, bound - 1);
        }
    }

    /// Where a patron has open loans of a book, one of them is the most recent.
    pub proof fn lemma_latest_open_loan_exists(&self, patron_id: u32, isbn: Seq<char>)
        requires
            self.has_open_loan(patron_id, isbn),
        ensures
            self.is_latest_open_loan(
                patron_id,
                isbn,
                self.latest_open_loan(patron_id, isbn),
            ),
    {
        self.lemma_latest_below(patron_id, isbn, self.borrow_records@.len() as int);
    }

    /// A library without loans is consistent, whatever its roster, as long as
    /// nobody holds a book and every copy is on the shelf.
    pub proof fn lemma_empty_ledger_consistent(&self)
        requires
            self.borrow_records@.len() == 0,
            forall|q: int|
                0 <= q < self.patrons@.len() ==> (
                #[trigger] self.patrons@[q]).borrowed_books@.len() == 0,
            forall|c: int|
                0 <= c < self.books@.len() ==> (#[trigger] self.books@[c]).available_copies
                    == self.books@[c].total_copies,
        ensures
            self.consistent(),
    {
        assert forall|q: int, x: Seq<char>| 0 <= q < self.patrons@.len() implies #[trigger] occurrences(
            self.patrons@[q].held(),
            x,
        ) == open_loans(self.borrow_records@, self.patrons@[q].id, x) by {
            assert(self.patrons@[q].borrowed_books@.len() == 0);
        }
    }

    /// Adding a book whose copies are all on the shelf keeps the library
    /// consistent.
    pub proof fn lemma_added_consistent(pre: Library, post: Library)
        requires
            pre.consistent(),
            post.books@.len() == pre.books@.len() + 1,
            post.books@.drop_last() == pre.books@,
            !pre.has_book(post.books@.last().isbn@),
            post.books@.last().available_copies == post.books@.last().total_copies,
            post.patrons@ == pre.patrons@,
            post.borrow_records@ == pre.borrow_records@,
        ensures
            post.consistent(),
    {
        let fresh = post.books@.last().isbn@;
        assert forall|c: int| 0 <= c < pre.books@.len() implies post.books@[c]
            == pre.books@[c] by {
            assert(post.books@.drop_last()[c] == post.books@[c]);
        }
        assert forall|k: int|
            0 <= k < post.borrow_records@.len() && (
            #[trigger] post.borrow_records@[k]).is_open() implies post.has_patron(
            post.borrow_records@[k].patron_id,
        ) && post.has_book(post.borrow_records@[k].isbn@) by {
            let x = pre.borrow_records@[k].isbn@;
            assert(pre.has_book(x));
            let c = pre.book_index(x);
            assert(post.books@[c].isbn@ == x);
            assert(x != fresh);
        }
        lemma_counts_zero(pre.borrow_records@, 0, fresh);
        assert forall|c: int| 0 <= c < post.books@.len() implies (
        #[trigger] post.books@[c]).total_copies - post.books@[c].available_copies == copies_out(
            post.borrow_records@,
            post.books@[c].isbn@,
        ) by {
            if c < pre.books@.len() {
                assert(pre.books@[c].total_copies - pre.books@[c].available_copies == copies_out(
                    pre.borrow_records@,
                    pre.books@[c].isbn@,
                ));
            }
        }
    }

    /// Registering a patron keeps the library consistent.
    pub proof fn lemma_registered_consistent(pre: Library, post: Library)
        requires
            pre.wf(),
            pre.consistent(),
            post.patrons@.len() == pre.patrons@.len() + 1,
            post.patrons@.drop_last() == pre.patrons@,
            post.patrons@.last().id == pre.next_patron_id,
            post.patrons@.last().borrowed_books@.len() == 0,
            post.books@ == pre.books@,
            post.borrow_records@ == pre.borrow_records@,
        ensures
            post.consistent(),
    {
        let id = pre.next_patron_id;
        assert forall|q: int| 0 <= q < pre.patrons@.len() implies post.patrons@[q]
            == pre.patrons@[q] by {
            assert(post.patrons@.drop_last()[q] == post.patrons@[q]);
        }
        assert forall|q: int, x: Seq<char>| 0 <= q < post.patrons@.len() implies #[trigger] occurrences(
            post.patrons@[q].held(),
            x,
        ) == open_loans(post.borrow_records@, post.patrons@[q].id, x) by {
            if q < pre.patrons@.len() {
                assert(occurrences(pre.patrons@[q].held(), x) == open_loans(
                    pre.borrow_records@,
                    pre.patrons@[q].id,
                    x,
                ));
            } else {
                lemma_counts_zero(pre.borrow_records@, id, x);
                assert forall|k: int| 0 <= k < pre.borrow_records@.len() implies !lends(
                    #[trigger] pre.borrow_records@[k],
                    id,
                    x,
                ) by {
                    if pre.borrow_records@[k].is_open() {
                        assert(pre.has_patron(pre.borrow_records@[k].patron_id));
                    }
                }
            }
        }
        assert forall|c: int| 0 <= c < post.books@.len() implies (
        #[trigger] post.books@[c]).total_copies - post.books@[c].available_copies == copies_out(
            post.borrow_records@,
            post.books@[c].isbn@,
        ) by {
            assert(pre.books@[c].total_copies - pre.books@[c].available_copies == copies_out(
                pre.borrow_records@,
                pre.books@[c].isbn@,
            ));
        }
    }

    /// Lending keeps the library consistent.
    pub proof fn lemma_borrowed_consistent(
        pre: Library,
        post: Library,
        patron_id: u32,
        isbn: Seq<char>,
        now: u64,
    )
        requires
            pre.wf(),
            pre.consistent(),
            pre.borrow_refusal(patron_id, isbn).is_none(),
            Library::borrowed(pre, post, patron_id, isbn, now),
        ensures
            post.consistent(),
    {
        let b = pre.book_index(isbn);
        let p = patron_id - 1;
        let loan = post.borrow_records@.last();
        assert(0 <= b < pre.books@.len() && pre.books@[b].isbn@ == isbn);
        assert(pre.patrons@[p].id == patron_id);
        assert(post.borrow_records@.drop_last() == pre.borrow_records@);
        assert forall|q: int, x: Seq<char>| 0 <= q < post.patrons@.len() implies #[trigger] occurrences(
            post.patrons@[q].held(),
            x,
        ) == open_loans(post.borrow_records@, post.patrons@[q].id, x) by {
            assert(pre.patrons@[q].id == q + 1);
            assert(occurrences(pre.patrons@[q].held(), x) == open_loans(
                pre.borrow_records@,
                pre.patrons@[q].id,
                x,
            ));
            if q == p {
                assert(post.patrons@[q].held().drop_last() =~= pre.patrons@[q].held());
                assert(post.patrons@[q].held().last() == isbn);
            } else {
                assert(post.patrons@[q] == pre.patrons@[q]);
            }
        }
        assert forall|c: int| 0 <= c < post.books@.len() implies (
        #[trigger] post.books@[c]).total_copies - post.books@[c].available_copies == copies_out(
            post.borrow_records@,
            post.books@[c].isbn@,
        ) by {
            assert(pre.books@[c].total_copies - pre.books@[c].available_copies == copies_out(
                pre.borrow_records@,
                pre.books@[c].isbn@,
            ));
            assert(pre.books@[c].wf());
            if c < b {
                assert(pre.books@[c].isbn@ != pre.books@[b].isbn@);
            }
            if b < c {
                assert(pre.books@[b].isbn@ != pre.books@[c].isbn@);
            }
        }
        assert forall|k: int|
            0 <= k < post.borrow_records@.len() && (
            #[trigger] post.borrow_records@[k]).is_open() implies post.has_patron(
            post.borrow_records@[k].patron_id,
        ) && post.has_book(post.borrow_records@[k].isbn@) by {
            let x = post.borrow_records@[k].isbn@;
            if k < pre.borrow_records@.len() {
                assert(post.borrow_records@.drop_last()[k] == post.borrow_records@[k]);
                assert(pre.borrow_records@[k].is_open());
                assert(pre.has_book(x));
                let c = pre.book_index(x);
                assert(post.books@[c].isbn@ == x);
            } else {
                assert(post.books@[b].isbn@ == x);
            }
        }
    }

    /// Taking a book back keeps the library consistent.
    pub proof fn lemma_returned_consistent(
        pre: Library,
        post: Library,
        patron_id: u32,
        isbn: Seq<char>,
        now: u64,
    )
        requires
            pre.wf(),
            pre.consistent(),
            pre.return_refusal(patron_id, isbn, now).is_none(),
            Library::returned(pre, post, patron_id, isbn, now),
        ensures
            post.consistent(),
    {
        let b = pre.book_index(isbn);
        let p = patron_id - 1;
        let k = pre.latest_open_loan(patron_id, isbn);
        let held = pre.patrons@[p].held();
        let f = first_index(held, isbn);
        pre.lemma_latest_open_loan_exists(patron_id, isbn);
        lemma_first_index_exists(held, isbn);
        let closed = post.borrow_records@[k];
        assert(!closed.is_open());
        assert(0 <= b < pre.books@.len() && pre.books@[b].isbn@ == isbn);
        assert(pre.patrons@[p].id == patron_id);
        assert forall|q: int, x: Seq<char>| 0 <= q < post.patrons@.len() implies #[trigger] occurrences(
            post.patrons@[q].held(),
            x,
        ) == open_loans(post.borrow_records@, post.patrons@[q].id, x) by {
            assert(pre.patrons@[q].id == q + 1);
            assert(occurrences(pre.patrons@[q].held(), x) == open_loans(
                pre.borrow_records@,
                pre.patrons@[q].id,
                x,
            ));
            lemma_counts_update(pre.borrow_records@, k, closed, pre.patrons@[q].id, x);
            if q == p {
                lemma_occurrences_remove(held, f, x);
            } else {
                assert(post.patrons@[q] == pre.patrons@[q]);
            }
        }
        assert forall|c: int| 0 <= c < post.books@.len() implies (
        #[trigger] post.books@[c]).total_copies - post.books@[c].available_copies == copies_out(
            post.borrow_records@,
            post.books@[c].isbn@,
        ) by {
            assert(pre.books@[c].total_copies - pre.books@[c].available_copies == copies_out(
                pre.borrow_records@,
                pre.books@[c].isbn@,
            ));
            lemma_counts_update(pre.borrow_records@, k, closed, 0, pre.books@[c].isbn@);
            if c < b {
                assert(pre.books@[c].isbn@ != pre.books@[b].isbn@);
            }
            if b < c {
                assert(pre.books@[b].isbn@ != pre.books@[c].isbn@);
            }
        }
        assert forall|j: int|
            0 <= j < post.borrow_records@.len() && (
            #[trigger] post.borrow_records@[j]).is_open() implies post.has_patron(
            post.borrow_records@[j].patron_id,
        ) && post.has_book(post.borrow_records@[j].isbn@) by {
            let x = post.borrow_records@[j].isbn@;
            assert(j != k);
            assert(pre.borrow_records@[j].is_open());
            assert(pre.has_book(x));
            let c = pre.book_index(x);
            assert(post.books@[c].isbn@ == x);
        }
    }

    /// In a consistent library a book on open loan can always be brought
    /// back: the patron holds it, the catalog lists it, and a copy is
    /// missing from the shelf. Only a balance too large to write down can
    /// stand in the way.
    pub proof fn lemma_open_loan_can_be_returned(&self, patron_id: u32, isbn: Seq<char>, now: u64)
        requires
            self.wf(),
            self.consistent(),
            self.has_patron(patron_id),
            self.has_open_loan(patron_id, isbn),
            self.patrons@[patron_id - 1].fines_owed + self.fine_due(patron_id, isbn, now)
                <= u64::MAX,
        ensures
            self.return_refusal(patron_id, isbn, now).is_none(),
            self.patrons@[patron_id - 1].held().contains(isbn),
            self.has_book(isbn),
            self.books@[self.book_index(isbn)].available_copies < self.books@[self.book_index(
                isbn,
            )].total_copies,
    {
        let p = patron_id - 1;
        let k = self.latest_open_loan(patron_id, isbn);
        self.lemma_latest_open_loan_exists(patron_id, isbn);
        assert(lends(self.borrow_records@[k], patron_id, isbn));
        lemma_counts_zero(self.borrow_records@, patron_id, isbn);
        assert(self.patrons@[p].id == patron_id);
        assert(occurrences(self.patrons@[p].held(), isbn) == open_loans(
            self.borrow_records@,
            self.patrons@[p].id,
            isbn,
        ));
        lemma_occurrences_contains(self.patrons@[p].held(), isbn);
        assert(self.has_book(isbn));
        let b = self.book_index(isbn);
        assert(self.books@[b].total_copies - self.books@[b].available_copies == copies_out(
            self.borrow_records@,
            self.books@[b].isbn@,
        ));
    }
}

} // verus!
