//! A catalog entry and the bookkeeping of its copies.

use vstd::prelude::*;
use vstd::string::*;
use crate::error::LibraryError;
use crate::text::{
    decimal, decimal_string, holds_lowered, lowercase, matches_ignoring_case, occurs_in,
};

verus! {

/// One title of the catalog, identified by its ISBN.
#[derive(Debug, Clone)]
pub struct Book {
    pub isbn: String,
    pub title: String,
    pub author: String,
    pub genre: String,
    pub publication_year: u32,
    pub total_copies: u32,
    pub available_copies: u32,
}

impl Book {
    /// No more copies are on the shelf than the library owns.
    pub open spec fn wf(&self) -> bool {
        self.available_copies <= self.total_copies
    }

    /// The book with `n` copies on the shelf and everything else as in `self`.
    pub open spec fn with_available(self, n: int) -> Book {
        Book { available_copies: n as u32, ..self }
    }

    /// The book after a request for a copy: one copy fewer on the shelf,
    /// or the book as it was where the shelf is empty.
    pub open spec fn after_borrow(self) -> Book {
        if self.available_copies > 0 {
            self.with_available(self.available_copies - 1)
        } else {
            self
        }
    }

    /// The book after a copy is handed in: one copy more on the shelf, or
    /// the book as it was where no copy is missing.
    pub open spec fn after_return(self) -> Book {
        if self.available_copies < self.total_copies {
            self.with_available(self.available_copies + 1)
        } else {
            self
        }
    }

    /// The book after a run of requests, `true` for a copy asked and `false`
    /// for a copy handed in, granted or not.
    pub open spec fn after(self, steps: Seq<bool>) -> Book
        decreases steps.len(),
    {
        if steps.len() == 0 {
            self
        } else if steps.last() {
            self.after(steps.drop_last()).after_borrow()
        } else {
            self.after(steps.drop_last()).after_return()
        }
    }

    /// `query` occurs, without regard to case, in the title, the author or
    /// the ISBN.
    pub open spec fn matches(&self, query: Seq<char>) -> bool {
        ||| matches_ignoring_case(self.title@, query)
        ||| matches_ignoring_case(self.author@, query)
        ||| matches_ignoring_case(self.isbn@, query)
    }

    /// `lowered` occurs in the lower-case form of the title, the author or
    /// the ISBN.
    pub open spec fn holds(&self, lowered: Seq<char>) -> bool {
        ||| occurs_in(lowered, lowercase(self.title@))
        ||| occurs_in(lowered, lowercase(self.author@))
        ||| occurs_in(lowered, lowercase(self.isbn@))
    }

    /// The three lines that describe the book to a reader.
    pub open spec fn info(&self) -> Seq<char> {
        "📖 "@ + self.title@ + " by "@ + self.author@ + "\nISBN: "@ + self.isbn@ + " | Genre: "@
            + self.genre@ + " | Year: "@ + decimal(self.publication_year as nat)
            + "\nAvailable: "@ + decimal(self.available_copies as nat) + "/"@ + decimal(
            self.total_copies as nat,
        ) + " copies"@
    }

    /// A new title, all of its copies on the shelf.
    pub fn new(
        isbn: String,
        title: String,
        author: String,
        genre: String,
        publication_year: u32,
        total_copies: u32,
    ) -> (book: Book)
        ensures
            book == (Book {
                isbn,
                title,
                author,
                genre,
                publication_year,
                total_copies,
                available_copies: total_copies,
            }),
            book.wf(),
    {
        Book {
            isbn,
            title,
            author,
            genre,
            publication_year,
            total_copies,
            available_copies: total_copies,
        }
    }

    /// Whether a copy is on the shelf.
    pub fn is_available(&self) -> (r: bool)
        ensures
            r == (self.available_copies > 0),
    {
        self.available_copies > 0
    }

    /// Takes one copy off the shelf, unless none is there.
    pub fn borrow_copy(&mut self) -> (r: Result<(), LibraryError>)
        ensures
            *final(self) == old(self).after_borrow(),
            old(self).available_copies == 0 ==> r == Err::<(), LibraryError>(
                LibraryError::NoCopiesAvailable,
            ) && *final(self) == *old(self),
            old(self).available_copies > 0 ==> r.is_ok() && *final(self) == old(
                self,
            ).with_available(old(self).available_copies - 1),
            old(self).wf() ==> final(self).wf(),
    {
        if self.available_copies > 0 {
            self.available_copies -= 1;
            Ok(())
        } else {
            Err(LibraryError::NoCopiesAvailable)
        }
    }

    /// Puts one copy back on the shelf, unless all copies are already there.
    pub fn return_copy(&mut self) -> (r: Result<(), LibraryError>)
        ensures
            *final(self) == old(self).after_return(),
            old(self).available_copies >= old(self).total_copies ==> r == Err::<(), LibraryError>(
                LibraryError::AllCopiesPresent,
            ) && *final(self) == *old(self),
            old(self).available_copies < old(self).total_copies ==> r.is_ok() && *final(self)
                == old(self).with_available(old(self).available_copies + 1),
            old(self).wf() ==> final(self).wf(),
    {
        if self.available_copies < self.total_copies {
            self.available_copies += 1;
            Ok(())
        } else {
            Err(LibraryError::AllCopiesPresent)
        }
    }

    /// Whether the book matches a query that is already in lower case.
    pub fn matches_lowered(&self, lowered_query: &Vec<char>) -> (r: bool)
        ensures
            r == self.holds(lowered_query@),
    {
        holds_lowered(self.title.as_str(), lowered_query) || holds_lowered(
            self.author.as_str(),
            lowered_query,
        ) || holds_lowered(self.isbn.as_str(), lowered_query)
    }

    /// Title and author, then ISBN, genre and year, then the copies on the
    /// shelf out of those owned.
    pub fn get_info(&self) -> (s: String)
        ensures
            s@ == self.info(),
    {
        let mut s = String::from_str("📖 ");
        s.append(self.title.as_str());
        s.append(" by ");
        s.append(self.author.as_str());
        s.append("\nISBN: ");
        s.append(self.isbn.as_str());
        s.append(" | Genre: ");
        s.append(self.genre.as_str());
        s.append(" | Year: ");
        s.append(decimal_string(self.publication_year as u64).as_str());
        s.append("\nAvailable: ");
        s.append(decimal_string(self.available_copies as u64).as_str());
        s.append("/");
        s.append(decimal_string(self.total_copies as u64).as_str());
        s.append(" copies");
        s
    }
}

/// Whatever copies are asked and handed in, in whatever order, a book never
/// has fewer than no copies on the shelf nor more than the library owns, and
/// the number owned stays what it was.
pub proof fn lemma_copies_stay_in_bounds(book: Book, steps: Seq<bool>)
    requires
        book.wf(),
    ensures
        book.after(steps).wf(),
        0 <= book.after(steps).available_copies <= book.after(steps).total_copies,
        book.after(steps).total_copies == book.total_copies,
    decreases steps.len(),
{
    if steps.len() > 0 {
        lemma_copies_stay_in_bounds(book, steps.drop_last());
    }
}

/// A copy taken and handed back leaves the book as it was.
pub proof fn lemma_borrow_then_return_copy(book: Book)
    requires
        book.wf(),
        book.available_copies > 0,
    ensures
        book.after_borrow().after_return() == book,
{
}

} // verus!
