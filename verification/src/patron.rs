//! A borrower: who may borrow, which books are held, what is owed.

use vstd::prelude::*;
use vstd::string::*;
use crate::text::{decimal, decimal_string};

verus! {

/// The most books that one patron may hold at a time.
pub const MAX_BORROWED_BOOKS: usize = 5;

/// A patron who owes this much, in cents, or more may not borrow.
pub const FINE_CEILING_CENTS: u64 = 5000;

/// One borrower of the roster. `fines_owed` is in cents.
#[derive(Debug, Clone)]
pub struct Patron {
    pub id: u32,
    pub name: String,
    pub email: String,
    pub phone: String,
    pub borrowed_books: Vec<String>,
    pub fines_owed: u64,
    pub is_active: bool,
}

/// The text of each string of `v`, in order.
pub open spec fn texts(v: Seq<String>) -> Seq<Seq<char>> {
    v.map_values(|s: String| s@)
}

/// `i` is the first place at which `x` stands in `s`.
pub open spec fn is_first_index(s: Seq<Seq<char>>, x: Seq<char>, i: int) -> bool {
    &&& 0 <= i < s.len()
    &&& s[i] == x
    &&& forall|j: int| 0 <= j < i ==> s[j] != x
}

/// The first place at which `x` stands in `s`, where it stands in it at all.
pub open spec fn first_index(s: Seq<Seq<char>>, x: Seq<char>) -> int {
    choose|i: int| is_first_index(s, x, i)
}

/// `s` without the first `x` in it; `s` itself where it holds none.
pub open spec fn without_first(s: Seq<Seq<char>>, x: Seq<char>) -> Seq<Seq<char>> {
    if s.contains(x) {
        s.remove(first_index(s, x))
    } else {
        s
    }
}

/// Only one place can be the first at which `x` stands.
pub proof fn lemma_first_index_unique(s: Seq<Seq<char>>, x: Seq<char>, i: int)
    requires
        is_first_index(s, x, i),
    ensures
        first_index(s, x) == i,
        s.contains(x),
{
    let k = first_index(s, x);
    assert(is_first_index(s, x, k));
    if k < i {
        assert(s[k] != x);
    }
    if i < k {
        assert(s[i] != x);
    }
}

impl Patron {
    /// The ISBNs of the books held, oldest loan first.
    pub open spec fn held(&self) -> Seq<Seq<char>> {
        texts(self.borrowed_books@)
    }

    /// Whether the rules let a patron in this state borrow.
    pub open spec fn eligible(&self) -> bool {
        &&& self.is_active
        &&& self.borrowed_books@.len() < MAX_BORROWED_BOOKS
        &&& self.fines_owed < FINE_CEILING_CENTS
    }

    /// An amount of cents written as dollars with two decimals.
    pub open spec fn dollars(cents: nat) -> Seq<char> {
        decimal(cents / 100) + "."@ + decimal((cents % 100) / 10) + decimal(cents % 10)
    }

    /// The four lines that describe the patron to a reader.
    pub open spec fn summary(&self) -> Seq<char> {
        "👤 "@ + self.name@ + " (ID: "@ + decimal(self.id as nat) + ")\nEmail: "@ + self.email@
            + " | Phone: "@ + self.phone@ + "\nBorrowed Books: "@ + decimal(
            self.borrowed_books@.len(),
        ) + " | Fines Owed: $"@ + Patron::dollars(self.fines_owed as nat) + "\nStatus: "@ + (
        if self.is_active {
            "Active"@
        } else {
            "Inactive"@
        })
    }

    /// A new active patron who holds nothing and owes nothing.
    pub fn new(id: u32, name: String, email: String, phone: String) -> (patron: Patron)
        ensures
            patron.id == id,
            patron.name == name,
            patron.email == email,
            patron.phone == phone,
            patron.borrowed_books@ == Seq::<String>::empty(),
            patron.fines_owed == 0,
            patron.is_active,
    {
        Patron {
            id,
            name,
            email,
            phone,
            borrowed_books: Vec::new(),
            fines_owed: 0,
            is_active: true,
        }
    }

    /// Whether this patron may borrow: active, under the limit of books held,
    /// and under the ceiling of fines.
    pub fn can_borrow(&self) -> (r: bool)
        ensures
            r == self.eligible(),
    {
        self.is_active && self.borrowed_books.len() < MAX_BORROWED_BOOKS && self.fines_owed
            < FINE_CEILING_CENTS
    }

    /// Notes a book as held, after those already held.
    pub fn add_borrowed_book(&mut self, isbn: String)
        ensures
            final(self).borrowed_books@ == old(self).borrowed_books@.push(isbn),
            final(self).held() == old(self).held().push(isbn@),
            *final(self) == (Patron { borrowed_books: final(self).borrowed_books, ..*old(self) }),
    {
        self.borrowed_books.push(isbn);
        assert(self.held() =~= old(self).held().push(isbn@));
    }

    /// Strikes a book from those held: the oldest loan of this ISBN. Says
    /// whether the patron held it; if not, nothing changes.
    pub fn remove_borrowed_book(&mut self, isbn: &str) -> (found: bool)
        ensures
            found == old(self).held().contains(isbn@),
            final(self).held() == without_first(old(self).held(), isbn@),
            found ==> final(self).borrowed_books@ == old(self).borrowed_books@.remove(
                first_index(old(self).held(), isbn@),
            ),
            !found ==> final(self).borrowed_books@ == old(self).borrowed_books@,
            *final(self) == (Patron { borrowed_books: final(self).borrowed_books, ..*old(self) }),
    {
        let key = String::from_str(isbn);
        let n: usize = self.borrowed_books.len();
        let mut i: usize = 0;
        while i < n
            invariant
                n == self.borrowed_books@.len(),
                i <= n,
                *self == *old(self),
                key@ == isbn@,
                forall|j: int| 0 <= j < i ==> self.held()[j] != isbn@,
            decreases n - i,
        {
            if self.borrowed_books[i] == key {
                proof {
                    assert(self.held()[i as int] == isbn@);
                    lemma_first_index_unique(self.held(), isbn@, i as int);
                }
                self.borrowed_books.remove(i);
                assert(self.held() =~= old(self).held().remove(i as int));
                return true;
            }
            i += 1;
        }
        assert(!self.held().contains(isbn@));
        false
    }

    /// Whether the patron holds a book of this ISBN.
    pub fn holds_book(&self, isbn: &str) -> (r: bool)
        ensures
            r == self.held().contains(isbn@),
    {
        let key = String::from_str(isbn);
        let n: usize = self.borrowed_books.len();
        let mut i: usize = 0;
        while i < n
            invariant
                n == self.borrowed_books@.len(),
                i <= n,
                key@ == isbn@,
                forall|j: int| 0 <= j < i ==> self.held()[j] != isbn@,
            decreases n - i,
        {
            if self.borrowed_books[i] == key {
                assert(self.held()[i as int] == isbn@);
                return true;
            }
            i += 1;
        }
        false
    }

    /// Adds `amount` cents to what the patron owes.
    pub fn add_fine(&mut self, amount: u64)
        requires
            old(self).fines_owed + amount <= u64::MAX,
        ensures
            *final(self) == (Patron {
                fines_owed: (old(self).fines_owed + amount) as u64,
                ..*old(self)
            }),
    {
        self.fines_owed += amount;
    }

    /// Pays off up to `amount` cents of what is owed and returns what was
    /// applied: the lesser of `amount` and the debt.
    pub fn pay_fine(&mut self, amount: u64) -> (paid: u64)
        ensures
            paid == if amount <= old(self).fines_owed { amount } else { old(self).fines_owed },
            paid <= amount,
            paid <= old(self).fines_owed,
            *final(self) == (Patron {
                fines_owed: (old(self).fines_owed - paid) as u64,
                ..*old(self)
            }),
    {
        let paid: u64 = if amount <= self.fines_owed { amount } else { self.fines_owed };
        self.fines_owed -= paid;
        paid
    }

    /// Name and id, then contact, then books held and fines owed in dollars,
    /// then whether the patron is active.
    pub fn get_summary(&self) -> (s: String)
        ensures
            s@ == self.summary(),
    {
        let mut money = decimal_string(self.fines_owed / 100);
        money.append(".");
        money.append(decimal_string((self.fines_owed % 100) / 10).as_str());
        money.append(decimal_string(self.fines_owed % 10).as_str());
        let mut s = String::from_str("👤 ");
        s.append(self.name.as_str());
        s.append(" (ID: ");
        s.append(decimal_string(self.id as u64).as_str());
        s.append(")\nEmail: ");
        s.append(self.email.as_str());
        s.append(" | Phone: ");
        s.append(self.phone.as_str());
        s.append("\nBorrowed Books: ");
        s.append(decimal_string(self.borrowed_books.len() as u64).as_str());
        s.append(" | Fines Owed: $");
        s.append(money.as_str());
        s.append("\nStatus: ");
        s.append(if self.is_active { "Active" } else { "Inactive" });
        s
    }
}

} // verus!
