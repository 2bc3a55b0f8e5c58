use circulation::book::Book;
use circulation::error::LibraryError;
use circulation::library::{Library, Report};
use circulation::record::BorrowRecord;

const DAY: u64 = 86400;
const RUST: &str = "978-0-123456-78-9";
const CHAIN: &str = "978-1-234567-89-0";

fn book(isbn: &str, title: &str, author: &str, copies: u32) -> Book {
    Book::new(
        String::from(isbn),
        String::from(title),
        String::from(author),
        String::from("Technology"),
        2020,
        copies,
    )
}

fn desk() -> Library {
    let mut library = Library::new(String::from("City Central Library"));
    assert_eq!(
        library.add_book(book(RUST, "The Rust Programming Language", "Steve Klabnik", 3)),
        Ok(())
    );
    assert_eq!(
        library.add_book(book(CHAIN, "Blockchain Development", "Jane Smith", 1)),
        Ok(())
    );
    library
}

fn register(library: &mut Library, name: &str) -> u32 {
    library.register_patron(
        String::from(name),
        format!("{}@email.com", name),
        String::from("555-0123"),
    )
}

#[test]
fn new_library_is_empty() {
    let library = Library::new(String::from("L"));
    assert_eq!(library.name, "L");
    assert!(library.books.is_empty());
    assert!(library.patrons.is_empty());
    assert!(library.borrow_records.is_empty());
    assert_eq!(library.next_patron_id, 1);
}

#[test]
fn add_book_refuses_a_duplicate_isbn() {
    let mut library = desk();
    assert_eq!(
        library.add_book(book(RUST, "Another Title", "Someone", 9)),
        Err(LibraryError::DuplicateISBN)
    );
    assert_eq!(library.books.len(), 2);
    assert_eq!(library.books[0].title, "The Rust Programming Language");
    assert_eq!(library.books[0].total_copies, 3);
}

#[test]
fn find_book_gives_the_place_in_the_catalog() {
    let library = desk();
    assert_eq!(library.find_book(RUST), Some(0));
    assert_eq!(library.find_book(CHAIN), Some(1));
    assert_eq!(library.find_book("none"), None);
}

#[test]
fn patron_ids_count_up_from_one() {
    let mut library = desk();
    assert_eq!(register(&mut library, "alice"), 1);
    assert_eq!(register(&mut library, "bob"), 2);
    assert_eq!(register(&mut library, "alice"), 3);
    assert_eq!(library.next_patron_id, 4);
    assert_eq!(library.patrons[1].id, 2);
    assert_eq!(library.patrons[1].name, "bob");
    assert_eq!(library.patrons[1].email, "bob@email.com");
    assert!(library.patrons[1].is_active);
}

#[test]
fn two_libraries_count_patrons_apart() {
    let mut a = desk();
    let mut b = desk();
    assert_eq!(register(&mut a, "alice"), 1);
    assert_eq!(register(&mut a, "bob"), 2);
    assert_eq!(register(&mut b, "carol"), 1);
}

#[test]
fn borrow_then_return_on_time() {
    let mut library = Library::new(String::from("L"));
    assert_eq!(
        library.add_book(book(RUST, "The Rust Programming Language", "Steve Klabnik", 3)),
        Ok(())
    );
    let alice = register(&mut library, "Alice");
    let t: u64 = 1640995200;
    let receipt = library.borrow_book(alice, RUST, t).unwrap();
    assert_eq!(receipt.title, "The Rust Programming Language");
    assert_eq!(receipt.due_date, t + 14 * DAY);
    assert_eq!(library.books[0].available_copies, 2);
    assert_eq!(library.patrons[0].borrowed_books, vec![String::from(RUST)]);
    assert_eq!(library.borrow_records.len(), 1);
    assert_eq!(library.borrow_records[0].patron_id, alice);
    assert_eq!(library.borrow_records[0].isbn, RUST);
    assert_eq!(library.borrow_records[0].borrow_date, t);
    assert_eq!(library.borrow_records[0].due_date, t + 14 * DAY);
    assert_eq!(library.borrow_records[0].return_date, None);

    let back = library.return_book(alice, RUST, t + DAY).unwrap();
    assert_eq!(back.title, "The Rust Programming Language");
    assert_eq!(back.fine_charged, 0);
    assert_eq!(library.borrow_records[0].fine_amount, 0);
    assert_eq!(library.borrow_records[0].return_date, Some(t + DAY));
    assert_eq!(library.books[0].available_copies, 3);
    assert!(library.patrons[0].borrowed_books.is_empty());
    assert_eq!(library.patrons[0].fines_owed, 0);
}

#[test]
fn late_return_charges_a_fine() {
    let mut library = desk();
    let alice = register(&mut library, "Alice");
    assert!(library.borrow_book(alice, RUST, 0).is_ok());
    let back = library.return_book(alice, RUST, 16 * DAY).unwrap();
    assert_eq!(back.fine_charged, 50);
    assert_eq!(library.borrow_records[0].fine_amount, 50);
    assert_eq!(library.patrons[0].fines_owed, 50);
    assert_eq!(library.books[0].available_copies, 3);
}

#[test]
fn borrow_refuses_an_unknown_patron() {
    let mut library = desk();
    let _ = register(&mut library, "alice");
    assert_eq!(library.borrow_book(0, RUST, 0).unwrap_err(), LibraryError::PatronNotFound);
    assert_eq!(library.borrow_book(2, RUST, 0).unwrap_err(), LibraryError::PatronNotFound);
    assert_eq!(library.borrow_book(2, "none", 0).unwrap_err(), LibraryError::PatronNotFound);
    assert_eq!(library.books[0].available_copies, 3);
    assert!(library.borrow_records.is_empty());
}

#[test]
fn borrow_refuses_an_unknown_book() {
    let mut library = desk();
    let alice = register(&mut library, "alice");
    assert_eq!(library.borrow_book(alice, "none", 0).unwrap_err(), LibraryError::BookNotFound);
    assert!(library.patrons[0].borrowed_books.is_empty());
    assert!(library.borrow_records.is_empty());
}

#[test]
fn borrow_refuses_when_no_copy_is_left() {
    let mut library = desk();
    let alice = register(&mut library, "alice");
    let bob = register(&mut library, "bob");
    assert!(library.borrow_book(alice, CHAIN, 0).is_ok());
    assert_eq!(library.borrow_book(bob, CHAIN, 5).unwrap_err(), LibraryError::BookUnavailable);
    assert_eq!(library.books[1].available_copies, 0);
    assert!(library.patrons[1].borrowed_books.is_empty());
    assert_eq!(library.borrow_records.len(), 1);
}

#[test]
fn sixth_book_is_refused() {
    let mut library = Library::new(String::from("L"));
    for i in 0..6 {
        let isbn = format!("isbn-{}", i);
        assert_eq!(library.add_book(book(&isbn, "T", "A", 1)), Ok(()));
    }
    let alice = register(&mut library, "alice");
    for i in 0..5 {
        assert!(library.borrow_book(alice, &format!("isbn-{}", i), 0).is_ok());
    }
    assert!(!library.patrons[0].can_borrow());
    assert_eq!(
        library.borrow_book(alice, "isbn-5", 0).unwrap_err(),
        LibraryError::PatronCannotBorrow
    );
    assert_eq!(library.books[5].available_copies, 1);
    assert_eq!(library.patrons[0].borrowed_books.len(), 5);
    assert_eq!(library.borrow_records.len(), 5);
    assert_eq!(
        library.borrow_book(alice, "none", 0).unwrap_err(),
        LibraryError::PatronCannotBorrow
    );
}

#[test]
fn debtor_is_refused() {
    let mut library = desk();
    let alice = register(&mut library, "alice");
    assert!(library.borrow_book(alice, RUST, 0).is_ok());
    let back = library.return_book(alice, RUST, (14 + 200) * DAY).unwrap();
    assert_eq!(back.fine_charged, 5000);
    assert_eq!(library.patrons[0].fines_owed, 5000);
    assert_eq!(
        library.borrow_book(alice, RUST, 300 * DAY).unwrap_err(),
        LibraryError::PatronCannotBorrow
    );
    assert_eq!(library.patrons[0].pay_fine(1), 1);
    assert!(library.borrow_book(alice, RUST, 300 * DAY).is_ok());
}

#[test]
fn return_refuses_an_unknown_patron() {
    let mut library = desk();
    assert_eq!(library.return_book(1, RUST, 0).unwrap_err(), LibraryError::PatronNotFound);
}

#[test]
fn return_refuses_without_an_open_loan() {
    let mut library = desk();
    let alice = register(&mut library, "alice");
    let bob = register(&mut library, "bob");
    assert_eq!(library.return_book(alice, RUST, 0).unwrap_err(), LibraryError::NoActiveLoan);
    assert!(library.borrow_book(alice, RUST, 0).is_ok());
    assert_eq!(library.return_book(bob, RUST, 1).unwrap_err(), LibraryError::NoActiveLoan);
    assert_eq!(library.return_book(alice, CHAIN, 1).unwrap_err(), LibraryError::NoActiveLoan);
    assert!(library.return_book(alice, RUST, 1).is_ok());
    assert_eq!(library.return_book(alice, RUST, 2).unwrap_err(), LibraryError::NoActiveLoan);
    assert_eq!(library.books[0].available_copies, 3);
    assert_eq!(library.borrow_records[0].return_date, Some(1));
}

#[test]
fn return_closes_the_most_recent_open_loan() {
    let mut library = desk();
    let alice = register(&mut library, "alice");
    assert!(library.borrow_book(alice, RUST, 0).is_ok());
    assert!(library.borrow_book(alice, RUST, 10 * DAY).is_ok());
    assert_eq!(library.find_open_loan(alice, RUST), Some(1));
    let back = library.return_book(alice, RUST, 20 * DAY).unwrap();
    assert_eq!(back.fine_charged, 0);
    assert_eq!(library.borrow_records[0].return_date, None);
    assert_eq!(library.borrow_records[1].return_date, Some(20 * DAY));
    assert_eq!(library.find_open_loan(alice, RUST), Some(0));
    let back = library.return_book(alice, RUST, 20 * DAY).unwrap();
    assert_eq!(back.fine_charged, 6 * 25);
    assert_eq!(library.find_open_loan(alice, RUST), None);
    assert!(library.patrons[0].borrowed_books.is_empty());
    assert_eq!(library.books[0].available_copies, 3);
}

#[test]
fn return_reports_a_patron_who_does_not_hold_the_book() {
    let mut library = desk();
    let alice = register(&mut library, "alice");
    assert!(library.borrow_book(alice, RUST, 0).is_ok());
    library.patrons[0].borrowed_books.clear();
    assert_eq!(
        library.return_book(alice, RUST, 20 * DAY).unwrap_err(),
        LibraryError::InternalInconsistency
    );
    assert_eq!(library.borrow_records[0].return_date, None);
    assert_eq!(library.patrons[0].fines_owed, 0);
    assert_eq!(library.books[0].available_copies, 2);
}

#[test]
fn return_reports_a_balance_that_does_not_fit() {
    let mut library = desk();
    let alice = register(&mut library, "alice");
    assert!(library.borrow_book(alice, RUST, 0).is_ok());
    library.patrons[0].add_fine(u64::MAX - 49);
    assert_eq!(
        library.return_book(alice, RUST, 16 * DAY).unwrap_err(),
        LibraryError::InternalInconsistency
    );
    assert_eq!(library.borrow_records[0].return_date, None);
    assert_eq!(library.patrons[0].fines_owed, u64::MAX - 49);
    assert_eq!(library.patrons[0].borrowed_books.len(), 1);
    assert_eq!(library.books[0].available_copies, 2);
}

#[test]
fn return_reports_a_loan_of_a_book_not_in_the_catalog() {
    let mut library = desk();
    let alice = register(&mut library, "alice");
    library.borrow_records.push(BorrowRecord::new(alice, String::from("ghost"), 0, 14));
    library.patrons[0].add_borrowed_book(String::from("ghost"));
    assert_eq!(
        library.return_book(alice, "ghost", DAY).unwrap_err(),
        LibraryError::BookNotFound
    );
    assert_eq!(library.borrow_records[0].return_date, None);
    assert_eq!(library.patrons[0].borrowed_books.len(), 1);
}

#[test]
fn return_reports_a_book_whose_copies_are_all_present() {
    let mut library = desk();
    let alice = register(&mut library, "alice");
    library.borrow_records.push(BorrowRecord::new(alice, String::from(RUST), 0, 14));
    library.patrons[0].add_borrowed_book(String::from(RUST));
    assert_eq!(
        library.return_book(alice, RUST, DAY).unwrap_err(),
        LibraryError::AllCopiesPresent
    );
    assert_eq!(library.borrow_records[0].return_date, None);
    assert_eq!(library.patrons[0].borrowed_books.len(), 1);
    assert_eq!(library.books[0].available_copies, 3);
}

#[test]
fn round_trip_restores_copies_and_books_held() {
    let mut library = desk();
    let alice = register(&mut library, "alice");
    assert!(library.borrow_book(alice, CHAIN, 0).is_ok());
    let before_copies = library.books[0].available_copies;
    let before_held = library.patrons[0].borrowed_books.clone();
    assert!(library.borrow_book(alice, RUST, 100).is_ok());
    assert!(library.return_book(alice, RUST, 50 * DAY).is_ok());
    assert_eq!(library.books[0].available_copies, before_copies);
    assert_eq!(library.patrons[0].borrowed_books, before_held);
}

#[test]
fn search_books_ignores_case() {
    let library = desk();
    let found = library.search_books("rust");
    assert_eq!(found.len(), 1);
    assert_eq!(found[0].title, "The Rust Programming Language");
    assert_eq!(found[0].isbn, RUST);
    assert!(library.search_books("zzz").is_empty());
}

#[test]
fn search_books_looks_at_title_author_and_isbn() {
    let library = desk();
    let by_author = library.search_books("JANE");
    assert_eq!(by_author.len(), 1);
    assert_eq!(by_author[0].isbn, CHAIN);
    let by_isbn = library.search_books("234567");
    assert_eq!(by_isbn.len(), 1);
    assert_eq!(by_isbn[0].isbn, CHAIN);
    let both = library.search_books("978-");
    assert_eq!(both.len(), 2);
    assert_eq!(both[0].isbn, RUST);
    assert_eq!(both[1].isbn, CHAIN);
    assert_eq!(library.search_books("").len(), 2);
    assert_eq!(library.search_books("technology").len(), 0);
}

#[test]
fn overdue_books_are_the_open_loans_past_due() {
    let mut library = desk();
    let alice = register(&mut library, "alice");
    assert!(library.borrow_book(alice, RUST, 0).is_ok());
    assert!(library.get_overdue_books(14 * DAY).is_empty());
    let overdue = library.get_overdue_books(14 * DAY + 1);
    assert_eq!(overdue.len(), 1);
    assert_eq!(overdue[0].isbn, RUST);
    assert_eq!(overdue[0].patron_id, alice);
    assert_eq!(overdue[0].due_date, 14 * DAY);
    assert!(library.return_book(alice, RUST, 15 * DAY).is_ok());
    assert!(library.get_overdue_books(14 * DAY + 1).is_empty());
    assert!(library.get_overdue_books(u64::MAX).is_empty());
}

#[test]
fn overdue_books_keep_the_order_of_the_ledger() {
    let mut library = desk();
    let alice = register(&mut library, "alice");
    let bob = register(&mut library, "bob");
    assert!(library.borrow_book(alice, RUST, 0).is_ok());
    assert!(library.borrow_book(bob, CHAIN, DAY).is_ok());
    assert!(library.borrow_book(bob, RUST, 10 * DAY).is_ok());
    let overdue = library.get_overdue_books(16 * DAY);
    assert_eq!(overdue.len(), 2);
    assert_eq!(overdue[0].patron_id, alice);
    assert_eq!(overdue[1].patron_id, bob);
    assert_eq!(overdue[1].isbn, CHAIN);
}

#[test]
fn report_counts_everything() {
    let mut library = desk();
    let alice = register(&mut library, "alice");
    let bob = register(&mut library, "bob");
    let _carol = register(&mut library, "carol");
    library.patrons[2].is_active = false;
    assert!(library.borrow_book(alice, RUST, 0).is_ok());
    assert!(library.borrow_book(bob, RUST, 0).is_ok());
    assert!(library.borrow_book(bob, CHAIN, 20 * DAY).is_ok());
    assert!(library.return_book(alice, RUST, 18 * DAY).is_ok());
    assert_eq!(
        library.generate_report(30 * DAY),
        Report {
            total_books: 2,
            total_copies: 4,
            copies_on_loan: 2,
            total_patrons: 3,
            active_patrons: 2,
            total_fines: 100,
            overdue_loans: 1,
        }
    );
}

#[test]
fn report_of_an_empty_library_is_all_zero() {
    let library = Library::new(String::from("L"));
    assert_eq!(
        library.generate_report(0),
        Report {
            total_books: 0,
            total_copies: 0,
            copies_on_loan: 0,
            total_patrons: 0,
            active_patrons: 0,
            total_fines: 0,
            overdue_loans: 0,
        }
    );
}
