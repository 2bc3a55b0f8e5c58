use circulation::book::Book;
use circulation::error::LibraryError;
use circulation::get_current_timestamp;
use circulation::patron::Patron;
use circulation::record::BorrowRecord;
use circulation::text::{chars_of, contains_chars, decimal_string, holds_lowered, lowered_chars};

fn rust_book(copies: u32) -> Book {
    Book::new(
        String::from("978-0-123456-78-9"),
        String::from("The Rust Programming Language"),
        String::from("Steve Klabnik"),
        String::from("Programming"),
        2018,
        copies,
    )
}

fn alice() -> Patron {
    Patron::new(
        1,
        String::from("Alice Johnson"),
        String::from("alice@email.com"),
        String::from("555-0123"),
    )
}

#[test]
fn new_book_has_all_copies_available() {
    let book = rust_book(3);
    assert_eq!(book.total_copies, 3);
    assert_eq!(book.available_copies, 3);
    assert_eq!(book.isbn, "978-0-123456-78-9");
    assert_eq!(book.publication_year, 2018);
    assert!(book.is_available());
}

#[test]
fn book_without_copies_is_not_available() {
    let book = rust_book(0);
    assert!(!book.is_available());
}

#[test]
fn borrow_copy_takes_one_copy() {
    let mut book = rust_book(3);
    assert_eq!(book.borrow_copy(), Ok(()));
    assert_eq!(book.available_copies, 2);
    assert_eq!(book.total_copies, 3);
}

#[test]
fn borrow_copy_fails_when_none_is_left() {
    let mut book = rust_book(1);
    assert_eq!(book.borrow_copy(), Ok(()));
    assert_eq!(book.borrow_copy(), Err(LibraryError::NoCopiesAvailable));
    assert_eq!(book.available_copies, 0);
    assert_eq!(book.total_copies, 1);
    assert_eq!(book.borrow_copy(), Err(LibraryError::NoCopiesAvailable));
    assert_eq!(book.available_copies, 0);
}

#[test]
fn return_copy_fails_when_all_are_present() {
    let mut book = rust_book(2);
    assert_eq!(book.return_copy(), Err(LibraryError::AllCopiesPresent));
    assert_eq!(book.available_copies, 2);
}

#[test]
fn return_copy_puts_one_copy_back() {
    let mut book = rust_book(2);
    assert_eq!(book.borrow_copy(), Ok(()));
    assert_eq!(book.borrow_copy(), Ok(()));
    assert_eq!(book.return_copy(), Ok(()));
    assert_eq!(book.available_copies, 1);
}

#[test]
fn copies_stay_within_bounds_over_a_sequence() {
    let mut book = rust_book(2);
    let steps = [true, true, true, false, true, false, false, false, true];
    for borrow in steps {
        if borrow {
            let _ = book.borrow_copy();
        } else {
            let _ = book.return_copy();
        }
        assert!(book.available_copies <= book.total_copies);
    }
    assert_eq!(book.available_copies, 1);
}

#[test]
fn book_info_is_three_lines() {
    let mut book = rust_book(3);
    assert_eq!(book.borrow_copy(), Ok(()));
    assert_eq!(
        book.get_info(),
        "📖 The Rust Programming Language by Steve Klabnik\nISBN: 978-0-123456-78-9 | Genre: Programming | Year: 2018\nAvailable: 2/3 copies"
    );
}

#[test]
fn new_patron_can_borrow() {
    let patron = alice();
    assert_eq!(patron.id, 1);
    assert_eq!(patron.fines_owed, 0);
    assert!(patron.is_active);
    assert!(patron.borrowed_books.is_empty());
    assert!(patron.can_borrow());
}

#[test]
fn patron_with_five_books_cannot_borrow() {
    let mut patron = alice();
    for i in 0..4 {
        patron.add_borrowed_book(format!("isbn-{}", i));
        assert!(patron.can_borrow());
    }
    patron.add_borrowed_book(String::from("isbn-4"));
    assert_eq!(patron.borrowed_books.len(), 5);
    assert!(!patron.can_borrow());
}

#[test]
fn patron_at_fine_ceiling_cannot_borrow() {
    let mut patron = alice();
    patron.add_fine(4999);
    assert!(patron.can_borrow());
    patron.add_fine(1);
    assert_eq!(patron.fines_owed, 5000);
    assert!(!patron.can_borrow());
}

#[test]
fn inactive_patron_cannot_borrow() {
    let mut patron = alice();
    patron.is_active = false;
    assert!(!patron.can_borrow());
}

#[test]
fn remove_borrowed_book_strikes_the_first_occurrence() {
    let mut patron = alice();
    patron.add_borrowed_book(String::from("a"));
    patron.add_borrowed_book(String::from("b"));
    patron.add_borrowed_book(String::from("a"));
    assert!(patron.holds_book("a"));
    assert!(patron.remove_borrowed_book("a"));
    assert_eq!(patron.borrowed_books, vec![String::from("b"), String::from("a")]);
    assert!(!patron.remove_borrowed_book("c"));
    assert_eq!(patron.borrowed_books, vec![String::from("b"), String::from("a")]);
    assert!(!patron.holds_book("c"));
}

#[test]
fn pay_fine_applies_no_more_than_is_owed() {
    let mut patron = alice();
    patron.add_fine(300);
    assert_eq!(patron.pay_fine(100), 100);
    assert_eq!(patron.fines_owed, 200);
    assert_eq!(patron.pay_fine(1000), 200);
    assert_eq!(patron.fines_owed, 0);
    assert_eq!(patron.pay_fine(50), 0);
    assert_eq!(patron.fines_owed, 0);
}

#[test]
fn pay_fine_of_nothing_changes_nothing() {
    let mut patron = alice();
    patron.add_fine(300);
    assert_eq!(patron.pay_fine(0), 0);
    assert_eq!(patron.fines_owed, 300);
}

#[test]
fn patron_summary_is_four_lines() {
    let mut patron = alice();
    patron.add_borrowed_book(String::from("a"));
    patron.add_fine(1205);
    assert_eq!(
        patron.get_summary(),
        "👤 Alice Johnson (ID: 1)\nEmail: alice@email.com | Phone: 555-0123\nBorrowed Books: 1 | Fines Owed: $12.05\nStatus: Active"
    );
    patron.is_active = false;
    patron.pay_fine(1200);
    assert_eq!(
        patron.get_summary(),
        "👤 Alice Johnson (ID: 1)\nEmail: alice@email.com | Phone: 555-0123\nBorrowed Books: 1 | Fines Owed: $0.05\nStatus: Inactive"
    );
}

#[test]
fn new_record_is_due_after_the_loan_period() {
    let record = BorrowRecord::new(7, String::from("x"), 1000, 14);
    assert_eq!(record.patron_id, 7);
    assert_eq!(record.isbn, "x");
    assert_eq!(record.borrow_date, 1000);
    assert_eq!(record.due_date, 1000 + 14 * 86400);
    assert_eq!(record.return_date, None);
    assert_eq!(record.fine_amount, 0);
}

#[test]
fn record_is_overdue_only_after_due_date_and_while_open() {
    let mut record = BorrowRecord::new(1, String::from("x"), 0, 14);
    let due = 14 * 86400;
    assert!(!record.is_overdue(0));
    assert!(!record.is_overdue(due));
    assert!(record.is_overdue(due + 1));
    assert_eq!(record.mark_returned(due + 1, 25), Ok(()));
    assert!(!record.is_overdue(due + 1));
    assert!(!record.is_overdue(u64::MAX));
}

#[test]
fn fine_counts_whole_days_late() {
    let record = BorrowRecord::new(1, String::from("x"), 0, 14);
    let due = 14 * 86400;
    assert_eq!(record.calculate_fine(due, 25), 0);
    assert_eq!(record.calculate_fine(due - 1, 25), 0);
    assert_eq!(record.calculate_fine(due + 1, 25), 0);
    assert_eq!(record.calculate_fine(due + 86399, 25), 0);
    assert_eq!(record.calculate_fine(due + 86400, 25), 25);
    assert_eq!(record.calculate_fine(16 * 86400, 25), 50);
    assert_eq!(record.calculate_fine(due + 10 * 86400 + 5, 100), 1000);
}

#[test]
fn fine_does_not_shrink_with_time() {
    let record = BorrowRecord::new(1, String::from("x"), 500, 14);
    let mut last = 0;
    let mut t = 0;
    while t < 40 * 86400 {
        let fine = record.calculate_fine(t, 25);
        assert!(fine >= last);
        last = fine;
        t += 43200;
    }
    assert_eq!(last, 25 * 25);
}

#[test]
fn fine_fits_at_the_largest_inputs() {
    let record = BorrowRecord::new(1, String::from("x"), 0, 0);
    assert_eq!(
        record.calculate_fine(u64::MAX, u16::MAX),
        213503982334601 * 65535
    );
}

#[test]
fn mark_returned_fixes_date_and_fine() {
    let mut record = BorrowRecord::new(1, String::from("x"), 0, 14);
    assert_eq!(record.mark_returned(16 * 86400, 25), Ok(()));
    assert_eq!(record.return_date, Some(16 * 86400));
    assert_eq!(record.fine_amount, 50);
}

#[test]
fn mark_returned_twice_is_refused() {
    let mut record = BorrowRecord::new(1, String::from("x"), 0, 14);
    assert_eq!(record.mark_returned(86400, 25), Ok(()));
    assert_eq!(
        record.mark_returned(30 * 86400, 25),
        Err(LibraryError::InternalInconsistency)
    );
    assert_eq!(record.return_date, Some(86400));
    assert_eq!(record.fine_amount, 0);
}

#[test]
fn clock_stands_at_the_start_of_2022() {
    assert_eq!(get_current_timestamp(), 1640995200);
}

#[test]
fn chars_of_gives_each_character() {
    assert_eq!(chars_of("aé📖"), vec!['a', 'é', '📖']);
    assert_eq!(chars_of(""), Vec::<char>::new());
}

#[test]
fn contains_chars_finds_runs() {
    let hay = chars_of("programming");
    assert!(contains_chars(&hay, &chars_of("gram")));
    assert!(contains_chars(&hay, &chars_of("programming")));
    assert!(contains_chars(&hay, &chars_of("ing")));
    assert!(contains_chars(&hay, &chars_of("")));
    assert!(!contains_chars(&hay, &chars_of("grim")));
    assert!(!contains_chars(&hay, &chars_of("programmings")));
    assert!(contains_chars(&chars_of(""), &chars_of("")));
    assert!(!contains_chars(&chars_of(""), &chars_of("a")));
}

#[test]
fn matching_ignores_case() {
    assert_eq!(lowered_chars("RuSt"), vec!['r', 'u', 's', 't']);
    assert!(holds_lowered("The Rust Programming Language", &lowered_chars("RUST")));
    assert!(!holds_lowered("The Rust Programming Language", &lowered_chars("zzz")));
}

#[test]
fn decimal_string_writes_numbers() {
    assert_eq!(decimal_string(0), "0");
    assert_eq!(decimal_string(7), "7");
    assert_eq!(decimal_string(10), "10");
    assert_eq!(decimal_string(2018), "2018");
    assert_eq!(decimal_string(u64::MAX), "18446744073709551615");
}
