use booklib::actions::{
    added_message, check_rating, deleted_message, import_finished_message, import_row_error,
    import_started_message, invalid_json_error, marked_message, rated_message, read_flag,
};
use booklib::book::Book;
use booklib::command::{parse_args, unknown_command_message, usage_lines, Command};
use booklib::error::AppError;
use booklib::listing::{
    list_books, listing_report, page_books, search_books, search_by_author, search_by_genre,
    search_pattern,
};
use booklib::order::{compare_books, listing_order, sort_books, SortColumn};
use booklib::stats::{author_stats, genre_stats, show_counts, AuthorStat, GenreStat};
use booklib::text::{compare_text, int_to_text, parse_i32, parse_i64, text_eq};

fn book(id: i32, title: &str, author: &str, genre: &str, year: Option<i32>, read: i32, rating: Option<i32>) -> Book {
    Book {
        id,
        title: title.to_string(),
        author: author.to_string(),
        genre: genre.to_string(),
        year,
        read,
        rating,
    }
}

fn shelf() -> Vec<Book> {
    vec![
        book(1, "Dune", "Frank Herbert", "Sci-Fi", Some(1965), 1, Some(5)),
        book(2, "Emma", "Jane Austen", "Classic", Some(1815), 0, None),
        book(3, "Neuromancer", "William Gibson", "Sci-Fi", Some(1984), 0, Some(4)),
        book(4, "Persuasion", "Jane Austen", "Classic", None, 1, Some(4)),
        book(5, "Anathem", "Neal Stephenson", "Sci-Fi", Some(2008), 0, None),
    ]
}

fn ids(books: &[Book]) -> Vec<i32> {
    books.iter().map(|b| b.id).collect()
}

fn args(words: &[&str]) -> Vec<String> {
    let mut v = vec!["books".to_string()];
    v.extend(words.iter().map(|w| w.to_string()));
    v
}

#[test]
fn display_line_of_read_rated_book() {
    let b = book(1, "Dune", "Frank Herbert", "Sci-Fi", Some(1965), 1, Some(5));
    assert_eq!(b.display_line(), "[x]   1. Dune by Frank Herbert (Sci-Fi) [1965] ★5");
}

#[test]
fn display_line_of_unread_book_without_year() {
    let b = book(42, "Emma", "Jane Austen", "Classic", None, 0, None);
    assert_eq!(b.display_line(), "[ ]  42. Emma by Jane Austen (Classic) [????]");
}

#[test]
fn display_line_wide_and_negative_ids() {
    let b = book(12345, "T", "A", "G", Some(-44), 7, Some(-1));
    assert_eq!(b.display_line(), "[x] 12345. T by A (G) [-44] ★-1");
    let c = book(-5, "T", "A", "G", Some(0), 0, None);
    assert_eq!(c.display_line(), "[ ]  -5. T by A (G) [0]");
}

#[test]
fn integers_render_as_to_string() {
    for n in [0i64, 7, 10, 99, 100, -1, -10, 1965, i64::MAX, i64::MIN] {
        assert_eq!(int_to_text(n), n.to_string());
    }
}

#[test]
fn parse_follows_str_parse() {
    for s in ["0", "42", "-17", "+8", "007", "-0", "", "-", "+", "12a", " 1", "1 ", "2147483647", "2147483648", "-2147483648", "-2147483649", "99999999999999999999999"] {
        assert_eq!(parse_i32(s), s.parse::<i32>().ok(), "i32 {:?}", s);
        assert_eq!(parse_i64(s), s.parse::<i64>().ok(), "i64 {:?}", s);
    }
    assert_eq!(parse_i64("9223372036854775807"), Some(i64::MAX));
    assert_eq!(parse_i64("-9223372036854775808"), Some(i64::MIN));
    assert_eq!(parse_i64("9223372036854775808"), None);
}

#[test]
fn parse_reads_back_rendered_integers() {
    for n in [0i64, 5, -5, 123456, -987654321, i64::MAX, i64::MIN] {
        assert_eq!(parse_i64(&int_to_text(n)), Some(n));
    }
}

#[test]
fn text_comparison_matches_string_order() {
    let words = ["", "a", "ab", "abc", "b", "B", "Émile", "zeta", "ab"];
    for x in words {
        for y in words {
            let expected = match x.cmp(y) {
                std::cmp::Ordering::Less => -1,
                std::cmp::Ordering::Equal => 0,
                std::cmp::Ordering::Greater => 1,
            };
            assert_eq!(compare_text(x, y), expected, "{:?} {:?}", x, y);
            assert_eq!(text_eq(x, y), x == y);
        }
    }
}

#[test]
fn sort_by_year_puts_unknown_first() {
    let sorted = sort_books(&shelf(), SortColumn::Year, false);
    assert_eq!(ids(&sorted), vec![4, 2, 1, 3, 5]);
}

#[test]
fn sort_by_year_descending() {
    let sorted = sort_books(&shelf(), SortColumn::Year, true);
    assert_eq!(ids(&sorted), vec![5, 3, 1, 2, 4]);
}

#[test]
fn sort_by_author_breaks_ties_by_title() {
    let sorted = sort_books(&shelf(), SortColumn::Author, false);
    assert_eq!(ids(&sorted), vec![1, 2, 4, 5, 3]);
    let desc = sort_books(&shelf(), SortColumn::Author, true);
    assert_eq!(ids(&desc), vec![3, 5, 4, 2, 1]);
}

#[test]
fn sort_by_rating_and_genre() {
    assert_eq!(ids(&sort_books(&shelf(), SortColumn::Rating, false)), vec![5, 2, 3, 4, 1]);
    assert_eq!(ids(&sort_books(&shelf(), SortColumn::Genre, false)), vec![2, 4, 5, 1, 3]);
}

#[test]
fn sort_is_stable_for_equal_books() {
    let books = vec![
        book(3, "Same", "X", "G", Some(2000), 0, None),
        book(1, "Same", "X", "G", Some(2000), 0, None),
        book(2, "Same", "X", "G", Some(2000), 0, None),
    ];
    assert_eq!(ids(&sort_books(&books, SortColumn::Year, false)), vec![3, 1, 2]);
    assert_eq!(ids(&sort_books(&books, SortColumn::Year, true)), vec![3, 1, 2]);
    assert_eq!(ids(&sort_books(&books, SortColumn::Id, false)), vec![1, 2, 3]);
    assert_eq!(ids(&sort_books(&books, SortColumn::Id, true)), vec![3, 2, 1]);
}

#[test]
fn sort_agrees_with_std_sort_by() {
    let books = shelf();
    for column in [SortColumn::Id, SortColumn::Year, SortColumn::Rating, SortColumn::Author, SortColumn::Genre] {
        for descending in [false, true] {
            let mut expected = books.clone();
            expected.sort_by(|a, b| {
                let c = compare_books(a, b, column);
                let c = if descending { -c } else { c };
                c.cmp(&0)
            });
            assert_eq!(ids(&sort_books(&books, column, descending)), ids(&expected));
        }
    }
}

#[test]
fn listing_order_is_a_permutation() {
    let order = listing_order(&shelf(), SortColumn::Year, false);
    assert_eq!(order, vec![3, 1, 0, 2, 4]);
}

#[test]
fn sort_column_from_name() {
    assert_eq!(SortColumn::from_name("year"), SortColumn::Year);
    assert_eq!(SortColumn::from_name("rating"), SortColumn::Rating);
    assert_eq!(SortColumn::from_name("author"), SortColumn::Author);
    assert_eq!(SortColumn::from_name("genre"), SortColumn::Genre);
    assert_eq!(SortColumn::from_name("title"), SortColumn::Id);
    assert_eq!(SortColumn::from_name("id"), SortColumn::Id);
}

#[test]
fn pages_follow_limit_and_offset() {
    let books = shelf();
    assert_eq!(ids(&page_books(&books, None, None)), vec![1, 2, 3, 4, 5]);
    assert_eq!(ids(&page_books(&books, Some(2), None)), vec![1, 2]);
    assert_eq!(ids(&page_books(&books, Some(2), Some(2))), vec![3, 4]);
    assert_eq!(ids(&page_books(&books, Some(10), Some(3))), vec![4, 5]);
    assert_eq!(ids(&page_books(&books, None, Some(4))), vec![5]);
    assert_eq!(ids(&page_books(&books, None, Some(5))), Vec::<i32>::new());
    assert_eq!(ids(&page_books(&books, Some(0), Some(1))), Vec::<i32>::new());
    assert_eq!(ids(&page_books(&books, None, Some(-1))), Vec::<i32>::new());
    assert_eq!(ids(&page_books(&books, Some(-1), Some(0))), vec![1, 2, 3, 4, 5]);
}

#[test]
fn pages_join_up() {
    let books = shelf();
    let mut joined = ids(&page_books(&books, Some(2), Some(1)));
    joined.extend(ids(&page_books(&books, Some(1), Some(3))));
    assert_eq!(joined, ids(&page_books(&books, Some(3), Some(1))));
}

#[test]
fn list_books_shows_page_and_total() {
    let lines = list_books(&shelf(), "year", true, Some(2), Some(1));
    assert_eq!(
        lines,
        vec![
            "[ ]   3. Neuromancer by William Gibson (Sci-Fi) [1984] ★4".to_string(),
            "[x]   1. Dune by Frank Herbert (Sci-Fi) [1965] ★5".to_string(),
            "".to_string(),
            "2 book(s) shown (total: 5)".to_string(),
        ]
    );
}

#[test]
fn list_books_empty_page() {
    assert_eq!(list_books(&shelf(), "id", false, None, Some(9)), vec!["No books found.".to_string()]);
    assert_eq!(listing_report(&Vec::new(), 0), vec!["No books found.".to_string()]);
}

#[test]
fn search_reports() {
    let found = vec![book(2, "Emma", "Jane Austen", "Classic", Some(1815), 0, None)];
    assert_eq!(
        search_books(&found, "emm"),
        vec![
            "[ ]   2. Emma by Jane Austen (Classic) [1815]".to_string(),
            "".to_string(),
            "1 book(s) found".to_string(),
        ]
    );
    assert_eq!(search_books(&Vec::new(), "zzz"), vec!["No books matching \"zzz\".".to_string()]);
    assert_eq!(search_by_author(&Vec::new(), "Tolkien"), vec!["No books by author matching \"Tolkien\".".to_string()]);
    assert_eq!(search_by_genre(&Vec::new(), "Poetry"), vec!["No books in genre matching \"Poetry\".".to_string()]);
    assert_eq!(search_pattern("dune"), "%dune%");
}

#[test]
fn genre_table() {
    let rows = vec![
        GenreStat { genre: "Sci-Fi".to_string(), total: 3, read_count: Some(1), avg_rating: Some("4.5".to_string()) },
        GenreStat { genre: "Classic".to_string(), total: 2, read_count: None, avg_rating: None },
    ];
    let lines = genre_stats(&rows);
    assert_eq!(lines[0], format!("{:<20} {:>6} {:>6} {:>10}", "Genre", "Books", "Read", "Avg Rating"));
    assert_eq!(lines[1], "-".repeat(46));
    assert_eq!(lines[2], format!("{:<20} {:>6} {:>6} {:>10}", "Sci-Fi", 3, 1, "4.5"));
    assert_eq!(lines[3], format!("{:<20} {:>6} {:>6} {:>10}", "Classic", 2, 0, "  -"));
    assert_eq!(lines.len(), 4);
    assert_eq!(genre_stats(&Vec::new()), vec!["No books in the library.".to_string()]);
}

#[test]
fn author_table() {
    let rows = vec![AuthorStat {
        author: "An author whose name is long".to_string(),
        total: 12,
        read_count: Some(3),
        first_published: Some(1990),
        latest_published: None,
    }];
    let lines = author_stats(&rows);
    assert_eq!(lines[0], format!("{:<20} {:>6} {:>6} {:>14} {:>14}", "Author", "Books", "Read", "First Pub", "Latest Pub"));
    assert_eq!(lines[1], "-".repeat(66));
    assert_eq!(lines[2], format!("{:<20} {:>6} {:>6} {:>14} {:>14}", "An author whose name is long", 12, 3, "1990", "?"));
    assert_eq!(lines.len(), 3);
    assert_eq!(author_stats(&Vec::new()), vec!["No books in the library.".to_string()]);
}

#[test]
fn summary_counts() {
    assert_eq!(
        show_counts(8, 3, 2, Some("4.5".to_string())),
        vec![
            "Total books:     8".to_string(),
            "Read:            3 (37%)".to_string(),
            "Unread:          5".to_string(),
            "With ratings:    2".to_string(),
            "Average rating:  4.5 / 5".to_string(),
        ]
    );
    assert_eq!(
        show_counts(0, 0, 0, None),
        vec![
            "Total books:     0".to_string(),
            "Read:            0 (0%)".to_string(),
            "Unread:          0".to_string(),
            "With ratings:    0".to_string(),
        ]
    );
}

#[test]
fn summary_percent_truncates_toward_zero() {
    let lines = show_counts(3, -1, 0, None);
    assert_eq!(lines[1], format!("Read:            -1 ({}%)", (-1i64 * 100) / 3));
}

#[test]
fn action_messages() {
    assert_eq!(added_message("Dune", "Frank Herbert"), "Added: \"Dune\" by Frank Herbert");
    assert_eq!(read_flag(true), 1);
    assert_eq!(read_flag(false), 0);
    assert_eq!(marked_message(3, true, 1), "Marked book 3 as read.");
    assert_eq!(marked_message(3, false, 1), "Marked book 3 as unread.");
    assert_eq!(marked_message(9, true, 0), "No book found with ID 9.");
    assert_eq!(rated_message(3, 4, 1), "Rated book 3 with 4 stars.");
    assert_eq!(rated_message(3, 4, 0), "No book found with ID 3.");
    assert_eq!(deleted_message(7, 2), "Deleted book 7.");
    assert_eq!(deleted_message(7, 0), "No book found with ID 7.");
    assert_eq!(import_started_message(3), "Importing 3 books...");
    assert_eq!(import_finished_message(3), "Successfully imported 3 books.");
}

#[test]
fn rating_bounds() {
    for r in 1..=5 {
        assert!(check_rating(r).is_ok());
    }
    for r in [0, 6, -1, i32::MAX, i32::MIN] {
        match check_rating(r) {
            Err(AppError::Message(m)) => assert_eq!(m, "Rating must be between 1 and 5."),
            other => panic!("unexpected {:?}", other),
        }
    }
}

#[test]
fn error_messages() {
    assert_eq!(AppError::Db("down".to_string()).message(), "Database error: down");
    assert_eq!(AppError::Migrate("m".to_string()).message(), "Migration error: m");
    assert_eq!(AppError::Io("gone".to_string()).message(), "IO error: gone");
    assert_eq!(AppError::Json("bad".to_string()).message(), "JSON error: bad");
    assert_eq!(AppError::Message("plain".to_string()).message(), "plain");
    assert_eq!(invalid_json_error("eof").message(), "Invalid JSON: eof");
    assert_eq!(import_row_error(0, "duplicate").message(), "Row 1: duplicate");
}

fn expect_message(r: Result<Command, AppError>, text: &str) {
    match r {
        Err(AppError::Message(m)) => assert_eq!(m, text),
        Err(e) => panic!("unexpected error {:?}", e),
        Ok(_) => panic!("expected an error"),
    }
}

fn expect_hint(r: Result<Command, AppError>, text: &str) {
    match r {
        Ok(Command::Hint(h)) => assert_eq!(h, text),
        _ => panic!("expected a hint"),
    }
}

#[test]
fn parse_usage_and_unknown() {
    assert!(matches!(parse_args(&vec!["books".to_string()]), Ok(Command::Usage)));
    match parse_args(&args(&["frobnicate"])) {
        Ok(Command::Unknown(w)) => assert_eq!(w, "frobnicate"),
        _ => panic!("expected unknown"),
    }
    assert_eq!(unknown_command_message("frobnicate"), "Unknown command: frobnicate");
    assert_eq!(usage_lines().len(), 18);
    assert_eq!(usage_lines()[0], "Book Library CLI");
}

#[test]
fn parse_add() {
    match parse_args(&args(&["add", "Dune", "Frank Herbert", "Sci-Fi", "1965"])) {
        Ok(Command::Add { title, author, genre, year }) => {
            assert_eq!((title.as_str(), author.as_str(), genre.as_str(), year), ("Dune", "Frank Herbert", "Sci-Fi", Some(1965)));
        }
        _ => panic!("expected add"),
    }
    match parse_args(&args(&["add", "Dune", "Frank Herbert", "Sci-Fi"])) {
        Ok(Command::Add { year, .. }) => assert_eq!(year, None),
        _ => panic!("expected add"),
    }
    expect_hint(parse_args(&args(&["add", "Dune", "Frank Herbert"])), "Usage: cargo run -- add <title> <author> <genre> [year]");
    expect_message(parse_args(&args(&["add", "Dune", "F", "S", "soon"])), "Invalid year.");
}

#[test]
fn parse_list_flags() {
    match parse_args(&args(&["list", "--unread", "--sort", "year", "--desc", "--limit", "5", "--offset", "10", "--bogus"])) {
        Ok(Command::List(o)) => {
            assert!(o.unread_only && o.descending);
            assert_eq!(o.sort_by, "year");
            assert_eq!((o.limit, o.offset), (Some(5), Some(10)));
        }
        _ => panic!("expected list"),
    }
    match parse_args(&args(&["list", "--limit", "5", "--limit", "x", "--sort"])) {
        Ok(Command::List(o)) => {
            assert!(!o.unread_only && !o.descending);
            assert_eq!(o.sort_by, "id");
            assert_eq!((o.limit, o.offset), (None, None));
        }
        _ => panic!("expected list"),
    }
}

#[test]
fn parse_searches_and_import() {
    match parse_args(&args(&["search", "dune"])) {
        Ok(Command::Search(q)) => assert_eq!(q, "dune"),
        _ => panic!("expected search"),
    }
    match parse_args(&args(&["search-author", "Austen"])) {
        Ok(Command::SearchAuthor(q)) => assert_eq!(q, "Austen"),
        _ => panic!("expected author search"),
    }
    match parse_args(&args(&["search-genre", "Classic"])) {
        Ok(Command::SearchGenre(q)) => assert_eq!(q, "Classic"),
        _ => panic!("expected genre search"),
    }
    match parse_args(&args(&["import", "books.json"])) {
        Ok(Command::Import(p)) => assert_eq!(p, "books.json"),
        _ => panic!("expected import"),
    }
    expect_hint(parse_args(&args(&["search"])), "Usage: cargo run -- search <query>");
    expect_hint(parse_args(&args(&["search-author", "a", "b"])), "Usage: cargo run -- search-author <author>");
    expect_hint(parse_args(&args(&["search-genre"])), "Usage: cargo run -- search-genre <genre>");
    expect_hint(parse_args(&args(&["import"])), "Usage: cargo run -- import <file.json>");
}

#[test]
fn parse_id_commands() {
    assert!(matches!(parse_args(&args(&["read", "4"])), Ok(Command::Mark { id: 4, read: true })));
    assert!(matches!(parse_args(&args(&["unread", "4"])), Ok(Command::Mark { id: 4, read: false })));
    assert!(matches!(parse_args(&args(&["delete", "-2"])), Ok(Command::Delete(-2))));
    assert!(matches!(parse_args(&args(&["rate", "4", "5"])), Ok(Command::Rate { id: 4, rating: 5 })));
    assert!(matches!(parse_args(&args(&["rate", "4", "9"])), Ok(Command::Rate { id: 4, rating: 9 })));
    expect_message(parse_args(&args(&["read", "four"])), "Invalid ID.");
    expect_message(parse_args(&args(&["rate", "x", "y"])), "Invalid ID.");
    expect_message(parse_args(&args(&["rate", "4", "y"])), "Invalid rating.");
    expect_hint(parse_args(&args(&["read"])), "Usage: cargo run -- read <id>");
    expect_hint(parse_args(&args(&["unread", "1", "2"])), "Usage: cargo run -- unread <id>");
    expect_hint(parse_args(&args(&["rate", "1"])), "Usage: cargo run -- rate <id> <1-5>");
    expect_hint(parse_args(&args(&["delete"])), "Usage: cargo run -- delete <id>");
}

#[test]
fn parse_stat_commands() {
    assert!(matches!(parse_args(&args(&["genres"])), Ok(Command::Genres)));
    assert!(matches!(parse_args(&args(&["authors", "extra"])), Ok(Command::Authors)));
    assert!(matches!(parse_args(&args(&["stats"])), Ok(Command::Stats)));
}
