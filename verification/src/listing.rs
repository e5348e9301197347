//! Listing and searching: the page of a sorted listing that `--limit` and
//! `--offset` select, and the lines shown for a listing or a search.

use vstd::prelude::*;
use crate::book::{Book, book_line};
use crate::order::{SortColumn, column_named, is_stable_sort, sort_books};
use crate::text::{int_text, push_count};

verus! {

/// The views of a sequence of strings.
pub open spec fn texts(lines: Seq<String>) -> Seq<Seq<char>> {
    lines.map_values(|s: String| s@)
}

/// `x as usize` on a 64-bit target: a negative value wraps around.
pub open spec fn as_word(x: i64) -> int {
    if x >= 0 {
        x as int
    } else {
        x + 0x1_0000_0000_0000_0000
    }
}

/// The first index of the page: `offset.unwrap_or(0) as usize`.
pub open spec fn page_start(offset: Option<i64>) -> int {
    match offset {
        Some(o) => as_word(o),
        None => 0,
    }
}

/// The index after the page: `start + limit as usize`, or the length when
/// there is no limit.
pub open spec fn page_end(len: int, limit: Option<i64>, offset: Option<i64>) -> int {
    match limit {
        Some(l) => page_start(offset) + as_word(l),
        None => len,
    }
}

/// Whether `start + limit as usize` stays within a 64-bit `usize`; beyond
/// it the addition overflows.
pub open spec fn page_fits(limit: Option<i64>, offset: Option<i64>) -> bool {
    match limit {
        Some(l) => page_start(offset) + as_word(l) <= 0xffff_ffff_ffff_ffff,
        None => true,
    }
}

/// The books that `skip(start).take(end - start)` keeps.
pub open spec fn page_of<T>(items: Seq<T>, limit: Option<i64>, offset: Option<i64>) -> Seq<T> {
    let start = page_start(offset);
    let end = page_end(items.len() as int, limit, offset);
    if start >= items.len() {
        Seq::empty()
    } else if end < items.len() {
        items.subrange(start, end)
    } else {
        items.subrange(start, items.len() as int)
    }
}

fn word_of(x: i64) -> (r: u64)
    ensures
        r as int == as_word(x),
{
    if x >= 0 {
        x as u64
    } else {
        let wide: i128 = x as i128 + 0x1_0000_0000_0000_0000i128;
        wide as u64
    }
}

/// The page of `books` that the limit and offset select.
pub fn page_books(books: &Vec<Book>, limit: Option<i64>, offset: Option<i64>) -> (r: Vec<Book>)
    requires
        page_fits(limit, offset),
    ensures
        r@ == page_of(books@, limit, offset),
{
    let len = books.len() as u64;
    let start: u64 = match offset {
        Some(o) => word_of(o),
        None => 0,
    };
    let mut page: Vec<Book> = Vec::new();
    if start >= len {
        assert(page@ =~= page_of(books@, limit, offset));
        return page;
    }
    let end: u64 = match limit {
        Some(l) => start + word_of(l),
        None => len,
    };
    let stop: u64 = if end < len {
        end
    } else {
        len
    };
    let first = start as usize;
    let last = stop as usize;
    let mut k: usize = first;
    while k < last
        invariant
            len == books@.len(),
            first <= k <= last <= len,
            page@ =~= books@.subrange(first as int, k as int),
        decreases last - k,
    {
        let b = books[k].clone();
        page.push(b);
        k = k + 1;
    }
    assert(page@ =~= page_of(books@, limit, offset));
    page
}

/// The lines shown for a page of a listing of `total` books: the books,
/// then a blank line and a count; or a notice when the page is empty.
pub open spec fn listing_lines(page: Seq<Book>, total: int) -> Seq<Seq<char>> {
    if page.len() == 0 {
        seq!["No books found."@]
    } else {
        page.map_values(|b: Book| book_line(b)) + seq![
            Seq::empty(),
            int_text(page.len() as int) + " book(s) shown (total: "@ + int_text(total) + ")"@,
        ]
    }
}

/// The lines shown for the books that a search found, or the given notice
/// when it found none.
pub open spec fn found_lines(found: Seq<Book>, none_text: Seq<char>) -> Seq<Seq<char>> {
    if found.len() == 0 {
        seq![none_text]
    } else {
        found.map_values(|b: Book| book_line(b)) + seq![
            Seq::empty(),
            int_text(found.len() as int) + " book(s) found"@,
        ]
    }
}

fn book_lines(books: &Vec<Book>) -> (r: Vec<String>)
    ensures
        texts(r@) == books@.map_values(|b: Book| book_line(b)),
{
    let mut lines: Vec<String> = Vec::new();
    let mut k: usize = 0;
    while k < books.len()
        invariant
            k <= books@.len(),
            texts(lines@) =~= books@.subrange(0, k as int).map_values(|b: Book| book_line(b)),
        decreases books@.len() - k,
    {
        let line = books[k].display_line();
        let ghost before = lines@;
        lines.push(line);
        proof {
            assert(lines@ == before.push(line));
            assert(texts(lines@) =~= texts(before).push(line@));
            assert(books@.subrange(0, k as int + 1) =~= books@.subrange(0, k as int).push(books@[k as int]));
        }
        k = k + 1;
    }
    assert(books@.subrange(0, books@.len() as int) =~= books@);
    lines
}

/// The lines shown for one page of a listing of `total` books.
pub fn listing_report(page: &Vec<Book>, total: usize) -> (r: Vec<String>)
    ensures
        texts(r@) == listing_lines(page@, total as int),
{
    if page.len() == 0 {
        let mut lines: Vec<String> = Vec::new();
        lines.push(String::from_str("No books found."));
        assert(texts(lines@) =~= listing_lines(page@, total as int));
        return lines;
    }
    let mut lines = book_lines(page);
    lines.push(String::new());
    let mut summary = String::new();
    push_count(&mut summary, page.len() as u64);
    summary.append(" book(s) shown (total: ");
    push_count(&mut summary, total as u64);
    summary.append(")");
    lines.push(summary);
    assert(texts(lines@) =~= listing_lines(page@, total as int));
    lines
}

/// What a listing shows: the books sorted stably by the column that
/// `sort_by` names (descending when asked), the page that the limit and
/// offset select, and the count of all books fetched.
pub fn list_books(
    books: &Vec<Book>,
    sort_by: &str,
    descending: bool,
    limit: Option<i64>,
    offset: Option<i64>,
) -> (r: Vec<String>)
    requires
        page_fits(limit, offset),
    ensures
        exists|sorted: Seq<Book>|
            {
                &&& is_stable_sort(sorted, books@, column_named(sort_by@), descending)
                &&& texts(r@) == listing_lines(page_of(sorted, limit, offset), books@.len() as int)
            },
{
    let column = SortColumn::from_name(sort_by);
    let sorted = sort_books(books, column, descending);
    let page = page_books(&sorted, limit, offset);
    let lines = listing_report(&page, books.len());
    assert(is_stable_sort(sorted@, books@, column_named(sort_by@), descending));
    lines
}

/// The lines shown for the books that a search found.
pub fn found_report(found: &Vec<Book>, none_text: String) -> (r: Vec<String>)
    ensures
        texts(r@) == found_lines(found@, none_text@),
{
    if found.len() == 0 {
        let mut lines: Vec<String> = Vec::new();
        lines.push(none_text);
        assert(texts(lines@) =~= found_lines(found@, none_text@));
        return lines;
    }
    let mut lines = book_lines(found);
    lines.push(String::new());
    let mut summary = String::new();
    push_count(&mut summary, found.len() as u64);
    summary.append(" book(s) found");
    lines.push(summary);
    assert(texts(lines@) =~= found_lines(found@, none_text@));
    lines
}

/// The `ILIKE` pattern that matches any text containing `query`.
pub open spec fn like_pattern(query: Seq<char>) -> Seq<char> {
    "%"@ + query + "%"@
}

/// `format!("%{}%", query)`.
pub fn search_pattern(query: &str) -> (r: String)
    ensures
        r@ == like_pattern(query@),
{
    let mut s = String::from_str("%");
    s.append(query);
    s.append("%");
    s
}

/// The lines shown for a search over title, author and genre.
pub fn search_books(found: &Vec<Book>, query: &str) -> (r: Vec<String>)
    ensures
        texts(r@) == found_lines(found@, "No books matching \""@ + query@ + "\"."@),
{
    let mut none_text = String::from_str("No books matching \"");
    none_text.append(query);
    none_text.append("\".");
    found_report(found, none_text)
}

/// The lines shown for a search by author.
pub fn search_by_author(found: &Vec<Book>, author: &str) -> (r: Vec<String>)
    ensures
        texts(r@) == found_lines(found@, "No books by author matching \""@ + author@ + "\"."@),
{
    let mut none_text = String::from_str("No books by author matching \"");
    none_text.append(author);
    none_text.append("\".");
    found_report(found, none_text)
}

/// The lines shown for a search by genre.
pub fn search_by_genre(found: &Vec<Book>, genre: &str) -> (r: Vec<String>)
    ensures
        texts(r@) == found_lines(found@, "No books in genre matching \""@ + genre@ + "\"."@),
{
    let mut none_text = String::from_str("No books in genre matching \"");
    none_text.append(genre);
    none_text.append("\".");
    found_report(found, none_text)
}

/// A page never holds more books than the limit allows.
pub proof fn lemma_page_within_limit<T>(items: Seq<T>, limit: i64, offset: Option<i64>)
    requires
        limit >= 0,
    ensures
        page_of(items, Some(limit), offset).len() <= limit,
{
}

/// Consecutive pages join up: the page of `a` items at offset `o`
/// followed by the page of `b` items at offset `o + a` is the page of
/// `a + b` items at offset `o`.
pub proof fn lemma_pages_concatenate<T>(items: Seq<T>, o: i64, a: i64, b: i64)
    requires
        0 <= o,
        0 <= a,
        0 <= b,
        o + a + b <= i64::MAX,
    ensures
        page_of(items, Some(a), Some(o)) + page_of(items, Some(b), Some((o + a) as i64))
            == page_of(items, Some((a + b) as i64), Some(o)),
{
    let first = page_of(items, Some(a), Some(o));
    let second = page_of(items, Some(b), Some((o + a) as i64));
    let whole = page_of(items, Some((a + b) as i64), Some(o));
    assert(first + second =~= whole);
}

/// Without a limit or an offset the page is the whole listing.
pub proof fn lemma_unpaged_is_whole<T>(items: Seq<T>)
    ensures
        page_of(items, None, None) == items,
{
    if items.len() > 0 {
        assert(items.subrange(0, items.len() as int) =~= items);
    } else {
        assert(items =~= Seq::<T>::empty());
    }
}

/// A search report that found books has one line per book, each the
/// book's display line, in the order found, then a blank line and the
/// count; one that found none is the single notice.
pub proof fn lemma_found_report_lists_each(found: Seq<Book>, none_text: Seq<char>)
    ensures
        found.len() == 0 ==> found_lines(found, none_text) == seq![none_text],
        found.len() > 0 ==> {
            let lines = found_lines(found, none_text);
            &&& lines.len() == found.len() + 2
            &&& forall|k: int| 0 <= k < found.len() ==> #[trigger] lines[k] == book_line(found[k])
            &&& lines[found.len() as int] == Seq::<char>::empty()
            &&& lines[found.len() as int + 1] == int_text(found.len() as int) + " book(s) found"@
        },
{
}

/// A listing page with books has one line per book of the page, each the
/// book's display line, in page order, then a blank line and the line
/// with the page size and the total; an empty page is the single notice.
pub proof fn lemma_listing_report_lists_each(page: Seq<Book>, total: int)
    ensures
        page.len() == 0 ==> listing_lines(page, total) == seq!["No books found."@],
        page.len() > 0 ==> {
            let lines = listing_lines(page, total);
            &&& lines.len() == page.len() + 2
            &&& forall|k: int| 0 <= k < page.len() ==> #[trigger] lines[k] == book_line(page[k])
            &&& lines[page.len() as int] == Seq::<char>::empty()
            &&& lines[page.len() as int + 1] == int_text(page.len() as int) + " book(s) shown (total: "@
                + int_text(total) + ")"@
        },
{
}

/// The page starts at the offset and keeps the books in their listed
/// order: book `k` of the page is book `offset + k` of the listing, and
/// the page runs to the limit or to the end of the listing.
pub proof fn lemma_page_is_window<T>(items: Seq<T>, limit: Option<i64>, offset: Option<i64>)
    ensures
        ({
            let start = page_start(offset);
            let page = page_of(items, limit, offset);
            &&& forall|k: int| 0 <= k < page.len() ==> #[trigger] page[k] == items[start + k]
            &&& start >= items.len() ==> page.len() == 0
            &&& start < items.len() ==> page.len() == (match limit {
                Some(l) => if start + as_word(l) < items.len() {
                    as_word(l)
                } else {
                    items.len() - start
                },
                None => items.len() - start,
            })
        }),
{
}

} // verus!
