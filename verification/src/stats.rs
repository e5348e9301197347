//! The statistics tables: books per genre, books per author, and the
//! summary of the whole library.

use vstd::prelude::*;
use crate::listing::texts;
use crate::text::{
    int_text, pad_left, pad_right, push_int, push_padded_left, push_padded_right,
    repeat_char,
};

verus! {

/// One row of the genre table.  `avg_rating` is the average rating as the
/// caller has written it with one decimal, when the genre has ratings.
#[derive(Debug)]
pub struct GenreStat {
    pub genre: String,
    pub total: i64,
    pub read_count: Option<i64>,
    pub avg_rating: Option<String>,
}

/// One row of the author table.
#[derive(Debug)]
pub struct AuthorStat {
    pub author: String,
    pub total: i64,
    pub read_count: Option<i64>,
    pub first_published: Option<i32>,
    pub latest_published: Option<i32>,
}

/// `read_count.unwrap_or(0)`.
pub open spec fn count_or_zero(c: Option<i64>) -> int {
    match c {
        Some(n) => n as int,
        None => 0,
    }
}

/// A year, or "?" when unknown.
pub open spec fn year_or_unknown(y: Option<i32>) -> Seq<char> {
    match y {
        Some(v) => int_text(v as int),
        None => "?"@,
    }
}

/// The average rating, or "  -" when there is none.
pub open spec fn average_or_dash(avg: Option<String>) -> Seq<char> {
    match avg {
        Some(a) => a@,
        None => "  -"@,
    }
}

/// `{:<20} {:>6} {:>6} {:>10}` of the genre table.
pub open spec fn genre_row_text(
    genre: Seq<char>,
    total: Seq<char>,
    read: Seq<char>,
    avg: Seq<char>,
) -> Seq<char> {
    pad_right(genre, 20) + " "@ + pad_left(total, 6) + " "@ + pad_left(read, 6) + " "@ + pad_left(
        avg,
        10,
    )
}

/// `{:<20} {:>6} {:>6} {:>14} {:>14}` of the author table.
pub open spec fn author_row_text(
    author: Seq<char>,
    total: Seq<char>,
    read: Seq<char>,
    first: Seq<char>,
    latest: Seq<char>,
) -> Seq<char> {
    pad_right(author, 20) + " "@ + pad_left(total, 6) + " "@ + pad_left(read, 6) + " "@ + pad_left(
        first,
        14,
    ) + " "@ + pad_left(latest, 14)
}

/// The line of the genre table for one genre.
pub open spec fn genre_line(row: GenreStat) -> Seq<char> {
    genre_row_text(
        row.genre@,
        int_text(row.total as int),
        int_text(count_or_zero(row.read_count)),
        average_or_dash(row.avg_rating),
    )
}

/// The line of the author table for one author.
pub open spec fn author_line(row: AuthorStat) -> Seq<char> {
    author_row_text(
        row.author@,
        int_text(row.total as int),
        int_text(count_or_zero(row.read_count)),
        year_or_unknown(row.first_published),
        year_or_unknown(row.latest_published),
    )
}

/// The genre table: a header, a rule and a line per genre; or a notice
/// when the library is empty.
pub open spec fn genre_table(rows: Seq<GenreStat>) -> Seq<Seq<char>> {
    if rows.len() == 0 {
        seq!["No books in the library."@]
    } else {
        seq![
            genre_row_text("Genre"@, "Books"@, "Read"@, "Avg Rating"@),
            repeat_char('-', 46),
        ] + rows.map_values(|r: GenreStat| genre_line(r))
    }
}

/// The author table: a header, a rule and a line per author; or a notice
/// when the library is empty.
pub open spec fn author_table(rows: Seq<AuthorStat>) -> Seq<Seq<char>> {
    if rows.len() == 0 {
        seq!["No books in the library."@]
    } else {
        seq![
            author_row_text("Author"@, "Books"@, "Read"@, "First Pub"@, "Latest Pub"@),
            repeat_char('-', 66),
        ] + rows.map_values(|r: AuthorStat| author_line(r))
    }
}

fn rule(width: usize) -> (r: String)
    ensures
        r@ == repeat_char('-', width as nat),
{
    let mut s = String::new();
    let mut i: usize = 0;
    while i < width
        invariant
            i <= width,
            s@ =~= repeat_char('-', i as nat),
        decreases width - i,
    {
        proof {
            reveal_strlit("-");
        }
        s.append("-");
        i = i + 1;
    }
    s
}

fn push_count_field(s: &mut String, n: i64, width: usize)
    ensures
        final(s)@ == old(s)@ + pad_left(int_text(n as int), width as nat),
{
    let mut t = String::new();
    push_int(&mut t, n);
    assert(t@ =~= int_text(n as int));
    push_padded_left(s, t.as_str(), width);
}

fn push_year_field(s: &mut String, y: Option<i32>, width: usize)
    ensures
        final(s)@ == old(s)@ + pad_left(year_or_unknown(y), width as nat),
{
    let mut t = String::new();
    match y {
        Some(v) => push_int(&mut t, v as i64),
        None => t.append("?"),
    }
    assert(t@ =~= year_or_unknown(y));
    push_padded_left(s, t.as_str(), width);
}

fn unwrap_count(c: Option<i64>) -> (r: i64)
    ensures
        r as int == count_or_zero(c),
{
    match c {
        Some(n) => n,
        None => 0,
    }
}

fn genre_row(row: &GenreStat) -> (r: String)
    ensures
        r@ == genre_line(*row),
{
    let mut s = String::new();
    push_padded_right(&mut s, row.genre.as_str(), 20);
    s.append(" ");
    push_count_field(&mut s, row.total, 6);
    s.append(" ");
    push_count_field(&mut s, unwrap_count(row.read_count), 6);
    s.append(" ");
    match &row.avg_rating {
        Some(a) => push_padded_left(&mut s, a.as_str(), 10),
        None => push_padded_left(&mut s, "  -", 10),
    }
    assert(s@ =~= genre_line(*row));
    s
}

fn author_row(row: &AuthorStat) -> (r: String)
    ensures
        r@ == author_line(*row),
{
    let mut s = String::new();
    push_padded_right(&mut s, row.author.as_str(), 20);
    s.append(" ");
    push_count_field(&mut s, row.total, 6);
    s.append(" ");
    push_count_field(&mut s, unwrap_count(row.read_count), 6);
    s.append(" ");
    push_year_field(&mut s, row.first_published, 14);
    s.append(" ");
    push_year_field(&mut s, row.latest_published, 14);
    assert(s@ =~= author_line(*row));
    s
}

/// The lines of the genre table.
pub fn genre_stats(rows: &Vec<GenreStat>) -> (r: Vec<String>)
    ensures
        texts(r@) == genre_table(rows@),
{
    let mut lines: Vec<String> = Vec::new();
    if rows.len() == 0 {
        lines.push(String::from_str("No books in the library."));
        assert(texts(lines@) =~= genre_table(rows@));
        return lines;
    }
    let mut header = String::new();
    push_padded_right(&mut header, "Genre", 20);
    header.append(" ");
    push_padded_left(&mut header, "Books", 6);
    header.append(" ");
    push_padded_left(&mut header, "Read", 6);
    header.append(" ");
    push_padded_left(&mut header, "Avg Rating", 10);
    lines.push(header);
    lines.push(rule(46));
    let ghost head = texts(lines@);
    let mut k: usize = 0;
    while k < rows.len()
        invariant
            k <= rows@.len(),
            texts(lines@) =~= head + rows@.subrange(0, k as int).map_values(
                |r: GenreStat| genre_line(r),
            ),
        decreases rows@.len() - k,
    {
        let line = genre_row(&rows[k]);
        let ghost before = lines@;
        lines.push(line);
        proof {
            assert(texts(lines@) =~= texts(before).push(line@));
            assert(rows@.subrange(0, k as int + 1) =~= rows@.subrange(0, k as int).push(
                rows@[k as int],
            ));
        }
        k = k + 1;
    }
    assert(rows@.subrange(0, rows@.len() as int) =~= rows@);
    assert(texts(lines@) =~= genre_table(rows@));
    lines
}

/// The lines of the author table.
pub fn author_stats(rows: &Vec<AuthorStat>) -> (r: Vec<String>)
    ensures
        texts(r@) == author_table(rows@),
{
    let mut lines: Vec<String> = Vec::new();
    if rows.len() == 0 {
        lines.push(String::from_str("No books in the library."));
        assert(texts(lines@) =~= author_table(rows@));
        return lines;
    }
    let mut header = String::new();
    push_padded_right(&mut header, "Author", 20);
    header.append(" ");
    push_padded_left(&mut header, "Books", 6);
    header.append(" ");
    push_padded_left(&mut header, "Read", 6);
    header.append(" ");
    push_padded_left(&mut header, "First Pub", 14);
    header.append(" ");
    push_padded_left(&mut header, "Latest Pub", 14);
    lines.push(header);
    lines.push(rule(66));
    let ghost head = texts(lines@);
    let mut k: usize = 0;
    while k < rows.len()
        invariant
            k <= rows@.len(),
            texts(lines@) =~= head + rows@.subrange(0, k as int).map_values(
                |r: AuthorStat| author_line(r),
            ),
        decreases rows@.len() - k,
    {
        let line = author_row(&rows[k]);
        let ghost before = lines@;
        lines.push(line);
        proof {
            assert(texts(lines@) =~= texts(before).push(line@));
            assert(rows@.subrange(0, k as int + 1) =~= rows@.subrange(0, k as int).push(
                rows@[k as int],
            ));
        }
        k = k + 1;
    }
    assert(rows@.subrange(0, rows@.len() as int) =~= rows@);
    assert(texts(lines@) =~= author_table(rows@));
    lines
}

/// Integer division that rounds toward zero, as Rust's `/` does.
pub open spec fn div_toward_zero(a: int, b: int) -> int {
    if a >= 0 {
        a / b
    } else {
        -((-a) / b)
    }
}

/// The share of read books in whole percent, as `(read * 100) / total`
/// computes it, or 0 for an empty library.
pub open spec fn read_percent(total: int, read: int) -> int {
    if total > 0 {
        div_toward_zero(read * 100, total)
    } else {
        0
    }
}

/// The summary lines: totals, the share read, the unread count, the count
/// of rated books, and the average rating when there is one.
pub open spec fn summary_text(total: int, read: int, rated: int, avg: Option<String>) -> Seq<
    Seq<char>,
> {
    let head = seq![
        "Total books:     "@ + int_text(total),
        "Read:            "@ + int_text(read) + " ("@ + int_text(read_percent(total, read)) + "%)"@,
        "Unread:          "@ + int_text(total - read),
        "With ratings:    "@ + int_text(rated),
    ];
    match avg {
        Some(a) => head.push("Average rating:  "@ + a@ + " / 5"@),
        None => head,
    }
}

/// The summary of the library.  The arithmetic is that of `i64`, so the
/// inputs must keep `read_count * 100` and `total - read_count` in range.
pub fn show_counts(total: i64, read_count: i64, has_ratings: i64, avg_rating: Option<String>) -> (r:
    Vec<String>)
    requires
        i64::MIN <= read_count * 100 <= i64::MAX,
        i64::MIN <= total - read_count <= i64::MAX,
    ensures
        texts(r@) == summary_text(total as int, read_count as int, has_ratings as int, avg_rating),
{
    let percent: i64 = if total > 0 {
        let scaled: i64 = read_count * 100;
        if scaled >= 0 {
            scaled / total
        } else {
            let magnitude: i128 = -(scaled as i128);
            let q: i128 = magnitude / (total as i128);
            (-q) as i64
        }
    } else {
        0
    };
    let mut lines: Vec<String> = Vec::new();
    let mut a = String::from_str("Total books:     ");
    push_int(&mut a, total);
    lines.push(a);
    let mut b = String::from_str("Read:            ");
    push_int(&mut b, read_count);
    b.append(" (");
    push_int(&mut b, percent);
    b.append("%)");
    lines.push(b);
    let mut c = String::from_str("Unread:          ");
    push_int(&mut c, total - read_count);
    lines.push(c);
    let mut d = String::from_str("With ratings:    ");
    push_int(&mut d, has_ratings);
    lines.push(d);
    match &avg_rating {
        Some(avg) => {
            let mut e = String::from_str("Average rating:  ");
            e.append(avg.as_str());
            e.append(" / 5");
            lines.push(e);
        },
        None => {},
    }
    assert(texts(lines@) =~= summary_text(
        total as int,
        read_count as int,
        has_ratings as int,
        avg_rating,
    ));
    lines
}

/// In a library whose read count lies between 0 and the total, the share
/// read lies between 0 and 100 percent.
pub proof fn lemma_read_percent_bounds(total: int, read: int)
    requires
        0 <= read <= total,
    ensures
        0 <= read_percent(total, read) <= 100,
{
    if total > 0 {
        assert(read * 100 <= total * 100) by (nonlinear_arith)
            requires
                read <= total,
        ;
        assert((read * 100) / total <= 100) by (nonlinear_arith)
            requires
                read * 100 <= total * 100,
                total > 0,
                read >= 0,
        ;
        assert((read * 100) / total >= 0) by (nonlinear_arith)
            requires
                total > 0,
                read >= 0,
        ;
    }
}

/// Each column of a genre line holds its own value, separated by single
/// spaces: the genre left-aligned in 20 characters, the number of books,
/// the read count (0 when there is none) right-aligned in 6, and the
/// average rating (or "  -") right-aligned in 10.
pub proof fn lemma_genre_line_columns(row: GenreStat)
    ensures
        ({
            let genre = pad_right(row.genre@, 20);
            let total = pad_left(int_text(row.total as int), 6);
            let read = pad_left(
                int_text(
                    match row.read_count {
                        Some(n) => n as int,
                        None => 0,
                    },
                ),
                6,
            );
            let avg = pad_left(
                match row.avg_rating {
                    Some(a) => a@,
                    None => "  -"@,
                },
                10,
            );
            let line = genre_line(row);
            let at_total: int = genre.len() as int + 1;
            let at_read: int = at_total + total.len() + 1;
            let at_avg: int = at_read + read.len() + 1;
            &&& line.len() == at_avg + avg.len()
            &&& line.subrange(0, genre.len() as int) == genre
            &&& line[genre.len() as int] == ' '
            &&& line.subrange(at_total, at_total + total.len()) == total
            &&& line[at_total + total.len()] == ' '
            &&& line.subrange(at_read, at_read + read.len()) == read
            &&& line[at_read + read.len()] == ' '
            &&& line.subrange(at_avg, line.len() as int) == avg
        }),
{
    reveal_strlit(" ");
    let genre = pad_right(row.genre@, 20);
    let total = pad_left(int_text(row.total as int), 6);
    let read = pad_left(int_text(count_or_zero(row.read_count)), 6);
    let avg = pad_left(average_or_dash(row.avg_rating), 10);
    let line = genre_line(row);
    let sp = " "@;
    assert(line =~= genre + sp + total + sp + read + sp + avg);
    let at_total: int = genre.len() as int + 1;
    let at_read: int = at_total + total.len() + 1;
    let at_avg: int = at_read + read.len() + 1;
    assert(line.subrange(0, genre.len() as int) =~= genre);
    assert(line.subrange(at_total, at_total + total.len()) =~= total);
    assert(line.subrange(at_read, at_read + read.len()) =~= read);
    assert(line.subrange(at_avg, line.len() as int) =~= avg);
}

/// Each column of an author line holds its own value, separated by single
/// spaces: the author left-aligned in 20 characters, the number of books
/// and the read count (0 when there is none) right-aligned in 6, and the
/// first and the latest year of publication (or "?") right-aligned in 14.
pub proof fn lemma_author_line_columns(row: AuthorStat)
    ensures
        ({
            let author = pad_right(row.author@, 20);
            let total = pad_left(int_text(row.total as int), 6);
            let read = pad_left(
                int_text(
                    match row.read_count {
                        Some(n) => n as int,
                        None => 0,
                    },
                ),
                6,
            );
            let first = pad_left(
                match row.first_published {
                    Some(y) => int_text(y as int),
                    None => "?"@,
                },
                14,
            );
            let latest = pad_left(
                match row.latest_published {
                    Some(y) => int_text(y as int),
                    None => "?"@,
                },
                14,
            );
            let line = author_line(row);
            let at_total: int = author.len() as int + 1;
            let at_read: int = at_total + total.len() + 1;
            let at_first: int = at_read + read.len() + 1;
            let at_latest: int = at_first + first.len() + 1;
            &&& line.len() == at_latest + latest.len()
            &&& line.subrange(0, author.len() as int) == author
            &&& line[author.len() as int] == ' '
            &&& line.subrange(at_total, at_total + total.len()) == total
            &&& line[at_total + total.len()] == ' '
            &&& line.subrange(at_read, at_read + read.len()) == read
            &&& line[at_read + read.len()] == ' '
            &&& line.subrange(at_first, at_first + first.len()) == first
            &&& line[at_first + first.len()] == ' '
            &&& line.subrange(at_latest, line.len() as int) == latest
        }),
{
    reveal_strlit(" ");
    let author = pad_right(row.author@, 20);
    let total = pad_left(int_text(row.total as int), 6);
    let read = pad_left(int_text(count_or_zero(row.read_count)), 6);
    let first = pad_left(year_or_unknown(row.first_published), 14);
    let latest = pad_left(year_or_unknown(row.latest_published), 14);
    let line = author_line(row);
    let sp = " "@;
    assert(line =~= author + sp + total + sp + read + sp + first + sp + latest);
    let at_total: int = author.len() as int + 1;
    let at_read: int = at_total + total.len() + 1;
    let at_first: int = at_read + read.len() + 1;
    let at_latest: int = at_first + first.len() + 1;
    assert(line.subrange(0, author.len() as int) =~= author);
    assert(line.subrange(at_total, at_total + total.len()) =~= total);
    assert(line.subrange(at_read, at_read + read.len()) =~= read);
    assert(line.subrange(at_first, at_first + first.len()) =~= first);
    assert(line.subrange(at_latest, line.len() as int) =~= latest);
}

/// A table with rows has a header, a rule of dashes, and then one line
/// per row in the order given; an empty table is the single notice.
pub proof fn lemma_tables_list_each_row(genres: Seq<GenreStat>, authors: Seq<AuthorStat>)
    ensures
        genres.len() == 0 ==> genre_table(genres) == seq!["No books in the library."@],
        genres.len() > 0 ==> {
            let t = genre_table(genres);
            &&& t.len() == genres.len() + 2
            &&& t[1] == Seq::new(46, |i: int| '-')
            &&& forall|k: int| 0 <= k < genres.len() ==> #[trigger] t[k + 2] == genre_line(genres[k])
        },
        authors.len() == 0 ==> author_table(authors) == seq!["No books in the library."@],
        authors.len() > 0 ==> {
            let t = author_table(authors);
            &&& t.len() == authors.len() + 2
            &&& t[1] == Seq::new(66, |i: int| '-')
            &&& forall|k: int| 0 <= k < authors.len() ==> #[trigger] t[k + 2] == author_line(authors[k])
        },
{
    if genres.len() > 0 {
        assert(genre_table(genres)[1] =~= Seq::new(46, |i: int| '-'));
    }
    if authors.len() > 0 {
        assert(author_table(authors)[1] =~= Seq::new(66, |i: int| '-'));
    }
}

/// The percentage read is the whole number of percent, rounded down,
/// for a library whose read count lies between 0 and the total: `percent`
/// hundredths of the total do not exceed the read count, and one more
/// would.
pub proof fn lemma_read_percent_rounds_down(total: int, read: int)
    requires
        0 <= read <= total,
        total > 0,
    ensures
        read_percent(total, read) * total <= read * 100 < (read_percent(total, read) + 1) * total,
{
    let p = (read * 100) / total;
    assert(p * total <= read * 100 < (p + 1) * total) by (nonlinear_arith)
        requires
            p == (read * 100) / total,
            total > 0,
            read >= 0,
    ;
}

/// The summary has four lines, and a fifth with the average exactly when
/// there is an average; the unread count is the total minus the read
/// count.
pub proof fn lemma_summary_lines(total: int, read: int, rated: int, avg: Option<String>)
    ensures
        summary_text(total, read, rated, avg).len() == (if avg is Some {
            5int
        } else {
            4int
        }),
        summary_text(total, read, rated, avg)[0] == "Total books:     "@ + int_text(total),
        summary_text(total, read, rated, avg)[2] == "Unread:          "@ + int_text(total - read),
        summary_text(total, read, rated, avg)[3] == "With ratings:    "@ + int_text(rated),
        avg matches Some(a) ==> summary_text(total, read, rated, avg)[4] == "Average rating:  "@
            + a@ + " / 5"@,
{
}

} // verus!
