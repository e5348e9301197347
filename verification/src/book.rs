//! The book record and the one-line form in which it is shown.

use vstd::prelude::*;
use crate::text::{int_text, int_to_text, pad_left, push_int, push_padded_left};

verus! {

/// A book as stored: `read` is 0 for unread and anything else for read;
/// `rating`, when present, is a number of stars.
#[derive(Debug)]
pub struct Book {
    pub id: i32,
    pub title: String,
    pub author: String,
    pub genre: String,
    pub year: Option<i32>,
    pub read: i32,
    pub rating: Option<i32>,
}

impl Clone for Book {
    fn clone(&self) -> (r: Book)
        ensures
            r == *self,
    {
        Book {
            id: self.id,
            title: self.title.clone(),
            author: self.author.clone(),
            genre: self.genre.clone(),
            year: self.year,
            read: self.read,
            rating: self.rating,
        }
    }
}

/// The year as shown: its digits, or "????" when unknown.
pub open spec fn year_text(year: Option<i32>) -> Seq<char> {
    match year {
        Some(y) => int_text(y as int),
        None => "????"@,
    }
}

/// The read marker: "[x]" for a read book, "[ ]" otherwise.
pub open spec fn status_text(read: i32) -> Seq<char> {
    if read != 0 {
        "[x]"@
    } else {
        "[ ]"@
    }
}

/// The rating suffix: " ★" and the stars, or nothing when unrated.
pub open spec fn rating_text(rating: Option<i32>) -> Seq<char> {
    match rating {
        Some(r) => " ★"@ + int_text(r as int),
        None => Seq::empty(),
    }
}

/// `{status} {id:3}. {title} by {author} ({genre}) [{year}]` followed by the
/// rating suffix.
pub open spec fn book_line(b: Book) -> Seq<char> {
    status_text(b.read) + " "@ + pad_left(int_text(b.id as int), 3) + ". "@ + b.title@ + " by "@
        + b.author@ + " ("@ + b.genre@ + ") ["@ + year_text(b.year) + "]"@ + rating_text(b.rating)
}

impl Book {
    /// The line under which the book is listed.
    pub fn display_line(&self) -> (r: String)
        ensures
            r@ == book_line(*self),
    {
        let mut s = String::new();
        if self.read != 0 {
            s.append("[x]");
        } else {
            s.append("[ ]");
        }
        s.append(" ");
        let id_text = int_to_text(self.id as i64);
        push_padded_left(&mut s, id_text.as_str(), 3);
        s.append(". ");
        s.append(self.title.as_str());
        s.append(" by ");
        s.append(self.author.as_str());
        s.append(" (");
        s.append(self.genre.as_str());
        s.append(") [");
        match self.year {
            Some(y) => push_int(&mut s, y as i64),
            None => s.append("????"),
        }
        s.append("]");
        match self.rating {
            Some(r) => {
                s.append(" ★");
                push_int(&mut s, r as i64);
            },
            None => {},
        }
        assert(s@ =~= book_line(*self));
        s
    }
}

/// The fields of a book's line, in order: the read marker ("[x]" exactly
/// when the book is read, else "[ ]"), a space, the id right-aligned in 3
/// characters, ". ", the title, " by ", the author, " (", the genre,
/// ") [", the year (or "????"), "]", and then, only for a rated book,
/// " ★" and the rating.
pub proof fn lemma_book_line_fields(b: Book)
    ensures
        ({
            let line = book_line(b);
            let id = pad_left(int_text(b.id as int), 3);
            let year = match b.year {
                Some(y) => int_text(y as int),
                None => "????"@,
            };
            let at_title: int = 4 + id.len() as int + 2;
            let at_author: int = at_title + b.title@.len() + 4;
            let at_genre: int = at_author + b.author@.len() + 2;
            let at_year: int = at_genre + b.genre@.len() + 3;
            let end: int = at_year + year.len() + 1;
            &&& line.subrange(0, 3) == (if b.read != 0 {
                "[x]"@
            } else {
                "[ ]"@
            })
            &&& line[3] == ' '
            &&& line.subrange(4, 4 + id.len() as int) == id
            &&& line.subrange(4 + id.len() as int, at_title) == ". "@
            &&& line.subrange(at_title, at_title + b.title@.len()) == b.title@
            &&& line.subrange(at_author - 4, at_author) == " by "@
            &&& line.subrange(at_author, at_author + b.author@.len()) == b.author@
            &&& line.subrange(at_genre - 2, at_genre) == " ("@
            &&& line.subrange(at_genre, at_genre + b.genre@.len()) == b.genre@
            &&& line.subrange(at_year - 3, at_year) == ") ["@
            &&& line.subrange(at_year, at_year + year.len()) == year
            &&& line[end - 1] == ']'
            &&& line.len() == end + (match b.rating {
                Some(r) => 2 + int_text(r as int).len(),
                None => 0,
            })
            &&& b.rating matches Some(r) ==> line.subrange(end, line.len() as int) == " ★"@
                + int_text(r as int)
        }),
{
    reveal_strlit("[x]");
    reveal_strlit("[ ]");
    reveal_strlit(" ");
    reveal_strlit(". ");
    reveal_strlit(" by ");
    reveal_strlit(" (");
    reveal_strlit(") [");
    reveal_strlit("]");
    reveal_strlit(" ★");
    let line = book_line(b);
    let status = status_text(b.read);
    let id = pad_left(int_text(b.id as int), 3);
    let year = year_text(b.year);
    let head = status + " "@ + id + ". "@ + b.title@ + " by "@ + b.author@ + " ("@ + b.genre@
        + ") ["@ + year + "]"@;
    assert(line =~= head + rating_text(b.rating));
    let at_title: int = 4 + id.len() as int + 2;
    let at_author: int = at_title + b.title@.len() + 4;
    let at_genre: int = at_author + b.author@.len() + 2;
    let at_year: int = at_genre + b.genre@.len() + 3;
    let end: int = at_year + year.len() + 1;
    assert(line.subrange(0, 3) =~= status);
    assert(line.subrange(4, 4 + id.len() as int) =~= id);
    assert(line.subrange(4 + id.len() as int, at_title) =~= ". "@);
    assert(line.subrange(at_title, at_title + b.title@.len()) =~= b.title@);
    assert(line.subrange(at_author - 4, at_author) =~= " by "@);
    assert(line.subrange(at_author, at_author + b.author@.len()) =~= b.author@);
    assert(line.subrange(at_genre - 2, at_genre) =~= " ("@);
    assert(line.subrange(at_genre, at_genre + b.genre@.len()) =~= b.genre@);
    assert(line.subrange(at_year - 3, at_year) =~= ") ["@);
    assert(line.subrange(at_year, at_year + year.len()) =~= year);
    assert(head.len() == end);
    assert(line.subrange(end, line.len() as int) =~= rating_text(b.rating));
}

} // verus!
