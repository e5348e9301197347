//! The rules and messages of the commands that change the library: adding,
//! marking read or unread, rating, deleting and importing books.

use vstd::prelude::*;
use crate::error::{AppError, is_message};
use crate::text::{int_text, push_count, push_int};

verus! {

/// The message after a book was added.
pub fn added_message(title: &str, author: &str) -> (r: String)
    ensures
        r@ == "Added: \""@ + title@ + "\" by "@ + author@,
{
    let mut s = String::from_str("Added: \"");
    s.append(title);
    s.append("\" by ");
    s.append(author);
    s
}

/// The value stored in the `read` column: 1 for read, 0 for unread.
pub fn read_flag(read: bool) -> (r: i32)
    ensures
        r == (if read {
            1i32
        } else {
            0i32
        }),
{
    if read {
        1
    } else {
        0
    }
}

/// The message when no row has the given id.
pub open spec fn not_found_text(id: i32) -> Seq<char> {
    "No book found with ID "@ + int_text(id as int) + "."@
}

fn not_found_message(id: i32) -> (r: String)
    ensures
        r@ == not_found_text(id),
{
    let mut s = String::from_str("No book found with ID ");
    push_int(&mut s, id as i64);
    s.append(".");
    s
}

/// The message after marking a book read or unread, given how many rows
/// the update changed.
pub fn marked_message(id: i32, read: bool, rows_affected: u64) -> (r: String)
    ensures
        r@ == (if rows_affected == 0 {
            not_found_text(id)
        } else {
            "Marked book "@ + int_text(id as int) + " as "@ + (if read {
                "read"@
            } else {
                "unread"@
            }) + "."@
        }),
{
    if rows_affected == 0 {
        return not_found_message(id);
    }
    let mut s = String::from_str("Marked book ");
    push_int(&mut s, id as i64);
    s.append(" as ");
    if read {
        s.append("read");
    } else {
        s.append("unread");
    }
    s.append(".");
    s
}

/// A rating is accepted when it is from 1 to 5 stars.
pub open spec fn rating_is_valid(rating: i32) -> bool {
    1 <= rating <= 5
}

/// Checks a rating before it is stored: ratings outside 1 to 5 are refused.
pub fn check_rating(rating: i32) -> (r: Result<(), AppError>)
    ensures
        r is Ok <==> rating_is_valid(rating),
        r matches Err(e) ==> is_message(e, "Rating must be between 1 and 5."@),
{
    if rating < 1 || rating > 5 {
        return Err(AppError::Message(String::from_str("Rating must be between 1 and 5.")));
    }
    Ok(())
}

/// The message after rating a book, given how many rows the update
/// changed.
pub fn rated_message(id: i32, rating: i32, rows_affected: u64) -> (r: String)
    ensures
        r@ == (if rows_affected == 0 {
            not_found_text(id)
        } else {
            "Rated book "@ + int_text(id as int) + " with "@ + int_text(rating as int)
                + " stars."@
        }),
{
    if rows_affected == 0 {
        return not_found_message(id);
    }
    let mut s = String::from_str("Rated book ");
    push_int(&mut s, id as i64);
    s.append(" with ");
    push_int(&mut s, rating as i64);
    s.append(" stars.");
    s
}

/// The message after deleting a book, given how many rows were removed.
pub fn deleted_message(id: i32, rows_affected: u64) -> (r: String)
    ensures
        r@ == (if rows_affected == 0 {
            not_found_text(id)
        } else {
            "Deleted book "@ + int_text(id as int) + "."@
        }),
{
    if rows_affected == 0 {
        return not_found_message(id);
    }
    let mut s = String::from_str("Deleted book ");
    push_int(&mut s, id as i64);
    s.append(".");
    s
}

/// The error for an import file that is not a JSON array of books.
pub fn invalid_json_error(detail: &str) -> (r: AppError)
    ensures
        is_message(r, "Invalid JSON: "@ + detail@),
{
    let mut s = String::from_str("Invalid JSON: ");
    s.append(detail);
    AppError::Message(s)
}

/// The message before importing `count` books.
pub fn import_started_message(count: usize) -> (r: String)
    ensures
        r@ == "Importing "@ + int_text(count as int) + " books..."@,
{
    let mut s = String::from_str("Importing ");
    push_count(&mut s, count as u64);
    s.append(" books...");
    s
}

/// The error for the import row at zero-based `index` that the database
/// refused; rows are numbered from 1 in the message.
pub fn import_row_error(index: usize, detail: &str) -> (r: AppError)
    requires
        index < usize::MAX,
    ensures
        is_message(r, "Row "@ + int_text(index + 1) + ": "@ + detail@),
{
    let mut s = String::from_str("Row ");
    push_count(&mut s, index as u64 + 1);
    s.append(": ");
    s.append(detail);
    AppError::Message(s)
}

/// The message after all `count` books were imported.
pub fn import_finished_message(count: usize) -> (r: String)
    ensures
        r@ == "Successfully imported "@ + int_text(count as int) + " books."@,
{
    let mut s = String::from_str("Successfully imported ");
    push_count(&mut s, count as u64);
    s.append(" books.");
    s
}

} // verus!
