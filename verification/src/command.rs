//! The command line: what each invocation asks for, the usage text, and
//! the errors for arguments that do not parse.

use vstd::prelude::*;
use crate::error::{AppError, is_message};
use crate::listing::texts;
use crate::text::{parse_i32, parse_i64, parse_in_range, text_eq};

verus! {

/// The options of `list`.
#[derive(Debug)]
pub struct ListOptions {
    pub unread_only: bool,
    pub sort_by: String,
    pub descending: bool,
    pub limit: Option<i64>,
    pub offset: Option<i64>,
}

/// The options of `list`, with the sort column as text.
pub struct ListOptionsView {
    pub unread_only: bool,
    pub sort_by: Seq<char>,
    pub descending: bool,
    pub limit: Option<i64>,
    pub offset: Option<i64>,
}

impl View for ListOptions {
    type V = ListOptionsView;

    open spec fn view(&self) -> ListOptionsView {
        ListOptionsView {
            unread_only: self.unread_only,
            sort_by: self.sort_by@,
            descending: self.descending,
            limit: self.limit,
            offset: self.offset,
        }
    }
}

/// What an invocation asks for.
#[derive(Debug)]
pub enum Command {
    /// Show the usage text.
    Usage,
    /// Show one usage line for a command given the wrong arguments.
    Hint(String),
    Add { title: String, author: String, genre: String, year: Option<i32> },
    List(ListOptions),
    Search(String),
    SearchAuthor(String),
    SearchGenre(String),
    /// Mark a book read (`read` true) or unread.
    Mark { id: i32, read: bool },
    Rate { id: i32, rating: i32 },
    Delete(i32),
    Import(String),
    Genres,
    Authors,
    Stats,
    /// A command word that is not known; the usage text follows it.
    Unknown(String),
}

/// A command with its texts as character sequences.
pub enum CommandView {
    Usage,
    Hint(Seq<char>),
    Add { title: Seq<char>, author: Seq<char>, genre: Seq<char>, year: Option<i32> },
    List(ListOptionsView),
    Search(Seq<char>),
    SearchAuthor(Seq<char>),
    SearchGenre(Seq<char>),
    Mark { id: i32, read: bool },
    Rate { id: i32, rating: i32 },
    Delete(i32),
    Import(Seq<char>),
    Genres,
    Authors,
    Stats,
    Unknown(Seq<char>),
}

impl View for Command {
    type V = CommandView;

    open spec fn view(&self) -> CommandView {
        match self {
            Command::Usage => CommandView::Usage,
            Command::Hint(t) => CommandView::Hint(t@),
            Command::Add { title, author, genre, year } => CommandView::Add {
                title: title@,
                author: author@,
                genre: genre@,
                year: *year,
            },
            Command::List(o) => CommandView::List(o@),
            Command::Search(q) => CommandView::Search(q@),
            Command::SearchAuthor(q) => CommandView::SearchAuthor(q@),
            Command::SearchGenre(q) => CommandView::SearchGenre(q@),
            Command::Mark { id, read } => CommandView::Mark { id: *id, read: *read },
            Command::Rate { id, rating } => CommandView::Rate { id: *id, rating: *rating },
            Command::Delete(id) => CommandView::Delete(*id),
            Command::Import(p) => CommandView::Import(p@),
            Command::Genres => CommandView::Genres,
            Command::Authors => CommandView::Authors,
            Command::Stats => CommandView::Stats,
            Command::Unknown(w) => CommandView::Unknown(w@),
        }
    }
}

/// `s.parse::<i32>().ok()`, on text.
pub open spec fn parsed_i32(s: Seq<char>) -> Option<i32> {
    match parse_in_range(s, i32::MIN as int, i32::MAX as int) {
        Some(v) => Some(v as i32),
        None => None,
    }
}

/// `s.parse::<i64>().ok()`, on text.
pub open spec fn parsed_i64(s: Seq<char>) -> Option<i64> {
    match parse_in_range(s, i64::MIN as int, i64::MAX as int) {
        Some(v) => Some(v as i64),
        None => None,
    }
}

/// The options of `list` before any flag is read.
pub open spec fn default_list_options() -> ListOptionsView {
    ListOptionsView {
        unread_only: false,
        sort_by: "id"@,
        descending: false,
        limit: None,
        offset: None,
    }
}

/// The options after reading the flags from index `i` on: `--unread` and
/// `--desc` set their switch; `--sort`, `--limit` and `--offset` take the
/// next argument when there is one (a limit or offset that does not parse
/// clears it); anything else is skipped.
pub open spec fn list_flags(args: Seq<Seq<char>>, i: int, opts: ListOptionsView) -> ListOptionsView
    decreases args.len() - i,
{
    if i < 0 || i >= args.len() {
        opts
    } else {
        let flag = args[i];
        if flag == "--unread"@ {
            list_flags(args, i + 1, ListOptionsView { unread_only: true, ..opts })
        } else if flag == "--sort"@ {
            if i + 1 < args.len() {
                list_flags(args, i + 2, ListOptionsView { sort_by: args[i + 1], ..opts })
            } else {
                opts
            }
        } else if flag == "--desc"@ {
            list_flags(args, i + 1, ListOptionsView { descending: true, ..opts })
        } else if flag == "--limit"@ {
            if i + 1 < args.len() {
                list_flags(args, i + 2, ListOptionsView { limit: parsed_i64(args[i + 1]), ..opts })
            } else {
                opts
            }
        } else if flag == "--offset"@ {
            if i + 1 < args.len() {
                list_flags(
                    args,
                    i + 2,
                    ListOptionsView { offset: parsed_i64(args[i + 1]), ..opts },
                )
            } else {
                opts
            }
        } else {
            list_flags(args, i + 1, opts)
        }
    }
}

/// A command that takes a book id as its only argument.
pub open spec fn id_command(
    args: Seq<Seq<char>>,
    hint: Seq<char>,
    make: spec_fn(i32) -> CommandView,
) -> Result<CommandView, Seq<char>> {
    if args.len() != 3 {
        Ok(CommandView::Hint(hint))
    } else {
        match parsed_i32(args[2]) {
            Some(id) => Ok(make(id)),
            None => Err("Invalid ID."@),
        }
    }
}

/// A command that takes one text argument.
pub open spec fn text_command(
    args: Seq<Seq<char>>,
    hint: Seq<char>,
    make: spec_fn(Seq<char>) -> CommandView,
) -> Result<CommandView, Seq<char>> {
    if args.len() != 3 {
        Ok(CommandView::Hint(hint))
    } else {
        Ok(make(args[2]))
    }
}

/// What the arguments (the program name first) ask for, or the message of
/// the error they give.
pub open spec fn command_of(args: Seq<Seq<char>>) -> Result<CommandView, Seq<char>> {
    if args.len() < 2 {
        Ok(CommandView::Usage)
    } else {
        let word = args[1];
        if word == "add"@ {
            if args.len() < 5 {
                Ok(CommandView::Hint("Usage: cargo run -- add <title> <author> <genre> [year]"@))
            } else if args.len() > 5 {
                match parsed_i32(args[5]) {
                    Some(y) => Ok(
                        CommandView::Add {
                            title: args[2],
                            author: args[3],
                            genre: args[4],
                            year: Some(y),
                        },
                    ),
                    None => Err("Invalid year."@),
                }
            } else {
                Ok(CommandView::Add { title: args[2], author: args[3], genre: args[4], year: None })
            }
        } else if word == "list"@ {
            Ok(CommandView::List(list_flags(args, 2, default_list_options())))
        } else if word == "search"@ {
            text_command(
                args,
                "Usage: cargo run -- search <query>"@,
                |q: Seq<char>| CommandView::Search(q),
            )
        } else if word == "search-author"@ {
            text_command(
                args,
                "Usage: cargo run -- search-author <author>"@,
                |q: Seq<char>| CommandView::SearchAuthor(q),
            )
        } else if word == "search-genre"@ {
            text_command(
                args,
                "Usage: cargo run -- search-genre <genre>"@,
                |q: Seq<char>| CommandView::SearchGenre(q),
            )
        } else if word == "read"@ {
            id_command(
                args,
                "Usage: cargo run -- read <id>"@,
                |id: i32| CommandView::Mark { id, read: true },
            )
        } else if word == "unread"@ {
            id_command(
                args,
                "Usage: cargo run -- unread <id>"@,
                |id: i32| CommandView::Mark { id, read: false },
            )
        } else if word == "rate"@ {
            if args.len() != 4 {
                Ok(CommandView::Hint("Usage: cargo run -- rate <id> <1-5>"@))
            } else {
                match parsed_i32(args[2]) {
                    None => Err("Invalid ID."@),
                    Some(id) => match parsed_i32(args[3]) {
                        None => Err("Invalid rating."@),
                        Some(rating) => Ok(CommandView::Rate { id, rating }),
                    },
                }
            }
        } else if word == "delete"@ {
            id_command(
                args,
                "Usage: cargo run -- delete <id>"@,
                |id: i32| CommandView::Delete(id),
            )
        } else if word == "import"@ {
            text_command(
                args,
                "Usage: cargo run -- import <file.json>"@,
                |p: Seq<char>| CommandView::Import(p),
            )
        } else if word == "genres"@ {
            Ok(CommandView::Genres)
        } else if word == "authors"@ {
            Ok(CommandView::Authors)
        } else if word == "stats"@ {
            Ok(CommandView::Stats)
        } else {
            Ok(CommandView::Unknown(word))
        }
    }
}

/// The arguments as text.
pub open spec fn arg_texts(args: Seq<String>) -> Seq<Seq<char>> {
    args.map_values(|s: String| s@)
}

/// Whether a parse outcome is the one `command_of` describes.
pub open spec fn outcome_matches(
    r: Result<Command, AppError>,
    expected: Result<CommandView, Seq<char>>,
) -> bool {
    match (r, expected) {
        (Ok(c), Ok(v)) => c@ == v,
        (Err(e), Err(t)) => is_message(e, t),
        _ => false,
    }
}

fn parse_list_options(args: &Vec<String>) -> (r: ListOptions)
    requires
        args@.len() >= 2,
    ensures
        r@ == list_flags(arg_texts(args@), 2, default_list_options()),
{
    let ghost a = arg_texts(args@);
    let n = args.len();
    let mut opts = ListOptions {
        unread_only: false,
        sort_by: String::from_str("id"),
        descending: false,
        limit: None,
        offset: None,
    };
    let mut i: usize = 2;
    while i < n
        invariant
            n == args@.len(),
            a == arg_texts(args@),
            2 <= i <= n,
            list_flags(a, 2, default_list_options()) == list_flags(a, i as int, opts@),
        decreases n - i,
    {
        assert(a[i as int] == args@[i as int]@);
        let flag = args[i].as_str();
        if text_eq(flag, "--unread") {
            opts.unread_only = true;
            i = i + 1;
        } else if text_eq(flag, "--sort") {
            if i + 1 < n {
                assert(a[i + 1] == args@[i + 1]@);
                opts.sort_by = args[i + 1].clone();
                i = i + 2;
            } else {
                i = n;
            }
        } else if text_eq(flag, "--desc") {
            opts.descending = true;
            i = i + 1;
        } else if text_eq(flag, "--limit") {
            if i + 1 < n {
                assert(a[i + 1] == args@[i + 1]@);
                opts.limit = parse_i64(args[i + 1].as_str());
                i = i + 2;
            } else {
                i = n;
            }
        } else if text_eq(flag, "--offset") {
            if i + 1 < n {
                assert(a[i + 1] == args@[i + 1]@);
                opts.offset = parse_i64(args[i + 1].as_str());
                i = i + 2;
            } else {
                i = n;
            }
        } else {
            i = i + 1;
        }
    }
    opts
}

fn hint(text: &str) -> (r: Result<Command, AppError>)
    ensures
        r matches Ok(c) && c@ == CommandView::Hint(text@),
{
    Ok(Command::Hint(String::from_str(text)))
}

fn parse_id(text: &String) -> (r: Result<i32, AppError>)
    ensures
        match parsed_i32(text@) {
            Some(v) => r == Ok::<i32, AppError>(v),
            None => r matches Err(e) && is_message(e, "Invalid ID."@),
        },
{
    match parse_i32(text.as_str()) {
        Some(v) => Ok(v),
        None => Err(AppError::Message(String::from_str("Invalid ID."))),
    }
}

/// What the arguments (the program name first) ask for: the command, or
/// the error for a year, id or rating that does not parse.
pub fn parse_args(args: &Vec<String>) -> (r: Result<Command, AppError>)
    ensures
        outcome_matches(r, command_of(arg_texts(args@))),
{
    let ghost a = arg_texts(args@);
    let n = args.len();
    if n < 2 {
        return Ok(Command::Usage);
    }
    assert(a[1] == args@[1]@);
    let word = args[1].as_str();
    if n >= 3 {
        assert(a[2] == args@[2]@);
    }
    if n >= 4 {
        assert(a[3] == args@[3]@);
    }
    if n >= 5 {
        assert(a[4] == args@[4]@);
    }
    if n >= 6 {
        assert(a[5] == args@[5]@);
    }
    if text_eq(word, "add") {
        if n < 5 {
            return hint("Usage: cargo run -- add <title> <author> <genre> [year]");
        }
        let year = if n > 5 {
            match parse_i32(args[5].as_str()) {
                Some(y) => Some(y),
                None => {
                    return Err(AppError::Message(String::from_str("Invalid year.")));
                },
            }
        } else {
            None
        };
        Ok(
            Command::Add {
                title: args[2].clone(),
                author: args[3].clone(),
                genre: args[4].clone(),
                year,
            },
        )
    } else if text_eq(word, "list") {
        Ok(Command::List(parse_list_options(args)))
    } else if text_eq(word, "search") {
        if n != 3 {
            return hint("Usage: cargo run -- search <query>");
        }
        Ok(Command::Search(args[2].clone()))
    } else if text_eq(word, "search-author") {
        if n != 3 {
            return hint("Usage: cargo run -- search-author <author>");
        }
        Ok(Command::SearchAuthor(args[2].clone()))
    } else if text_eq(word, "search-genre") {
        if n != 3 {
            return hint("Usage: cargo run -- search-genre <genre>");
        }
        Ok(Command::SearchGenre(args[2].clone()))
    } else if text_eq(word, "read") {
        if n != 3 {
            return hint("Usage: cargo run -- read <id>");
        }
        let id = parse_id(&args[2])?;
        Ok(Command::Mark { id, read: true })
    } else if text_eq(word, "unread") {
        if n != 3 {
            return hint("Usage: cargo run -- unread <id>");
        }
        let id = parse_id(&args[2])?;
        Ok(Command::Mark { id, read: false })
    } else if text_eq(word, "rate") {
        if n != 4 {
            return hint("Usage: cargo run -- rate <id> <1-5>");
        }
        let id = parse_id(&args[2])?;
        match parse_i32(args[3].as_str()) {
            Some(rating) => Ok(Command::Rate { id, rating }),
            None => Err(AppError::Message(String::from_str("Invalid rating."))),
        }
    } else if text_eq(word, "delete") {
        if n != 3 {
            return hint("Usage: cargo run -- delete <id>");
        }
        let id = parse_id(&args[2])?;
        Ok(Command::Delete(id))
    } else if text_eq(word, "import") {
        if n != 3 {
            return hint("Usage: cargo run -- import <file.json>");
        }
        Ok(Command::Import(args[2].clone()))
    } else if text_eq(word, "genres") {
        Ok(Command::Genres)
    } else if text_eq(word, "authors") {
        Ok(Command::Authors)
    } else if text_eq(word, "stats") {
        Ok(Command::Stats)
    } else {
        Ok(Command::Unknown(args[1].clone()))
    }
}

/// The message for a command word that is not known.
pub fn unknown_command_message(word: &str) -> (r: String)
    ensures
        r@ == "Unknown command: "@ + word@,
{
    let mut s = String::from_str("Unknown command: ");
    s.append(word);
    s
}

/// The usage text.
pub open spec fn usage_text() -> Seq<Seq<char>> {
    seq![
        "Book Library CLI"@,
        ""@,
        "Commands:"@,
        "  add <title> <author> <genre> [year]"@,
        "                            Add a new book"@,
        "  list [--unread] [--sort <col>] [--desc] [--limit N] [--offset N]"@,
        "                            List books with optional filters"@,
        "  search <query>            Search by title, author, or genre"@,
        "  search-author <author>    Search by author"@,
        "  search-genre <genre>      Search by genre"@,
        "  read <id>                 Mark a book as read"@,
        "  unread <id>               Mark a book as unread"@,
        "  rate <id> <1-5>           Rate a book (1-5 stars)"@,
        "  delete <id>               Delete a book"@,
        "  import <file.json>        Import books from a JSON array"@,
        "  genres                    Show genre statistics (GROUP BY)"@,
        "  authors                   Show author statistics"@,
        "  stats                     Show library summary"@,
    ]
}

/// The lines of the usage text.
pub fn usage_lines() -> (r: Vec<String>)
    ensures
        texts(r@) == usage_text(),
{
    let mut v: Vec<String> = Vec::new();
    v.push(String::from_str("Book Library CLI"));
    v.push(String::from_str(""));
    v.push(String::from_str("Commands:"));
    v.push(String::from_str("  add <title> <author> <genre> [year]"));
    v.push(String::from_str("                            Add a new book"));
    v.push(String::from_str("  list [--unread] [--sort <col>] [--desc] [--limit N] [--offset N]"));
    v.push(String::from_str("                            List books with optional filters"));
    v.push(String::from_str("  search <query>            Search by title, author, or genre"));
    v.push(String::from_str("  search-author <author>    Search by author"));
    v.push(String::from_str("  search-genre <genre>      Search by genre"));
    v.push(String::from_str("  read <id>                 Mark a book as read"));
    v.push(String::from_str("  unread <id>               Mark a book as unread"));
    v.push(String::from_str("  rate <id> <1-5>           Rate a book (1-5 stars)"));
    v.push(String::from_str("  delete <id>               Delete a book"));
    v.push(String::from_str("  import <file.json>        Import books from a JSON array"));
    v.push(String::from_str("  genres                    Show genre statistics (GROUP BY)"));
    v.push(String::from_str("  authors                   Show author statistics"));
    v.push(String::from_str("  stats                     Show library summary"));
    assert(texts(v@) =~= usage_text());
    v
}

/// Whether no argument from index `from` on is `flag`.
pub open spec fn absent_from(args: Seq<Seq<char>>, from: int, flag: Seq<char>) -> bool {
    forall|k: int| from <= k < args.len() ==> #[trigger] args[k] != flag
}

/// Reading flags only changes an option through its own flag: an option
/// whose flag does not occur keeps its value, and a switch that is on
/// stays on.
pub proof fn lemma_flags_touch_only_their_option(
    args: Seq<Seq<char>>,
    i: int,
    opts: ListOptionsView,
)
    requires
        0 <= i,
    ensures
        absent_from(args, i, "--offset"@) ==> list_flags(args, i, opts).offset == opts.offset,
        absent_from(args, i, "--limit"@) ==> list_flags(args, i, opts).limit == opts.limit,
        absent_from(args, i, "--sort"@) ==> list_flags(args, i, opts).sort_by == opts.sort_by,
        absent_from(args, i, "--unread"@) ==> list_flags(args, i, opts).unread_only
            == opts.unread_only,
        absent_from(args, i, "--desc"@) ==> list_flags(args, i, opts).descending
            == opts.descending,
        opts.unread_only ==> list_flags(args, i, opts).unread_only,
        opts.descending ==> list_flags(args, i, opts).descending,
    decreases args.len() - i,
{
    if i < args.len() {
        let flag = args[i];
        if flag == "--unread"@ {
            lemma_flags_touch_only_their_option(
                args,
                i + 1,
                ListOptionsView { unread_only: true, ..opts },
            );
        } else if flag == "--sort"@ {
            if i + 1 < args.len() {
                lemma_flags_touch_only_their_option(
                    args,
                    i + 2,
                    ListOptionsView { sort_by: args[i + 1], ..opts },
                );
            }
        } else if flag == "--desc"@ {
            lemma_flags_touch_only_their_option(
                args,
                i + 1,
                ListOptionsView { descending: true, ..opts },
            );
        } else if flag == "--limit"@ {
            if i + 1 < args.len() {
                lemma_flags_touch_only_their_option(
                    args,
                    i + 2,
                    ListOptionsView { limit: parsed_i64(args[i + 1]), ..opts },
                );
            }
        } else if flag == "--offset"@ {
            if i + 1 < args.len() {
                lemma_flags_touch_only_their_option(
                    args,
                    i + 2,
                    ListOptionsView { offset: parsed_i64(args[i + 1]), ..opts },
                );
            }
        } else {
            lemma_flags_touch_only_their_option(args, i + 1, opts);
        }
    }
}

proof fn lemma_flag_words_differ()
    ensures
        "--unread"@ != "--sort"@,
        "--unread"@ != "--desc"@,
        "--unread"@ != "--limit"@,
        "--unread"@ != "--offset"@,
        "--sort"@ != "--desc"@,
        "--sort"@ != "--limit"@,
        "--sort"@ != "--offset"@,
        "--desc"@ != "--limit"@,
        "--desc"@ != "--offset"@,
        "--limit"@ != "--offset"@,
{
    reveal_strlit("--unread");
    reveal_strlit("--sort");
    reveal_strlit("--desc");
    reveal_strlit("--limit");
    reveal_strlit("--offset");
    assert("--unread"@.len() != "--sort"@.len());
    assert("--unread"@.len() != "--desc"@.len());
    assert("--unread"@.len() != "--limit"@.len());
    assert("--unread"@[2] != "--offset"@[2]);
    assert("--sort"@[2] != "--desc"@[2]);
    assert("--sort"@.len() != "--limit"@.len());
    assert("--sort"@.len() != "--offset"@.len());
    assert("--desc"@.len() != "--limit"@.len());
    assert("--desc"@.len() != "--offset"@.len());
    assert("--limit"@.len() != "--offset"@.len());
}

/// A flag read at index `i` takes effect whatever options came before,
/// unless the same flag occurs again later: `--offset v` and `--limit v`
/// set the option to what `v` parses to, `--sort c` sets the sort column
/// to `c`, and `--unread` and `--desc` switch their option on.
pub proof fn lemma_flag_takes_effect(args: Seq<Seq<char>>, i: int, opts: ListOptionsView)
    requires
        0 <= i < args.len(),
    ensures
        args[i] == "--offset"@ && i + 1 < args.len() && absent_from(args, i + 2, "--offset"@)
            ==> list_flags(args, i, opts).offset == parsed_i64(args[i + 1]),
        args[i] == "--limit"@ && i + 1 < args.len() && absent_from(args, i + 2, "--limit"@)
            ==> list_flags(args, i, opts).limit == parsed_i64(args[i + 1]),
        args[i] == "--sort"@ && i + 1 < args.len() && absent_from(args, i + 2, "--sort"@)
            ==> list_flags(args, i, opts).sort_by == args[i + 1],
        args[i] == "--unread"@ ==> list_flags(args, i, opts).unread_only,
        args[i] == "--desc"@ ==> list_flags(args, i, opts).descending,
{
    lemma_flag_words_differ();
    let flag = args[i];
    if flag == "--unread"@ {
        lemma_flags_touch_only_their_option(
            args,
            i + 1,
            ListOptionsView { unread_only: true, ..opts },
        );
    } else if flag == "--desc"@ {
        lemma_flags_touch_only_their_option(args, i + 1, ListOptionsView { descending: true, ..opts });
    } else if i + 1 < args.len() {
        if flag == "--sort"@ {
            lemma_flags_touch_only_their_option(
                args,
                i + 2,
                ListOptionsView { sort_by: args[i + 1], ..opts },
            );
        } else if flag == "--limit"@ {
            lemma_flags_touch_only_their_option(
                args,
                i + 2,
                ListOptionsView { limit: parsed_i64(args[i + 1]), ..opts },
            );
        } else if flag == "--offset"@ {
            lemma_flags_touch_only_their_option(
                args,
                i + 2,
                ListOptionsView { offset: parsed_i64(args[i + 1]), ..opts },
            );
        }
    }
}

/// `list` with no flags lists all books by id, ascending, unpaged.
pub proof fn lemma_list_defaults(args: Seq<Seq<char>>)
    requires
        args.len() >= 2,
        args[1] == "list"@,
        absent_from(args, 2, "--offset"@),
        absent_from(args, 2, "--limit"@),
        absent_from(args, 2, "--sort"@),
        absent_from(args, 2, "--unread"@),
        absent_from(args, 2, "--desc"@),
    ensures
        command_of(args) == Ok::<CommandView, Seq<char>>(
            CommandView::List(default_list_options()),
        ),
{
    reveal_strlit("list");
    reveal_strlit("add");
    lemma_flags_touch_only_their_option(args, 2, default_list_options());
    assert("list"@ != "add"@) by {
        assert("list"@.len() != "add"@.len());
    }
}

/// `list --offset v ...` starts the listing at what `v` parses to, when no
/// later `--offset` replaces it; `list` without `--offset` starts at the
/// first book.
pub proof fn lemma_list_offset(args: Seq<Seq<char>>)
    requires
        args.len() >= 2,
        args[1] == "list"@,
    ensures
        args.len() >= 4 && args[2] == "--offset"@ && absent_from(args, 4, "--offset"@) ==> (
        command_of(args) matches Ok(CommandView::List(o)) && o.offset == parsed_i64(args[3])),
        absent_from(args, 2, "--offset"@) ==> (command_of(args) matches Ok(CommandView::List(o))
            && o.offset is None),
{
    reveal_strlit("list");
    reveal_strlit("add");
    assert("list"@ != "add"@) by {
        assert("list"@.len() != "add"@.len());
    }
    lemma_flags_touch_only_their_option(args, 2, default_list_options());
    if args.len() >= 4 {
        lemma_flag_takes_effect(args, 2, default_list_options());
    }
}

proof fn lemma_command_words_differ()
    ensures
        "add"@.len() == 3,
        "list"@.len() == 4 && "list"@[0] == 'l',
        "search"@.len() == 6 && "search"@[0] == 's',
        "search-author"@.len() == 13,
        "search-genre"@.len() == 12,
        "read"@.len() == 4 && "read"@[0] == 'r' && "read"@[1] == 'e',
        "unread"@.len() == 6 && "unread"@[0] == 'u',
        "rate"@.len() == 4 && "rate"@[0] == 'r' && "rate"@[1] == 'a',
        "delete"@.len() == 6 && "delete"@[0] == 'd',
        "import"@.len() == 6 && "import"@[0] == 'i',
{
    reveal_strlit("add");
    reveal_strlit("list");
    reveal_strlit("search");
    reveal_strlit("search-author");
    reveal_strlit("search-genre");
    reveal_strlit("read");
    reveal_strlit("unread");
    reveal_strlit("rate");
    reveal_strlit("delete");
    reveal_strlit("import");
}

/// The commands that name a book by id: `read` marks it read and
/// `unread` marks it unread, `delete` removes it, and `rate` gives it the
/// rating; an id (or rating) that does not parse as an `i32` is an error.
pub proof fn lemma_id_commands(args: Seq<Seq<char>>)
    requires
        args.len() >= 3,
    ensures
        args.len() == 3 && args[1] == "read"@ ==> command_of(args) == (match parsed_i32(args[2]) {
            Some(id) => Ok::<CommandView, Seq<char>>(CommandView::Mark { id, read: true }),
            None => Err("Invalid ID."@),
        }),
        args.len() == 3 && args[1] == "unread"@ ==> command_of(args) == (match parsed_i32(args[2]) {
            Some(id) => Ok::<CommandView, Seq<char>>(CommandView::Mark { id, read: false }),
            None => Err("Invalid ID."@),
        }),
        args.len() == 3 && args[1] == "delete"@ ==> command_of(args) == (match parsed_i32(args[2]) {
            Some(id) => Ok::<CommandView, Seq<char>>(CommandView::Delete(id)),
            None => Err("Invalid ID."@),
        }),
        args.len() == 4 && args[1] == "rate"@ ==> command_of(args) == (match (
            parsed_i32(args[2]),
            parsed_i32(args[3]),
        ) {
            (Some(id), Some(rating)) => Ok::<CommandView, Seq<char>>(
                CommandView::Rate { id, rating },
            ),
            (None, _) => Err("Invalid ID."@),
            (Some(_), None) => Err("Invalid rating."@),
        }),
{
    lemma_command_words_differ();
}

/// The commands that take a text: each search carries its query and
/// `import` carries the file path, unchanged.
pub proof fn lemma_text_commands(args: Seq<Seq<char>>)
    requires
        args.len() == 3,
    ensures
        args[1] == "search"@ ==> command_of(args) == Ok::<CommandView, Seq<char>>(
            CommandView::Search(args[2]),
        ),
        args[1] == "search-author"@ ==> command_of(args) == Ok::<CommandView, Seq<char>>(
            CommandView::SearchAuthor(args[2]),
        ),
        args[1] == "search-genre"@ ==> command_of(args) == Ok::<CommandView, Seq<char>>(
            CommandView::SearchGenre(args[2]),
        ),
        args[1] == "import"@ ==> command_of(args) == Ok::<CommandView, Seq<char>>(
            CommandView::Import(args[2]),
        ),
{
    lemma_command_words_differ();
}

/// `add` carries the title, author and genre in that order, and the year
/// when one is given; a year that does not parse is an error.
pub proof fn lemma_add_command(args: Seq<Seq<char>>)
    requires
        args.len() >= 5,
        args[1] == "add"@,
    ensures
        args.len() == 5 ==> command_of(args) == Ok::<CommandView, Seq<char>>(
            CommandView::Add { title: args[2], author: args[3], genre: args[4], year: None },
        ),
        args.len() > 5 ==> command_of(args) == (match parsed_i32(args[5]) {
            Some(y) => Ok::<CommandView, Seq<char>>(
                CommandView::Add { title: args[2], author: args[3], genre: args[4], year: Some(y) },
            ),
            None => Err("Invalid year."@),
        }),
{
}

} // verus!
