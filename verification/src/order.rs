//! The order in which books are listed: a column to sort by, a direction,
//! and a stable sort that keeps the incoming order among equal books.

use vstd::prelude::*;
use crate::book::Book;
use crate::text::{compare_text, lemma_text_order_reflexive, text_eq, text_order};

verus! {

/// The column that a listing is sorted by.
#[derive(Debug, Clone, Copy, PartialEq, Eq, Structural)]
pub enum SortColumn {
    Id,
    Year,
    Rating,
    Author,
    Genre,
}

/// The column that a `--sort` value names; any other value sorts by id.
pub open spec fn column_named(name: Seq<char>) -> SortColumn {
    if name == "year"@ {
        SortColumn::Year
    } else if name == "rating"@ {
        SortColumn::Rating
    } else if name == "author"@ {
        SortColumn::Author
    } else if name == "genre"@ {
        SortColumn::Genre
    } else {
        SortColumn::Id
    }
}

impl SortColumn {
    /// The column that a `--sort` value names; any other value sorts by id.
    pub fn from_name(name: &str) -> (r: SortColumn)
        ensures
            r == column_named(name@),
    {
        if text_eq(name, "year") {
            SortColumn::Year
        } else if text_eq(name, "rating") {
            SortColumn::Rating
        } else if text_eq(name, "author") {
            SortColumn::Author
        } else if text_eq(name, "genre") {
            SortColumn::Genre
        } else {
            SortColumn::Id
        }
    }
}

/// -1, 0 or 1 as `x` is below, equal to or above `y`.
pub open spec fn int_order(x: int, y: int) -> int {
    if x < y {
        -1
    } else if x > y {
        1
    } else {
        0
    }
}

/// The order of `Option`: an absent value comes before every present one.
pub open spec fn option_order(a: Option<i32>, b: Option<i32>) -> int {
    match (a, b) {
        (None, None) => 0,
        (None, Some(_)) => -1,
        (Some(_), None) => 1,
        (Some(x), Some(y)) => int_order(x as int, y as int),
    }
}

/// The first comparison, or the second where the first finds a tie.
pub open spec fn then_order(first: int, second: int) -> int {
    if first != 0 {
        first
    } else {
        second
    }
}

/// How two books compare under a column, ascending: by year, rating,
/// author or genre with ties broken by title, or by id alone.
pub open spec fn book_order(a: Book, b: Book, column: SortColumn) -> int {
    match column {
        SortColumn::Year => then_order(option_order(a.year, b.year), text_order(a.title@, b.title@)),
        SortColumn::Rating => then_order(
            option_order(a.rating, b.rating),
            text_order(a.title@, b.title@),
        ),
        SortColumn::Author => then_order(
            text_order(a.author@, b.author@),
            text_order(a.title@, b.title@),
        ),
        SortColumn::Genre => then_order(
            text_order(a.genre@, b.genre@),
            text_order(a.title@, b.title@),
        ),
        SortColumn::Id => int_order(a.id as int, b.id as int),
    }
}

/// The comparison in the chosen direction: descending reverses it.
pub open spec fn directed_order(a: Book, b: Book, column: SortColumn, descending: bool) -> int {
    if descending {
        -book_order(a, b, column)
    } else {
        book_order(a, b, column)
    }
}

/// Whether the book at index `i` is listed before the one at index `j`:
/// it compares lower, or it compares equal and came first.
pub open spec fn listed_before(
    books: Seq<Book>,
    i: int,
    j: int,
    column: SortColumn,
    descending: bool,
) -> bool {
    let c = directed_order(books[i], books[j], column, descending);
    c < 0 || (c == 0 && i < j)
}

/// `p` lists each index below `n` exactly once.
pub open spec fn is_index_permutation(p: Seq<int>, n: nat) -> bool {
    &&& p.len() == n
    &&& forall|k: int| 0 <= k < p.len() ==> 0 <= #[trigger] p[k] < n
    &&& forall|k: int, l: int| 0 <= k < l < p.len() ==> #[trigger] p[k] != #[trigger] p[l]
}

/// `p` arranges the books in listing order.
pub open spec fn is_listing_permutation(
    books: Seq<Book>,
    p: Seq<int>,
    column: SortColumn,
    descending: bool,
) -> bool {
    &&& is_index_permutation(p, books.len())
    &&& forall|k: int, l: int|
        0 <= k < l < p.len() ==> listed_before(books, #[trigger] p[k], #[trigger] p[l], column, descending)
}

/// `sorted` is `books` sorted stably by the column in the direction given:
/// a rearrangement of them in which each book comes before every book that
/// compares higher, and equal books keep their incoming order.
pub open spec fn is_stable_sort(
    sorted: Seq<Book>,
    books: Seq<Book>,
    column: SortColumn,
    descending: bool,
) -> bool {
    exists|p: Seq<int>|
        {
            &&& is_listing_permutation(books, p, column, descending)
            &&& sorted.len() == p.len()
            &&& forall|k: int| 0 <= k < p.len() ==> sorted[k] == books[#[trigger] p[k]]
        }
}

proof fn lemma_text_order_antisymmetric(a: Seq<char>, b: Seq<char>)
    ensures
        text_order(a, b) == -text_order(b, a),
        -1 <= text_order(a, b) <= 1,
    decreases a.len(),
{
    if a.len() > 0 && b.len() > 0 && a[0] == b[0] {
        lemma_text_order_antisymmetric(a.drop_first(), b.drop_first());
    }
}

proof fn lemma_text_order_transitive(a: Seq<char>, b: Seq<char>, c: Seq<char>)
    requires
        text_order(a, b) <= 0,
        text_order(b, c) <= 0,
    ensures
        text_order(a, c) <= 0,
    decreases a.len(),
{
    if a.len() > 0 && b.len() > 0 && c.len() > 0 && a[0] == b[0] && b[0] == c[0] {
        lemma_text_order_transitive(a.drop_first(), b.drop_first(), c.drop_first());
    }
}

/// The facts of a total preorder for three texts.
proof fn lemma_text_order_preorder(a: Seq<char>, b: Seq<char>, c: Seq<char>)
    ensures
        text_order(a, b) == -text_order(b, a),
        text_order(b, c) == -text_order(c, b),
        text_order(a, c) == -text_order(c, a),
        -1 <= text_order(a, b) <= 1,
        -1 <= text_order(b, c) <= 1,
        -1 <= text_order(a, c) <= 1,
        text_order(a, b) <= 0 && text_order(b, c) <= 0 ==> text_order(a, c) <= 0,
        text_order(b, c) <= 0 && text_order(c, a) <= 0 ==> text_order(b, a) <= 0,
        text_order(c, a) <= 0 && text_order(a, b) <= 0 ==> text_order(c, b) <= 0,
{
    lemma_text_order_antisymmetric(a, b);
    lemma_text_order_antisymmetric(b, c);
    lemma_text_order_antisymmetric(a, c);
    if text_order(a, b) <= 0 && text_order(b, c) <= 0 {
        lemma_text_order_transitive(a, b, c);
    }
    if text_order(b, c) <= 0 && text_order(c, a) <= 0 {
        lemma_text_order_transitive(b, c, a);
    }
    if text_order(c, a) <= 0 && text_order(a, b) <= 0 {
        lemma_text_order_transitive(c, a, b);
    }
}

/// The book order is a total preorder: it is antisymmetric and transitive.
proof fn lemma_book_order_preorder(a: Book, b: Book, c: Book, column: SortColumn)
    ensures
        book_order(a, b, column) == -book_order(b, a, column),
        -1 <= book_order(a, b, column) <= 1,
        book_order(a, b, column) <= 0 && book_order(b, c, column) <= 0 ==> book_order(
            a,
            c,
            column,
        ) <= 0,
{
    lemma_text_order_preorder(a.title@, b.title@, c.title@);
    lemma_text_order_preorder(a.author@, b.author@, c.author@);
    lemma_text_order_preorder(a.genre@, b.genre@, c.genre@);
}

/// The directed order is a total preorder, and strictness carries through
/// a chain.
pub proof fn lemma_directed_order(a: Book, b: Book, c: Book, column: SortColumn, descending: bool)
    ensures
        directed_order(a, b, column, descending) == -directed_order(b, a, column, descending),
        -1 <= directed_order(a, b, column, descending) <= 1,
        directed_order(a, b, column, descending) <= 0 && directed_order(b, c, column, descending)
            <= 0 ==> directed_order(a, c, column, descending) <= 0,
        directed_order(a, b, column, descending) < 0 && directed_order(b, c, column, descending)
            <= 0 ==> directed_order(a, c, column, descending) < 0,
        directed_order(a, b, column, descending) <= 0 && directed_order(b, c, column, descending)
            < 0 ==> directed_order(a, c, column, descending) < 0,
{
    lemma_book_order_preorder(a, b, c, column);
    lemma_book_order_preorder(c, b, a, column);
    lemma_book_order_preorder(b, c, a, column);
    lemma_book_order_preorder(a, c, b, column);
    lemma_book_order_preorder(c, a, b, column);
    lemma_book_order_preorder(b, a, c, column);
}

fn compare_options(a: Option<i32>, b: Option<i32>) -> (r: i8)
    ensures
        r as int == option_order(a, b),
{
    match (a, b) {
        (None, None) => 0,
        (None, Some(_)) => -1,
        (Some(_), None) => 1,
        (Some(x), Some(y)) => if x < y {
            -1
        } else if x > y {
            1
        } else {
            0
        },
    }
}

/// Compares two books under a column, ascending.
pub fn compare_books(a: &Book, b: &Book, column: SortColumn) -> (r: i8)
    ensures
        r as int == book_order(*a, *b, column),
{
    match column {
        SortColumn::Id => if a.id < b.id {
            -1
        } else if a.id > b.id {
            1
        } else {
            0
        },
        SortColumn::Year => {
            let first = compare_options(a.year, b.year);
            if first != 0 {
                first
            } else {
                compare_text(a.title.as_str(), b.title.as_str())
            }
        },
        SortColumn::Rating => {
            let first = compare_options(a.rating, b.rating);
            if first != 0 {
                first
            } else {
                compare_text(a.title.as_str(), b.title.as_str())
            }
        },
        SortColumn::Author => {
            let first = compare_text(a.author.as_str(), b.author.as_str());
            if first != 0 {
                first
            } else {
                compare_text(a.title.as_str(), b.title.as_str())
            }
        },
        SortColumn::Genre => {
            let first = compare_text(a.genre.as_str(), b.genre.as_str());
            if first != 0 {
                first
            } else {
                compare_text(a.title.as_str(), b.title.as_str())
            }
        },
    }
}

/// Whether book `a` comes strictly before book `b` in the chosen direction.
fn ranks_lower(a: &Book, b: &Book, column: SortColumn, descending: bool) -> (r: bool)
    ensures
        r == (directed_order(*a, *b, column, descending) < 0),
{
    let c = compare_books(a, b, column);
    if descending {
        c > 0
    } else {
        c < 0
    }
}

/// The listing order of `books`: the permutation that sorts them stably
/// by the column in the direction given.
pub fn listing_order(books: &Vec<Book>, column: SortColumn, descending: bool) -> (r: Vec<usize>)
    ensures
        is_listing_permutation(books@, r@.map_values(|x: usize| x as int), column, descending),
{
    let n = books.len();
    let mut order: Vec<usize> = Vec::new();
    let mut i: usize = 0;
    while i < n
        invariant
            n == books@.len(),
            i <= n,
            order@.len() == i,
            forall|k: int| 0 <= k < order@.len() ==> #[trigger] order@[k] < i,
            forall|k: int, l: int|
                0 <= k < l < order@.len() ==> #[trigger] order@[k] != #[trigger] order@[l],
            forall|k: int, l: int|
                0 <= k < l < order@.len() ==> listed_before(
                    books@,
                    #[trigger] order@[k] as int,
                    #[trigger] order@[l] as int,
                    column,
                    descending,
                ),
        decreases n - i,
    {
        let mut pos: usize = 0;
        while pos < order.len() && !ranks_lower(&books[i], &books[order[pos]], column, descending)
            invariant
                n == books@.len(),
                i < n,
                pos <= order@.len(),
                forall|k: int| 0 <= k < order@.len() ==> #[trigger] order@[k] < i,
                forall|k: int|
                    0 <= k < pos ==> !(directed_order(
                        books@[i as int],
                        books@[#[trigger] order@[k] as int],
                        column,
                        descending,
                    ) < 0),
            decreases order@.len() - pos,
        {
            pos = pos + 1;
        }
        let ghost old_order = order@;
        order.insert(pos, i);
        proof {
            assert forall|k: int, l: int|
                0 <= k < l < order@.len() implies listed_before(
                books@,
                #[trigger] order@[k] as int,
                #[trigger] order@[l] as int,
                column,
                descending,
            ) by {
                let bi = books@[i as int];
                if k < pos && l == pos {
                    let bk = books@[old_order[k] as int];
                    lemma_directed_order(bi, bk, bk, column, descending);
                } else if k == pos {
                    let ol = old_order[l - 1] as int;
                    let op = old_order[pos as int] as int;
                    lemma_directed_order(bi, books@[op], books@[ol], column, descending);
                    if l - 1 > pos {
                        assert(listed_before(books@, op, ol, column, descending));
                    }
                } else if l > pos {
                    if k > pos {
                        assert(order@[k] == old_order[k - 1]);
                    }
                    assert(order@[l] == old_order[l - 1]);
                }
            }
            assert forall|k: int, l: int|
                0 <= k < l < order@.len() implies #[trigger] order@[k] != #[trigger] order@[l] by {
                if k == pos as int {
                    assert(old_order[l - 1] < i);
                } else if l == pos as int {
                    assert(old_order[k] < i);
                } else if k > pos {
                    assert(order@[k] == old_order[k - 1]);
                    assert(order@[l] == old_order[l - 1]);
                } else if l > pos {
                    assert(order@[l] == old_order[l - 1]);
                }
            }
            assert forall|k: int| 0 <= k < order@.len() implies #[trigger] order@[k] < i + 1 by {
                if k > pos {
                    assert(order@[k] == old_order[k - 1]);
                }
            }
        }
        i = i + 1;
    }
    let ghost p = order@.map_values(|x: usize| x as int);
    assert forall|k: int, l: int| 0 <= k < l < p.len() implies listed_before(
        books@,
        #[trigger] p[k],
        #[trigger] p[l],
        column,
        descending,
    ) by {
        assert(p[k] == order@[k] as int);
        assert(p[l] == order@[l] as int);
    }
    assert forall|k: int, l: int| 0 <= k < l < p.len() implies #[trigger] p[k] != #[trigger] p[l] by {
        assert(order@[k] != order@[l]);
    }
    order
}

/// `books` sorted stably by the column in the direction given, as
/// `sort_by` with that comparator does.
pub fn sort_books(books: &Vec<Book>, column: SortColumn, descending: bool) -> (r: Vec<Book>)
    ensures
        is_stable_sort(r@, books@, column, descending),
{
    let order = listing_order(books, column, descending);
    let ghost p = order@.map_values(|x: usize| x as int);
    let mut result: Vec<Book> = Vec::new();
    let mut k: usize = 0;
    while k < order.len()
        invariant
            p == order@.map_values(|x: usize| x as int),
            is_listing_permutation(books@, p, column, descending),
            k <= order@.len(),
            result@.len() == k,
            forall|j: int| 0 <= j < k ==> result@[j] == books@[#[trigger] p[j]],
        decreases order@.len() - k,
    {
        assert(p[k as int] == order@[k as int] as int);
        let b = books[order[k]].clone();
        result.push(b);
        k = k + 1;
    }
    assert(is_listing_permutation(books@, p, column, descending) && result@.len() == p.len()
        && forall|j: int| 0 <= j < p.len() ==> result@[j] == books@[#[trigger] p[j]]);
    result
}

proof fn lemma_permutation_covers(p: Seq<int>, n: nat, x: int)
    requires
        is_index_permutation(p, n),
        0 <= x < n,
    ensures
        p.contains(x),
{
    broadcast use vstd::seq_lib::seq_to_set_is_finite;

    assert(p.no_duplicates()) by {
        assert forall|i: int, j: int|
            0 <= i < p.len() && 0 <= j < p.len() && i != j implies p[i] != p[j] by {
            if i < j {
                assert(p[i] != p[j]);
            } else {
                assert(p[j] != p[i]);
            }
        }
    }
    p.unique_seq_to_set();
    vstd::set_lib::lemma_int_range(0, n as int);
    let range = vstd::set_lib::set_int_range(0, n as int);
    assert(p.to_set().subset_of(range)) by {
        assert forall|y: int| p.to_set().contains(y) implies range.contains(y) by {
            let k = choose|k: int| 0 <= k < p.len() && p[k] == y;
            assert(0 <= p[k] < n);
        }
    }
    vstd::set_lib::lemma_subset_equality(p.to_set(), range);
    assert(range.contains(x));
    assert(p.to_set().contains(x));
}

proof fn lemma_listed_before_asymmetric(
    books: Seq<Book>,
    i: int,
    j: int,
    column: SortColumn,
    descending: bool,
)
    requires
        listed_before(books, i, j, column, descending),
    ensures
        !listed_before(books, j, i, column, descending),
{
    lemma_directed_order(books[i], books[j], books[j], column, descending);
}

proof fn lemma_sorted_sequences_agree(
    books: Seq<Book>,
    p: Seq<int>,
    q: Seq<int>,
    column: SortColumn,
    descending: bool,
)
    requires
        p.len() == q.len(),
        forall|k: int, l: int| 0 <= k < l < p.len() ==> #[trigger] p[k] != #[trigger] p[l],
        forall|k: int, l: int| 0 <= k < l < q.len() ==> #[trigger] q[k] != #[trigger] q[l],
        forall|k: int, l: int|
            0 <= k < l < p.len() ==> listed_before(books, #[trigger] p[k], #[trigger] p[l], column, descending),
        forall|k: int, l: int|
            0 <= k < l < q.len() ==> listed_before(books, #[trigger] q[k], #[trigger] q[l], column, descending),
        forall|k: int| 0 <= k < p.len() ==> q.contains(#[trigger] p[k]),
        forall|k: int| 0 <= k < q.len() ==> p.contains(#[trigger] q[k]),
    ensures
        p =~= q,
    decreases p.len(),
{
    if p.len() > 0 {
        assert(q.contains(p[0]));
        let m = choose|m: int| 0 <= m < q.len() && q[m] == p[0];
        assert(p.contains(q[0]));
        let m2 = choose|m: int| 0 <= m < p.len() && p[m] == q[0];
        if m != 0 {
            assert(listed_before(books, q[0], q[m], column, descending));
            if m2 == 0 {
                assert(q[0] != q[m]);
            } else {
                assert(listed_before(books, p[0], p[m2], column, descending));
                lemma_listed_before_asymmetric(books, q[0], p[0], column, descending);
            }
        }
        assert(p[0] == q[0]);
        let p1 = p.drop_first();
        let q1 = q.drop_first();
        assert forall|k: int| 0 <= k < p1.len() implies q1.contains(#[trigger] p1[k]) by {
            assert(p[k + 1] == p1[k]);
            assert(q.contains(p[k + 1]));
            let j = choose|j: int| 0 <= j < q.len() && q[j] == p[k + 1];
            assert(p[0] != p[k + 1]);
            assert(q1[j - 1] == q[j]);
        }
        assert forall|k: int| 0 <= k < q1.len() implies p1.contains(#[trigger] q1[k]) by {
            assert(q[k + 1] == q1[k]);
            assert(p.contains(q[k + 1]));
            let j = choose|j: int| 0 <= j < p.len() && p[j] == q[k + 1];
            assert(q[0] != q[k + 1]);
            assert(p1[j - 1] == p[j]);
        }
        assert forall|k: int, l: int| 0 <= k < l < p1.len() implies #[trigger] p1[k] != #[trigger] p1[l] by {
            assert(p[k + 1] != p[l + 1]);
        }
        assert forall|k: int, l: int| 0 <= k < l < q1.len() implies #[trigger] q1[k] != #[trigger] q1[l] by {
            assert(q[k + 1] != q[l + 1]);
        }
        assert forall|k: int, l: int| 0 <= k < l < p1.len() implies listed_before(
            books,
            #[trigger] p1[k],
            #[trigger] p1[l],
            column,
            descending,
        ) by {
            assert(listed_before(books, p[k + 1], p[l + 1], column, descending));
        }
        assert forall|k: int, l: int| 0 <= k < l < q1.len() implies listed_before(
            books,
            #[trigger] q1[k],
            #[trigger] q1[l],
            column,
            descending,
        ) by {
            assert(listed_before(books, q[k + 1], q[l + 1], column, descending));
        }
        lemma_sorted_sequences_agree(books, p1, q1, column, descending);
        assert(p =~= seq![p[0]] + p1);
        assert(q =~= seq![q[0]] + q1);
    }
}

/// The listing order is fully determined: any two permutations that list
/// the books in order are the same.
pub proof fn lemma_listing_order_unique(
    books: Seq<Book>,
    p: Seq<int>,
    q: Seq<int>,
    column: SortColumn,
    descending: bool,
)
    requires
        is_listing_permutation(books, p, column, descending),
        is_listing_permutation(books, q, column, descending),
    ensures
        p == q,
{
    assert forall|k: int| 0 <= k < p.len() implies q.contains(#[trigger] p[k]) by {
        lemma_permutation_covers(q, books.len(), p[k]);
    }
    assert forall|k: int| 0 <= k < q.len() implies p.contains(#[trigger] q[k]) by {
        lemma_permutation_covers(p, books.len(), q[k]);
    }
    lemma_sorted_sequences_agree(books, p, q, column, descending);
}

/// Sorting is deterministic: two stable sorts of the same books by the same
/// column and direction are the same sequence.
pub proof fn lemma_stable_sort_unique(
    first: Seq<Book>,
    second: Seq<Book>,
    books: Seq<Book>,
    column: SortColumn,
    descending: bool,
)
    requires
        is_stable_sort(first, books, column, descending),
        is_stable_sort(second, books, column, descending),
    ensures
        first == second,
{
    let p = choose|p: Seq<int>|
        {
            &&& is_listing_permutation(books, p, column, descending)
            &&& first.len() == p.len()
            &&& forall|k: int| 0 <= k < p.len() ==> first[k] == books[#[trigger] p[k]]
        };
    let q = choose|q: Seq<int>|
        {
            &&& is_listing_permutation(books, q, column, descending)
            &&& second.len() == q.len()
            &&& forall|k: int| 0 <= k < q.len() ==> second[k] == books[#[trigger] q[k]]
        };
    lemma_listing_order_unique(books, p, q, column, descending);
    assert forall|k: int| 0 <= k < first.len() implies first[k] == second[k] by {
        assert(first[k] == books[p[k]]);
        assert(second[k] == books[q[k]]);
    }
    assert(first =~= second);
}

/// When no two of the books compare equal under the column, the
/// descending listing is the ascending listing reversed.
pub proof fn lemma_descending_reverses(
    ascending: Seq<Book>,
    descending: Seq<Book>,
    books: Seq<Book>,
    column: SortColumn,
)
    requires
        is_stable_sort(ascending, books, column, false),
        is_stable_sort(descending, books, column, true),
        forall|i: int, j: int|
            0 <= i < books.len() && 0 <= j < books.len() && i != j ==> book_order(
                #[trigger] books[i],
                #[trigger] books[j],
                column,
            ) != 0,
    ensures
        descending == ascending.reverse(),
{
    let p = choose|p: Seq<int>|
        {
            &&& is_listing_permutation(books, p, column, false)
            &&& ascending.len() == p.len()
            &&& forall|k: int| 0 <= k < p.len() ==> ascending[k] == books[#[trigger] p[k]]
        };
    let n = p.len() as int;
    let q = p.reverse();
    assert forall|k: int| 0 <= k < q.len() implies 0 <= #[trigger] q[k] < books.len() by {
        assert(q[k] == p[n - 1 - k]);
    }
    assert forall|k: int, l: int| 0 <= k < l < q.len() implies #[trigger] q[k] != #[trigger] q[l] by {
        assert(p[n - 1 - l] != p[n - 1 - k]);
    }
    assert forall|k: int, l: int| 0 <= k < l < q.len() implies listed_before(
        books,
        #[trigger] q[k],
        #[trigger] q[l],
        column,
        true,
    ) by {
        let x = p[n - 1 - l];
        let y = p[n - 1 - k];
        assert(listed_before(books, x, y, column, false));
        assert(x != y);
        assert(book_order(books[x], books[y], column) != 0);
        lemma_directed_order(books[x], books[y], books[y], column, false);
        lemma_directed_order(books[y], books[x], books[x], column, true);
    }
    let reversed = ascending.reverse();
    assert forall|k: int| 0 <= k < q.len() implies reversed[k] == books[#[trigger] q[k]] by {
        assert(ascending[n - 1 - k] == books[p[n - 1 - k]]);
    }
    assert(is_listing_permutation(books, q, column, true));
    assert(is_stable_sort(reversed, books, column, true));
    lemma_stable_sort_unique(descending, reversed, books, column, true);
}

/// Books that already stand in listing order keep it: sorting them gives
/// them back unchanged (rows fetched by id and sorted by id stay put).
pub proof fn lemma_sorted_input_unchanged(
    sorted: Seq<Book>,
    books: Seq<Book>,
    column: SortColumn,
    descending: bool,
)
    requires
        forall|i: int, j: int|
            0 <= i < j < books.len() ==> directed_order(
                #[trigger] books[i],
                #[trigger] books[j],
                column,
                descending,
            ) <= 0,
        is_stable_sort(sorted, books, column, descending),
    ensures
        sorted == books,
{
    let id = Seq::new(books.len(), |k: int| k);
    assert forall|k: int, l: int| 0 <= k < l < id.len() implies listed_before(
        books,
        #[trigger] id[k],
        #[trigger] id[l],
        column,
        descending,
    ) by {
        assert(directed_order(books[k], books[l], column, descending) <= 0);
    }
    assert(is_listing_permutation(books, id, column, descending));
    assert forall|k: int| 0 <= k < id.len() implies books[k] == books[#[trigger] id[k]] by {}
    assert(is_stable_sort(books, books, column, descending));
    lemma_stable_sort_unique(sorted, books, books, column, descending);
}

/// Whether two books hold the same value in the column that sorts them
/// (before the title breaks ties).
pub open spec fn same_key(a: Book, b: Book, column: SortColumn) -> bool {
    match column {
        SortColumn::Year => a.year == b.year,
        SortColumn::Rating => a.rating == b.rating,
        SortColumn::Author => a.author@ == b.author@,
        SortColumn::Genre => a.genre@ == b.genre@,
        SortColumn::Id => a.id == b.id,
    }
}

/// Under year, rating, author or genre, two books with the same value in
/// that column compare as their titles do.
pub proof fn lemma_same_key_orders_by_title(a: Book, b: Book, column: SortColumn)
    requires
        column != SortColumn::Id,
        same_key(a, b, column),
    ensures
        book_order(a, b, column) == text_order(a.title@, b.title@),
{
    lemma_text_order_reflexive(a.author@);
    lemma_text_order_reflexive(a.genre@);
}

/// Books with different values in the column are ordered by that value:
/// an unknown year or rating comes first, then smaller numbers; authors
/// and genres in text order; ids ascending.  The title is not consulted.
pub proof fn lemma_key_decides(a: Book, b: Book)
    ensures
        (a.year is None && b.year is Some) || (a.year is Some && b.year is Some && a.year->0
            < b.year->0) ==> book_order(a, b, SortColumn::Year) == -1,
        (a.rating is None && b.rating is Some) || (a.rating is Some && b.rating is Some
            && a.rating->0 < b.rating->0) ==> book_order(a, b, SortColumn::Rating) == -1,
        text_order(a.author@, b.author@) < 0 ==> book_order(a, b, SortColumn::Author) < 0,
        text_order(a.genre@, b.genre@) < 0 ==> book_order(a, b, SortColumn::Genre) < 0,
        a.id < b.id ==> book_order(a, b, SortColumn::Id) == -1,
        a.id == b.id ==> book_order(a, b, SortColumn::Id) == 0,
{
}

/// Descending order is ascending order with the two books swapped.
pub proof fn lemma_descending_swaps(a: Book, b: Book, column: SortColumn)
    ensures
        directed_order(a, b, column, true) == book_order(b, a, column),
        directed_order(a, b, column, false) == book_order(a, b, column),
{
    lemma_directed_order(a, b, b, column, false);
}

/// In a sorted listing no book compares higher than a book after it.
pub proof fn lemma_stable_sort_in_order(
    sorted: Seq<Book>,
    books: Seq<Book>,
    column: SortColumn,
    descending: bool,
)
    requires
        is_stable_sort(sorted, books, column, descending),
    ensures
        forall|k: int, l: int|
            0 <= k < l < sorted.len() ==> directed_order(
                #[trigger] sorted[k],
                #[trigger] sorted[l],
                column,
                descending,
            ) <= 0,
{
    let p = choose|p: Seq<int>|
        {
            &&& is_listing_permutation(books, p, column, descending)
            &&& sorted.len() == p.len()
            &&& forall|k: int| 0 <= k < p.len() ==> sorted[k] == books[#[trigger] p[k]]
        };
    assert forall|k: int, l: int| 0 <= k < l < sorted.len() implies directed_order(
        #[trigger] sorted[k],
        #[trigger] sorted[l],
        column,
        descending,
    ) <= 0 by {
        assert(listed_before(books, p[k], p[l], column, descending));
        assert(sorted[k] == books[p[k]]);
        assert(sorted[l] == books[p[l]]);
    }
}

/// In a listing sorted by year, rating, author or genre, books with the
/// same value in that column stand in title order: ascending titles, or
/// descending titles when the listing is descending.
pub proof fn lemma_ties_listed_by_title(
    sorted: Seq<Book>,
    books: Seq<Book>,
    column: SortColumn,
    descending: bool,
)
    requires
        column != SortColumn::Id,
        is_stable_sort(sorted, books, column, descending),
    ensures
        forall|k: int, l: int|
            0 <= k < l < sorted.len() && same_key(sorted[k], sorted[l], column) ==> if descending {
                text_order(sorted[k].title@, sorted[l].title@) >= 0
            } else {
                text_order(sorted[k].title@, sorted[l].title@) <= 0
            },
{
    lemma_stable_sort_in_order(sorted, books, column, descending);
    assert forall|k: int, l: int|
        0 <= k < l < sorted.len() && same_key(sorted[k], sorted[l], column) implies if descending {
        text_order(sorted[k].title@, sorted[l].title@) >= 0
    } else {
        text_order(sorted[k].title@, sorted[l].title@) <= 0
    } by {
        assert(directed_order(sorted[k], sorted[l], column, descending) <= 0);
        lemma_same_key_orders_by_title(sorted[k], sorted[l], column);
    }
}

/// In a listing sorted ascending by year, each book's year is no later
/// than the next ones' (unknown years first).
pub proof fn lemma_year_listing_ascends(sorted: Seq<Book>, books: Seq<Book>)
    requires
        is_stable_sort(sorted, books, SortColumn::Year, false),
    ensures
        forall|k: int, l: int|
            0 <= k < l < sorted.len() && (#[trigger] sorted[k]).year is Some ==> (#[trigger] sorted[l]).year is Some
                && sorted[k].year->0 <= sorted[l].year->0,
{
    lemma_stable_sort_in_order(sorted, books, SortColumn::Year, false);
    assert forall|k: int, l: int|
        0 <= k < l < sorted.len() && (#[trigger] sorted[k]).year is Some implies (#[trigger] sorted[l]).year is Some
            && sorted[k].year->0 <= sorted[l].year->0 by {
        assert(directed_order(sorted[k], sorted[l], SortColumn::Year, false) <= 0);
        lemma_key_decides(sorted[l], sorted[k]);
        lemma_directed_order(sorted[k], sorted[l], sorted[l], SortColumn::Year, false);
    }
}

} // verus!
