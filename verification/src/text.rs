//! Text helpers: decimal rendering and parsing of integers, padding to a
//! width, and comparison of strings character by character.

use vstd::prelude::*;

verus! {

/// The character of a decimal digit `d` (0 to 9).
pub open spec fn digit_char(d: int) -> char {
    if d == 0 {
        '0'
    } else if d == 1 {
        '1'
    } else if d == 2 {
        '2'
    } else if d == 3 {
        '3'
    } else if d == 4 {
        '4'
    } else if d == 5 {
        '5'
    } else if d == 6 {
        '6'
    } else if d == 7 {
        '7'
    } else if d == 8 {
        '8'
    } else {
        '9'
    }
}

pub open spec fn is_digit(c: char) -> bool {
    '0' <= c && c <= '9'
}

/// The value of an ASCII decimal digit.
pub open spec fn digit_value(c: char) -> int {
    (c as int) - ('0' as int)
}

/// The decimal digits of a natural number, most significant first, with no
/// leading zeros (zero itself is "0").
pub open spec fn nat_digits(n: nat) -> Seq<char>
    decreases n,
{
    if n < 10 {
        seq![digit_char(n as int)]
    } else {
        nat_digits(n / 10).push(digit_char((n % 10) as int))
    }
}

/// An integer as Rust's `to_string` writes it: a minus sign for negative
/// values, then the decimal digits of the magnitude.
pub open spec fn int_text(n: int) -> Seq<char> {
    if n < 0 {
        seq!['-'] + nat_digits((-n) as nat)
    } else {
        nat_digits(n as nat)
    }
}

/// `k` spaces.
pub open spec fn spaces(k: nat) -> Seq<char> {
    Seq::new(k, |i: int| ' ')
}

/// `s` right-aligned in a field of `width` characters (`{:>width}`).
pub open spec fn pad_left(s: Seq<char>, width: nat) -> Seq<char> {
    if s.len() < width {
        spaces((width - s.len()) as nat) + s
    } else {
        s
    }
}

/// `s` left-aligned in a field of `width` characters (`{:<width}`).
pub open spec fn pad_right(s: Seq<char>, width: nat) -> Seq<char> {
    if s.len() < width {
        s + spaces((width - s.len()) as nat)
    } else {
        s
    }
}

/// `k` copies of `c`.
pub open spec fn repeat_char(c: char, k: nat) -> Seq<char> {
    Seq::new(k, |i: int| c)
}

/// Lexicographic comparison of two strings by their characters: -1, 0 or 1.
/// A proper prefix comes first.  On valid text this is the order of `Ord`
/// on `String`, which compares the UTF-8 bytes.
pub open spec fn text_order(a: Seq<char>, b: Seq<char>) -> int
    decreases a.len(),
{
    if a.len() == 0 {
        if b.len() == 0 {
            0
        } else {
            -1
        }
    } else if b.len() == 0 {
        1
    } else if a[0] < b[0] {
        -1
    } else if a[0] > b[0] {
        1
    } else {
        text_order(a.drop_first(), b.drop_first())
    }
}

proof fn lemma_digit_char_value(d: int)
    requires
        0 <= d < 10,
    ensures
        is_digit(digit_char(d)),
        digit_value(digit_char(d)) == d,
{
}

fn push_digit(s: &mut String, d: u64)
    requires
        d < 10,
    ensures
        final(s)@ == old(s)@.push(digit_char(d as int)),
{
    proof {
        reveal_strlit("0");
        reveal_strlit("1");
        reveal_strlit("2");
        reveal_strlit("3");
        reveal_strlit("4");
        reveal_strlit("5");
        reveal_strlit("6");
        reveal_strlit("7");
        reveal_strlit("8");
        reveal_strlit("9");
    }
    let ghost before = s@;
    if d == 0 {
        s.append("0");
    } else if d == 1 {
        s.append("1");
    } else if d == 2 {
        s.append("2");
    } else if d == 3 {
        s.append("3");
    } else if d == 4 {
        s.append("4");
    } else if d == 5 {
        s.append("5");
    } else if d == 6 {
        s.append("6");
    } else if d == 7 {
        s.append("7");
    } else if d == 8 {
        s.append("8");
    } else {
        s.append("9");
    }
    assert(s@ =~= before.push(digit_char(d as int)));
}

fn push_nat(s: &mut String, n: u64)
    ensures
        final(s)@ == old(s)@ + nat_digits(n as nat),
    decreases n,
{
    let ghost before = s@;
    if n >= 10 {
        push_nat(s, n / 10);
    }
    push_digit(s, n % 10);
    proof {
        if n >= 10 {
            assert(s@ =~= before + nat_digits(n as nat));
        } else {
            assert(s@ =~= before + nat_digits(n as nat));
        }
    }
}

/// Appends the decimal text of `n` to `s`.
pub fn push_int(s: &mut String, n: i64)
    ensures
        final(s)@ == old(s)@ + int_text(n as int),
{
    let ghost before = s@;
    if n < 0 {
        s.append("-");
        proof {
            reveal_strlit("-");
        }
        let wide: i128 = n as i128;
        let magnitude: u64 = (-wide) as u64;
        push_nat(s, magnitude);
        assert(s@ =~= before + int_text(n as int));
    } else {
        push_nat(s, n as u64);
    }
}

/// Appends the decimal text of a count to `s`.
pub fn push_count(s: &mut String, n: u64)
    ensures
        final(s)@ == old(s)@ + int_text(n as int),
{
    push_nat(s, n);
}

/// The decimal text of `n`, as `n.to_string()` gives it.
pub fn int_to_text(n: i64) -> (r: String)
    ensures
        r@ == int_text(n as int),
{
    let mut s = String::new();
    push_int(&mut s, n);
    assert(s@ =~= int_text(n as int));
    s
}

/// Appends `k` spaces to `s`.
pub fn push_spaces(s: &mut String, k: usize)
    ensures
        final(s)@ == old(s)@ + spaces(k as nat),
{
    let ghost before = s@;
    let mut i: usize = 0;
    while i < k
        invariant
            i <= k,
            s@ =~= before + spaces(i as nat),
        decreases k - i,
    {
        proof {
            reveal_strlit(" ");
        }
        s.append(" ");
        i = i + 1;
        assert(s@ =~= before + spaces(i as nat));
    }
}

/// Appends `t` right-aligned in a field of `width` characters.
pub fn push_padded_left(s: &mut String, t: &str, width: usize)
    ensures
        final(s)@ == old(s)@ + pad_left(t@, width as nat),
{
    let ghost before = s@;
    let len = t.unicode_len();
    if len < width {
        push_spaces(s, width - len);
    }
    s.append(t);
    assert(s@ =~= before + pad_left(t@, width as nat));
}

/// Appends `t` left-aligned in a field of `width` characters.
pub fn push_padded_right(s: &mut String, t: &str, width: usize)
    ensures
        final(s)@ == old(s)@ + pad_right(t@, width as nat),
{
    let ghost before = s@;
    let len = t.unicode_len();
    s.append(t);
    if len < width {
        push_spaces(s, width - len);
    }
    assert(s@ =~= before + pad_right(t@, width as nat));
}

/// Whether two strings hold the same characters.
pub fn text_eq(a: &str, b: &str) -> (r: bool)
    ensures
        r == (a@ == b@),
{
    let n = a.unicode_len();
    let m = b.unicode_len();
    if n != m {
        return false;
    }
    let mut i: usize = 0;
    while i < n
        invariant
            n == a@.len(),
            m == b@.len(),
            n == m,
            i <= n,
            forall|j: int| 0 <= j < i ==> a@[j] == b@[j],
        decreases n - i,
    {
        if a.get_char(i) != b.get_char(i) {
            return false;
        }
        i = i + 1;
    }
    assert(a@ =~= b@);
    true
}

proof fn lemma_text_order_skip(a: Seq<char>, b: Seq<char>, i: int)
    requires
        0 <= i < a.len(),
        i < b.len(),
        a[i] == b[i],
    ensures
        text_order(a.skip(i), b.skip(i)) == text_order(a.skip(i + 1), b.skip(i + 1)),
{
    assert(a.skip(i).drop_first() =~= a.skip(i + 1));
    assert(b.skip(i).drop_first() =~= b.skip(i + 1));
}

/// Compares two strings as `Ord` on `String` does: -1, 0 or 1.
pub fn compare_text(a: &str, b: &str) -> (r: i8)
    ensures
        r as int == text_order(a@, b@),
{
    let n = a.unicode_len();
    let m = b.unicode_len();
    let mut i: usize = 0;
    assert(a@.skip(0) =~= a@);
    assert(b@.skip(0) =~= b@);
    while i < n && i < m
        invariant
            n == a@.len(),
            m == b@.len(),
            i <= n,
            i <= m,
            text_order(a@, b@) == text_order(a@.skip(i as int), b@.skip(i as int)),
        decreases n - i,
    {
        let x = a.get_char(i);
        let y = b.get_char(i);
        if x < y {
            assert(a@.skip(i as int)[0] == x);
            return -1;
        } else if x > y {
            assert(a@.skip(i as int)[0] == x);
            return 1;
        }
        proof {
            lemma_text_order_skip(a@, b@, i as int);
        }
        i = i + 1;
    }
    if i < m {
        -1
    } else if i < n {
        1
    } else {
        0
    }
}

/// The value of a string of decimal digits, most significant first.
pub open spec fn digits_value(s: Seq<char>) -> int
    decreases s.len(),
{
    if s.len() == 0 {
        0
    } else {
        digits_value(s.drop_last()) * 10 + digit_value(s.last())
    }
}

pub open spec fn all_digits(s: Seq<char>) -> bool {
    forall|i: int| 0 <= i < s.len() ==> is_digit(#[trigger] s[i])
}

/// The integer that a string denotes in the syntax of Rust's `str::parse`
/// for signed integers: an optional `+` or `-`, then one or more ASCII
/// decimal digits and nothing else.
pub open spec fn integer_syntax(s: Seq<char>) -> Option<int> {
    let body = integer_body(s);
    if body.len() > 0 && all_digits(body) {
        Some(
            if is_negative_sign(s) {
                -digits_value(body)
            } else {
                digits_value(body)
            },
        )
    } else {
        None
    }
}

/// Whether the text starts with a minus sign.
pub open spec fn is_negative_sign(s: Seq<char>) -> bool {
    s.len() > 0 && s[0] == '-'
}

/// The text after an optional leading sign.
pub open spec fn integer_body(s: Seq<char>) -> Seq<char> {
    if s.len() > 0 && (s[0] == '-' || s[0] == '+') {
        s.drop_first()
    } else {
        s
    }
}

/// What `str::parse` gives for an integer type whose values run from `lo`
/// to `hi`: the denoted integer when the syntax is right and it fits.
pub open spec fn parse_in_range(s: Seq<char>, lo: int, hi: int) -> Option<int> {
    match integer_syntax(s) {
        Some(v) => if lo <= v <= hi {
            Some(v)
        } else {
            None
        },
        None => None,
    }
}

proof fn lemma_digits_value_nonneg(s: Seq<char>)
    requires
        all_digits(s),
    ensures
        digits_value(s) >= 0,
    decreases s.len(),
{
    if s.len() > 0 {
        assert(is_digit(s[s.len() - 1]));
        lemma_digits_value_nonneg(s.drop_last());
    }
}

proof fn lemma_digits_value_prefix(s: Seq<char>, k: int)
    requires
        all_digits(s),
        0 <= k <= s.len(),
    ensures
        digits_value(s) >= digits_value(s.take(k)),
    decreases s.len(),
{
    if k < s.len() {
        assert(is_digit(s[s.len() - 1]));
        lemma_digits_value_prefix(s.drop_last(), k);
        assert(s.drop_last().take(k) =~= s.take(k));
        lemma_digits_value_nonneg(s.drop_last());
    } else {
        assert(s.take(k) =~= s);
    }
}

/// Parses `s` as `str::parse` does for an integer type with range
/// `lo..=hi`.
fn parse_integer(s: &str, lo: i128, hi: i128) -> (r: Option<i128>)
    requires
        -0x1_0000_0000_0000_0000 <= lo <= 0 <= hi <= 0x1_0000_0000_0000_0000,
    ensures
        r is Some <==> parse_in_range(s@, lo as int, hi as int) is Some,
        r matches Some(v) ==> parse_in_range(s@, lo as int, hi as int) == Some(v as int),
{
    let n = s.unicode_len();
    if n == 0 {
        return None;
    }
    let first = s.get_char(0);
    let negative = first == '-';
    let start: usize = if first == '-' || first == '+' {
        1
    } else {
        0
    };
    let ghost body = integer_body(s@);
    assert(body =~= s@.subrange(start as int, n as int));
    if start == n {
        return None;
    }
    let mut acc: i128 = 0;
    let mut i: usize = start;
    assert(s@.subrange(start as int, i as int) =~= Seq::<char>::empty());
    while i < n
        invariant
            n == s@.len(),
            start <= i <= n,
            body =~= s@.subrange(start as int, n as int),
            body == integer_body(s@),
            negative == is_negative_sign(s@),
            -0x1_0000_0000_0000_0000 <= lo <= 0 <= hi <= 0x1_0000_0000_0000_0000,
            0 <= acc <= 0x1_0000_0000_0000_0000,
            acc == digits_value(s@.subrange(start as int, i as int)),
            all_digits(s@.subrange(start as int, i as int)),
        decreases n - i,
    {
        let c = s.get_char(i);
        if !('0' <= c && c <= '9') {
            assert(body[i - start] == c);
            assert(!all_digits(body));
            return None;
        }
        let d: i128 = (c as u32 - '0' as u32) as i128;
        let ghost prefix = s@.subrange(start as int, i as int + 1);
        assert(prefix.drop_last() =~= s@.subrange(start as int, i as int));
        assert(prefix.last() == c);
        acc = acc * 10 + d;
        i = i + 1;
        assert(all_digits(prefix));
        assert(acc == digits_value(prefix));
        if acc > 0x1_0000_0000_0000_0000 {
            proof {
                if all_digits(body) {
                    assert(body.take(i - start) =~= prefix);
                    lemma_digits_value_prefix(body, i - start);
                    assert(digits_value(body) > hi);
                    assert(-digits_value(body) < lo);
                }
            }
            return None;
        }
    }
    assert(s@.subrange(start as int, n as int) =~= body);
    let value: i128 = if negative {
        -acc
    } else {
        acc
    };
    if lo <= value && value <= hi {
        Some(value)
    } else {
        None
    }
}

/// `s.parse::<i32>().ok()`.
pub fn parse_i32(s: &str) -> (r: Option<i32>)
    ensures
        r is Some <==> parse_in_range(s@, i32::MIN as int, i32::MAX as int) is Some,
        r matches Some(v) ==> parse_in_range(s@, i32::MIN as int, i32::MAX as int) == Some(
            v as int,
        ),
{
    match parse_integer(s, i32::MIN as i128, i32::MAX as i128) {
        Some(v) => Some(v as i32),
        None => None,
    }
}

/// `s.parse::<i64>().ok()`.
pub fn parse_i64(s: &str) -> (r: Option<i64>)
    ensures
        r is Some <==> parse_in_range(s@, i64::MIN as int, i64::MAX as int) is Some,
        r matches Some(v) ==> parse_in_range(s@, i64::MIN as int, i64::MAX as int) == Some(
            v as int,
        ),
{
    match parse_integer(s, i64::MIN as i128, i64::MAX as i128) {
        Some(v) => Some(v as i64),
        None => None,
    }
}

proof fn lemma_nat_digits(n: nat)
    ensures
        nat_digits(n).len() > 0,
        all_digits(nat_digits(n)),
        digits_value(nat_digits(n)) == n,
    decreases n,
{
    if n < 10 {
        lemma_digit_char_value(n as int);
        assert(nat_digits(n).drop_last() =~= Seq::<char>::empty());
        assert(nat_digits(n).last() == digit_char(n as int));
        assert(digits_value(nat_digits(n)) == digits_value(Seq::<char>::empty()) * 10
            + digit_value(digit_char(n as int)));
    } else {
        lemma_nat_digits(n / 10);
        lemma_digit_char_value((n % 10) as int);
        let s = nat_digits(n);
        assert(s.drop_last() =~= nat_digits(n / 10));
        assert(s.last() == digit_char((n % 10) as int));
        assert(digits_value(s) == (n / 10) as int * 10 + (n % 10) as int);
        assert forall|i: int| 0 <= i < s.len() implies is_digit(#[trigger] s[i]) by {
            if i < s.len() - 1 {
                assert(s[i] == nat_digits(n / 10)[i]);
            }
        }
    }
}

/// Reading back what `int_text` wrote gives the same integer: for every
/// integer type whose range holds `n`, parsing the decimal text of `n`
/// yields `n`.
pub proof fn lemma_parse_int_text(n: int, lo: int, hi: int)
    requires
        lo <= n <= hi,
    ensures
        parse_in_range(int_text(n), lo, hi) == Some(n),
{
    if n < 0 {
        let m = (-n) as nat;
        lemma_nat_digits(m);
        let s = int_text(n);
        assert(s.drop_first() =~= nat_digits(m));
    } else {
        lemma_nat_digits(n as nat);
        let s = nat_digits(n as nat);
        assert(is_digit(s[0]));
    }
}

/// Every text compares equal to itself.
pub proof fn lemma_text_order_reflexive(a: Seq<char>)
    ensures
        text_order(a, a) == 0,
    decreases a.len(),
{
    if a.len() > 0 {
        lemma_text_order_reflexive(a.drop_first());
    }
}

/// Texts that agree up to index `i` and differ there are ordered by the
/// characters at `i`.
pub proof fn lemma_text_order_first_difference(a: Seq<char>, b: Seq<char>, i: int)
    requires
        0 <= i < a.len(),
        i < b.len(),
        a.take(i) == b.take(i),
        a[i] < b[i],
    ensures
        text_order(a, b) == -1,
        text_order(b, a) == 1,
    decreases i,
{
    if i > 0 {
        assert(a[0] == a.take(i)[0]);
        assert(b[0] == b.take(i)[0]);
        assert(a.drop_first().take(i - 1) =~= b.drop_first().take(i - 1)) by {
            assert forall|j: int| 0 <= j < i - 1 implies a.drop_first()[j] == b.drop_first()[j] by {
                assert(a.take(i)[j + 1] == b.take(i)[j + 1]);
                assert(a.take(i)[j + 1] == a[j + 1]);
                assert(b.take(i)[j + 1] == b[j + 1]);
                assert(a.drop_first()[j] == a[j + 1]);
                assert(b.drop_first()[j] == b[j + 1]);
            }
        }
        lemma_text_order_first_difference(a.drop_first(), b.drop_first(), i - 1);
    }
}

/// A proper prefix comes before the longer text.
pub proof fn lemma_text_order_proper_prefix(a: Seq<char>, b: Seq<char>)
    requires
        a.len() < b.len(),
        b.take(a.len() as int) == a,
    ensures
        text_order(a, b) == -1,
        text_order(b, a) == 1,
    decreases a.len(),
{
    if a.len() > 0 {
        assert(b[0] == b.take(a.len() as int)[0]);
        assert(b.drop_first().take(a.len() - 1) =~= a.drop_first()) by {
            assert forall|j: int| 0 <= j < a.len() - 1 implies b.drop_first()[j]
                == a.drop_first()[j] by {
                assert(b.take(a.len() as int)[j + 1] == a[j + 1]);
            }
        }
        lemma_text_order_proper_prefix(a.drop_first(), b.drop_first());
    }
}

/// Texts compare equal only when they are the same text.
pub proof fn lemma_text_order_zero_means_equal(a: Seq<char>, b: Seq<char>)
    ensures
        text_order(a, b) == 0 <==> a == b,
    decreases a.len(),
{
    if a.len() > 0 && b.len() > 0 && a[0] == b[0] {
        lemma_text_order_zero_means_equal(a.drop_first(), b.drop_first());
        if a.drop_first() == b.drop_first() {
            assert(a =~= seq![a[0]] + a.drop_first());
            assert(b =~= seq![b[0]] + b.drop_first());
        }
        if a == b {
            assert(a.drop_first() =~= b.drop_first());
        }
    } else if a.len() == 0 && b.len() == 0 {
        assert(a =~= b);
    } else if a == b {
        lemma_text_order_reflexive(a);
    }
}

/// Parsing accepts only a sign followed by digits and a value in range:
/// empty text, a character that is not a digit (other than a leading
/// sign), or a lone sign gives nothing, and whatever it gives lies in the
/// range.
pub proof fn lemma_parse_rejects(s: Seq<char>, lo: int, hi: int)
    ensures
        s.len() == 0 ==> parse_in_range(s, lo, hi) is None,
        s.len() == 1 && (s[0] == '-' || s[0] == '+') ==> parse_in_range(s, lo, hi) is None,
        forall|i: int|
            0 <= i < s.len() && !is_digit(#[trigger] s[i]) && !(i == 0 && (s[0] == '-' || s[0]
                == '+')) ==> parse_in_range(s, lo, hi) is None,
        parse_in_range(s, lo, hi) matches Some(v) ==> lo <= v <= hi,
{
    assert forall|i: int|
        0 <= i < s.len() && !is_digit(#[trigger] s[i]) && !(i == 0 && (s[0] == '-' || s[0]
            == '+')) implies parse_in_range(s, lo, hi) is None by {
        let body = integer_body(s);
        if s[0] == '-' || s[0] == '+' {
            assert(body[i - 1] == s[i]);
        } else {
            assert(body[i] == s[i]);
        }
    }
    if s.len() == 1 && (s[0] == '-' || s[0] == '+') {
        assert(integer_body(s).len() == 0);
    }
}

/// Digits denote their decimal value: a text of digits parses to the sum
/// of its digits times powers of ten, computed here digit by digit: the
/// value of the text with one more digit is ten times the value plus the
/// digit.
pub proof fn lemma_parse_appends_digit(s: Seq<char>, d: char)
    requires
        s.len() > 0,
        all_digits(s),
        is_digit(d),
    ensures
        integer_syntax(s.push(d)) == Some(10 * integer_syntax(s)->0 + (d as int - '0' as int)),
{
    let t = s.push(d);
    assert(t.drop_last() =~= s);
    assert(is_digit(s[0]));
    assert(integer_body(t) == t);
    assert(integer_body(s) == s);
    assert(all_digits(t)) by {
        assert forall|i: int| 0 <= i < t.len() implies is_digit(#[trigger] t[i]) by {
            if i < s.len() {
                assert(t[i] == s[i]);
            }
        }
    }
}

} // verus!
