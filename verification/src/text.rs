//! Character-level text handling: splitting on a separator, comparing,
//! trimming white space, dropping a character and reading decimal numbers.
//! Positions count characters, not bytes.

use vstd::prelude::*;
use vstd::string::*;

verus! {

// ---------------------------------------------------------------------------
// Splitting
// ---------------------------------------------------------------------------

/// Position of the first occurrence of `sep` in `s` that starts at `from` or later.
pub open spec fn find_from(s: Seq<char>, sep: Seq<char>, from: int) -> Option<int>
    decreases s.len() - from,
{
    if sep.len() == 0 || from + sep.len() > s.len() {
        None
    } else if s.subrange(from, from + sep.len()) == sep {
        Some(from)
    } else {
        find_from(s, sep, from + 1)
    }
}

/// The pieces of `s` from position `start` on, cut at each occurrence of
/// `sep`, occurrences taken from left to right without overlapping.
pub open spec fn pieces_from(s: Seq<char>, sep: Seq<char>, start: int) -> Seq<Seq<char>>
    decreases s.len() - start,
{
    match find_from(s, sep, start) {
        Some(i) => if start <= i && i + sep.len() <= s.len() && sep.len() > 0 {
            seq![s.subrange(start, i)] + pieces_from(s, sep, i + sep.len())
        } else {
            seq![]
        },
        None => seq![s.subrange(start, s.len() as int)],
    }
}

/// `s` cut at each occurrence of `sep`, as `str::split` with a string pattern does.
pub open spec fn split(s: Seq<char>, sep: Seq<char>) -> Seq<Seq<char>> {
    pieces_from(s, sep, 0)
}

proof fn lemma_find_first(s: Seq<char>, sep: Seq<char>, from: int, at: int)
    requires
        sep.len() > 0,
        0 <= from <= at,
        at + sep.len() <= s.len(),
        s.subrange(at, at + sep.len()) == sep,
        forall|j: int| from <= j < at ==> s[j] != sep[0],
    ensures
        find_from(s, sep, from) == Some(at),
    decreases at - from,
{
    if from < at {
        assert(s.subrange(from, from + sep.len())[0] == s[from]);
        lemma_find_first(s, sep, from + 1, at);
    }
}

proof fn lemma_find_none(s: Seq<char>, sep: Seq<char>, from: int)
    requires
        sep.len() > 0,
        0 <= from,
        forall|j: int| from <= j < s.len() ==> s[j] != sep[0],
    ensures
        find_from(s, sep, from) is None,
    decreases s.len() - from,
{
    if from + sep.len() <= s.len() {
        assert(s.subrange(from, from + sep.len())[0] == s[from]);
        lemma_find_none(s, sep, from + 1);
    }
}

/// A piece free of the separator's first character, followed by the
/// separator, is cut off as it stands.
pub proof fn lemma_cut_piece(s: Seq<char>, sep: Seq<char>, start: int, len: int)
    requires
        sep.len() > 0,
        0 <= start,
        0 <= len,
        start + len + sep.len() <= s.len(),
        s.subrange(start + len, start + len + sep.len()) == sep,
        forall|j: int| start <= j < start + len ==> s[j] != sep[0],
    ensures
        pieces_from(s, sep, start) == seq![s.subrange(start, start + len)] + pieces_from(
            s,
            sep,
            start + len + sep.len(),
        ),
{
    lemma_find_first(s, sep, start, start + len);
}

/// A rest free of the separator's first character is the last piece.
pub proof fn lemma_last_piece(s: Seq<char>, sep: Seq<char>, start: int)
    requires
        sep.len() > 0,
        0 <= start <= s.len(),
        forall|j: int| start <= j < s.len() ==> s[j] != sep[0],
    ensures
        pieces_from(s, sep, start) == seq![s.subrange(start, s.len() as int)],
{
    lemma_find_none(s, sep, start);
}

/// Whether `c` does not occur in `s`.
pub open spec fn free_of(s: Seq<char>, c: char) -> bool {
    forall|i: int| 0 <= i < s.len() ==> s[i] != c
}

pub proof fn lemma_free_of_concat(a: Seq<char>, b: Seq<char>, c: char)
    requires
        free_of(a, c),
        free_of(b, c),
    ensures
        free_of(a + b, c),
{
    assert forall|i: int| 0 <= i < (a + b).len() implies (a + b)[i] != c by {
        if i < a.len() {
            assert((a + b)[i] == a[i]);
        } else {
            assert((a + b)[i] == b[i - a.len()]);
        }
    }
}

proof fn lemma_find_bounds(s: Seq<char>, sep: Seq<char>, from: int)
    ensures
        find_from(s, sep, from) matches Some(i) ==> from <= i && i + sep.len() <= s.len()
            && sep.len() > 0,
    decreases s.len() - from,
{
    if sep.len() == 0 || from + sep.len() > s.len() {
    } else if s.subrange(from, from + sep.len()) == sep {
    } else {
        lemma_find_bounds(s, sep, from + 1);
    }
}

proof fn lemma_find_shift(x: Seq<char>, y: Seq<char>, sep: Seq<char>, k: int)
    requires
        0 <= k,
    ensures
        find_from(x + y, sep, x.len() + k) == match find_from(y, sep, k) {
            Some(i) => Some(i + x.len()),
            None => None,
        },
    decreases y.len() - k,
{
    let s = x + y;
    if sep.len() == 0 || k + sep.len() > y.len() {
    } else {
        assert(s.subrange(x.len() + k, x.len() + k + sep.len()) =~= y.subrange(k, k + sep.len()));
        if y.subrange(k, k + sep.len()) != sep {
            lemma_find_shift(x, y, sep, k + 1);
            assert(x.len() + k + 1 == x.len() + (k + 1));
        }
    }
}

proof fn lemma_pieces_shift(x: Seq<char>, y: Seq<char>, sep: Seq<char>, k: int)
    requires
        0 <= k <= y.len(),
    ensures
        pieces_from(x + y, sep, x.len() + k) == pieces_from(y, sep, k),
    decreases y.len() - k,
{
    let s = x + y;
    lemma_find_shift(x, y, sep, k);
    lemma_find_bounds(y, sep, k);
    match find_from(y, sep, k) {
        Some(i) => {
            assert(s.subrange(x.len() + k, i + x.len()) =~= y.subrange(k, i));
            lemma_pieces_shift(x, y, sep, i + sep.len());
            assert(i + x.len() + sep.len() == x.len() + (i + sep.len()));
        },
        None => {
            assert(s.subrange(x.len() + k, s.len() as int) =~= y.subrange(k, y.len() as int));
        },
    }
}

/// Splitting a piece free of the separator's first character, the separator
/// and a rest gives the piece, then the pieces of the rest.
pub proof fn lemma_split_front(a: Seq<char>, sep: Seq<char>, rest: Seq<char>)
    requires
        sep.len() > 0,
        free_of(a, sep[0]),
    ensures
        split(a + sep + rest, sep) == seq![a] + split(rest, sep),
{
    let s = a + sep + rest;
    assert(s.subrange(a.len() as int, (a.len() + sep.len()) as int) =~= sep);
    assert forall|j: int| 0 <= j < a.len() implies s[j] != sep[0] by {
        assert(s[j] == a[j]);
    }
    lemma_cut_piece(s, sep, 0, a.len() as int);
    assert(s.subrange(0, a.len() as int) =~= a);
    lemma_pieces_shift(a + sep, rest, sep, 0);
}

/// A text free of the separator's first character is a single piece.
pub proof fn lemma_split_single(a: Seq<char>, sep: Seq<char>)
    requires
        sep.len() > 0,
        free_of(a, sep[0]),
    ensures
        split(a, sep) == seq![a],
{
    lemma_last_piece(a, sep, 0);
    assert(a.subrange(0, a.len() as int) =~= a);
}

/// The characters of `s`.
fn chars_of(s: &str) -> (v: Vec<char>)
    ensures
        v@ == s@,
{
    let n = s.unicode_len();
    let mut v: Vec<char> = Vec::new();
    let mut i: usize = 0;
    while i < n
        invariant
            n == s@.len(),
            i <= n,
            v@ == s@.take(i as int),
        decreases n - i,
    {
        v.push(s.get_char(i));
        i = i + 1;
        assert(v@ =~= s@.take(i as int));
    }
    assert(v@ =~= s@);
    v
}

/// Whether `sep` occurs in `s` at position `pos`.
fn occurs_at(s: &Vec<char>, sep: &Vec<char>, pos: usize) -> (b: bool)
    requires
        pos + sep.len() <= s.len(),
    ensures
        b == (s@.subrange(pos as int, pos + sep.len()) == sep@),
{
    let m = sep.len();
    let mut k: usize = 0;
    while k < m
        invariant
            m == sep.len(),
            pos + m <= s.len(),
            k <= m,
            forall|j: int| 0 <= j < k ==> s@[pos + j] == sep@[j],
        decreases m - k,
    {
        if s[pos + k] != sep[k] {
            assert(s@.subrange(pos as int, pos + m)[k as int] != sep@[k as int]);
            return false;
        }
        k = k + 1;
    }
    assert(s@.subrange(pos as int, pos + m) =~= sep@);
    true
}

/// `s` cut at each occurrence of `sep` (which must not be empty).
pub fn split_text<'a>(s: &'a str, sep: &str) -> (v: Vec<&'a str>)
    requires
        sep@.len() > 0,
    ensures
        v@.len() == split(s@, sep@).len(),
        forall|i: int| 0 <= i < v@.len() ==> #[trigger] v@[i]@ == split(s@, sep@)[i],
{
    let cs = chars_of(s);
    let ps = chars_of(sep);
    let n = cs.len();
    let m = ps.len();
    let ghost whole = split(s@, sep@);
    let mut out: Vec<&'a str> = Vec::new();
    let mut start: usize = 0;
    let mut pos: usize = 0;
    while pos <= n && m <= n - pos
        invariant
            n == s@.len(),
            m == sep@.len(),
            m > 0,
            cs@ == s@,
            ps@ == sep@,
            whole == split(s@, sep@),
            start <= pos <= n,
            find_from(s@, sep@, start as int) == find_from(s@, sep@, pos as int),
            whole == Seq::new(out@.len() as nat, |k: int| out@[k]@) + pieces_from(
                s@,
                sep@,
                start as int,
            ),
        decreases n - pos,
    {
        if occurs_at(&cs, &ps, pos) {
            let piece = s.substring_char(start, pos);
            let ghost before = Seq::new(out@.len() as nat, |k: int| out@[k]@);
            out.push(piece);
            assert(Seq::new(out@.len() as nat, |k: int| out@[k]@) =~= before + seq![piece@]);
            assert(pieces_from(s@, sep@, start as int) == seq![s@.subrange(start as int, pos as int)]
                + pieces_from(s@, sep@, pos + m));
            start = pos + m;
            pos = start;
        } else {
            pos = pos + 1;
        }
    }
    assert(find_from(s@, sep@, pos as int) is None);
    let last = s.substring_char(start, n);
    let ghost before = Seq::new(out@.len() as nat, |k: int| out@[k]@);
    out.push(last);
    assert(Seq::new(out@.len() as nat, |k: int| out@[k]@) =~= before + seq![last@]);
    proof {
        assert forall|i: int| 0 <= i < out@.len() implies #[trigger] out@[i]@ == whole[i] by {
            assert(Seq::new(out@.len() as nat, |k: int| out@[k]@)[i] == out@[i]@);
        }
    }
    out
}

// ---------------------------------------------------------------------------
// Comparing
// ---------------------------------------------------------------------------

/// Whether `a` and `b` hold the same characters.
pub fn same_text(a: &str, b: &str) -> (r: bool)
    ensures
        r == (a@ == b@),
{
    let n = a.unicode_len();
    if n != b.unicode_len() {
        return false;
    }
    let mut i: usize = 0;
    while i < n
        invariant
            n == a@.len(),
            n == b@.len(),
            i <= n,
            forall|j: int| 0 <= j < i ==> a@[j] == b@[j],
        decreases n - i,
    {
        if a.get_char(i) != b.get_char(i) {
            return false;
        }
        i = i + 1;
    }
    assert(a@ =~= b@);
    true
}

// ---------------------------------------------------------------------------
// Dropping a character
// ---------------------------------------------------------------------------

/// `s` without any occurrence of `c`.
pub open spec fn without_char(s: Seq<char>, c: char) -> Seq<char> {
    s.filter(other_than(c))
}

/// The test "is not `c`".
pub open spec fn other_than(c: char) -> spec_fn(char) -> bool {
    |x: char| x != c
}

/// `s` with every occurrence of `c` removed, as `str::replace(c, "")` does.
pub fn remove_char(s: &str, c: char) -> (r: String)
    ensures
        r@ == without_char(s@, c),
{
    let n = s.unicode_len();
    let mut r = String::new();
    let mut i: usize = 0;
    let ghost keep = other_than(c);
    while i < n
        invariant
            n == s@.len(),
            i <= n,
            keep == other_than(c),
            r@ == s@.take(i as int).filter(keep),
        decreases n - i,
    {
        let ghost prefix = s@.take(i as int);
        assert(s@.take(i + 1) =~= prefix + seq![s@[i as int]]);
        proof {
            Seq::filter_distributes_over_add(prefix, seq![s@[i as int]], keep);
            reveal_with_fuel(Seq::filter, 2);
        }
        if s.get_char(i) != c {
            let one = s.substring_char(i, i + 1);
            r.append(one);
            assert(seq![s@[i as int]].filter(keep) =~= seq![s@[i as int]]);
            assert(one@ =~= seq![s@[i as int]]);
        } else {
            assert(seq![s@[i as int]].filter(keep) =~= Seq::<char>::empty());
        }
        i = i + 1;
    }
    assert(s@.take(n as int) =~= s@);
    r
}

// ---------------------------------------------------------------------------
// Decimal numbers
// ---------------------------------------------------------------------------

pub open spec fn is_digit(c: char) -> bool {
    '0' <= c && c <= '9'
}

pub open spec fn digit_value(c: char) -> int {
    c as int - '0' as int
}

pub open spec fn all_digits(d: Seq<char>) -> bool {
    forall|i: int| 0 <= i < d.len() ==> #[trigger] is_digit(d[i])
}

/// The number that the decimal digits `d` write.
pub open spec fn digits_value(d: Seq<char>) -> int
    decreases d.len(),
{
    if d.len() == 0 {
        0
    } else {
        10 * digits_value(d.drop_last()) + digit_value(d.last())
    }
}

/// `s` without one leading `+`, if it has one.
pub open spec fn unsigned_magnitude(s: Seq<char>) -> Seq<char> {
    if s.len() > 0 && s[0] == '+' {
        s.drop_first()
    } else {
        s
    }
}

/// What reading `s` as an unsigned number of largest value `max` gives, as
/// `str::parse` does for the unsigned integer types: an optional `+`, then
/// at least one decimal digit, the value at most `max`.
pub open spec fn parse_unsigned(s: Seq<char>, max: int) -> Option<int> {
    let d = unsigned_magnitude(s);
    if d.len() > 0 && all_digits(d) && digits_value(d) <= max {
        Some(digits_value(d))
    } else {
        None
    }
}

/// Reads `s` as an unsigned decimal number not above `max`.
pub fn parse_decimal(s: &str, max: u64) -> (r: Option<u64>)
    ensures
        match r {
            Some(v) => parse_unsigned(s@, max as int) == Some(v as int),
            None => parse_unsigned(s@, max as int) is None,
        },
{
    let cs = chars_of(s);
    let n = cs.len();
    let mut start: usize = 0;
    if n > 0 && cs[0] == '+' {
        start = 1;
    }
    let ghost d = s@.subrange(start as int, n as int);
    assert(unsigned_magnitude(s@) =~= d);
    if start == n {
        return None;
    }
    let mut i: usize = start;
    let mut acc: u64 = 0;
    let mut over = false;
    while i < n
        invariant
            cs@ == s@,
            n == s@.len(),
            start <= i <= n,
            d == s@.subrange(start as int, n as int),
            unsigned_magnitude(s@) == d,
            all_digits(s@.subrange(start as int, i as int)),
            !over ==> acc == digits_value(s@.subrange(start as int, i as int)),
            !over ==> acc <= max,
            over ==> digits_value(s@.subrange(start as int, i as int)) > max,
        decreases n - i,
    {
        let c = cs[i];
        if !('0' <= c && c <= '9') {
            assert(d[i - start] == c);
            assert(!is_digit(d[i - start]));
            return None;
        }
        let ghost prev = s@.subrange(start as int, i as int);
        let ghost next = s@.subrange(start as int, i + 1);
        assert(next.drop_last() =~= prev);
        assert(next.last() == c);
        assert forall|k: int| 0 <= k < next.len() implies #[trigger] is_digit(next[k]) by {
            if k < prev.len() {
                assert(next[k] == prev[k]);
            }
        }
        let dv = (c as u32 - '0' as u32) as u64;
        if !over {
            let step: u128 = (acc as u128) * 10 + (dv as u128);
            if step <= max as u128 {
                acc = step as u64;
            } else {
                over = true;
            }
        }
        i = i + 1;
    }
    assert(s@.subrange(start as int, n as int) == d);
    if over {
        None
    } else {
        Some(acc)
    }
}

/// The usual decimal writing of `n`: no sign, no leading zero.
pub open spec fn decimal(n: nat) -> Seq<char>
    decreases n,
{
    if n < 10 {
        seq![digit_char(n)]
    } else {
        decimal(n / 10) + seq![digit_char(n % 10)]
    }
}

/// The character of the digit `d` (below ten).
pub open spec fn digit_char(d: nat) -> char {
    (d + '0' as nat) as char
}

/// What the usual decimal writing of a number is made of, and that it reads back as the number.
pub proof fn lemma_decimal(n: nat)
    ensures
        decimal(n).len() > 0,
        all_digits(decimal(n)),
        digits_value(decimal(n)) == n,
        decimal(n)[0] != '+',
        decimal(n) == seq!['0'] <==> n == 0,
    decreases n,
{
    if n < 10 {
        assert(digit_char(n) as int == n + 48);
        assert(decimal(n).drop_last() =~= Seq::<char>::empty());
        assert(digits_value(Seq::<char>::empty()) == 0);
        assert(digits_value(decimal(n)) == n);
    } else {
        lemma_decimal(n / 10);
        let d = decimal(n);
        let r = n % 10;
        assert(digit_char(r) as int == r + 48);
        assert(d.drop_last() =~= decimal(n / 10));
        assert forall|i: int| 0 <= i < d.len() implies #[trigger] is_digit(d[i]) by {
            if i < d.len() - 1 {
                assert(d[i] == decimal(n / 10)[i]);
            }
        }
        assert(d[0] == decimal(n / 10)[0]);
        assert(d.len() >= 2);
        assert(d.last() == digit_char(r));
        assert(digit_value(d.last()) == r);
        assert(n == 10 * (n / 10) + n % 10);
        assert(digits_value(d) == 10 * digits_value(decimal(n / 10)) + r);
    }
}

/// The usual decimal writing holds only digits, so none of the characters given.
pub proof fn lemma_decimal_free_of(n: nat, c: char)
    requires
        !is_digit(c),
    ensures
        free_of(decimal(n), c),
{
    lemma_decimal(n);
    assert forall|i: int| 0 <= i < decimal(n).len() implies decimal(n)[i] != c by {
        assert(is_digit(decimal(n)[i]));
    }
}

/// Reading the usual decimal writing of `n` gives `n` back.
pub proof fn lemma_parse_decimal(n: nat, max: int)
    requires
        n <= max,
    ensures
        parse_unsigned(decimal(n), max) == Some(n as int),
{
    lemma_decimal(n);
}

// ---------------------------------------------------------------------------
// White space
// ---------------------------------------------------------------------------

/// Whether `c` has the Unicode `White_Space` property (PropList.txt), which
/// is what `char::is_whitespace` answers: the tab, line feed, vertical tab,
/// form feed and carriage return, the space, U+0085, U+00A0, U+1680,
/// U+2000 to U+200A, U+2028, U+2029, U+202F, U+205F and U+3000.
pub open spec fn white_space(c: char) -> bool {
    ||| '\t' <= c && c <= '\r'
    ||| c == ' '
    ||| c == '\u{85}'
    ||| c == '\u{a0}'
    ||| c == '\u{1680}'
    ||| '\u{2000}' <= c && c <= '\u{200a}'
    ||| c == '\u{2028}'
    ||| c == '\u{2029}'
    ||| c == '\u{202f}'
    ||| c == '\u{205f}'
    ||| c == '\u{3000}'
}

/// Whether `c` is white space.
pub fn is_white_space(c: char) -> (b: bool)
    ensures
        b == white_space(c),
{
    ('\t' <= c && c <= '\r') || c == ' ' || c == '\u{85}' || c == '\u{a0}' || c == '\u{1680}'
        || ('\u{2000}' <= c && c <= '\u{200a}') || c == '\u{2028}' || c == '\u{2029}'
        || c == '\u{202f}' || c == '\u{205f}' || c == '\u{3000}'
}

/// `s` without its leading white space.
pub open spec fn trim_front(s: Seq<char>) -> Seq<char>
    decreases s.len(),
{
    if s.len() > 0 && white_space(s[0]) {
        trim_front(s.drop_first())
    } else {
        s
    }
}

/// `s` without its trailing white space.
pub open spec fn trim_back(s: Seq<char>) -> Seq<char>
    decreases s.len(),
{
    if s.len() > 0 && white_space(s.last()) {
        trim_back(s.drop_last())
    } else {
        s
    }
}

/// `s` without leading and trailing white space, as `str::trim` gives it.
pub open spec fn trimmed(s: Seq<char>) -> Seq<char> {
    trim_back(trim_front(s))
}

/// Whether every character of `s` is white space.
pub open spec fn all_white_space(s: Seq<char>) -> bool {
    forall|i: int| 0 <= i < s.len() ==> white_space(#[trigger] s[i])
}

proof fn lemma_trim_front_prefix(pre: Seq<char>, rest: Seq<char>)
    requires
        all_white_space(pre),
        rest.len() > 0,
        !white_space(rest[0]),
    ensures
        trim_front(pre + rest) == rest,
    decreases pre.len(),
{
    if pre.len() == 0 {
        assert(pre + rest =~= rest);
    } else {
        assert((pre + rest)[0] == pre[0]);
        assert((pre + rest).drop_first() =~= pre.drop_first() + rest);
        assert(all_white_space(pre.drop_first())) by {
            assert forall|i: int| 0 <= i < pre.drop_first().len() implies white_space(
                #[trigger] pre.drop_first()[i],
            ) by {
                assert(pre.drop_first()[i] == pre[i + 1]);
            }
        }
        lemma_trim_front_prefix(pre.drop_first(), rest);
    }
}

proof fn lemma_trim_back_suffix(rest: Seq<char>, post: Seq<char>)
    requires
        all_white_space(post),
        rest.len() > 0,
        !white_space(rest.last()),
    ensures
        trim_back(rest + post) == rest,
    decreases post.len(),
{
    if post.len() == 0 {
        assert(rest + post =~= rest);
    } else {
        assert((rest + post).last() == post.last());
        assert(white_space(post[post.len() - 1]));
        assert((rest + post).drop_last() =~= rest + post.drop_last());
        lemma_trim_back_suffix(rest, post.drop_last());
    }
}

/// Trimming a text that neither begins nor ends with white space, with white
/// space only before and after it, gives the text back.
pub proof fn law_trimmed(pre: Seq<char>, s: Seq<char>, post: Seq<char>)
    requires
        all_white_space(pre),
        all_white_space(post),
        s.len() > 0,
        !white_space(s[0]),
        !white_space(s.last()),
    ensures
        trimmed(pre + s + post) == s,
{
    assert(pre + s + post =~= pre + (s + post));
    assert((s + post)[0] == s[0]);
    lemma_trim_front_prefix(pre, s + post);
    lemma_trim_back_suffix(s, post);
}

/// `s` without leading and trailing white space.
pub fn trim_text<'a>(s: &'a str) -> (r: &'a str)
    ensures
        r@ == trimmed(s@),
{
    let n = s.unicode_len();
    let mut i: usize = 0;
    assert(s@.subrange(0, n as int) =~= s@);
    while i < n && is_white_space(s.get_char(i))
        invariant
            n == s@.len(),
            i <= n,
            trim_front(s@) == trim_front(s@.subrange(i as int, n as int)),
        decreases n - i,
    {
        assert(s@.subrange(i + 1, n as int) =~= s@.subrange(i as int, n as int).drop_first());
        i = i + 1;
    }
    assert(trim_front(s@) == s@.subrange(i as int, n as int));
    let mut j: usize = n;
    while j > i && is_white_space(s.get_char(j - 1))
        invariant
            n == s@.len(),
            i <= j <= n,
            trim_back(s@.subrange(i as int, n as int)) == trim_back(s@.subrange(i as int, j as int)),
        decreases j,
    {
        assert(s@.subrange(i as int, j - 1) =~= s@.subrange(i as int, j as int).drop_last());
        j = j - 1;
    }
    s.substring_char(i, j)
}

} // verus!
