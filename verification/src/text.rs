//! Text as character sequences: scanning, splitting and decimal numbers.
use vstd::prelude::*;
use vstd::string::*;

verus! {

/// `String::push` appends the given character to the end of the string.
pub assume_specification[ String::push ](s: &mut String, c: char)
    ensures
        final(s)@ == old(s)@.push(c),
;

// ---------------------------------------------------------------------------
// Between strings and characters
// ---------------------------------------------------------------------------

/// The characters of a string.
pub fn to_chars(s: &str) -> (r: Vec<char>)
    ensures
        r@ == s@,
{
    let mut r: Vec<char> = Vec::new();
    for c in iter: s.chars()
        invariant
            r@ == iter.seq().take(iter.index() as int),
            iter.seq() == s@,
    {
        r.push(c);
    }
    r
}

/// The string of these characters.
pub fn from_chars(chars: &[char]) -> (r: String)
    ensures
        r@ == chars@,
{
    let mut r = String::new();
    let mut i: usize = 0;
    while i < chars.len()
        invariant
            0 <= i <= chars@.len(),
            r@ == chars@.take(i as int),
        decreases chars@.len() - i,
    {
        r.push(chars[i]);
        i += 1;
    }
    assert(chars@.take(i as int) =~= chars@);
    r
}

/// The views of a list of strings.
pub open spec fn texts(v: Seq<String>) -> Seq<Seq<char>> {
    v.map_values(|s: String| s@)
}

/// The views of a list of string slices.
pub open spec fn str_texts(v: Seq<&str>) -> Seq<Seq<char>> {
    v.map_values(|s: &str| s@)
}

/// Appends owned copies of `items` to `list`.
pub fn push_all(list: &mut Vec<String>, items: Vec<&str>)
    ensures
        texts(final(list)@) == texts(old(list)@) + str_texts(items@),
{
    let ghost start = list@;
    let mut i: usize = 0;
    while i < items.len()
        invariant
            0 <= i <= items@.len(),
            texts(list@) == texts(start) + str_texts(items@).take(i as int),
        decreases items@.len() - i,
    {
        let ghost before = list@;
        list.push(items[i].to_owned());
        assert(texts(list@) =~= texts(before).push(items@[i as int]@));
        i += 1;
        assert(texts(list@) =~= texts(start) + str_texts(items@).take(i as int));
    }
    assert(str_texts(items@).take(i as int) =~= str_texts(items@));
}

/// Pieces joined with a separator between them.
pub open spec fn joined_with(parts: Seq<Seq<char>>, separator: Seq<char>) -> Seq<char>
    decreases parts.len(),
{
    if parts.len() == 0 {
        Seq::empty()
    } else if parts.len() == 1 {
        parts[0]
    } else {
        joined_with(parts.drop_last(), separator) + separator + parts.last()
    }
}

/// Joins pieces with a separator between them.
pub fn join(parts: &Vec<&str>, separator: &str) -> (r: String)
    ensures
        r@ == joined_with(str_texts(parts@), separator@),
{
    let mut r = String::new();
    let mut i: usize = 0;
    assert(str_texts(parts@).take(0) =~= Seq::empty());
    while i < parts.len()
        invariant
            0 <= i <= parts@.len(),
            r@ == joined_with(str_texts(parts@).take(i as int), separator@),
        decreases parts@.len() - i,
    {
        let ghost front = str_texts(parts@).take(i + 1);
        assert(front.drop_last() =~= str_texts(parts@).take(i as int));
        if i > 0 {
            r.append(separator);
        }
        r.append(parts[i]);
        assert(r@ =~= joined_with(front, separator@));
        i += 1;
    }
    assert(str_texts(parts@).take(i as int) =~= str_texts(parts@));
    r
}

// ---------------------------------------------------------------------------
// Comparing and searching
// ---------------------------------------------------------------------------

/// `part` stands in `s` at `i`.
pub open spec fn stands_at(s: Seq<char>, part: Seq<char>, i: int) -> bool {
    0 <= i && i + part.len() <= s.len() && s.subrange(i, i + part.len()) == part
}

/// `part` occurs in `s`.
pub open spec fn contains_text(s: Seq<char>, part: Seq<char>) -> bool {
    exists|i: int| #[trigger] stands_at(s, part, i)
}

/// Whether `part` stands in `s` at `i`.
pub fn is_at(s: &[char], part: &[char], i: usize) -> (r: bool)
    ensures
        r == stands_at(s@, part@, i as int),
{
    let n: usize = s.len();
    let m: usize = part.len();
    if m > n || i > n - m {
        return false;
    }
    let mut k: usize = 0;
    while k < m
        invariant
            n == s@.len(),
            m == part@.len(),
            i + m <= n,
            0 <= k <= m,
            forall|j: int| 0 <= j < k ==> s@[i + j] == part@[j],
        decreases m - k,
    {
        if s[i + k] != part[k] {
            assert(s@.subrange(i as int, i + m)[k as int] != part@[k as int]);
            return false;
        }
        k += 1;
    }
    assert(s@.subrange(i as int, i + m) =~= part@);
    true
}

/// Whether `part` occurs in `s`.
pub fn contains(s: &[char], part: &[char]) -> (r: bool)
    ensures
        r == contains_text(s@, part@),
{
    let n: usize = s.len();
    let m: usize = part.len();
    if m > n {
        return false;
    }
    let mut i: usize = 0;
    while i <= n - m
        invariant
            n == s@.len(),
            m == part@.len(),
            m <= n,
            i <= n - m + 1,
            forall|j: int| 0 <= j < i ==> !#[trigger] stands_at(s@, part@, j),
        decreases n - m + 1 - i,
    {
        if is_at(s, part, i) {
            return true;
        }
        if i == n - m {
            return false;
        }
        i += 1;
    }
    false
}

/// Whether `s` begins with `prefix`.
pub fn has_prefix(s: &[char], prefix: &[char]) -> (r: bool)
    ensures
        r == prefix@.is_prefix_of(s@),
{
    is_at(s, prefix, 0)
}

/// Whether `s` ends with `suffix`.
pub fn has_suffix(s: &[char], suffix: &[char]) -> (r: bool)
    ensures
        r == suffix@.is_suffix_of(s@),
{
    let n: usize = s.len();
    let m: usize = suffix.len();
    if m > n {
        return false;
    }
    is_at(s, suffix, n - m)
}

/// Whether two strings are the same text.
pub fn same(a: &str, b: &str) -> (r: bool)
    ensures
        r == (a@ == b@),
{
    let x = to_chars(a);
    let y = to_chars(b);
    if x.len() != y.len() {
        return false;
    }
    let r = is_at(x.as_slice(), y.as_slice(), 0);
    assert(x@.subrange(0, x@.len() as int) =~= x@);
    r
}

/// Whether `s` begins with `prefix`.
pub fn starts_with(s: &str, prefix: &str) -> (r: bool)
    ensures
        r == prefix@.is_prefix_of(s@),
{
    has_prefix(to_chars(s).as_slice(), to_chars(prefix).as_slice())
}

/// Whether `s` ends with `suffix`.
pub fn ends_with(s: &str, suffix: &str) -> (r: bool)
    ensures
        r == suffix@.is_suffix_of(s@),
{
    has_suffix(to_chars(s).as_slice(), to_chars(suffix).as_slice())
}

/// The first position at which `p` holds, or the length where it holds nowhere.
pub open spec fn first_where(s: Seq<char>, p: spec_fn(char) -> bool) -> int
    decreases s.len(),
{
    if s.len() == 0 || p(s[0]) {
        0
    } else {
        1 + first_where(s.skip(1), p)
    }
}

pub(crate) proof fn lemma_first_where(s: Seq<char>, p: spec_fn(char) -> bool)
    ensures
        0 <= first_where(s, p) <= s.len(),
        forall|j: int| 0 <= j < first_where(s, p) ==> !p(#[trigger] s[j]),
        first_where(s, p) < s.len() ==> p(s[first_where(s, p)]),
    decreases s.len(),
{
    if s.len() > 0 && !p(s[0]) {
        lemma_first_where(s.skip(1), p);
        assert forall|j: int| 0 <= j < first_where(s, p) implies !p(#[trigger] s[j]) by {
            if j > 0 {
                assert(s[j] == s.skip(1)[j - 1]);
            }
        }
        if first_where(s, p) < s.len() {
            assert(s[first_where(s, p)] == s.skip(1)[first_where(s, p) - 1]);
        }
    }
}

/// The position is settled by what lies before it and at it.
pub(crate) proof fn lemma_first_where_is(s: Seq<char>, p: spec_fn(char) -> bool, n: int)
    requires
        0 <= n <= s.len(),
        forall|j: int| 0 <= j < n ==> !p(#[trigger] s[j]),
        n < s.len() ==> p(s[n]),
    ensures
        first_where(s, p) == n,
{
    lemma_first_where(s, p);
    let m = first_where(s, p);
    if m < n {
        assert(!p(s[m]));
    }
    if n < m {
        assert(!p(s[n]));
    }
}

/// The predicate of being this one character.
pub open spec fn just(c: char) -> spec_fn(char) -> bool {
    |x: char| x == c
}

/// The position of the first `c`.
pub fn find_char(s: &[char], c: char) -> (r: Option<usize>)
    ensures
        match r {
            Some(i) => i < s@.len() && first_where(s@, just(c)) == i,
            None => first_where(s@, just(c)) == s@.len() && !s@.contains(c),
        },
{
    let mut i: usize = 0;
    while i < s.len()
        invariant
            0 <= i <= s@.len(),
            forall|j: int| 0 <= j < i ==> s@[j] != c,
        decreases s@.len() - i,
    {
        if s[i] == c {
            proof {
                lemma_first_where_is(s@, just(c), i as int);
            }
            return Some(i);
        }
        i += 1;
    }
    proof {
        lemma_first_where_is(s@, just(c), i as int);
    }
    None
}

/// Whether `c` occurs.
pub fn has_char(s: &[char], c: char) -> (r: bool)
    ensures
        r == s@.contains(c),
{
    match find_char(s, c) {
        Some(i) => {
            proof {
                lemma_first_where(s@, just(c));
            }
            assert(s@[i as int] == c);
            true
        },
        None => false,
    }
}

/// The text before the first `c` and the text after it.
pub open spec fn split_at_first(s: Seq<char>, c: char) -> Option<(Seq<char>, Seq<char>)> {
    let n = first_where(s, just(c));
    if n < s.len() {
        Some((s.take(n), s.skip(n + 1)))
    } else {
        None
    }
}

/// Splits a text at the first `c`.
pub fn split_once<'a>(s: &'a [char], c: char) -> (r: Option<(&'a [char], &'a [char])>)
    ensures
        match r {
            Some((before, after)) => split_at_first(s@, c) == Some((before@, after@)),
            None => split_at_first(s@, c) is None,
        },
{
    let len: usize = s.len();
    match find_char(s, c) {
        Some(n) => {
            let before = vstd::slice::slice_subrange(s, 0, n);
            let after = vstd::slice::slice_subrange(s, n + 1, len);
            Some((before, after))
        },
        None => None,
    }
}

/// The text after the last `c`.
pub open spec fn after_last(s: Seq<char>, c: char) -> Option<Seq<char>>
    decreases s.len(),
{
    if s.len() == 0 {
        None
    } else if s.last() == c {
        Some(Seq::empty())
    } else {
        match after_last(s.drop_last(), c) {
            Some(t) => Some(t.push(s.last())),
            None => None,
        }
    }
}

proof fn lemma_after_last(s: Seq<char>, c: char, b: int)
    requires
        -1 <= b < s.len(),
        b >= 0 ==> s[b] == c,
        forall|j: int| b < j < s.len() ==> s[j] != c,
    ensures
        after_last(s, c) == (if b >= 0 {
            Some(s.skip(b + 1))
        } else {
            None
        }),
    decreases s.len(),
{
    if s.len() > 0 {
        if s.last() == c {
            assert(s.skip(b + 1) =~= Seq::empty());
        } else {
            lemma_after_last(s.drop_last(), c, b);
            if b >= 0 {
                assert(s.drop_last().skip(b + 1).push(s.last()) =~= s.skip(b + 1));
            }
        }
    }
}

/// The text after the last `c`.
pub fn split_last<'a>(s: &'a [char], c: char) -> (r: Option<&'a [char]>)
    ensures
        match r {
            Some(t) => after_last(s@, c) == Some(t@),
            None => after_last(s@, c) is None,
        },
{
    let len: usize = s.len();
    let mut i: usize = len;
    while i > 0
        invariant
            len == s@.len(),
            0 <= i <= len,
            forall|j: int| i <= j < s@.len() ==> s@[j] != c,
        decreases i,
    {
        i -= 1;
        if s[i] == c {
            proof {
                lemma_after_last(s@, c, i as int);
            }
            return Some(vstd::slice::slice_subrange(s, i + 1, len));
        }
    }
    proof {
        lemma_after_last(s@, c, -1);
    }
    None
}

// ---------------------------------------------------------------------------
// Whitespace, lines and words
// ---------------------------------------------------------------------------

/// A character with the Unicode property White_Space.
pub open spec fn white(c: char) -> bool {
    ||| '\u{9}' <= c <= '\u{d}'
    ||| c == ' '
    ||| c == '\u{85}'
    ||| c == '\u{a0}'
    ||| c == '\u{1680}'
    ||| '\u{2000}' <= c <= '\u{200a}'
    ||| c == '\u{2028}'
    ||| c == '\u{2029}'
    ||| c == '\u{202f}'
    ||| c == '\u{205f}'
    ||| c == '\u{3000}'
}

/// Whether `c` is whitespace.
pub fn is_whitespace(c: char) -> (r: bool)
    ensures
        r == white(c),
{
    ('\u{9}' <= c && c <= '\u{d}') || c == ' ' || c == '\u{85}' || c == '\u{a0}' || c == '\u{1680}'
        || ('\u{2000}' <= c && c <= '\u{200a}') || c == '\u{2028}' || c == '\u{2029}' || c
        == '\u{202f}' || c == '\u{205f}' || c == '\u{3000}'
}

/// The predicates that the splitting functions search for.
pub open spec fn space() -> spec_fn(char) -> bool {
    |c: char| white(c)
}

pub open spec fn ink() -> spec_fn(char) -> bool {
    |c: char| !white(c)
}

/// The text from its first character that is no whitespace on.
pub open spec fn trimmed_start(s: Seq<char>) -> Seq<char> {
    s.skip(first_where(s, ink()))
}

/// The text up to its last character that is no whitespace.
pub open spec fn trimmed_end(s: Seq<char>) -> Seq<char>
    decreases s.len(),
{
    if s.len() > 0 && white(s.last()) {
        trimmed_end(s.drop_last())
    } else {
        s
    }
}

/// A line without the carriage return that belongs to its line ending.
pub open spec fn without_return(line: Seq<char>) -> Seq<char> {
    if line.len() > 0 && line.last() == '\r' {
        line.drop_last()
    } else {
        line
    }
}

/// The lines of a text. Each ends with a newline, with a carriage return
/// before it or not; the last one may end with the text.
pub open spec fn lines_of(s: Seq<char>) -> Seq<Seq<char>>
    decreases s.len(),
{
    let n = first_where(s, just('\n'));
    if s.len() == 0 {
        Seq::empty()
    } else if n < 0 || n >= s.len() {
        seq![s]
    } else {
        seq![without_return(s.take(n))] + lines_of(s.skip(n + 1))
    }
}

/// The words of a text: its maximal pieces without whitespace.
pub open spec fn words_of(s: Seq<char>) -> Seq<Seq<char>>
    decreases s.len(),
{
    let t = trimmed_start(s);
    let n = first_where(t, space());
    if t.len() == 0 || t.len() > s.len() || n <= 0 || n > t.len() {
        Seq::empty()
    } else {
        seq![t.take(n)] + words_of(t.skip(n))
    }
}

/// The views of a list of character vectors.
pub open spec fn rows(v: Seq<Vec<char>>) -> Seq<Seq<char>> {
    v.map_values(|r: Vec<char>| r@)
}

/// The first position of whitespace, or the length.
pub fn find_space(s: &[char]) -> (r: usize)
    ensures
        r == first_where(s@, space()),
{
    let mut i: usize = 0;
    while i < s.len() && !is_whitespace(s[i])
        invariant
            0 <= i <= s@.len(),
            forall|j: int| 0 <= j < i ==> !white(#[trigger] s@[j]),
        decreases s@.len() - i,
    {
        i += 1;
    }
    proof {
        lemma_first_where_is(s@, space(), i as int);
    }
    i
}

/// The first position of a character that is no whitespace, or the length.
fn find_ink(s: &[char]) -> (r: usize)
    ensures
        r == first_where(s@, ink()),
        r <= s@.len(),
{
    let mut i: usize = 0;
    while i < s.len() && is_whitespace(s[i])
        invariant
            0 <= i <= s@.len(),
            forall|j: int| 0 <= j < i ==> white(#[trigger] s@[j]),
        decreases s@.len() - i,
    {
        i += 1;
    }
    proof {
        lemma_first_where_is(s@, ink(), i as int);
    }
    i
}

/// The text without leading whitespace.
pub fn trim_start(s: &[char]) -> (r: &[char])
    ensures
        r@ == trimmed_start(s@),
{
    let n: usize = find_ink(s);
    vstd::slice::slice_subrange(s, n, s.len())
}

/// The text without leading and trailing whitespace.
pub fn trim(s: &[char]) -> (r: &[char])
    ensures
        r@ == trimmed_end(trimmed_start(s@)),
{
    let t = trim_start(s);
    let mut n: usize = t.len();
    assert(t@.take(n as int) =~= t@);
    while n > 0 && is_whitespace(t[n - 1])
        invariant
            0 <= n <= t@.len(),
            trimmed_end(t@) == trimmed_end(t@.take(n as int)),
        decreases n,
    {
        assert(t@.take(n as int).drop_last() =~= t@.take(n - 1));
        n -= 1;
    }
    vstd::slice::slice_subrange(t, 0, n)
}

/// The lines of a text.
pub fn lines(s: &[char]) -> (r: Vec<Vec<char>>)
    ensures
        rows(r@) == lines_of(s@),
{
    let mut out: Vec<Vec<char>> = Vec::new();
    let mut pos: usize = 0;
    assert(s@.skip(0) =~= s@);
    assert(rows(out@) + lines_of(s@) =~= lines_of(s@));
    while pos < s.len()
        invariant
            0 <= pos <= s@.len(),
            rows(out@) + lines_of(s@.skip(pos as int)) == lines_of(s@),
        decreases s@.len() - pos,
    {
        let rest = vstd::slice::slice_subrange(s, pos, s.len());
        assert(rest@ =~= s@.skip(pos as int));
        let ghost before = out@;
        match find_char(rest, '\n') {
            None => {
                out.push(vstd::slice::slice_to_vec(rest));
                assert(rows(out@) =~= rows(before).push(rest@));
                assert(rows(out@) =~= rows(before) + lines_of(rest@));
                return out;
            },
            Some(n) => {
                let end: usize = if n > 0 && rest[n - 1] == '\r' {
                    n - 1
                } else {
                    n
                };
                let line = vstd::slice::slice_subrange(rest, 0, end);
                assert(line@ =~= without_return(rest@.take(n as int)));
                out.push(vstd::slice::slice_to_vec(line));
                assert(rows(out@) =~= rows(before).push(line@));
                pos = pos + n + 1;
                assert(rest@.skip(n + 1) =~= s@.skip(pos as int));
                assert(rows(out@) + lines_of(s@.skip(pos as int)) =~= rows(before) + (seq![line@]
                    + lines_of(s@.skip(pos as int))));
            },
        }
    }
    assert(lines_of(s@.skip(pos as int)) =~= Seq::empty());
    assert(rows(out@) =~= lines_of(s@));
    out
}

/// The words of a text.
pub fn words(s: &[char]) -> (r: Vec<Vec<char>>)
    ensures
        rows(r@) == words_of(s@),
{
    let mut out: Vec<Vec<char>> = Vec::new();
    let mut rest = s;
    assert(rows(out@) + words_of(s@) =~= words_of(s@));
    loop
        invariant
            rows(out@) + words_of(rest@) == words_of(s@),
        decreases rest@.len(),
    {
        let t = trim_start(rest);
        proof {
            lemma_first_where(rest@, ink());
            lemma_first_where(t@, space());
        }
        if t.len() == 0 {
            assert(words_of(rest@) =~= Seq::empty());
            assert(rows(out@) =~= words_of(s@));
            return out;
        }
        let n: usize = find_space(t);
        let word = vstd::slice::slice_subrange(t, 0, n);
        let ghost before = out@;
        out.push(vstd::slice::slice_to_vec(word));
        let tail = vstd::slice::slice_subrange(t, n, t.len());
        proof {
            assert(rows(out@) =~= rows(before).push(word@));
            let k = first_where(rest@, ink());
            assert(t@[0] == rest@[k]);
            assert(n > 0);
            assert(words_of(rest@) == seq![word@] + words_of(tail@));
            assert(rows(out@) + words_of(tail@) =~= rows(before) + words_of(rest@));
        }
        rest = tail;
    }
}

// ---------------------------------------------------------------------------
// Decimal numbers
// ---------------------------------------------------------------------------

/// An ASCII digit.
pub open spec fn digit(c: char) -> bool {
    '0' <= c <= '9'
}

pub open spec fn a_digit() -> spec_fn(char) -> bool {
    |c: char| digit(c)
}

pub open spec fn no_digit() -> spec_fn(char) -> bool {
    |c: char| !digit(c)
}

/// The maximal rows of digits in a text.
pub open spec fn digit_runs_of(s: Seq<char>) -> Seq<Seq<char>>
    decreases s.len(),
{
    let t = s.skip(first_where(s, a_digit()));
    let n = first_where(t, no_digit());
    if t.len() == 0 || t.len() > s.len() || n <= 0 || n > t.len() {
        Seq::empty()
    } else {
        seq![t.take(n)] + digit_runs_of(t.skip(n))
    }
}

/// The maximal rows of digits in a text.
pub fn digit_runs(s: &[char]) -> (r: Vec<Vec<char>>)
    ensures
        rows(r@) == digit_runs_of(s@),
{
    let mut out: Vec<Vec<char>> = Vec::new();
    let mut pos: usize = 0;
    let len: usize = s.len();
    assert(s@.skip(0) =~= s@);
    assert(rows(out@) + digit_runs_of(s@) =~= digit_runs_of(s@));
    while pos < len
        invariant
            len == s@.len(),
            0 <= pos <= len,
            rows(out@) + digit_runs_of(s@.skip(pos as int)) == digit_runs_of(s@),
        decreases len - pos,
    {
        let ghost rest = s@.skip(pos as int);
        let mut begin: usize = pos;
        while begin < len && !is_digit(s[begin])
            invariant
                len == s@.len(),
                pos <= begin <= len,
                forall|j: int| pos <= j < begin ==> !digit(#[trigger] s@[j]),
            decreases len - begin,
        {
            begin += 1;
        }
        let ghost t = s@.skip(begin as int);
        proof {
            lemma_first_where_is(rest, a_digit(), begin - pos);
            assert(rest.skip(begin - pos) =~= t);
        }
        if begin == len {
            assert(digit_runs_of(rest) =~= Seq::empty());
            assert(rows(out@) =~= digit_runs_of(s@));
            return out;
        }
        let mut end: usize = begin;
        while end < len && is_digit(s[end])
            invariant
                len == s@.len(),
                begin <= end <= len,
                forall|j: int| begin <= j < end ==> digit(#[trigger] s@[j]),
            decreases len - end,
        {
            end += 1;
        }
        proof {
            lemma_first_where_is(t, no_digit(), end - begin);
            assert(digit(s@[begin as int]));
        }
        let run = vstd::slice::slice_subrange(s, begin, end);
        let ghost before = out@;
        out.push(vstd::slice::slice_to_vec(run));
        assert(rows(out@) =~= rows(before).push(run@));
        assert(run@ =~= t.take(end - begin));
        assert(t.skip(end - begin) =~= s@.skip(end as int));
        assert(rows(out@) + digit_runs_of(s@.skip(end as int)) =~= rows(before) + digit_runs_of(
            rest,
        ));
        pos = end;
    }
    assert(digit_runs_of(s@.skip(pos as int)) =~= Seq::empty());
    assert(rows(out@) =~= digit_runs_of(s@));
    out
}

/// The digit for a number below ten.
pub open spec fn digit_char(d: nat) -> char {
    (48 + d) as char
}

/// A number in decimal.
pub open spec fn decimal(n: nat) -> Seq<char>
    decreases n,
{
    if n < 10 {
        seq![digit_char(n)]
    } else {
        decimal(n / 10).push(digit_char(n % 10))
    }
}

/// The number that a row of digits stands for.
pub open spec fn value_of(s: Seq<char>) -> nat
    decreases s.len(),
{
    if s.len() == 0 {
        0
    } else {
        value_of(s.drop_last()) * 10 + (s.last() as nat - 48) as nat
    }
}

/// Only digits, and at least one.
pub open spec fn all_digits(s: Seq<char>) -> bool {
    s.len() > 0 && forall|i: int| 0 <= i < s.len() ==> digit(#[trigger] s[i])
}

/// Reading an unsigned number: an optional plus sign, then only digits, with a
/// value of at most `max`.
pub open spec fn parsed(s: Seq<char>, max: nat) -> Option<nat> {
    let d = if s.len() > 0 && s[0] == '+' {
        s.skip(1)
    } else {
        s
    };
    if all_digits(d) && value_of(d) <= max {
        Some(value_of(d))
    } else {
        None
    }
}

/// Whether `c` is an ASCII digit.
pub fn is_digit(c: char) -> (r: bool)
    ensures
        r == digit(c),
{
    '0' <= c && c <= '9'
}

/// Appends a number in decimal.
pub fn push_decimal(out: &mut String, n: u64)
    ensures
        final(out)@ == old(out)@ + decimal(n as nat),
    decreases n,
{
    if n >= 10 {
        push_decimal(out, n / 10);
    }
    let d: u8 = (n % 10) as u8;
    let c: char = (48 + d) as char;
    out.push(c);
    assert(out@ =~= old(out)@ + decimal(n as nat));
}

/// A number in decimal.
pub fn to_decimal(n: u64) -> (r: String)
    ensures
        r@ == decimal(n as nat),
{
    let mut r = String::new();
    push_decimal(&mut r, n);
    assert(r@ =~= decimal(n as nat));
    r
}

proof fn lemma_value_grows(s: Seq<char>, n: int)
    requires
        0 <= n <= s.len(),
        forall|i: int| 0 <= i < s.len() ==> digit(#[trigger] s[i]),
    ensures
        value_of(s.take(n)) <= value_of(s),
    decreases s.len() - n,
{
    if n < s.len() {
        lemma_value_grows(s, n + 1);
        assert(s.take(n + 1).drop_last() =~= s.take(n));
        assert(value_of(s.take(n + 1)) >= value_of(s.take(n)));
    } else {
        assert(s.take(n) =~= s);
    }
}

/// Reads an unsigned number of at most `max`.
pub fn parse_number(s: &[char], max: u64) -> (r: Option<u64>)
    ensures
        match r {
            Some(n) => parsed(s@, max as nat) == Some(n as nat),
            None => parsed(s@, max as nat) is None,
        },
{
    let first: usize = if s.len() > 0 && s[0] == '+' {
        1
    } else {
        0
    };
    let d = vstd::slice::slice_subrange(s, first, s.len());
    assert(first == 0 ==> d@ =~= s@);
    assert(first == 1 ==> d@ =~= s@.skip(1));
    if d.len() == 0 {
        return None;
    }
    let mut i: usize = 0;
    while i < d.len()
        invariant
            0 <= i <= d@.len(),
            d@ == (if s@.len() > 0 && s@[0] == '+' {
                s@.skip(1)
            } else {
                s@
            }),
            forall|j: int| 0 <= j < i ==> digit(#[trigger] d@[j]),
        decreases d@.len() - i,
    {
        if !is_digit(d[i]) {
            assert(!digit(d@[i as int]));
            return None;
        }
        i += 1;
    }
    let mut n: u64 = 0;
    let mut k: usize = 0;
    while k < d.len()
        invariant
            0 <= k <= d@.len(),
            d@.len() > 0,
            d@ == (if s@.len() > 0 && s@[0] == '+' {
                s@.skip(1)
            } else {
                s@
            }),
            forall|j: int| 0 <= j < d@.len() ==> digit(#[trigger] d@[j]),
            n <= max,
            n == value_of(d@.take(k as int)),
        decreases d@.len() - k,
    {
        let digit_value: u64 = (d[k] as u32 - 48) as u64;
        assert(d@.take(k + 1).drop_last() =~= d@.take(k as int));
        assert(value_of(d@.take(k + 1)) == n * 10 + digit_value);
        if n > max / 10 || digit_value > max - n * 10 {
            proof {
                lemma_value_grows(d@, k + 1);
            }
            return None;
        }
        n = n * 10 + digit_value;
        k += 1;
    }
    assert(d@.take(k as int) =~= d@);
    Some(n)
}

/// Reading back a number written in decimal gives the number.
pub proof fn decimal_reads_back(n: nat, max: nat)
    requires
        n <= max,
    ensures
        parsed(decimal(n), max) == Some(n),
    decreases n,
{
    lemma_decimal(n);
    assert(digit(decimal(n)[0]));
}

proof fn lemma_decimal(n: nat)
    ensures
        all_digits(decimal(n)),
        value_of(decimal(n)) == n,
    decreases n,
{
    let d = decimal(n);
    if n >= 10 {
        lemma_decimal(n / 10);
        assert(d.drop_last() =~= decimal(n / 10));
        assert forall|i: int| 0 <= i < d.len() implies digit(#[trigger] d[i]) by {
            if i < d.len() - 1 {
                assert(d[i] == decimal(n / 10)[i]);
            }
        }
    } else {
        assert(d.drop_last() =~= Seq::empty());
        assert(value_of(d.drop_last()) == 0);
    }
}

// ---------------------------------------------------------------------------
// Laws
// ---------------------------------------------------------------------------

/// Decimal is positional: the last digit stands for the ones, what is before it
/// for the tens. Digits are those of ASCII, and there is no leading zero.
pub proof fn decimal_is_positional(n: nat)
    ensures
        n < 10 ==> decimal(n).len() == 1 && decimal(n)[0] as u32 == '0' as u32 + n,
        n >= 10 ==> decimal(n).drop_last() == decimal(n / 10) && decimal(n).last() as u32
            == '0' as u32 + n % 10,
        n > 0 ==> decimal(n)[0] != '0',
    decreases n,
{
    if n >= 10 {
        decimal_is_positional(n / 10);
        assert(decimal(n).drop_last() =~= decimal(n / 10));
        assert(decimal(n)[0] == decimal(n / 10)[0]);
    }
}

/// A number is read from digits alone, with one plus sign before them or not,
/// and only where it is not above the highest that is asked for. One more digit
/// makes it ten times as much, and that digit more.
pub proof fn numbers_are_read_digit_by_digit(s: Seq<char>, c: char, max: nat)
    ensures
        parsed(s, max) matches Some(v) ==> v <= max,
        parsed(s, max) is Some ==> forall|i: int|
            0 <= i < s.len() ==> '0' <= #[trigger] s[i] <= '9' || i == 0 && s[i] == '+',
        parsed(Seq::empty(), max) is None,
        '0' <= c <= '9' && c as nat - 48 <= max ==> parsed(seq![c], max) == Some(
            (c as nat - 48) as nat,
        ),
        '0' <= c <= '9' ==> (parsed(s, max) matches Some(v) ==> parsed(s.push(c), max) == (if v * 10
            + (c as nat - 48) <= max {
            Some((v * 10 + (c as nat - 48)) as nat)
        } else {
            None
        })),
        s.len() > 0 && s[0] != '+' ==> parsed(seq!['+'] + s, max) == parsed(s, max),
{
    if parsed(s, max) is Some {
        let d = if s.len() > 0 && s[0] == '+' {
            s.skip(1)
        } else {
            s
        };
        assert forall|i: int| 0 <= i < s.len() implies '0' <= #[trigger] s[i] <= '9' || i == 0 && s[i]
            == '+' by {
            if s[0] == '+' {
                if i > 0 {
                    assert(s[i] == d[i - 1]);
                }
            } else {
                assert(s[i] == d[i]);
            }
        }
        if '0' <= c <= '9' {
            let t = s.push(c);
            let e = if t.len() > 0 && t[0] == '+' {
                t.skip(1)
            } else {
                t
            };
            assert(e =~= d.push(c));
            assert(e.drop_last() =~= d);
            assert(all_digits(e));
        }
    }
    assert(seq![c].drop_last() =~= Seq::empty());
    assert(value_of(seq![c].drop_last()) == 0);
    assert((seq!['+'] + s).skip(1) =~= s);
}

/// The first line of a text is what comes before its first newline, without a
/// carriage return at its end; the other lines are those of what comes after.
pub proof fn a_line_ends_with_a_newline(line: Seq<char>, rest: Seq<char>)
    requires
        !line.contains('\n'),
    ensures
        lines_of(line + seq!['\n'] + rest) == seq![
            if line.len() > 0 && line.last() == '\r' {
                line.drop_last()
            } else {
                line
            },
        ] + lines_of(rest),
        line.len() > 0 ==> lines_of(line) == seq![line],
        lines_of(Seq::empty()).len() == 0,
{
    let s = line + seq!['\n'] + rest;
    let n = line.len() as int;
    assert forall|j: int| 0 <= j < n implies !just('\n')(#[trigger] s[j]) by {
        assert(line.contains(line[j]));
    }
    lemma_first_where_is(s, just('\n'), n);
    assert(s.take(n) =~= line);
    assert(s.skip(n + 1) =~= rest);
    assert forall|j: int| 0 <= j < n implies !just('\n')(#[trigger] line[j]) by {
        assert(line.contains(line[j]));
    }
    lemma_first_where_is(line, just('\n'), n);
}

/// A space before a text makes no difference to its words.
pub(crate) proof fn lemma_words_behind_space(rest: Seq<char>)
    ensures
        words_of(seq![' '] + rest) == words_of(rest),
{
    let s = seq![' '] + rest;
    lemma_first_where(rest, ink());
    let n = first_where(rest, ink());
    assert forall|j: int| 0 <= j < n + 1 implies !ink()(#[trigger] s[j]) by {
        if j > 0 {
            assert(s[j] == rest[j - 1]);
        }
    }
    lemma_first_where_is(s, ink(), n + 1);
    assert(trimmed_start(s) =~= trimmed_start(rest));
    let t = trimmed_start(rest);
    lemma_first_where(t, space());
    if t.len() > 0 {
        assert(ink()(t[0]));
    }
}

/// A text that begins with a word has that word first. A word is a row of
/// characters that are no whitespace, up to whitespace or the end.
pub proof fn words_are_read_one_by_one(word: Seq<char>, rest: Seq<char>)
    requires
        word.len() > 0,
        forall|i: int| 0 <= i < word.len() ==> !white(#[trigger] word[i]),
        rest.len() > 0 ==> white(rest[0]),
    ensures
        words_of(word + rest) == seq![word] + words_of(rest),
        words_of(seq![' '] + rest) == words_of(rest),
        words_of(Seq::empty()).len() == 0,
{
    let s = word + rest;
    assert(ink()(s[0]));
    lemma_first_where_is(s, ink(), 0);
    assert(trimmed_start(s) =~= s);
    assert forall|j: int| 0 <= j < word.len() implies !space()(#[trigger] s[j]) by {
        assert(s[j] == word[j]);
    }
    lemma_first_where_is(s, space(), word.len() as int);
    assert(s.take(word.len() as int) =~= word);
    assert(s.skip(word.len() as int) =~= rest);
    lemma_words_behind_space(rest);
}

/// Rows of digits are read one by one, each from its first digit up to what is
/// none; what lies between does not matter.
pub proof fn digits_are_read_row_by_row(between: Seq<char>, run: Seq<char>, rest: Seq<char>)
    requires
        forall|i: int| 0 <= i < between.len() ==> !digit(#[trigger] between[i]),
        run.len() > 0,
        forall|i: int| 0 <= i < run.len() ==> '0' <= #[trigger] run[i] <= '9',
        rest.len() > 0 ==> !digit(rest[0]),
    ensures
        digit_runs_of(between + run + rest) == seq![run] + digit_runs_of(rest),
        digit_runs_of(between).len() == 0,
{
    let s = between + run + rest;
    let b = between.len() as int;
    assert forall|j: int| 0 <= j < b implies !a_digit()(#[trigger] s[j]) by {
        assert(s[j] == between[j]);
    }
    assert(s[b] == run[0]);
    lemma_first_where_is(s, a_digit(), b);
    let t = s.skip(b);
    assert(t =~= run + rest);
    assert forall|j: int| 0 <= j < run.len() implies !no_digit()(#[trigger] t[j]) by {
        assert(t[j] == run[j]);
    }
    if rest.len() > 0 {
        assert(t[run.len() as int] == rest[0]);
    }
    lemma_first_where_is(t, no_digit(), run.len() as int);
    assert(t.take(run.len() as int) =~= run);
    assert(t.skip(run.len() as int) =~= rest);
    lemma_first_where_is(between, a_digit(), b);
    assert(between.skip(b) =~= Seq::empty());
}

/// The text after the last of a character, and the texts around the first of
/// one.
pub proof fn texts_are_split_at_a_character(before: Seq<char>, c: char, after: Seq<char>)
    ensures
        !after.contains(c) ==> after_last(before + seq![c] + after, c) == Some(after),
        !after.contains(c) ==> after_last(after, c) is None,
        !before.contains(c) ==> split_at_first(before + seq![c] + after, c) == Some((before, after)),
        !before.contains(c) ==> split_at_first(before, c) is None,
{
    let s = before + seq![c] + after;
    let n = before.len() as int;
    if !after.contains(c) {
        assert forall|j: int| n < j < s.len() implies s[j] != c by {
            assert(s[j] == after[j - n - 1]);
            assert(after.contains(after[j - n - 1]));
        }
        lemma_after_last(s, c, n);
        assert(s.skip(n + 1) =~= after);
        assert forall|j: int| -1 < j < after.len() implies after[j] != c by {
            assert(after.contains(after[j]));
        }
        if after.len() > 0 {
            lemma_after_last(after, c, -1);
        }
    }
    if !before.contains(c) {
        assert forall|j: int| 0 <= j < n implies !just(c)(#[trigger] s[j]) by {
            assert(before.contains(before[j]));
        }
        lemma_first_where_is(s, just(c), n);
        assert(s.take(n) =~= before);
        assert(s.skip(n + 1) =~= after);
        assert forall|j: int| 0 <= j < n implies !just(c)(#[trigger] before[j]) by {
            assert(before.contains(before[j]));
        }
        lemma_first_where_is(before, just(c), n);
    }
}

/// Whitespace is what Unicode says: of ASCII the tabs, line ends and the space;
/// the next line and the no-break space of Latin-1; and above those the spaces
/// from U+2000 on and six more.
pub proof fn whitespace_in_numbers(c: char)
    ensures
        c as u32 <= 0x7f ==> (white(c) <==> 9 <= c as u32 <= 13 || c as u32 == 32),
        0x80 <= c as u32 <= 0xff ==> (white(c) <==> c as u32 == 133 || c as u32 == 160),
        c as u32 >= 0x100 ==> (white(c) <==> (c as u32) / 16 == 0x200 && (c as u32) % 16 <= 10
            || set![
            0x1680u32, 0x2028, 0x2029, 0x202f, 0x205f, 0x3000,
        ].contains(c as u32)),
{
}

/// The pieces of a list come one after the other with the separator between
/// each two of them.
pub proof fn joining_puts_the_separator_between(
    parts: Seq<Seq<char>>,
    separator: Seq<char>,
    last: Seq<char>,
)
    ensures
        joined_with(seq![last], separator) == last,
        parts.len() > 0 ==> joined_with(parts.push(last), separator) == joined_with(
            parts,
            separator,
        ) + separator + last,
{
    assert(parts.push(last).drop_last() =~= parts);
}

} // verus!
