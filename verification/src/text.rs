//! Character-level text helpers shared by the parsers and formatters.
//!
//! Text is handled as sequences of `char`; every helper states its result
//! over `Seq<char>` so that callers can reason about it.
use vstd::prelude::*;
use vstd::multiset::Multiset;

verus! {

/// The Unicode `White_Space` property, which `char::is_whitespace` reports.
pub open spec fn is_ws(c: char) -> bool {
    ||| ('\u{9}' <= c && c <= '\u{d}')
    ||| c == ' '
    ||| c == '\u{85}'
    ||| c == '\u{a0}'
    ||| c == '\u{1680}'
    ||| ('\u{2000}' <= c && c <= '\u{200a}')
    ||| c == '\u{2028}'
    ||| c == '\u{2029}'
    ||| c == '\u{202f}'
    ||| c == '\u{205f}'
    ||| c == '\u{3000}'
}

pub open spec fn is_digit(c: char) -> bool {
    '0' <= c && c <= '9'
}

pub open spec fn is_alpha(c: char) -> bool {
    ('a' <= c && c <= 'z') || ('A' <= c && c <= 'Z')
}

pub open spec fn is_alnum(c: char) -> bool {
    is_alpha(c) || is_digit(c)
}

pub open spec fn is_hex(c: char) -> bool {
    is_digit(c) || ('a' <= c && c <= 'f') || ('A' <= c && c <= 'F')
}

/// Whether `c` is Unicode whitespace.
pub fn whitespace(c: char) -> (r: bool)
    ensures
        r == is_ws(c),
{
    ('\u{9}' <= c && c <= '\u{d}') || c == ' ' || c == '\u{85}' || c == '\u{a0}' || c == '\u{1680}'
        || ('\u{2000}' <= c && c <= '\u{200a}') || c == '\u{2028}' || c == '\u{2029}' || c
        == '\u{202f}' || c == '\u{205f}' || c == '\u{3000}'
}

pub fn digit(c: char) -> (r: bool)
    ensures
        r == is_digit(c),
{
    '0' <= c && c <= '9'
}

pub fn alpha(c: char) -> (r: bool)
    ensures
        r == is_alpha(c),
{
    ('a' <= c && c <= 'z') || ('A' <= c && c <= 'Z')
}

pub fn is_hex_digit(c: char) -> (r: bool)
    ensures
        r == is_hex(c),
{
    ('0' <= c && c <= '9') || ('a' <= c && c <= 'f') || ('A' <= c && c <= 'F')
}

pub fn alnum(c: char) -> (r: bool)
    ensures
        r == is_alnum(c),
{
    alpha(c) || digit(c)
}

/// The ASCII lower-case form of a character, as `char::to_ascii_lowercase`.
pub open spec fn lower(c: char) -> char {
    if 'A' <= c && c <= 'Z' {
        ((c as u32) + 32) as char
    } else {
        c
    }
}

pub open spec fn lower_seq(s: Seq<char>) -> Seq<char> {
    s.map_values(|c: char| lower(c))
}

pub fn to_lower(c: char) -> (r: char)
    ensures
        r == lower(c),
{
    if 'A' <= c && c <= 'Z' {
        let code: u8 = (c as u8) + 32;
        code as char
    } else {
        c
    }
}

/// The characters of a string slice.
pub fn chars_of(s: &str) -> (r: Vec<char>)
    ensures
        r@ == s@,
{
    let mut r: Vec<char> = Vec::new();
    for c in it: s.chars()
        invariant
            r@ == it.seq().take(it.index() as int),
    {
        r.push(c);
    }
    r
}

/// Appends one character to a string (`String::push`).
#[verifier::external_body]
pub fn push_char(s: &mut String, c: char)
    ensures
        final(s)@ == old(s)@.push(c),
{
    s.push(c);
}

/// Appends a string slice (`String::push_str`).
pub fn push_str(s: &mut String, t: &str)
    ensures
        final(s)@ == old(s)@ + t@,
{
    s.append(t);
}

/// Builds a string from characters.
pub fn string_of(cs: &[char]) -> (r: String)
    ensures
        r@ == cs@,
{
    let mut r = String::new();
    let mut i: usize = 0;
    while i < cs.len()
        invariant
            i <= cs@.len(),
            r@ == cs@.take(i as int),
        decreases cs@.len() - i,
    {
        push_char(&mut r, cs[i]);
        assert(cs@.take(i + 1) == cs@.take(i as int).push(cs@[i as int]));
        i = i + 1;
    }
    assert(cs@.take(cs@.len() as int) == cs@);
    r
}

/// A string from a slice.
pub fn owned(s: &str) -> (r: String)
    ensures
        r@ == s@,
{
    s.to_owned()
}

/// Concatenation of two strings.
pub fn concat(a: &str, b: &str) -> (r: String)
    ensures
        r@ == a@ + b@,
{
    let mut r = a.to_owned();
    r.append(b);
    r
}

pub fn same(a: &str, b: &str) -> (r: bool)
    ensures
        r == (a@ == b@),
{
    let x = a.to_owned();
    let y = b.to_owned();
    x == y
}

pub fn same_chars(a: &[char], b: &[char]) -> (r: bool)
    ensures
        r == (a@ == b@),
{
    if a.len() != b.len() {
        return false;
    }
    let mut i: usize = 0;
    while i < a.len()
        invariant
            i <= a@.len(),
            a@.len() == b@.len(),
            forall|j: int| 0 <= j < i ==> a@[j] == b@[j],
        decreases a@.len() - i,
    {
        if a[i] != b[i] {
            return false;
        }
        i = i + 1;
    }
    assert(a@ =~= b@);
    true
}

// ---------------------------------------------------------------- whitespace

/// The index of the first non-whitespace character at or after `i`.
pub open spec fn ws_run(s: Seq<char>, i: int) -> int
    decreases s.len() - i,
{
    if 0 <= i < s.len() && is_ws(s[i]) {
        ws_run(s, i + 1)
    } else {
        i
    }
}

/// The index just past the last non-whitespace character at or before `j`.
pub open spec fn ws_run_back(s: Seq<char>, j: int) -> int
    decreases j,
{
    if 0 < j <= s.len() && is_ws(s[j - 1]) {
        ws_run_back(s, j - 1)
    } else {
        j
    }
}

pub open spec fn trim_start(s: Seq<char>) -> Seq<char> {
    s.skip(ws_run(s, 0))
}

pub open spec fn trim_end(s: Seq<char>) -> Seq<char> {
    s.take(ws_run_back(s, s.len() as int))
}

/// `str::trim`: both ends without Unicode whitespace.
pub open spec fn trim(s: Seq<char>) -> Seq<char> {
    trim_end(trim_start(s))
}

pub proof fn lemma_ws_run_bounds(s: Seq<char>, i: int)
    requires
        0 <= i <= s.len(),
    ensures
        i <= ws_run(s, i) <= s.len(),
        forall|k: int| i <= k < ws_run(s, i) ==> is_ws(s[k]),
        ws_run(s, i) < s.len() ==> !is_ws(s[ws_run(s, i)]),
    decreases s.len() - i,
{
    if i < s.len() && is_ws(s[i]) {
        lemma_ws_run_bounds(s, i + 1);
    }
}

pub proof fn lemma_ws_run_back_bounds(s: Seq<char>, j: int)
    requires
        0 <= j <= s.len(),
    ensures
        0 <= ws_run_back(s, j) <= j,
        forall|k: int| ws_run_back(s, j) <= k < j ==> is_ws(s[k]),
        ws_run_back(s, j) > 0 ==> !is_ws(s[ws_run_back(s, j) - 1]),
    decreases j,
{
    if 0 < j && is_ws(s[j - 1]) {
        lemma_ws_run_back_bounds(s, j - 1);
    }
}

pub fn skip_ws(s: &[char], i: usize) -> (r: usize)
    requires
        i <= s@.len(),
    ensures
        r == ws_run(s@, i as int),
        i <= r <= s@.len(),
{
    let mut k = i;
    while k < s.len() && whitespace(s[k])
        invariant
            i <= k <= s@.len(),
            ws_run(s@, i as int) == ws_run(s@, k as int),
        decreases s@.len() - k,
    {
        k = k + 1;
    }
    k
}

pub fn skip_ws_back(s: &[char], j: usize) -> (r: usize)
    requires
        j <= s@.len(),
    ensures
        r == ws_run_back(s@, j as int),
        r <= j,
{
    let mut k = j;
    while k > 0 && whitespace(s[k - 1])
        invariant
            k <= j <= s@.len(),
            ws_run_back(s@, j as int) == ws_run_back(s@, k as int),
        decreases k,
    {
        k = k - 1;
    }
    k
}

/// The characters between `from` and `to`.
pub fn slice_chars(s: &[char], from: usize, to: usize) -> (r: Vec<char>)
    requires
        from <= to <= s@.len(),
    ensures
        r@ == s@.subrange(from as int, to as int),
{
    let mut r: Vec<char> = Vec::new();
    let mut i = from;
    while i < to
        invariant
            from <= i <= to <= s@.len(),
            r@ == s@.subrange(from as int, i as int),
        decreases to - i,
    {
        r.push(s[i]);
        assert(s@.subrange(from as int, i + 1) == s@.subrange(from as int, i as int).push(
            s@[i as int],
        ));
        i = i + 1;
    }
    r
}

pub fn trim_chars(s: &[char]) -> (r: Vec<char>)
    ensures
        r@ == trim(s@),
{
    let a = skip_ws(s, 0);
    let rest = slice_chars(s, a, s.len());
    proof {
        assert(rest@ == trim_start(s@));
    }
    let b = skip_ws_back(&rest, rest.len());
    slice_chars(&rest, 0, b)
}

/// `str::trim` on a string slice.
pub fn trim_str(s: &str) -> (r: String)
    ensures
        r@ == trim(s@),
{
    let cs = chars_of(s);
    let t = trim_chars(&cs);
    string_of(&t)
}

/// The number of leading whitespace characters (`len - trim_start().len()`).
pub fn indentation(s: &[char]) -> (r: usize)
    ensures
        r == ws_run(s@, 0),
        r <= s@.len(),
{
    skip_ws(s, 0)
}

// ---------------------------------------------------------------- prefixes

pub open spec fn has_prefix(s: Seq<char>, p: Seq<char>) -> bool {
    p.len() <= s.len() && s.take(p.len() as int) == p
}

pub open spec fn has_suffix(s: Seq<char>, p: Seq<char>) -> bool {
    p.len() <= s.len() && s.skip(s.len() - p.len()) == p
}

/// Whether `p` occurs in `s` at `i`.
pub open spec fn occurs_at(s: Seq<char>, p: Seq<char>, i: int) -> bool {
    0 <= i && i + p.len() <= s.len() && s.subrange(i, i + p.len()) == p
}

pub fn starts_with(s: &[char], p: &[char]) -> (r: bool)
    ensures
        r == has_prefix(s@, p@),
{
    matches_at(s, p, 0)
}

pub fn ends_with(s: &[char], p: &[char]) -> (r: bool)
    ensures
        r == has_suffix(s@, p@),
{
    if p.len() > s.len() {
        return false;
    }
    let r = matches_at(s, p, s.len() - p.len());
    proof {
        assert(s@.skip(s@.len() - p@.len()) == s@.subrange(
            s@.len() - p@.len(),
            s@.len() - p@.len() + p@.len(),
        ));
    }
    r
}

/// Whether `p` occurs in `s` at index `i`.
pub fn matches_at(s: &[char], p: &[char], i: usize) -> (r: bool)
    ensures
        r == occurs_at(s@, p@, i as int),
{
    if i > s.len() || p.len() > s.len() - i {
        return false;
    }
    let mut k: usize = 0;
    while k < p.len()
        invariant
            k <= p@.len(),
            i + p@.len() <= s@.len(),
            s@.len() <= usize::MAX,
            forall|j: int| 0 <= j < k ==> s@[i + j] == p@[j],
        decreases p@.len() - k,
    {
        if s[i + k] != p[k] {
            assert(s@.subrange(i as int, i + p@.len())[k as int] != p@[k as int]);
            return false;
        }
        k = k + 1;
    }
    assert(s@.subrange(i as int, i + p@.len()) =~= p@);
    true
}

/// The first index at or after `i` where `p` occurs, if any.
pub open spec fn find_from(s: Seq<char>, p: Seq<char>, i: int) -> Option<int>
    decreases s.len() + 1 - i,
{
    if i < 0 || i + p.len() > s.len() {
        None
    } else if occurs_at(s, p, i) {
        Some(i)
    } else {
        find_from(s, p, i + 1)
    }
}

pub proof fn lemma_find_from(s: Seq<char>, p: Seq<char>, i: int)
    requires
        0 <= i,
    ensures
        find_from(s, p, i) matches Some(k) ==> i <= k && occurs_at(s, p, k) && forall|j: int|
            i <= j < k ==> !occurs_at(s, p, j),
        find_from(s, p, i) is None ==> forall|j: int| i <= j ==> !occurs_at(s, p, j),
        find_from(s, p, i) matches Some(k) ==> k + p.len() <= s.len(),
    decreases s.len() + 1 - i,
{
    if i + p.len() > s.len() {
    } else if occurs_at(s, p, i) {
    } else {
        lemma_find_from(s, p, i + 1);
    }
}

pub fn find(s: &[char], p: &[char], i: usize) -> (r: Option<usize>)
    requires
        i <= s@.len(),
    ensures
        r matches Some(k) ==> find_from(s@, p@, i as int) == Some(k as int),
        r is None ==> find_from(s@, p@, i as int) is None,
        r matches Some(k) ==> k + p@.len() <= s@.len(),
{
    let mut k = i;
    while k <= s.len()
        invariant
            i <= k,
            k <= s@.len() + 1,
            find_from(s@, p@, i as int) == find_from(s@, p@, k as int),
        decreases s@.len() + 1 - k,
    {
        if p.len() > s.len() - k {
            return None;
        }
        if matches_at(s, p, k) {
            return Some(k);
        }
        if k == s.len() {
            assert(find_from(s@, p@, k + 1) is None);
            return None;
        }
        k = k + 1;
    }
    None
}

/// Index of the first occurrence of `c` at or after `i`, or the length.
pub open spec fn char_end(s: Seq<char>, c: char, i: int) -> int
    decreases s.len() - i,
{
    if 0 <= i < s.len() && s[i] != c {
        char_end(s, c, i + 1)
    } else {
        i
    }
}

pub proof fn lemma_char_end(s: Seq<char>, c: char, i: int)
    requires
        0 <= i <= s.len(),
    ensures
        i <= char_end(s, c, i) <= s.len(),
        forall|k: int| i <= k < char_end(s, c, i) ==> s[k] != c,
        char_end(s, c, i) < s.len() ==> s[char_end(s, c, i)] == c,
    decreases s.len() - i,
{
    if i < s.len() && s[i] != c {
        lemma_char_end(s, c, i + 1);
    }
}

pub fn find_char(s: &[char], c: char, i: usize) -> (r: usize)
    requires
        i <= s@.len(),
    ensures
        r == char_end(s@, c, i as int),
        i <= r <= s@.len(),
{
    let mut k = i;
    while k < s.len() && s[k] != c
        invariant
            i <= k <= s@.len(),
            char_end(s@, c, i as int) == char_end(s@, c, k as int),
        decreases s@.len() - k,
    {
        k = k + 1;
    }
    k
}

/// `str::split_once(c)`.
pub open spec fn split_once(s: Seq<char>, c: char) -> Option<(Seq<char>, Seq<char>)> {
    let k = char_end(s, c, 0);
    if k < s.len() {
        Some((s.take(k), s.skip(k + 1)))
    } else {
        None
    }
}

pub fn split_once_char(s: &[char], c: char) -> (r: Option<(Vec<char>, Vec<char>)>)
    ensures
        r matches Some((a, b)) ==> split_once(s@, c) == Some((a@, b@)),
        r is None ==> split_once(s@, c) is None,
{
    let k = find_char(s, c, 0);
    if k < s.len() {
        let a = slice_chars(s, 0, k);
        let b = slice_chars(s, k + 1, s.len());
        Some((a, b))
    } else {
        None
    }
}

// ---------------------------------------------------------------- replace

/// `str::replace(from, to)` for a non-empty pattern.
pub open spec fn replace_from(s: Seq<char>, from: Seq<char>, to: Seq<char>, i: int) -> Seq<char>
    decreases s.len() - i,
{
    if i < 0 || i >= s.len() || from.len() == 0 {
        if 0 <= i <= s.len() { s.skip(i) } else { Seq::empty() }
    } else if occurs_at(s, from, i) {
        to + replace_from(s, from, to, i + from.len())
    } else {
        seq![s[i]] + replace_from(s, from, to, i + 1)
    }
}

pub open spec fn replace(s: Seq<char>, from: Seq<char>, to: Seq<char>) -> Seq<char> {
    replace_from(s, from, to, 0)
}

pub fn replace_chars(s: &[char], from: &[char], to: &[char]) -> (r: Vec<char>)
    requires
        from@.len() > 0,
    ensures
        r@ == replace(s@, from@, to@),
{
    let mut r: Vec<char> = Vec::new();
    let mut i: usize = 0;
    while i < s.len()
        invariant
            i <= s@.len(),
            from@.len() > 0,
            r@ + replace_from(s@, from@, to@, i as int) == replace(s@, from@, to@),
        decreases s@.len() - i,
    {
        if matches_at(s, from, i) {
            let mut k: usize = 0;
            let ghost before = r@;
            while k < to.len()
                invariant
                    k <= to@.len(),
                    r@ == before + to@.take(k as int),
                decreases to@.len() - k,
            {
                r.push(to[k]);
                assert(to@.take(k + 1) == to@.take(k as int).push(to@[k as int]));
                k = k + 1;
            }
            assert(to@.take(to@.len() as int) == to@);
            assert(r@ + replace_from(s@, from@, to@, i + from@.len()) == before + replace_from(
                s@,
                from@,
                to@,
                i as int,
            ));
            i = i + from.len();
        } else {
            let ghost before = r@;
            r.push(s[i]);
            assert(r@ + replace_from(s@, from@, to@, i + 1) == before + replace_from(
                s@,
                from@,
                to@,
                i as int,
            ));
            i = i + 1;
        }
    }
    assert(replace_from(s@, from@, to@, i as int) == Seq::<char>::empty());
    r
}

/// `str::replace` on strings.
pub fn replace_str(s: &str, from: &str, to: &str) -> (r: String)
    requires
        from@.len() > 0,
    ensures
        r@ == replace(s@, from@, to@),
{
    let a = chars_of(s);
    let b = chars_of(from);
    let c = chars_of(to);
    let r = replace_chars(&a, &b, &c);
    string_of(&r)
}

// ---------------------------------------------------------------- lines

/// `str::lines`: lines split at `\n`, one `\r` before each `\n` removed,
/// and no empty line after a final `\n`.
pub open spec fn lines_from(s: Seq<char>, i: int) -> Seq<Seq<char>>
    decreases s.len() - i,
{
    if i < 0 || i >= s.len() {
        Seq::empty()
    } else {
        let j = char_end(s, '\n', i);
        let raw = s.subrange(i, j);
        let line = if j < s.len() && raw.len() > 0 && raw.last() == '\r' {
            raw.drop_last()
        } else {
            raw
        };
        proof {
            lemma_char_end(s, '\n', i);
        }
        if j < s.len() {
            seq![line] + lines_from(s, j + 1)
        } else {
            seq![line]
        }
    }
}

pub open spec fn lines(s: Seq<char>) -> Seq<Seq<char>> {
    lines_from(s, 0)
}

pub fn split_lines(s: &[char]) -> (r: Vec<Vec<char>>)
    ensures
        r@.map_values(|l: Vec<char>| l@) == lines(s@),
{
    let mut r: Vec<Vec<char>> = Vec::new();
    let mut i: usize = 0;
    while i < s.len()
        invariant
            i <= s@.len(),
            r@.map_values(|l: Vec<char>| l@) + lines_from(s@, i as int) == lines(s@),
        decreases s@.len() - i,
    {
        let j = find_char(s, '\n', i);
        proof {
            lemma_char_end(s@, '\n', i as int);
        }
        let mut line = slice_chars(s, i, j);
        if j < s.len() && line.len() > 0 && line[line.len() - 1] == '\r' {
            line.pop();
        }
        let ghost before = r@;
        r.push(line);
        assert(r@.map_values(|l: Vec<char>| l@) == before.map_values(|l: Vec<char>| l@).push(
            line@,
        ));
        if j >= s.len() {
            i = s.len();
        } else {
            i = j + 1;
        }
    }
    assert(lines_from(s@, i as int) == Seq::<Seq<char>>::empty());
    r
}

/// `str::split(c)` from `i`: the pieces between occurrences of `c`.
pub open spec fn split_from(s: Seq<char>, c: char, i: int) -> Seq<Seq<char>>
    decreases s.len() - i,
{
    if i < 0 || i > s.len() {
        Seq::empty()
    } else {
        let j = char_end(s, c, i);
        proof {
            lemma_char_end(s, c, i);
        }
        if j >= s.len() {
            seq![s.subrange(i, s.len() as int)]
        } else {
            seq![s.subrange(i, j)] + split_from(s, c, j + 1)
        }
    }
}

pub open spec fn split(s: Seq<char>, c: char) -> Seq<Seq<char>> {
    split_from(s, c, 0)
}

pub fn split_char(s: &[char], c: char) -> (r: Vec<Vec<char>>)
    ensures
        r@.map_values(|p: Vec<char>| p@) == split(s@, c),
{
    let mut r: Vec<Vec<char>> = Vec::new();
    let mut i: usize = 0;
    let n = s.len();
    loop
        invariant
            i <= n,
            n == s@.len(),
            r@.map_values(|p: Vec<char>| p@) + split_from(s@, c, i as int) == split(s@, c),
        decreases n - i,
    {
        let j = find_char(s, c, i);
        let piece = slice_chars(s, i, j);
        let ghost before = r@;
        r.push(piece);
        assert(r@.map_values(|p: Vec<char>| p@) == before.map_values(|p: Vec<char>| p@).push(piece@));
        if j >= n {
            assert(split_from(s@, c, i as int) == seq![piece@]);
            return r;
        }
        assert(split_from(s@, c, i as int) == seq![piece@] + split_from(s@, c, j + 1));
        i = j + 1;
    }
}

// ---------------------------------------------------------------- numbers

/// Decimal digits of a natural number, as `u64::to_string` writes them.
pub open spec fn decimal(n: nat) -> Seq<char>
    decreases n,
{
    if n < 10 {
        seq![digit_char(n)]
    } else {
        decimal(n / 10) + seq![digit_char(n % 10)]
    }
}

pub open spec fn digit_char(d: nat) -> char {
    (('0' as u32) + d) as char
}

pub open spec fn digit_value(c: char) -> nat {
    ((c as u32) - ('0' as u32)) as nat
}

pub fn u64_to_string(n: u64) -> (r: String)
    ensures
        r@ == decimal(n as nat),
{
    let cs = u64_chars(n);
    string_of(&cs)
}

pub fn u64_chars(n: u64) -> (r: Vec<char>)
    ensures
        r@ == decimal(n as nat),
    decreases n,
{
    if n < 10 {
        let d: u8 = (n as u8) + 48;
        let mut r = Vec::new();
        r.push(d as char);
        r
    } else {
        let mut r = u64_chars(n / 10);
        let d: u8 = ((n % 10) as u8) + 48;
        r.push(d as char);
        r
    }
}

/// Value of a run of decimal digits.
pub open spec fn digits_value(s: Seq<char>) -> nat
    decreases s.len(),
{
    if s.len() == 0 {
        0
    } else {
        digits_value(s.drop_last()) * 10 + digit_value(s.last())
    }
}

pub open spec fn all_digits(s: Seq<char>) -> bool {
    forall|i: int| 0 <= i < s.len() ==> is_digit(#[trigger] s[i])
}

/// `str::parse::<u64>`: an optional `+`, then one or more digits, in range.
pub open spec fn sign_body(s: Seq<char>) -> Seq<char> {
    if s.len() > 0 && s[0] == '+' { s.drop_first() } else { s }
}

pub open spec fn parse_u64(s: Seq<char>) -> Option<u64> {
    let body = sign_body(s);
    if body.len() > 0 && all_digits(body) && digits_value(body) <= u64::MAX {
        Some(digits_value(body) as u64)
    } else {
        None
    }
}

pub proof fn lemma_digits_value_push(s: Seq<char>, c: char)
    ensures
        digits_value(s.push(c)) == digits_value(s) * 10 + digit_value(c),
{
    assert(s.push(c).drop_last() == s);
}

pub proof fn lemma_digits_value_mono(s: Seq<char>, i: int)
    requires
        0 <= i <= s.len(),
        all_digits(s),
    ensures
        digits_value(s.take(i)) <= digits_value(s),
    decreases s.len() - i,
{
    if i < s.len() {
        lemma_digits_value_mono(s, i + 1);
        assert(s.take(i + 1) == s.take(i).push(s[i]));
        lemma_digits_value_push(s.take(i), s[i]);
        assert(digits_value(s.take(i)) <= digits_value(s.take(i + 1))) by (nonlinear_arith)
            requires
                digits_value(s.take(i + 1)) == digits_value(s.take(i)) * 10 + digit_value(s[i]),
        ;
    } else {
        assert(s.take(i) == s);
    }
}

pub fn parse_u64_chars(s: &[char]) -> (r: Option<u64>)
    ensures
        r == parse_u64(s@),
{
    let start: usize = if s.len() > 0 && s[0] == '+' { 1 } else { 0 };
    let ghost body = sign_body(s@);
    assert(body == s@.skip(start as int));
    if start >= s.len() {
        assert(body.len() == 0);
        return None;
    }
    let mut value: u64 = 0;
    let mut i = start;
    while i < s.len()
        invariant
            start <= i <= s@.len(),
            body == s@.skip(start as int),
            body == sign_body(s@),
            forall|k: int| 0 <= k < i - start ==> is_digit(#[trigger] body[k]),
            value == digits_value(body.take(i - start)),
        decreases s@.len() - i,
    {
        let c = s[i];
        if !digit(c) {
            assert(!is_digit(body[i - start]));
            assert(!all_digits(body));
            return None;
        }
        let d: u64 = (c as u32 - 48) as u64;
        assert(body.take(i - start + 1) == body.take(i - start).push(body[i - start]));
        proof {
            lemma_digits_value_push(body.take(i - start), body[i - start]);
        }
        if value > (u64::MAX - d) / 10 {
            proof {
                assert(digits_value(body.take(i - start + 1)) > u64::MAX) by (nonlinear_arith)
                    requires
                        value > (u64::MAX - d) / 10,
                        digits_value(body.take(i - start + 1)) == value * 10 + d,
                        d <= 9,
                ;
                if all_digits(body) {
                    lemma_digits_value_mono(body, i - start + 1);
                    assert(digits_value(body) > u64::MAX);
                }
                assert(parse_u64(s@) is None);
            }
            return None;
        }
        value = value * 10 + d;
        i = i + 1;
    }
    assert(body.take(i - start) == body);
    Some(value)
}

// ---------------------------------------------------------------- ordering

/// Lexicographic order on characters from index `i` on (the order of `str`).
pub open spec fn lt_from(a: Seq<char>, b: Seq<char>, i: int) -> bool
    decreases a.len() - i,
{
    if i < 0 {
        false
    } else if i >= a.len() {
        i < b.len()
    } else if i >= b.len() {
        false
    } else if a[i] < b[i] {
        true
    } else if a[i] > b[i] {
        false
    } else {
        lt_from(a, b, i + 1)
    }
}

pub open spec fn text_lt(a: Seq<char>, b: Seq<char>) -> bool {
    lt_from(a, b, 0)
}

pub open spec fn text_le(a: Seq<char>, b: Seq<char>) -> bool {
    a == b || text_lt(a, b)
}

pub proof fn lemma_lt_from_irrefl(a: Seq<char>, i: int)
    requires
        0 <= i,
    ensures
        !lt_from(a, a, i),
    decreases a.len() - i,
{
    if i < a.len() {
        lemma_lt_from_irrefl(a, i + 1);
    }
}

pub proof fn lemma_lt_from_total(a: Seq<char>, b: Seq<char>, i: int)
    requires
        0 <= i <= a.len(),
        i <= b.len(),
        a.take(i) == b.take(i),
    ensures
        lt_from(a, b, i) || lt_from(b, a, i) || a == b,
    decreases a.len() - i,
{
    if i < a.len() && i < b.len() && a[i] == b[i] {
        assert(a.take(i + 1) == a.take(i).push(a[i]));
        assert(b.take(i + 1) == b.take(i).push(b[i]));
        lemma_lt_from_total(a, b, i + 1);
    } else if i >= a.len() && i >= b.len() {
        assert(a == a.take(i));
        assert(b == b.take(i));
    }
}

pub proof fn lemma_lt_from_trans(a: Seq<char>, b: Seq<char>, c: Seq<char>, i: int)
    requires
        0 <= i,
        lt_from(a, b, i),
        lt_from(b, c, i),
    ensures
        lt_from(a, c, i),
    decreases a.len() - i,
{
    if i < a.len() && i < b.len() && i < c.len() && a[i] == b[i] && b[i] == c[i] {
        lemma_lt_from_trans(a, b, c, i + 1);
    }
}

pub proof fn lemma_lt_from_asym(a: Seq<char>, b: Seq<char>, i: int)
    requires
        0 <= i,
        lt_from(a, b, i),
    ensures
        !lt_from(b, a, i),
    decreases a.len() - i,
{
    if i < a.len() && i < b.len() && a[i] == b[i] {
        lemma_lt_from_asym(a, b, i + 1);
    }
}

pub proof fn lemma_text_order()
    ensures
        forall|a: Seq<char>, b: Seq<char>| text_le(a, b) || text_le(b, a),
        forall|a: Seq<char>, b: Seq<char>, c: Seq<char>|
            text_le(a, b) && text_le(b, c) ==> text_le(a, c),
        forall|a: Seq<char>, b: Seq<char>| text_le(a, b) && text_le(b, a) ==> a == b,
        forall|a: Seq<char>| !text_lt(a, a),
{
    assert forall|a: Seq<char>, b: Seq<char>| text_le(a, b) || text_le(b, a) by {
        assert(a.take(0) == b.take(0));
        lemma_lt_from_total(a, b, 0);
    }
    assert forall|a: Seq<char>, b: Seq<char>, c: Seq<char>|
        text_le(a, b) && text_le(b, c) implies text_le(a, c) by {
        if a != b && b != c {
            lemma_lt_from_trans(a, b, c, 0);
        }
    }
    assert forall|a: Seq<char>, b: Seq<char>| text_le(a, b) && text_le(b, a) implies a == b by {
        if a != b {
            lemma_lt_from_asym(a, b, 0);
        }
    }
    assert forall|a: Seq<char>| !text_lt(a, a) by {
        lemma_lt_from_irrefl(a, 0);
    }
}

pub fn less_chars(a: &[char], b: &[char]) -> (r: bool)
    ensures
        r == text_lt(a@, b@),
{
    let mut i: usize = 0;
    while i < a.len() && i < b.len() && a[i] == b[i]
        invariant
            i <= a@.len(),
            i <= b@.len(),
            lt_from(a@, b@, 0) == lt_from(a@, b@, i as int),
        decreases a@.len() - i,
    {
        i = i + 1;
    }
    if i >= a.len() {
        i < b.len()
    } else if i >= b.len() {
        false
    } else {
        a[i] < b[i]
    }
}

pub fn less_str(a: &str, b: &str) -> (r: bool)
    ensures
        r == text_lt(a@, b@),
{
    let x = chars_of(a);
    let y = chars_of(b);
    less_chars(&x, &y)
}

pub open spec fn sorted_texts(s: Seq<String>) -> bool {
    forall|i: int, j: int| 0 <= i < j < s.len() ==> text_le(#[trigger] s[i]@, #[trigger] s[j]@)
}

/// Sorts strings in ascending order (as `Vec::<String>::sort`).
pub fn sort_strings(v: Vec<String>) -> (r: Vec<String>)
    ensures
        sorted_texts(r@),
        r@.to_multiset() == v@.to_multiset(),
        views(r@).to_multiset() == views(v@).to_multiset(),
{
    broadcast use vstd::seq_lib::group_to_multiset_ensures;

    proof {
        lemma_text_order();
    }
    let mut rest = v;
    let mut out: Vec<String> = Vec::new();
    while rest.len() > 0
        invariant
            sorted_texts(out@),
            out@.to_multiset().add(rest@.to_multiset()) == v@.to_multiset(),
            views(out@).to_multiset().add(views(rest@).to_multiset()) == views(v@).to_multiset(),
            forall|i: int, j: int|
                0 <= i < out@.len() && 0 <= j < rest@.len() ==> text_le(
                    #[trigger] out@[i]@,
                    #[trigger] rest@[j]@,
                ),
            forall|a: Seq<char>, b: Seq<char>| text_le(a, b) || text_le(b, a),
            forall|a: Seq<char>, b: Seq<char>, c: Seq<char>|
                text_le(a, b) && text_le(b, c) ==> text_le(a, c),
        decreases rest@.len(),
    {
        let mut m: usize = 0;
        let mut k: usize = 1;
        while k < rest.len()
            invariant
                m < rest@.len(),
                1 <= k <= rest@.len(),
                forall|j: int| 0 <= j < k ==> text_le(rest@[m as int]@, #[trigger] rest@[j]@),
                forall|a: Seq<char>, b: Seq<char>| text_le(a, b) || text_le(b, a),
                forall|a: Seq<char>, b: Seq<char>, c: Seq<char>|
                    text_le(a, b) && text_le(b, c) ==> text_le(a, c),
            decreases rest@.len() - k,
        {
            if less_str(rest[k].as_str(), rest[m].as_str()) {
                m = k;
            }
            k = k + 1;
        }
        let ghost old_rest = rest@;
        let ghost old_out = out@;
        let x = rest.remove(m);
        assert(x == old_rest[m as int]);
        assert(rest@ == old_rest.remove(m as int));
        proof {
            vstd::seq_lib::to_multiset_remove(old_rest, m as int);
            vstd::seq_lib::to_multiset_build(old_out, x);
            vstd::seq_lib::to_multiset_contains(old_rest, x);
            assert(old_rest.contains(x));
            vstd::seq_lib::to_multiset_remove(views(old_rest), m as int);
            vstd::seq_lib::to_multiset_build(views(old_out), x@);
            vstd::seq_lib::to_multiset_contains(views(old_rest), x@);
            assert(views(old_rest)[m as int] == x@);
            assert(views(rest@) =~= views(old_rest).remove(m as int));
            assert(views(old_rest).contains(x@));
        }
        assert(old_rest.remove(m as int).to_multiset() == old_rest.to_multiset().remove(x));
        out.push(x);
        assert(out@ == old_out.push(x));
        assert(views(out@) =~= views(old_out).push(old_rest[m as int]@));
        assert(views(out@).to_multiset().add(views(rest@).to_multiset()) =~= views(
            v@,
        ).to_multiset());
        assert(out@.to_multiset() == old_out.to_multiset().insert(x));
        assert(old_rest.to_multiset().contains(x));
        assert(out@.to_multiset().add(rest@.to_multiset()) =~= v@.to_multiset());
        assert forall|i: int, j: int|
            0 <= i < out@.len() && 0 <= j < rest@.len() implies text_le(
            #[trigger] out@[i]@,
            #[trigger] rest@[j]@,
        ) by {
            let jj = if j < m { j } else { j + 1 };
            assert(rest@[j] == old_rest[jj]);
            if i < old_out.len() {
                assert(out@[i] == old_out[i]);
            }
        }
        assert forall|i: int, j: int| 0 <= i < j < out@.len() implies text_le(
            #[trigger] out@[i]@,
            #[trigger] out@[j]@,
        ) by {
            if j < old_out.len() {
                assert(out@[i] == old_out[i]);
                assert(out@[j] == old_out[j]);
            } else {
                assert(out@[i] == old_out[i]);
                assert(old_rest[m as int] == x);
            }
        }
    }
    assert(rest@.to_multiset() =~= Multiset::empty());
    assert(views(rest@).to_multiset() =~= Multiset::empty());
    out
}

/// Joins strings with a separator.
pub open spec fn join(parts: Seq<Seq<char>>, sep: Seq<char>) -> Seq<char>
    decreases parts.len(),
{
    if parts.len() == 0 {
        Seq::empty()
    } else if parts.len() == 1 {
        parts[0]
    } else {
        join(parts.drop_last(), sep) + sep + parts.last()
    }
}

pub open spec fn views(parts: Seq<String>) -> Seq<Seq<char>> {
    parts.map_values(|p: String| p@)
}

pub fn join_strings(parts: &Vec<String>, sep: &str) -> (r: String)
    ensures
        r@ == join(views(parts@), sep@),
{
    let mut r = String::new();
    let mut i: usize = 0;
    while i < parts.len()
        invariant
            i <= parts@.len(),
            r@ == join(views(parts@).take(i as int), sep@),
        decreases parts@.len() - i,
    {
        assert(views(parts@).take(i + 1).drop_last() == views(parts@).take(i as int));
        if i > 0 {
            r.append(sep);
        }
        r.append(parts[i].as_str());
        i = i + 1;
    }
    assert(views(parts@).take(parts@.len() as int) == views(parts@));
    r
}

/// How many of the keys are not on the stack.
pub open spec fn unvisited(keys: Seq<Seq<char>>, stack: Seq<Seq<char>>) -> nat
    decreases keys.len(),
{
    if keys.len() == 0 {
        0
    } else {
        unvisited(keys.drop_last(), stack) + if stack.contains(keys.last()) {
            0nat
        } else {
            1nat
        }
    }
}

pub proof fn lemma_unvisited_push(keys: Seq<Seq<char>>, stack: Seq<Seq<char>>, name: Seq<char>)
    ensures
        unvisited(keys, stack.push(name)) <= unvisited(keys, stack),
        keys.contains(name) && !stack.contains(name) ==> unvisited(keys, stack.push(name)) < unvisited(
            keys,
            stack,
        ),
    decreases keys.len(),
{
    if keys.len() > 0 {
        lemma_unvisited_push(keys.drop_last(), stack, name);
        if stack.contains(keys.last()) {
            let j = choose|j: int| 0 <= j < stack.len() && stack[j] == keys.last();
            assert(stack.push(name)[j] == keys.last());
        }
        if keys.last() == name {
            assert(stack.push(name)[stack.len() as int] == name);
        } else {
            if stack.push(name).contains(keys.last()) {
                let j = choose|j: int| 0 <= j < stack.push(name).len() && stack.push(name)[j] == keys.last();
                assert(stack[j] == keys.last());
            }
            if keys.contains(name) {
                let j = choose|j: int| 0 <= j < keys.len() && keys[j] == name;
                assert(keys.drop_last()[j] == name);
            }
        }
    }
}

/// A sequence with one more item holds exactly what it held and the item.
pub proof fn lemma_contains_push<T>(s: Seq<T>, x: T)
    ensures
        forall|c: T| #[trigger] s.push(x).contains(c) <==> (s.contains(c) || c == x),
{
    assert forall|c: T| #[trigger] s.push(x).contains(c) <==> (s.contains(c) || c == x) by {
        if s.contains(c) {
            let j = choose|j: int| 0 <= j < s.len() && s[j] == c;
            assert(s.push(x)[j] == c);
        }
        if c == x {
            assert(s.push(x)[s.len() as int] == c);
        }
        if s.push(x).contains(c) && c != x {
            let j = choose|j: int| 0 <= j < s.push(x).len() && s.push(x)[j] == c;
            assert(s[j] == c);
        }
    }
}

/// A concatenation holds exactly what its two parts hold.
pub proof fn lemma_contains_concat<T>(a: Seq<T>, b: Seq<T>)
    ensures
        forall|c: T| #[trigger] (a + b).contains(c) <==> (a.contains(c) || b.contains(c)),
{
    assert forall|c: T| #[trigger] (a + b).contains(c) <==> (a.contains(c) || b.contains(c)) by {
        if a.contains(c) {
            let j = choose|j: int| 0 <= j < a.len() && a[j] == c;
            assert((a + b)[j] == c);
        }
        if b.contains(c) {
            let j = choose|j: int| 0 <= j < b.len() && b[j] == c;
            assert((a + b)[a.len() + j] == c);
        }
        if (a + b).contains(c) {
            let j = choose|j: int| 0 <= j < (a + b).len() && (a + b)[j] == c;
            if j < a.len() {
                assert(a[j] == c);
            } else {
                assert(b[j - a.len()] == c);
            }
        }
    }
}

/// Lines, each followed by `\n`.
pub open spec fn line_text(ls: Seq<Seq<char>>) -> Seq<char>
    decreases ls.len(),
{
    if ls.len() == 0 {
        Seq::empty()
    } else {
        ls[0] + seq!['\n'] + line_text(ls.drop_first())
    }
}

/// A line that `str::lines` gives back as written: no `\n`, and no `\r`
/// at its end.
pub open spec fn plain_line(l: Seq<char>) -> bool {
    &&& forall|k: int| 0 <= k < l.len() ==> l[k] != '\n'
    &&& !(l.len() > 0 && l.last() == '\r')
}

pub proof fn lemma_char_end_shift(x: Seq<char>, q: Seq<char>, c: char, k: int)
    requires
        0 <= k <= q.len(),
    ensures
        char_end(x + q, c, x.len() + k) == x.len() + char_end(q, c, k),
    decreases q.len() - k,
{
    if k < q.len() {
        assert((x + q)[x.len() + k] == q[k]);
        if q[k] != c {
            lemma_char_end_shift(x, q, c, k + 1);
        }
    }
}

proof fn lemma_char_end_skip(s: Seq<char>, c: char, i: int, j: int)
    requires
        0 <= i <= j <= s.len(),
        forall|k: int| i <= k < j ==> s[k] != c,
    ensures
        char_end(s, c, i) == char_end(s, c, j),
    decreases j - i,
{
    if i < j {
        lemma_char_end_skip(s, c, i + 1, j);
    }
}

pub proof fn lemma_lines_shift(x: Seq<char>, q: Seq<char>, k: int)
    requires
        0 <= k <= q.len(),
    ensures
        lines_from(x + q, x.len() + k) == lines_from(q, k),
    decreases q.len() - k,
{
    let s = x + q;
    if k < q.len() {
        lemma_char_end_shift(x, q, '\n', k);
        lemma_char_end(q, '\n', k);
        let j = char_end(q, '\n', k);
        assert(s.subrange(x.len() + k, x.len() + j) =~= q.subrange(k, j));
        if j < q.len() {
            lemma_lines_shift(x, q, j + 1);
        }
    }
}

/// `str::lines` gives back the lines of `line_text`.
pub proof fn lemma_lines_of_line_text(ls: Seq<Seq<char>>)
    requires
        forall|i: int| 0 <= i < ls.len() ==> plain_line(#[trigger] ls[i]),
    ensures
        lines(line_text(ls)) == ls,
    decreases ls.len(),
{
    if ls.len() == 0 {
        assert(lines(line_text(ls)) =~= ls);
    } else {
        let l0 = ls[0];
        let x = l0 + seq!['\n'];
        let q = line_text(ls.drop_first());
        let s = line_text(ls);
        assert(s == x + q);
        assert forall|i: int| 0 <= i < ls.drop_first().len() implies plain_line(#[trigger] ls.drop_first()[i]) by {
            assert(ls.drop_first()[i] == ls[i + 1]);
        }
        lemma_lines_of_line_text(ls.drop_first());
        assert(plain_line(ls[0]));
        assert forall|k: int| 0 <= k < l0.len() implies s[k] != '\n' by {
            assert(s[k] == l0[k]);
        }
        lemma_char_end_skip(s, '\n', 0, l0.len() as int);
        assert(s[l0.len() as int] == '\n');
        assert(char_end(s, '\n', 0) == l0.len());
        assert(s.subrange(0, l0.len() as int) =~= l0);
        lemma_lines_shift(x, q, 0);
        assert(x.len() == l0.len() + 1);
        assert(lines(s) == seq![l0] + lines(q));
        assert(lines(s) =~= ls);
    }
}

/// Writes lines, each followed by `\n`.
pub fn line_text_of(ls: &Vec<String>) -> (r: String)
    ensures
        r@ == line_text(views(ls@)),
{
    let mut r = String::new();
    let ghost all = views(ls@);
    let mut i: usize = 0;
    assert(all.skip(0) =~= all);
    while i < ls.len()
        invariant
            i <= ls@.len(),
            all == views(ls@),
            r@ + line_text(all.skip(i as int)) == line_text(all),
        decreases ls@.len() - i,
    {
        let ghost before = r@;
        assert(all.skip(i as int).drop_first() =~= all.skip(i + 1));
        assert(all.skip(i as int)[0] == ls@[i as int]@);
        push_str(&mut r, ls[i].as_str());
        push_char(&mut r, '\n');
        assert(r@ + line_text(all.skip(i + 1)) =~= before + line_text(all.skip(i as int)));
        i = i + 1;
    }
    assert(all.skip(i as int) =~= Seq::<Seq<char>>::empty());
    assert(r@ =~= r@ + line_text(all.skip(i as int)));
    r
}

/// The key and value of `key=value` when the key has no `=`.
pub proof fn lemma_split_setting(key: Seq<char>, value: Seq<char>)
    requires
        forall|k: int| 0 <= k < key.len() ==> key[k] != '=',
    ensures
        split_once(key + seq!['='] + value, '=') == Some((key, value)),
{
    let s = key + seq!['='] + value;
    assert forall|k: int| 0 <= k < key.len() implies s[k] != '=' by {
        assert(s[k] == key[k]);
    }
    lemma_char_end_skip(s, '=', 0, key.len() as int);
    assert(s[key.len() as int] == '=');
    assert(s.take(key.len() as int) =~= key);
    assert(s.skip(key.len() + 1int) =~= value);
}

/// The decimal text of a number is a non-empty run of digits whose value is
/// the number, so `str::parse` reads the number back.
pub proof fn lemma_decimal_reads_back(n: nat)
    ensures
        decimal(n).len() > 0,
        all_digits(decimal(n)),
        digits_value(decimal(n)) == n,
        decimal(n)[0] != '+',
        n <= u64::MAX ==> parse_u64(decimal(n)) == Some(n as u64),
    decreases n,
{
    let d = decimal(n);
    if n < 10 {
        assert(is_digit(digit_char(n)));
        assert(digit_value(digit_char(n)) == n);
        assert(digits_value(d) == digits_value(d.drop_last()) * 10 + digit_value(d.last()));
        assert(d.drop_last().len() == 0);
    } else {
        lemma_decimal_reads_back(n / 10);
        let h = decimal(n / 10);
        assert(d == h.push(digit_char(n % 10)));
        lemma_digits_value_push(h, digit_char(n % 10));
        assert(digit_value(digit_char(n % 10)) == n % 10);
        assert(is_digit(digit_char(n % 10)));
        assert forall|i: int| 0 <= i < d.len() implies is_digit(#[trigger] d[i]) by {
            if i < h.len() {
                assert(d[i] == h[i]);
            }
        }
        assert(d[0] == h[0]);
    }
    assert(sign_body(d) == d);
}

/// Splitting at `c` after a part without `c`: that part, then the parts of
/// the rest.
pub proof fn lemma_split_first(a: Seq<char>, c: char, rest: Seq<char>)
    requires
        !a.contains(c),
    ensures
        split(a + seq![c] + rest, c) == seq![a] + split(rest, c),
{
    let s = a + seq![c] + rest;
    lemma_char_end(s, c, 0);
    let j = char_end(s, c, 0);
    assert forall|k: int| 0 <= k < a.len() implies s[k] != c by {
        assert(s[k] == a[k]);
    }
    if j < a.len() {
        assert(s[j] == a[j]);
    }
    assert(s[a.len() as int] == c);
    assert(j == a.len());
    assert(s.subrange(0, j) == a);
    lemma_split_from_shift(a + seq![c], rest, c, 0);
}

proof fn lemma_split_from_shift(x: Seq<char>, q: Seq<char>, c: char, k: int)
    requires
        0 <= k <= q.len(),
    ensures
        split_from(x + q, c, x.len() + k) == split_from(q, c, k),
    decreases q.len() - k,
{
    let s = x + q;
    lemma_char_end_shift(x, q, c, k);
    lemma_char_end(q, c, k);
    let j = char_end(q, c, k);
    assert(s.subrange(x.len() + k, s.len() as int) == q.subrange(k, q.len() as int));
    assert(s.subrange(x.len() + k, x.len() + j) == q.subrange(k, j));
    if j < q.len() {
        lemma_split_from_shift(x, q, c, j + 1);
    }
}

/// A text without `c` is one part.
pub proof fn lemma_split_whole(a: Seq<char>, c: char)
    requires
        !a.contains(c),
    ensures
        split(a, c) == seq![a],
{
    lemma_char_end(a, c, 0);
    let j = char_end(a, c, 0);
    if j < a.len() {
        assert(a.contains(c)) by {
            assert(a[j] == c);
        }
    }
    assert(a.subrange(0, a.len() as int) == a);
}

/// Replacing a pattern that starts with `c` leaves a text without `c` as it
/// is.
pub proof fn lemma_replace_absent(s: Seq<char>, from: Seq<char>, to: Seq<char>, c: char, i: int)
    requires
        !s.contains(c),
        from.len() > 0,
        from[0] == c,
        0 <= i <= s.len(),
    ensures
        replace_from(s, from, to, i) == s.skip(i),
    decreases s.len() - i,
{
    if i < s.len() {
        if occurs_at(s, from, i) {
            assert(s.subrange(i, i + from.len())[0] == s[i]);
            assert(s.contains(c));
        }
        lemma_replace_absent(s, from, to, c, i + 1);
        assert(s.skip(i) == seq![s[i]] + s.skip(i + 1));
    }
}

/// Replacing a pattern that starts with `c` and occurs once, between two
/// texts without `c`.
pub proof fn lemma_replace_once(a: Seq<char>, from: Seq<char>, b: Seq<char>, to: Seq<char>, c: char, i: int)
    requires
        !a.contains(c),
        !b.contains(c),
        from.len() > 0,
        from[0] == c,
        0 <= i <= a.len(),
    ensures
        replace_from(a + from + b, from, to, i) == a.skip(i) + to + b,
    decreases a.len() - i,
{
    let s = a + from + b;
    if i < a.len() {
        assert(s[i] == a[i]);
        if occurs_at(s, from, i) {
            assert(s.subrange(i, i + from.len())[0] == s[i]);
            assert(a.contains(c));
        }
        lemma_replace_once(a, from, b, to, c, i + 1);
        assert(a.skip(i) == seq![a[i]] + a.skip(i + 1));
    } else {
        assert(s.subrange(i, i + from.len()) == from);
        assert(occurs_at(s, from, i));
        lemma_replace_tail(a + from, b, from, to, c, 0);
    }
}

proof fn lemma_replace_tail(x: Seq<char>, b: Seq<char>, from: Seq<char>, to: Seq<char>, c: char, k: int)
    requires
        !b.contains(c),
        from.len() > 0,
        from[0] == c,
        0 <= k <= b.len(),
    ensures
        replace_from(x + b, from, to, x.len() + k) == b.skip(k),
    decreases b.len() - k,
{
    let s = x + b;
    if k < b.len() {
        assert(s[x.len() + k] == b[k]);
        if occurs_at(s, from, x.len() + k) {
            assert(s.subrange(x.len() + k, x.len() + k + from.len())[0] == s[x.len() + k]);
            assert(b.contains(c));
        }
        lemma_replace_tail(x, b, from, to, c, k + 1);
        assert(b.skip(k) == seq![b[k]] + b.skip(k + 1));
    } else {
        assert(s.skip(x.len() + k) == b.skip(k));
    }
}

/// A pattern that occurs nowhere leaves the text as it is.
pub proof fn lemma_replace_nowhere(s: Seq<char>, from: Seq<char>, to: Seq<char>, i: int)
    requires
        forall|j: int| 0 <= j < s.len() ==> !#[trigger] occurs_at(s, from, j),
        0 <= i <= s.len(),
    ensures
        replace_from(s, from, to, i) == s.skip(i),
    decreases s.len() - i,
{
    if i < s.len() && from.len() > 0 {
        lemma_replace_nowhere(s, from, to, i + 1);
        assert(s.skip(i) == seq![s[i]] + s.skip(i + 1));
    }
}

} // verus!
