//! Tokens of `nox.build`.
use vstd::prelude::*;
use crate::text;
use crate::text::{is_ws, ws_run, char_end, lemma_char_end, find_from, lemma_find_from};

verus! {

/// A token of `nox.build`.
#[derive(Clone, Debug, PartialEq, Eq)]
pub enum Token {
    Word(String),
    Str(String),
    Symbol(char),
    /// A command between backticks, whose output is the value.
    Command(String),
}

/// A token as text.
pub ghost enum Tok {
    Word(Seq<char>),
    Str(Seq<char>),
    Symbol(char),
    Command(Seq<char>),
}

impl Token {
    pub open spec fn view(&self) -> Tok {
        match self {
            Token::Word(w) => Tok::Word(w@),
            Token::Str(s) => Tok::Str(s@),
            Token::Symbol(c) => Tok::Symbol(*c),
            Token::Command(c) => Tok::Command(c@),
        }
    }
}

pub open spec fn toks(ts: Seq<Token>) -> Seq<Tok> {
    ts.map_values(|t: Token| t.view())
}

/// The characters that stand alone as symbols.
pub open spec fn is_symbol(c: char) -> bool {
    c == '{' || c == '}' || c == '[' || c == ']' || c == '=' || c == '(' || c == ')' || c == ','
}

/// Characters that end a word.
pub open spec fn ends_word(c: char) -> bool {
    is_ws(c) || is_symbol(c) || c == '"'
}

/// The index just past a word that continues at `k`.
pub open spec fn word_end(s: Seq<char>, k: int) -> int
    decreases s.len() - k,
{
    if 0 <= k < s.len() && !ends_word(s[k]) {
        word_end(s, k + 1)
    } else {
        k
    }
}

/// Scans a quoted string whose body starts at `k`: the value (a backslash
/// takes the next character as it is) and the index past the closing quote.
pub open spec fn scan_string(s: Seq<char>, k: int) -> Option<(Seq<char>, int)>
    decreases s.len() - k,
{
    if k < 0 || k >= s.len() {
        None
    } else if s[k] == '"' {
        Some((Seq::empty(), k + 1))
    } else if s[k] == '\\' {
        if k + 1 >= s.len() {
            None
        } else {
            match scan_string(s, k + 2) {
                Some((v, e)) => Some((seq![s[k + 1]] + v, e)),
                None => None,
            }
        }
    } else {
        match scan_string(s, k + 1) {
            Some((v, e)) => Some((seq![s[k]] + v, e)),
            None => None,
        }
    }
}

/// The index after the line that contains `k` (past its `\n`).
pub open spec fn line_end(s: Seq<char>, k: int) -> int {
    let e = char_end(s, '\n', k);
    if e < s.len() {
        e + 1
    } else {
        s.len() as int
    }
}

pub open spec fn prefixed(acc: Seq<Tok>, r: Result<Seq<Tok>, Seq<char>>) -> Result<Seq<Tok>, Seq<char>> {
    match r {
        Ok(t) => Ok(acc + t),
        Err(e) => Err(e),
    }
}

pub proof fn lemma_prefixed(a: Seq<Tok>, b: Seq<Tok>, r: Result<Seq<Tok>, Seq<char>>)
    ensures
        prefixed(a, prefixed(b, r)) == prefixed(a + b, r),
{
    if let Ok(t) = r {
        assert(a + (b + t) == (a + b) + t);
    }
}

pub proof fn lemma_word_end(s: Seq<char>, k: int)
    requires
        0 <= k <= s.len(),
    ensures
        k <= word_end(s, k) <= s.len(),
        forall|m: int| k <= m < word_end(s, k) ==> !ends_word(s[m]),
        word_end(s, k) < s.len() ==> ends_word(s[word_end(s, k)]),
    decreases s.len() - k,
{
    if k < s.len() && !ends_word(s[k]) {
        lemma_word_end(s, k + 1);
    }
}

pub proof fn lemma_scan_string(s: Seq<char>, k: int)
    requires
        0 <= k,
    ensures
        scan_string(s, k) matches Some((v, e)) ==> k < e <= s.len(),
    decreases s.len() - k,
{
    if k < s.len() && s[k] != '"' {
        if s[k] == '\\' {
            if k + 1 < s.len() {
                lemma_scan_string(s, k + 2);
            }
        } else {
            lemma_scan_string(s, k + 1);
        }
    }
}

/// The tokens of `s` from index `i` on, or the message of a lexical error.
pub open spec fn lex_from(s: Seq<char>, i: int) -> Result<Seq<Tok>, Seq<char>>
    decreases s.len() - i,
{
    if i < 0 || i > s.len() {
        Ok(Seq::empty())
    } else {
        let j = ws_run(s, i);
        proof {
            text::lemma_ws_run_bounds(s, i);
        }
        if j >= s.len() {
            Ok(Seq::empty())
        } else if s[j] == '#' {
            proof {
                lemma_char_end(s, '\n', j + 1);
            }
            lex_from(s, line_end(s, j + 1))
        } else if s[j] == '/' && j + 1 < s.len() && s[j + 1] == '/' {
            proof {
                lemma_char_end(s, '\n', j + 2);
            }
            lex_from(s, line_end(s, j + 2))
        } else if s[j] == '/' && j + 1 < s.len() && s[j + 1] == '*' {
            proof {
                lemma_find_from(s, seq!['*', '/'], j + 2);
            }
            match find_from(s, seq!['*', '/'], j + 2) {
                Some(k) => lex_from(s, k + 2),
                None => Err("unterminated block comment"@),
            }
        } else if is_symbol(s[j]) {
            prefixed(seq![Tok::Symbol(s[j])], lex_from(s, j + 1))
        } else if s[j] == '"' {
            proof {
                lemma_scan_string(s, j + 1);
            }
            match scan_string(s, j + 1) {
                Some((v, e)) => prefixed(seq![Tok::Str(v)], lex_from(s, e)),
                None => Err("unterminated string"@),
            }
        } else if s[j] == '`' {
            proof {
                lemma_char_end(s, '`', j + 1);
            }
            let e = char_end(s, '`', j + 1);
            if e < s.len() {
                prefixed(seq![Tok::Command(s.subrange(j + 1, e))], lex_from(s, e + 1))
            } else {
                Err("unterminated command"@)
            }
        } else {
            proof {
                lemma_word_end(s, j + 1);
            }
            let e = word_end(s, j + 1);
            prefixed(seq![Tok::Word(s.subrange(j, e))], lex_from(s, e))
        }
    }
}

/// The tokens of a whole `nox.build` text.
pub open spec fn lex_spec(s: Seq<char>) -> Result<Seq<Tok>, Seq<char>> {
    lex_from(s, 0)
}

fn scan_word(s: &Vec<char>, k: usize) -> (r: usize)
    requires
        k <= s@.len(),
    ensures
        r == word_end(s@, k as int),
        k <= r <= s@.len(),
{
    let mut e = k;
    while e < s.len() && !(text::whitespace(s[e]) || symbol(s[e]) || s[e] == '"')
        invariant
            k <= e <= s@.len(),
            word_end(s@, k as int) == word_end(s@, e as int),
        decreases s@.len() - e,
    {
        e = e + 1;
    }
    e
}

fn symbol(c: char) -> (r: bool)
    ensures
        r == is_symbol(c),
{
    c == '{' || c == '}' || c == '[' || c == ']' || c == '=' || c == '(' || c == ')' || c == ','
}

fn scan_quoted(s: &Vec<char>, k: usize) -> (r: Option<(Vec<char>, usize)>)
    requires
        k <= s@.len(),
    ensures
        r matches Some((v, e)) ==> scan_string(s@, k as int) == Some((v@, e as int)),
        r is None ==> scan_string(s@, k as int) is None,
    decreases s@.len() - k,
{
    if k >= s.len() {
        None
    } else if s[k] == '"' {
        Some((Vec::new(), k + 1))
    } else if s[k] == '\\' {
        if k + 1 >= s.len() {
            None
        } else {
            match scan_quoted(s, k + 2) {
                Some((v, e)) => {
                    let mut w = Vec::new();
                    w.push(s[k + 1]);
                    let mut w2 = w;
                    let mut v2 = v;
                    w2.append(&mut v2);
                    Some((w2, e))
                },
                None => None,
            }
        }
    } else {
        match scan_quoted(s, k + 1) {
            Some((v, e)) => {
                let mut w = Vec::new();
                w.push(s[k]);
                let mut v2 = v;
                w.append(&mut v2);
                Some((w, e))
            },
            None => None,
        }
    }
}

fn line_after(s: &Vec<char>, k: usize) -> (r: usize)
    requires
        k <= s@.len(),
    ensures
        r == line_end(s@, k as int),
        k <= r <= s@.len(),
{
    let e = text::find_char(s, '\n', k);
    if e < s.len() {
        e + 1
    } else {
        s.len()
    }
}

/// Splits `nox.build` text into tokens. Whitespace and comments (`#` and
/// `//` to the end of the line, `/* ... */`) separate tokens.
pub fn lex(text_in: &str) -> (r: Result<Vec<Token>, String>)
    ensures
        r matches Ok(ts) ==> lex_spec(text_in@) == Ok::<Seq<Tok>, Seq<char>>(toks(ts@)),
        r matches Err(m) ==> lex_spec(text_in@) == Err::<Seq<Tok>, Seq<char>>(m@),
{
    let s = text::chars_of(text_in);
    let mut tokens: Vec<Token> = Vec::new();
    let mut i: usize = 0;
    let close = vec!['*', '/'];
    assert(close@ == seq!['*', '/']);
    while i < s.len()
        invariant
            i <= s@.len(),
            s@ == text_in@,
            close@ == seq!['*', '/'],
            lex_from(s@, 0) == prefixed(toks(tokens@), lex_from(s@, i as int)),
        decreases s@.len() - i,
    {
        let ghost t0 = toks(tokens@);
        let ghost i0 = i as int;
        let j = text::skip_ws(&s, i);
        proof {
            text::lemma_ws_run_bounds(s@, i as int);
        }
        if j >= s.len() {
            i = j;
            assert(lex_from(s@, i0) == Ok::<Seq<Tok>, Seq<char>>(Seq::empty()));
            assert(ws_run(s@, i as int) == i);
            continue;
        }
        let c = s[j];
        if c == '#' {
            i = line_after(&s, j + 1);
            assert(lex_from(s@, i0) == lex_from(s@, i as int));
        } else if c == '/' && j + 1 < s.len() && s[j + 1] == '/' {
            i = line_after(&s, j + 2);
            assert(lex_from(s@, i0) == lex_from(s@, i as int));
        } else if c == '/' && j + 1 < s.len() && s[j + 1] == '*' {
            proof {
                lemma_find_from(s@, close@, j + 2);
            }
            match text::find(&s, &close, j + 2) {
                Some(k) => {
                    i = k + 2;
                    assert(lex_from(s@, i0) == lex_from(s@, i as int));
                },
                None => {
                    return Err(text::owned("unterminated block comment"));
                },
            }
        } else if symbol(c) {
            tokens.push(Token::Symbol(c));
            assert(toks(tokens@) == t0 + seq![Tok::Symbol(c)]);
            i = j + 1;
            assert(lex_from(s@, i0) == prefixed(seq![Tok::Symbol(c)], lex_from(s@, i as int)));
            proof {
                lemma_prefixed(t0, seq![Tok::Symbol(c)], lex_from(s@, i as int));
            }
        } else if c == '"' {
            proof {
                lemma_scan_string(s@, j + 1);
            }
            match scan_quoted(&s, j + 1) {
                Some((v, e)) => {
                    let value = text::string_of(&v);
                    tokens.push(Token::Str(value));
                    assert(toks(tokens@) == t0 + seq![Tok::Str(v@)]);
                    i = e;
                    assert(lex_from(s@, i0) == prefixed(seq![Tok::Str(v@)], lex_from(s@, i as int)));
                    proof {
                        lemma_prefixed(t0, seq![Tok::Str(v@)], lex_from(s@, i as int));
                    }
                },
                None => {
                    return Err(text::owned("unterminated string"));
                },
            }
        } else if c == '`' {
            let e = text::find_char(&s, '`', j + 1);
            if e < s.len() {
                let v = text::slice_chars(&s, j + 1, e);
                let value = text::string_of(&v);
                tokens.push(Token::Command(value));
                assert(toks(tokens@) == t0 + seq![Tok::Command(v@)]);
                i = e + 1;
                assert(lex_from(s@, i0) == prefixed(seq![Tok::Command(v@)], lex_from(s@, i as int)));
                proof {
                    lemma_prefixed(t0, seq![Tok::Command(v@)], lex_from(s@, i as int));
                }
            } else {
                return Err(text::owned("unterminated command"));
            }
        } else {
            let e = scan_word(&s, j + 1);
            let v = text::slice_chars(&s, j, e);
            let value = text::string_of(&v);
            tokens.push(Token::Word(value));
            assert(toks(tokens@) == t0 + seq![Tok::Word(v@)]);
            i = e;
            assert(lex_from(s@, i0) == prefixed(seq![Tok::Word(v@)], lex_from(s@, i as int)));
            proof {
                lemma_prefixed(t0, seq![Tok::Word(v@)], lex_from(s@, i as int));
            }
        }
    }
    assert(i == s@.len());
    assert(ws_run(s@, i as int) == i);
    assert(lex_from(s@, i as int) == Ok::<Seq<Tok>, Seq<char>>(Seq::empty()));
    assert(toks(tokens@) + Seq::<Tok>::empty() == toks(tokens@));
    Ok(tokens)
}

/// A string body without quotes or backslashes is read as written, up to
/// its closing quote.
proof fn lemma_plain_string(s: Seq<char>, k: int, q: Seq<char>)
    requires
        0 <= k,
        k + q.len() < s.len(),
        s.subrange(k, k + q.len()) == q,
        s[k + q.len()] == '"',
        !q.contains('"'),
        !q.contains('\\'),
    ensures
        scan_string(s, k) == Some((q, k + q.len() + 1)),
    decreases q.len(),
{
    if q.len() > 0 {
        assert(s[k] == q[0]);
        assert(q.contains(q[0]));
        let rest = q.drop_first();
        assert(s.subrange(k + 1, k + 1 + rest.len()) == rest);
        assert forall|c: char| rest.contains(c) implies q.contains(c) by {
            let m = choose|m: int| 0 <= m < rest.len() && rest[m] == c;
            assert(q[m + 1] == c);
        }
        lemma_plain_string(s, k + 1, rest);
        assert(seq![s[k]] + rest == q);
    }
}

/// Law: a quoted text is one string token holding the text between the
/// quotes, when that text has no quote or backslash; a backslash takes the
/// next character as it is, so `\"` puts a quote in a string.
pub proof fn lemma_string_token(q: Seq<char>)
    requires
        !q.contains('"'),
        !q.contains('\\'),
    ensures
        lex_spec(seq!['"'] + q + seq!['"']) == Ok::<Seq<Tok>, Seq<char>>(seq![Tok::Str(q)]),
        scan_string(seq!['\\', '"'] + q + seq!['"'], 0) == Some((seq!['"'] + q, q.len() + 3int)),
{
    let s = seq!['"'] + q + seq!['"'];
    assert(ws_run(s, 0) == 0);
    assert(s.subrange(1, 1 + q.len() as int) == q);
    lemma_plain_string(s, 1, q);
    assert(ws_run(s, s.len() as int) == s.len());
    assert(lex_from(s, s.len() as int) == Ok::<Seq<Tok>, Seq<char>>(Seq::empty()));
    assert(seq![Tok::Str(q)] + Seq::<Tok>::empty() == seq![Tok::Str(q)]);
    let t = seq!['\\', '"'] + q + seq!['"'];
    assert(t.subrange(2, 2 + q.len() as int) == q);
    lemma_plain_string(t, 2, q);
    assert(seq![t[1]] + q == seq!['"'] + q);
}

} // verus!
