//! NOML: a small configuration notation with objects, arrays, scalars and
//! named rulesets of typed entries.
//!
//! Objects keep their properties sorted by key with at most one entry per
//! key. A float keeps the digits it was written with.
use vstd::prelude::*;
use crate::domain::error::signed_decimal;
use crate::text;
use crate::text::{digits_value, is_alnum, is_alpha, is_digit, is_hex, is_ws, text_le, text_lt};

verus! {

/// A typed, named entry of a ruleset: `type: name extends parent { ... }`.
#[derive(Debug)]
pub struct Entry {
    pub entry_type: String,
    pub name: String,
    pub properties: Vec<(String, Value)>,
    pub extends: Option<String>,
}

/// `ruleset "name" { entries }`.
#[derive(Debug)]
pub struct Ruleset {
    pub name: String,
    pub entries: Vec<Entry>,
}

#[derive(Debug)]
pub enum Value {
    Object(Vec<(String, Value)>),
    Array(Vec<Value>),
    String(String),
    Integer(i64),
    /// A decimal number with a fractional part, as written.
    Float(String),
    Boolean(bool),
    Null,
    Ruleset(Ruleset),
}

#[derive(Debug)]
pub struct ParseError {
    pub message: String,
}

/// Properties sorted by key, each key once.
pub open spec fn sorted_keys(es: Seq<(String, Value)>) -> bool {
    forall|i: int, j: int| 0 <= i < j < es.len() ==> text_lt(#[trigger] es[i].0@, #[trigger] es[j].0@)
}

/// Every object of a value, at any depth, has sorted, unique keys.
pub open spec fn well_formed(v: Value) -> bool
    decreases v, 1nat,
{
    match v {
        Value::Object(m) => properties_well_formed(m@),
        Value::Array(vs) => forall|i: int| 0 <= i < vs@.len() ==> well_formed(#[trigger] vs@[i]),
        Value::Ruleset(r) => forall|i: int|
            0 <= i < r.entries@.len() ==> properties_well_formed(#[trigger] r.entries@[i].properties@),
        _ => true,
    }
}

pub open spec fn properties_well_formed(es: Seq<(String, Value)>) -> bool
    decreases es, 0nat,
{
    sorted_keys(es) && forall|i: int| 0 <= i < es.len() ==> well_formed(#[trigger] es[i].1)
}

// ------------------------------------------------------------ serializing

pub open spec fn escape_char(c: char) -> Seq<char> {
    if c == '\\' {
        seq!['\\', '\\']
    } else if c == '"' {
        seq!['\\', '"']
    } else if c == '\n' {
        seq!['\\', 'n']
    } else if c == '\r' {
        seq!['\\', 'r']
    } else if c == '\t' {
        seq!['\\', 't']
    } else {
        seq![c]
    }
}

/// A string with `\`, `"`, newline, carriage return and tab escaped.
pub open spec fn escaped(s: Seq<char>) -> Seq<char>
    decreases s.len(),
{
    if s.len() == 0 {
        Seq::empty()
    } else {
        escaped(s.drop_last()) + escape_char(s.last())
    }
}

/// A quoted string literal.
pub open spec fn literal(s: Seq<char>) -> Seq<char> {
    seq!['"'] + escaped(s) + seq!['"']
}

/// Letters, digits, `_` and `-`, starting with a letter or `_`.
pub open spec fn is_identifier(s: Seq<char>) -> bool {
    &&& s.len() > 0
    &&& (is_alpha(s[0]) || s[0] == '_')
    &&& forall|i: int| 0 <= i < s.len() ==> is_alnum(#[trigger] s[i]) || s[i] == '_' || s[i] == '-'
}

/// A key, entry name or string written bare when it can be, quoted otherwise.
pub open spec fn bare_or_quoted(s: Seq<char>) -> Seq<char> {
    if is_identifier(s) {
        s
    } else {
        literal(s)
    }
}

pub open spec fn spaces(n: nat) -> Seq<char>
    decreases n,
{
    if n == 0 {
        Seq::empty()
    } else {
        spaces((n - 1) as nat).push(' ')
    }
}

/// A value written at an indentation: objects one property per line,
/// arrays on one line.
pub open spec fn rendered(v: Value, indent: nat) -> Seq<char>
    decreases v, 2nat,
{
    match v {
        Value::Object(m) => seq!['{', '\n'] + property_lines(m@, indent + 4, indent + 4) + seq!['\n']
            + spaces(indent) + seq!['}'],
        Value::Array(vs) => seq!['['] + array_items(vs@, indent + 2) + seq![']'],
        Value::String(s) => bare_or_quoted(s@),
        Value::Integer(n) => signed_decimal(n as int),
        Value::Float(t) => float_written(t@),
        Value::Boolean(b) => if b {
            "true"@
        } else {
            "false"@
        },
        Value::Null => "null"@,
        Value::Ruleset(r) => ruleset_text(r),
    }
}

/// `key: value` lines joined by newlines; each line starts with `margin`
/// spaces and its value is written at `indent`.
pub open spec fn property_lines(es: Seq<(String, Value)>, margin: nat, indent: nat) -> Seq<char>
    decreases es, 1nat,
{
    if es.len() == 0 {
        Seq::empty()
    } else {
        let line = spaces(margin) + bare_or_quoted(es.last().0@) + seq![':', ' '] + rendered(
            es.last().1,
            indent,
        );
        if es.len() == 1 {
            line
        } else {
            property_lines(es.drop_last(), margin, indent) + seq!['\n'] + line
        }
    }
}

/// An array element: strings are always quoted.
pub open spec fn array_item(v: Value, indent: nat) -> Seq<char>
    decreases v, 3nat,
{
    match v {
        Value::String(s) => literal(s@),
        _ => rendered(v, indent),
    }
}

pub open spec fn array_items(vs: Seq<Value>, indent: nat) -> Seq<char>
    decreases vs, 1nat,
{
    if vs.len() == 0 {
        Seq::empty()
    } else if vs.len() == 1 {
        array_item(vs.last(), indent)
    } else {
        array_items(vs.drop_last(), indent) + seq![',', ' '] + array_item(vs.last(), indent)
    }
}

/// The `key: value` lines of an entry's properties, leaving out `extends`.
pub open spec fn entry_lines(es: Seq<(String, Value)>) -> Seq<char>
    decreases es, 1nat,
{
    if es.len() == 0 {
        Seq::empty()
    } else {
        let rest = entry_lines(es.drop_last());
        if es.last().0@ == "extends"@ {
            rest
        } else {
            let line = spaces(8) + bare_or_quoted(es.last().0@) + seq![':', ' '] + rendered(
                es.last().1,
                8,
            );
            if rest.len() == 0 {
                line
            } else {
                rest + seq!['\n'] + line
            }
        }
    }
}

pub open spec fn entry_text(e: Entry) -> Seq<char>
    decreases e, 0nat,
{
    let header = "    "@ + e.entry_type@ + seq![':', ' '] + bare_or_quoted(e.name@)
        + match e.extends {
        Some(p) => " extends "@ + bare_or_quoted(p@),
        None => Seq::empty(),
    } + " {\n"@;
    let body = entry_lines(e.properties@);
    header + body + if body.len() > 0 {
        seq!['\n']
    } else {
        Seq::empty()
    } + "    }"@
}

pub open spec fn entries_text(es: Seq<Entry>) -> Seq<char>
    decreases es, 1nat,
{
    if es.len() == 0 {
        Seq::empty()
    } else if es.len() == 1 {
        entry_text(es.last())
    } else {
        entries_text(es.drop_last()) + seq![',', '\n'] + entry_text(es.last())
    }
}

pub open spec fn ruleset_text(r: Ruleset) -> Seq<char>
    decreases r, 0nat,
{
    "ruleset "@ + literal(r.name@) + seq![' ', '{', '\n'] + entries_text(r.entries@) + seq![
        '\n',
        '}',
    ]
}

/// Whether every indentation used in writing `v` at `indent` fits in a `usize`.
pub open spec fn fits(v: Value, indent: nat) -> bool
    decreases v, 2nat,
{
    match v {
        Value::Object(m) => indent + 4 <= usize::MAX && properties_fit(m@, indent + 4),
        Value::Array(vs) => indent + 2 <= usize::MAX && values_fit(vs@, indent + 2),
        Value::Ruleset(r) => entries_fit(r.entries@),
        _ => true,
    }
}

pub open spec fn properties_fit(es: Seq<(String, Value)>, indent: nat) -> bool
    decreases es, 1nat,
{
    es.len() > 0 ==> properties_fit(es.drop_last(), indent) && fits(es.last().1, indent)
}

pub open spec fn values_fit(vs: Seq<Value>, indent: nat) -> bool
    decreases vs, 1nat,
{
    vs.len() > 0 ==> values_fit(vs.drop_last(), indent) && fits(vs.last(), indent)
}

pub open spec fn entries_fit(es: Seq<Entry>) -> bool
    decreases es, 1nat,
{
    es.len() > 0 ==> entries_fit(es.drop_last()) && properties_fit(es.last().properties@, 8)
}

/// A whole document: a top-level object writes its properties four spaces
/// in with their values at indentation one, a top-level array writes its
/// elements at indentation zero.
pub open spec fn document_text(v: Value) -> Seq<char> {
    match v {
        Value::Object(m) => seq!['{', '\n'] + property_lines(m@, 4, 1) + seq!['\n', '}'],
        Value::Array(vs) => seq!['['] + array_items(vs@, 0) + seq![']'],
        _ => rendered(v, 0),
    }
}

pub open spec fn document_fits(v: Value) -> bool {
    match v {
        Value::Object(m) => properties_fit(m@, 1),
        Value::Array(vs) => values_fit(vs@, 0),
        _ => fits(v, 0),
    }
}

proof fn lemma_properties_fit(es: Seq<(String, Value)>, indent: nat, i: int)
    requires
        properties_fit(es, indent),
        0 <= i < es.len(),
    ensures
        fits(es[i].1, indent),
        properties_fit(es.take(i + 1), indent),
    decreases es.len(),
{
    if i < es.len() - 1 {
        lemma_properties_fit(es.drop_last(), indent, i);
        assert(es.drop_last().take(i + 1) == es.take(i + 1));
    } else {
        assert(es.take(i + 1) == es);
    }
}

proof fn lemma_values_fit(vs: Seq<Value>, indent: nat, i: int)
    requires
        values_fit(vs, indent),
        0 <= i < vs.len(),
    ensures
        fits(vs[i], indent),
    decreases vs.len(),
{
    if i < vs.len() - 1 {
        lemma_values_fit(vs.drop_last(), indent, i);
    }
}

proof fn lemma_entries_fit(es: Seq<Entry>, i: int)
    requires
        entries_fit(es),
        0 <= i < es.len(),
    ensures
        properties_fit(es[i].properties@, 8),
    decreases es.len(),
{
    if i < es.len() - 1 {
        lemma_entries_fit(es.drop_last(), i);
    }
}

fn push_spaces(out: &mut String, n: usize)
    ensures
        final(out)@ == old(out)@ + spaces(n as nat),
{
    let mut k: usize = 0;
    while k < n
        invariant
            k <= n,
            out@ == old(out)@ + spaces(k as nat),
        decreases n - k,
    {
        text::push_char(out, ' ');
        k = k + 1;
    }
}

/// Whether a string can be written without quotes.
fn looks_like_identifier(value: &str) -> (r: bool)
    ensures
        r == is_identifier(value@),
{
    let cs = text::chars_of(value);
    if cs.len() == 0 {
        return false;
    }
    if !(text::alpha(cs[0]) || cs[0] == '_') {
        return false;
    }
    let mut i: usize = 0;
    while i < cs.len()
        invariant
            i <= cs@.len(),
            cs@ == value@,
            forall|j: int| 0 <= j < i ==> is_alnum(#[trigger] cs@[j]) || cs@[j] == '_' || cs@[j] == '-',
        decreases cs@.len() - i,
    {
        let c = cs[i];
        if !(text::alnum(c) || c == '_' || c == '-') {
            return false;
        }
        i = i + 1;
    }
    true
}

fn escape_string(value: &str) -> (r: String)
    ensures
        r@ == escaped(value@),
{
    let cs = text::chars_of(value);
    let mut out = String::new();
    let mut i: usize = 0;
    while i < cs.len()
        invariant
            i <= cs@.len(),
            cs@ == value@,
            out@ == escaped(cs@.take(i as int)),
        decreases cs@.len() - i,
    {
        let c = cs[i];
        if c == '\\' {
            text::push_char(&mut out, '\\');
            text::push_char(&mut out, '\\');
        } else if c == '"' {
            text::push_char(&mut out, '\\');
            text::push_char(&mut out, '"');
        } else if c == '\n' {
            text::push_char(&mut out, '\\');
            text::push_char(&mut out, 'n');
        } else if c == '\r' {
            text::push_char(&mut out, '\\');
            text::push_char(&mut out, 'r');
        } else if c == '\t' {
            text::push_char(&mut out, '\\');
            text::push_char(&mut out, 't');
        } else {
            text::push_char(&mut out, c);
        }
        assert(cs@.take(i + 1).drop_last() == cs@.take(i as int));
        i = i + 1;
    }
    assert(cs@.take(cs@.len() as int) == cs@);
    out
}

fn format_string_literal(value: &str) -> (r: String)
    ensures
        r@ == literal(value@),
{
    let mut out = String::new();
    text::push_char(&mut out, '"');
    let body = escape_string(value);
    text::push_str(&mut out, body.as_str());
    text::push_char(&mut out, '"');
    out
}

fn format_key(key: &str) -> (r: String)
    ensures
        r@ == bare_or_quoted(key@),
{
    if looks_like_identifier(key) {
        text::owned(key)
    } else {
        format_string_literal(key)
    }
}

fn format_scalar_string(value: &str) -> (r: String)
    ensures
        r@ == bare_or_quoted(value@),
{
    if looks_like_identifier(value) {
        text::owned(value)
    } else {
        format_string_literal(value)
    }
}

fn serialize_entry_name(value: &str) -> (r: String)
    ensures
        r@ == bare_or_quoted(value@),
{
    if looks_like_identifier(value) {
        text::owned(value)
    } else {
        format_string_literal(value)
    }
}

fn i64_text(n: i64) -> (r: String)
    ensures
        r@ == signed_decimal(n as int),
{
    if n < 0 {
        let magnitude: u64 = (-(n as i128)) as u64;
        let digits = text::u64_to_string(magnitude);
        let mut out = String::new();
        text::push_char(&mut out, '-');
        text::push_str(&mut out, digits.as_str());
        out
    } else {
        text::u64_to_string(n as u64)
    }
}

fn serialize_value(value: &Value, indent: usize) -> (r: String)
    ensures
        fits(*value, indent as nat) ==> r@ == rendered(*value, indent as nat),
    decreases *value, 2nat,
{
    match value {
        Value::Object(entries) => {
            let ghost ok = fits(*value, indent as nat);
            let mut out = String::new();
            text::push_char(&mut out, '{');
            text::push_char(&mut out, '\n');
            let ghost head = out@;
            let inner = indent.saturating_add(4);
            let mut i: usize = 0;
            while i < entries.len()
                invariant
                    i <= entries@.len(),
                    *value == Value::Object(*entries),
                    ok == fits(*value, indent as nat),
                    ok ==> inner == indent + 4 && properties_fit(entries@, inner as nat),
                    ok ==> out@ == head + property_lines(entries@.take(i as int), inner as nat, inner as nat),
                    head == seq!['{', '\n'],
                decreases entries@.len() - i,
            {
                if i > 0 {
                    text::push_char(&mut out, '\n');
                }
                proof {
                    if ok {
                        lemma_properties_fit(entries@, inner as nat, i as int);
                    }
                    assert(decreases_to!(*value => (*value)->Object_0));
                    assert(decreases_to!(entries => entries@));
                    assert(decreases_to!(entries@ => entries@[i as int]));
                    assert(decreases_to!(entries@[i as int] => entries@[i as int].1));
                }
                push_spaces(&mut out, inner);
                let key = format_key(entries[i].0.as_str());
                text::push_str(&mut out, key.as_str());
                text::push_char(&mut out, ':');
                text::push_char(&mut out, ' ');
                let child = serialize_value(&entries[i].1, inner);
                text::push_str(&mut out, child.as_str());
                assert(entries@.take(i + 1).drop_last() == entries@.take(i as int));
                i = i + 1;
            }
            assert(entries@.take(entries@.len() as int) == entries@);
            text::push_char(&mut out, '\n');
            push_spaces(&mut out, indent);
            text::push_char(&mut out, '}');
            out
        },
        Value::Array(values) => {
            let ghost ok = fits(*value, indent as nat);
            let mut out = String::new();
            text::push_char(&mut out, '[');
            let inner = indent.saturating_add(2);
            let mut i: usize = 0;
            while i < values.len()
                invariant
                    i <= values@.len(),
                    *value == Value::Array(*values),
                    ok == fits(*value, indent as nat),
                    ok ==> inner == indent + 2 && values_fit(values@, inner as nat),
                    ok ==> out@ == seq!['['] + array_items(values@.take(i as int), inner as nat),
                decreases values@.len() - i,
            {
                if i > 0 {
                    text::push_char(&mut out, ',');
                    text::push_char(&mut out, ' ');
                }
                proof {
                    if ok {
                        lemma_values_fit(values@, inner as nat, i as int);
                    }
                    assert(decreases_to!(*value => (*value)->Array_0));
                    assert(decreases_to!(values => values@));
                    assert(decreases_to!(values@ => values@[i as int]));
                }
                let child = serialize_array_element(&values[i], inner);
                text::push_str(&mut out, child.as_str());
                assert(values@.take(i + 1).drop_last() == values@.take(i as int));
                i = i + 1;
            }
            assert(values@.take(values@.len() as int) == values@);
            text::push_char(&mut out, ']');
            out
        },
        Value::String(s) => format_scalar_string(s.as_str()),
        Value::Integer(n) => i64_text(*n),
        Value::Float(t) => float_text(t.as_str()),
        Value::Boolean(b) => {
            if *b {
                text::owned("true")
            } else {
                text::owned("false")
            }
        },
        Value::Null => text::owned("null"),
        Value::Ruleset(r) => serialize_ruleset(r),
    }
}

fn serialize_array_element(value: &Value, indent: usize) -> (r: String)
    ensures
        fits(*value, indent as nat) ==> r@ == array_item(*value, indent as nat),
    decreases *value, 3nat,
{
    match value {
        Value::String(s) => format_string_literal(s.as_str()),
        _ => serialize_value(value, indent),
    }
}

fn serialize_ruleset(ruleset: &Ruleset) -> (r: String)
    ensures
        entries_fit(ruleset.entries@) ==> r@ == ruleset_text(*ruleset),
    decreases *ruleset, 0nat,
{
    let ghost ok = entries_fit(ruleset.entries@);
    let mut out = String::new();
    text::push_str(&mut out, "ruleset ");
    let name = format_string_literal(ruleset.name.as_str());
    text::push_str(&mut out, name.as_str());
    text::push_char(&mut out, ' ');
    text::push_char(&mut out, '{');
    text::push_char(&mut out, '\n');
    let ghost head = out@;
    let mut index: usize = 0;
    while index < ruleset.entries.len()
        invariant
            index <= ruleset.entries@.len(),
            ok == entries_fit(ruleset.entries@),
            out@ == head + entries_text(ruleset.entries@.take(index as int)) || !ok,
        decreases ruleset.entries@.len() - index,
    {
        if index > 0 {
            text::push_char(&mut out, ',');
            text::push_char(&mut out, '\n');
        }
        proof {
            if ok {
                lemma_entries_fit(ruleset.entries@, index as int);
            }
        }
        let text_of_entry = serialize_entry(&ruleset.entries[index]);
        text::push_str(&mut out, text_of_entry.as_str());
        assert(ruleset.entries@.take(index + 1).drop_last() == ruleset.entries@.take(index as int));
        index = index + 1;
    }
    assert(ruleset.entries@.take(ruleset.entries@.len() as int) == ruleset.entries@);
    text::push_char(&mut out, '\n');
    text::push_char(&mut out, '}');
    out
}

fn serialize_entry(entry: &Entry) -> (r: String)
    ensures
        properties_fit(entry.properties@, 8) ==> r@ == entry_text(*entry),
    decreases *entry, 0nat,
{
    let ghost ok = properties_fit(entry.properties@, 8);
    let mut out = String::new();
    text::push_str(&mut out, "    ");
    text::push_str(&mut out, entry.entry_type.as_str());
    text::push_char(&mut out, ':');
    text::push_char(&mut out, ' ');
    let name = serialize_entry_name(entry.name.as_str());
    text::push_str(&mut out, name.as_str());
    match &entry.extends {
        Some(parent) => {
            text::push_str(&mut out, " extends ");
            let p = serialize_entry_name(parent.as_str());
            text::push_str(&mut out, p.as_str());
        },
        None => {},
    }
    text::push_str(&mut out, " {\n");
    let ghost head = out@;
    let mut first = true;
    let mut i: usize = 0;
    while i < entry.properties.len()
        invariant
            i <= entry.properties@.len(),
            ok == properties_fit(entry.properties@, 8),
            ok ==> out@ == head + entry_lines(entry.properties@.take(i as int)),
            first == (entry_lines(entry.properties@.take(i as int)).len() == 0),
        decreases entry.properties@.len() - i,
    {
        assert(entry.properties@.take(i + 1).drop_last() == entry.properties@.take(i as int));
        proof {
            if ok {
                lemma_properties_fit(entry.properties@, 8, i as int);
            }
        }
        let key = &entry.properties[i].0;
        if !text::same(key.as_str(), "extends") {
            if !first {
                text::push_char(&mut out, '\n');
            }
            first = false;
            push_spaces(&mut out, 8);
            let k = format_key(key.as_str());
            text::push_str(&mut out, k.as_str());
            text::push_char(&mut out, ':');
            text::push_char(&mut out, ' ');
            let child = serialize_value(&entry.properties[i].1, 8);
            text::push_str(&mut out, child.as_str());
        }
        i = i + 1;
    }
    assert(entry.properties@.take(entry.properties@.len() as int) == entry.properties@);
    if !first {
        text::push_char(&mut out, '\n');
    }
    text::push_str(&mut out, "    }");
    out
}

/// Writes a value as NOML text.
pub fn serialize(value: &Value) -> (r: String)
    ensures
        document_fits(*value) ==> r@ == document_text(*value),
{
    match value {
        Value::Object(entries) => {
            let ghost ok = document_fits(*value);
            let mut out = String::new();
            text::push_char(&mut out, '{');
            text::push_char(&mut out, '\n');
            let ghost head = out@;
            let mut i: usize = 0;
            while i < entries.len()
                invariant
                    i <= entries@.len(),
                    *value == Value::Object(*entries),
                    ok == document_fits(*value),
                    ok ==> properties_fit(entries@, 1),
                    ok ==> out@ == head + property_lines(entries@.take(i as int), 4, 1),
                    head == seq!['{', '\n'],
                decreases entries@.len() - i,
            {
                if i > 0 {
                    text::push_char(&mut out, '\n');
                }
                proof {
                    if ok {
                        lemma_properties_fit(entries@, 1, i as int);
                    }
                }
                push_spaces(&mut out, 4);
                let key = format_key(entries[i].0.as_str());
                text::push_str(&mut out, key.as_str());
                text::push_char(&mut out, ':');
                text::push_char(&mut out, ' ');
                let child = serialize_value(&entries[i].1, 1);
                text::push_str(&mut out, child.as_str());
                assert(entries@.take(i + 1).drop_last() == entries@.take(i as int));
                i = i + 1;
            }
            assert(entries@.take(entries@.len() as int) == entries@);
            text::push_char(&mut out, '\n');
            text::push_char(&mut out, '}');
            out
        },
        Value::Array(values) => {
            let ghost ok = document_fits(*value);
            let mut out = String::new();
            text::push_char(&mut out, '[');
            let mut i: usize = 0;
            while i < values.len()
                invariant
                    i <= values@.len(),
                    *value == Value::Array(*values),
                    ok == document_fits(*value),
                    ok ==> values_fit(values@, 0),
                    ok ==> out@ == seq!['['] + array_items(values@.take(i as int), 0),
                decreases values@.len() - i,
            {
                if i > 0 {
                    text::push_char(&mut out, ',');
                    text::push_char(&mut out, ' ');
                }
                proof {
                    if ok {
                        lemma_values_fit(values@, 0, i as int);
                    }
                }
                let child = serialize_array_element(&values[i], 0);
                text::push_str(&mut out, child.as_str());
                assert(values@.take(i + 1).drop_last() == values@.take(i as int));
                i = i + 1;
            }
            assert(values@.take(values@.len() as int) == values@);
            text::push_char(&mut out, ']');
            out
        },
        _ => serialize_value(value, 0),
    }
}

/// Writes a value as NOML text.
pub fn format_value(value: &Value) -> (r: String)
    ensures
        document_fits(*value) ==> r@ == document_text(*value),
{
    serialize(value)
}

// ------------------------------------------------------------ debug text

/// How `{:?}` escapes a character of a string.
pub open spec fn debug_str_char(c: char) -> Seq<char> {
    if c == '\t' {
        seq!['\\', 't']
    } else if c == '\r' {
        seq!['\\', 'r']
    } else if c == '\n' {
        seq!['\\', 'n']
    } else if c == '\\' {
        seq!['\\', '\\']
    } else if c == '"' {
        seq!['\\', '"']
    } else if c == '\0' {
        seq!['\\', '0']
    } else {
        seq![c]
    }
}

pub open spec fn debug_str_body(s: Seq<char>) -> Seq<char>
    decreases s.len(),
{
    if s.len() == 0 {
        Seq::empty()
    } else {
        debug_str_body(s.drop_last()) + debug_str_char(s.last())
    }
}

/// A string as `{:?}` writes it.
pub open spec fn debug_str(s: Seq<char>) -> Seq<char> {
    seq!['"'] + debug_str_body(s) + seq!['"']
}

/// A value as `{:?}` writes it.
pub open spec fn debug_of(v: Value) -> Seq<char>
    decreases v, 2nat,
{
    match v {
        Value::Object(m) => "Object("@ + debug_map(m@) + ")"@,
        Value::Array(vs) => "Array(["@ + debug_list(vs@) + "])"@,
        Value::String(s) => "String("@ + debug_str(s@) + ")"@,
        Value::Integer(n) => "Integer("@ + signed_decimal(n as int) + ")"@,
        Value::Float(t) => "Float("@ + float_written(t@) + ")"@,
        Value::Boolean(b) => if b {
            "Boolean(true)"@
        } else {
            "Boolean(false)"@
        },
        Value::Null => "Null"@,
        Value::Ruleset(r) => "Ruleset(Ruleset { name: "@ + debug_str(r.name@) + ", entries: ["@
            + debug_entries(r.entries@) + "] })"@,
    }
}

pub open spec fn debug_map_items(es: Seq<(String, Value)>) -> Seq<char>
    decreases es, 1nat,
{
    if es.len() == 0 {
        Seq::empty()
    } else {
        let item = debug_str(es.last().0@) + ": "@ + debug_of(es.last().1);
        if es.len() == 1 {
            item
        } else {
            debug_map_items(es.drop_last()) + ", "@ + item
        }
    }
}

pub open spec fn debug_map(es: Seq<(String, Value)>) -> Seq<char>
    decreases es, 2nat,
{
    "{"@ + debug_map_items(es) + "}"@
}

pub open spec fn debug_list(vs: Seq<Value>) -> Seq<char>
    decreases vs, 1nat,
{
    if vs.len() == 0 {
        Seq::empty()
    } else if vs.len() == 1 {
        debug_of(vs.last())
    } else {
        debug_list(vs.drop_last()) + ", "@ + debug_of(vs.last())
    }
}

pub open spec fn debug_entry(e: Entry) -> Seq<char>
    decreases e, 1nat,
{
    "Entry { type_name: "@ + debug_str(e.entry_type@) + ", name: "@ + debug_str(e.name@)
        + ", properties: "@ + debug_map(e.properties@) + ", extends: "@ + match e.extends {
        Some(p) => "Some("@ + debug_str(p@) + ")"@,
        None => "None"@,
    } + " }"@
}

pub open spec fn debug_entries(es: Seq<Entry>) -> Seq<char>
    decreases es, 2nat,
{
    if es.len() == 0 {
        Seq::empty()
    } else if es.len() == 1 {
        debug_entry(es.last())
    } else {
        debug_entries(es.drop_last()) + ", "@ + debug_entry(es.last())
    }
}

pub fn debug_string(s: &str) -> (r: String)
    ensures
        r@ == debug_str(s@),
{
    let cs = text::chars_of(s);
    let mut out = String::new();
    text::push_char(&mut out, '"');
    let ghost head = out@;
    let mut i: usize = 0;
    while i < cs.len()
        invariant
            i <= cs@.len(),
            cs@ == s@,
            head == seq!['"'],
            out@ == head + debug_str_body(cs@.take(i as int)),
        decreases cs@.len() - i,
    {
        let c = cs[i];
        if c == '\t' {
            text::push_char(&mut out, '\\');
            text::push_char(&mut out, 't');
        } else if c == '\r' {
            text::push_char(&mut out, '\\');
            text::push_char(&mut out, 'r');
        } else if c == '\n' {
            text::push_char(&mut out, '\\');
            text::push_char(&mut out, 'n');
        } else if c == '\\' {
            text::push_char(&mut out, '\\');
            text::push_char(&mut out, '\\');
        } else if c == '"' {
            text::push_char(&mut out, '\\');
            text::push_char(&mut out, '"');
        } else if c == '\0' {
            text::push_char(&mut out, '\\');
            text::push_char(&mut out, '0');
        } else {
            text::push_char(&mut out, c);
        }
        assert(cs@.take(i + 1).drop_last() == cs@.take(i as int));
        i = i + 1;
    }
    assert(cs@.take(cs@.len() as int) == cs@);
    text::push_char(&mut out, '"');
    out
}

fn debug_map_text(m: &Vec<(String, Value)>) -> (r: String)
    ensures
        r@ == debug_map(m@),
    decreases *m, 2nat,
{
    let mut out = text::owned("{");
    let ghost head = out@;
    let mut i: usize = 0;
    while i < m.len()
        invariant
            i <= m@.len(),
            head == "{"@,
            out@ == head + debug_map_items(m@.take(i as int)),
        decreases m@.len() - i,
    {
        if i > 0 {
            text::push_str(&mut out, ", ");
        }
        proof {
            assert(decreases_to!(*m => m@));
            assert(decreases_to!(m@ => m@[i as int]));
            assert(decreases_to!(m@[i as int] => m@[i as int].1));
        }
        let key = debug_string(m[i].0.as_str());
        text::push_str(&mut out, key.as_str());
        text::push_str(&mut out, ": ");
        let child = debug_text(&m[i].1);
        text::push_str(&mut out, child.as_str());
        assert(m@.take(i + 1).drop_last() == m@.take(i as int));
        i = i + 1;
    }
    assert(m@.take(m@.len() as int) == m@);
    text::push_str(&mut out, "}");
    out
}

fn debug_entry_text(e: &Entry) -> (r: String)
    ensures
        r@ == debug_entry(*e),
    decreases *e, 1nat,
{
    let mut out = text::owned("Entry { type_name: ");
    let t = debug_string(e.entry_type.as_str());
    text::push_str(&mut out, t.as_str());
    text::push_str(&mut out, ", name: ");
    let nm = debug_string(e.name.as_str());
    text::push_str(&mut out, nm.as_str());
    text::push_str(&mut out, ", properties: ");
    let props = debug_map_text(&e.properties);
    text::push_str(&mut out, props.as_str());
    text::push_str(&mut out, ", extends: ");
    match &e.extends {
        Some(p) => {
            text::push_str(&mut out, "Some(");
            let pt = debug_string(p.as_str());
            text::push_str(&mut out, pt.as_str());
            text::push_str(&mut out, ")");
        },
        None => {
            text::push_str(&mut out, "None");
        },
    }
    text::push_str(&mut out, " }");
    out
}

/// A value as `{:?}` writes it.
pub fn debug_text(v: &Value) -> (r: String)
    ensures
        r@ == debug_of(*v),
    decreases *v, 3nat,
{
    match v {
        Value::Object(m) => {
            let mut out = text::owned("Object(");
            proof {
                assert(decreases_to!(*v => (*v)->Object_0));
            }
            let inner = debug_map_text(m);
            text::push_str(&mut out, inner.as_str());
            text::push_str(&mut out, ")");
            out
        },
        Value::Array(vs) => {
            let mut out = text::owned("Array([");
            let ghost head = out@;
            let mut i: usize = 0;
            while i < vs.len()
                invariant
                    i <= vs@.len(),
                    *v == Value::Array(*vs),
                    head == "Array(["@,
                    out@ == head + debug_list(vs@.take(i as int)),
                decreases vs@.len() - i,
            {
                if i > 0 {
                    text::push_str(&mut out, ", ");
                }
                proof {
                    assert(decreases_to!(*v => (*v)->Array_0));
                    assert(decreases_to!(vs => vs@));
                    assert(decreases_to!(vs@ => vs@[i as int]));
                }
                let child = debug_text(&vs[i]);
                text::push_str(&mut out, child.as_str());
                assert(vs@.take(i + 1).drop_last() == vs@.take(i as int));
                i = i + 1;
            }
            assert(vs@.take(vs@.len() as int) == vs@);
            text::push_str(&mut out, "])");
            out
        },
        Value::String(s) => {
            let mut out = text::owned("String(");
            let body = debug_string(s.as_str());
            text::push_str(&mut out, body.as_str());
            text::push_str(&mut out, ")");
            out
        },
        Value::Integer(n) => {
            let mut out = text::owned("Integer(");
            let digits = i64_text(*n);
            text::push_str(&mut out, digits.as_str());
            text::push_str(&mut out, ")");
            out
        },
        Value::Float(t) => {
            let mut out = text::owned("Float(");
            let written = float_text(t.as_str());
            text::push_str(&mut out, written.as_str());
            text::push_str(&mut out, ")");
            out
        },
        Value::Boolean(b) => {
            if *b {
                text::owned("Boolean(true)")
            } else {
                text::owned("Boolean(false)")
            }
        },
        Value::Null => text::owned("Null"),
        Value::Ruleset(r) => {
            let mut out = text::owned("Ruleset(Ruleset { name: ");
            let name = debug_string(r.name.as_str());
            text::push_str(&mut out, name.as_str());
            text::push_str(&mut out, ", entries: [");
            let ghost head = out@;
            let mut i: usize = 0;
            while i < r.entries.len()
                invariant
                    i <= r.entries@.len(),
                    *v == Value::Ruleset(*r),
                    out@ == head + debug_entries(r.entries@.take(i as int)),
                decreases r.entries@.len() - i,
            {
                if i > 0 {
                    text::push_str(&mut out, ", ");
                }
                let e = &r.entries[i];
                proof {
                    assert(decreases_to!(*v => (*v)->Ruleset_0));
                    assert(decreases_to!((*v)->Ruleset_0 => r.entries));
                    assert(decreases_to!(r.entries => r.entries@));
                    assert(decreases_to!(r.entries@ => r.entries@[i as int]));
                    assert(decreases_to!(r.entries@[i as int] => r.entries@[i as int].properties));
                }
                let entry_text_of = debug_entry_text(e);
                text::push_str(&mut out, entry_text_of.as_str());
                assert(r.entries@.take(i + 1).drop_last() == r.entries@.take(i as int));
                i = i + 1;
            }
            assert(r.entries@.take(r.entries@.len() as int) == r.entries@);
            text::push_str(&mut out, "] })");
            out
        },
    }
}

// ------------------------------------------------------------ parsing

/// Every `/*` in the text is closed by a later `*/`.
pub open spec fn closed_comments(s: Seq<char>) -> bool {
    forall|i: int|
        0 <= i && i + 1 < s.len() && #[trigger] s[i] == '/' && s[i + 1] == '*' ==> exists|k: int|
            i + 2 <= k && k + 1 < s.len() && #[trigger] s[k] == '*' && s[k + 1] == '/'
}

/// Whether `*/` starts at `k`.
pub open spec fn closes_at(s: Seq<char>, k: int) -> bool {
    0 <= k && k + 1 < s.len() && s[k] == '*' && s[k + 1] == '/'
}

/// Whether every `/*` in a text is closed by a later `*/`; parsing a text
/// with an unclosed block comment is refused by `parse`'s precondition.
pub fn comments_closed(input: &str) -> (r: bool)
    ensures
        r == closed_comments(input@),
{
    let s = text::chars_of(input);
    let n = s.len();
    let mut i = n;
    let mut after = false;
    let mut ok = true;
    while i > 0
        invariant
            i <= n,
            n == s@.len(),
            s@ == input@,
            after == exists|k: int| i + 2 <= k && #[trigger] closes_at(s@, k),
            ok == forall|j: int|
                i <= j && j + 1 < n && #[trigger] s@[j] == '/' && s@[j + 1] == '*' ==> exists|k: int|
                    j + 2 <= k && #[trigger] closes_at(s@, k),
        decreases i,
    {
        i = i - 1;
        let closes_here = n > 3 && i < n - 3 && s[i + 2] == '*' && s[i + 3] == '/';
        proof {
            if closes_here {
                assert(closes_at(s@, i + 2));
            }
            assert((exists|k: int| i + 2 <= k && #[trigger] closes_at(s@, k)) == (after || closes_at(s@, i + 2))) by {
                if exists|k: int| i + 2 <= k && #[trigger] closes_at(s@, k) {
                    let k = choose|k: int| i + 2 <= k && #[trigger] closes_at(s@, k);
                    if k != i + 2 {
                        assert(i + 3 <= k);
                    }
                }
            }
        }
        after = after || closes_here;
        if i < n - 1 && s[i] == '/' && s[i + 1] == '*' && !after {
            ok = false;
        }
    }
    proof {
        assert(ok == closed_comments(s@)) by {
            if ok {
                assert forall|j: int|
                    0 <= j && j + 1 < s@.len() && #[trigger] s@[j] == '/' && s@[j + 1] == '*' implies exists|k: int|
                    j + 2 <= k && k + 1 < s@.len() && #[trigger] s@[k] == '*' && s@[k + 1] == '/' by {
                    let k = choose|k: int| j + 2 <= k && #[trigger] closes_at(s@, k);
                    assert(s@[k] == '*');
                }
            } else {
                let j = choose|j: int| 0 <= j && j + 1 < n && #[trigger] s@[j] == '/' && s@[j + 1] == '*' && !(exists|k: int|
                    j + 2 <= k && #[trigger] closes_at(s@, k));
                if closed_comments(s@) {
                    let k = choose|k: int| j + 2 <= k && k + 1 < s@.len() && #[trigger] s@[k] == '*' && s@[k + 1] == '/';
                    assert(closes_at(s@, k));
                }
            }
        }
    }
    ok
}

/// The end of the line that contains `i`: the next newline, or the end.
pub open spec fn line_end(s: Seq<char>, i: int) -> int
    decreases s.len() - i,
{
    if i < 0 || i >= s.len() || s[i] == '\n' {
        if i < 0 { 0 } else { i }
    } else {
        line_end(s, i + 1)
    }
}

/// The position after the first `*/` at or after `i`, or past the end.
pub open spec fn block_end(s: Seq<char>, i: int) -> int
    decreases s.len() - i,
{
    if i < 0 {
        0
    } else if i + 1 >= s.len() {
        s.len() + 1int
    } else if s[i] == '*' && s[i + 1] == '/' {
        i + 2
    } else {
        block_end(s, i + 1)
    }
}

/// The position after whitespace, `#` and `//` line comments and `/* */`
/// block comments starting at `i`.
pub open spec fn skipped(s: Seq<char>, i: int) -> int
    decreases s.len() - i,
{
    if i < 0 || i >= s.len() {
        i
    } else if is_ws(s[i]) {
        skipped(s, i + 1)
    } else if s[i] == '#' {
        if i < line_end(s, i) <= s.len() { skipped(s, line_end(s, i)) } else { i }
    } else if s[i] == '/' && i + 1 < s.len() && s[i + 1] == '/' {
        if i < line_end(s, i + 2) <= s.len() { skipped(s, line_end(s, i + 2)) } else { i }
    } else if s[i] == '/' && i + 1 < s.len() && s[i + 1] == '*' {
        if i < block_end(s, i + 2) <= s.len() { skipped(s, block_end(s, i + 2)) } else { i }
    } else {
        i
    }
}

proof fn lemma_line_end(s: Seq<char>, i: int)
    requires
        0 <= i <= s.len(),
    ensures
        i <= line_end(s, i) <= s.len(),
        forall|k: int| i <= k < line_end(s, i) ==> s[k] != '\n',
        line_end(s, i) < s.len() ==> s[line_end(s, i)] == '\n',
    decreases s.len() - i,
{
    if i < s.len() && s[i] != '\n' {
        lemma_line_end(s, i + 1);
    }
}

proof fn lemma_block_end(s: Seq<char>, i: int, k: int)
    requires
        0 <= i <= k,
        k + 1 < s.len(),
        s[k] == '*',
        s[k + 1] == '/',
    ensures
        i + 2 <= block_end(s, i) <= k + 2,
    decreases k - i,
{
    if !(s[i] == '*' && s[i + 1] == '/') {
        lemma_block_end(s, i + 1, k);
    }
}

proof fn lemma_skipped(s: Seq<char>, i: int)
    requires
        0 <= i <= s.len(),
    ensures
        i <= skipped(s, i) <= s.len(),
    decreases s.len() - i,
{
    if i < s.len() {
        if is_ws(s[i]) {
            lemma_skipped(s, i + 1);
        } else if s[i] == '#' {
            lemma_line_end(s, i);
            if i < line_end(s, i) <= s.len() {
                lemma_skipped(s, line_end(s, i));
            }
        } else if s[i] == '/' && i + 1 < s.len() && s[i + 1] == '/' {
            lemma_line_end(s, i + 2);
            if i < line_end(s, i + 2) <= s.len() {
                lemma_skipped(s, line_end(s, i + 2));
            }
        } else if s[i] == '/' && i + 1 < s.len() && s[i + 1] == '*' {
            if i < block_end(s, i + 2) <= s.len() {
                lemma_skipped(s, block_end(s, i + 2));
            }
        }
    }
}

/// Skipping twice skips nothing more.
proof fn lemma_skipped_idem(s: Seq<char>, i: int)
    requires
        0 <= i <= s.len(),
    ensures
        skipped(s, skipped(s, i)) == skipped(s, i),
    decreases s.len() - i,
{
    if i < s.len() {
        if is_ws(s[i]) {
            lemma_skipped_idem(s, i + 1);
        } else if s[i] == '#' {
            if i < line_end(s, i) <= s.len() {
                lemma_skipped_idem(s, line_end(s, i));
            }
        } else if s[i] == '/' && i + 1 < s.len() && s[i + 1] == '/' {
            if i < line_end(s, i + 2) <= s.len() {
                lemma_skipped_idem(s, line_end(s, i + 2));
            }
        } else if s[i] == '/' && i + 1 < s.len() && s[i + 1] == '*' {
            if i < block_end(s, i + 2) <= s.len() {
                lemma_skipped_idem(s, block_end(s, i + 2));
            }
        }
    }
}

fn fail(message: &str) -> (e: ParseError)
    ensures
        e.message@ == message@,
{
    ParseError { message: text::owned(message) }
}

/// Skips whitespace and comments.
fn skip_ws_comments(s: &Vec<char>, i: usize) -> (r: usize)
    requires
        i <= s@.len(),
        closed_comments(s@),
    ensures
        r == skipped(s@, i as int),
        i <= r <= s@.len(),
        skipped(s@, r as int) == r,
    decreases s@.len() - i,
{
    proof {
        lemma_skipped(s@, i as int);
        lemma_skipped_idem(s@, i as int);
    }
    let n = s.len();
    if i >= n {
        return i;
    }
    let c = s[i];
    if text::whitespace(c) {
        return skip_ws_comments(s, i + 1);
    }
    if c == '#' {
        let e = line_end_at(s, i);
        if e > i {
            return skip_ws_comments(s, e);
        }
        return i;
    }
    if c == '/' && i + 1 < s.len() && s[i + 1] == '/' {
        let e = line_end_at(s, i + 2);
        return skip_ws_comments(s, e);
    }
    if c == '/' && i + 1 < s.len() && s[i + 1] == '*' {
        let ghost k = choose|k: int| i + 2 <= k && k + 1 < s@.len() && #[trigger] s@[k] == '*' && s@[k + 1] == '/';
        assert(s@[i as int] == '/' && s@[i + 1] == '*');
        proof {
            lemma_block_end(s@, i + 2, k);
        }
        let last = n - 1;
        let mut j = i + 2;
        while j < last && !(s[j] == '*' && s[j + 1] == '/')
            invariant
                i + 2 <= j <= k,
                last == s@.len() - 1,
                k + 1 < s@.len(),
                s@[k] == '*' && s@[k + 1] == '/',
                block_end(s@, j as int) == block_end(s@, i + 2),
            decreases k - j,
        {
            j = j + 1;
        }
        return skip_ws_comments(s, j + 2);
    }
    i
}

fn line_end_at(s: &Vec<char>, i: usize) -> (r: usize)
    requires
        i <= s@.len(),
    ensures
        r == line_end(s@, i as int),
        i <= r <= s@.len(),
{
    proof {
        lemma_line_end(s@, i as int);
    }
    let mut j = i;
    while j < s.len() && s[j] != '\n'
        invariant
            i <= j <= s@.len(),
            line_end(s@, j as int) == line_end(s@, i as int),
        decreases s@.len() - j,
    {
        j = j + 1;
    }
    j
}

/// Whether nothing but whitespace and comments is left.
fn is_eof(s: &Vec<char>, i: usize) -> (r: bool)
    requires
        i <= s@.len(),
        closed_comments(s@),
    ensures
        r == (skipped(s@, i as int) >= s@.len()),
{
    skip_ws_comments(s, i) >= s.len()
}

fn peek(s: &Vec<char>, i: usize) -> (r: Option<char>)
    ensures
        r == (if i < s@.len() { Some(s@[i as int]) } else { None::<char> }),
{
    if i < s.len() {
        Some(s[i])
    } else {
        None
    }
}

fn check(s: &Vec<char>, i: usize, expected: char) -> (r: bool)
    ensures
        r == (i < s@.len() && s@[i as int] == expected),
{
    i < s.len() && s[i] == expected
}

/// How `{:?}` writes a character inside quotes.
pub open spec fn debug_char(c: char) -> Seq<char> {
    if c == '\t' {
        seq!['\\', 't']
    } else if c == '\r' {
        seq!['\\', 'r']
    } else if c == '\n' {
        seq!['\\', 'n']
    } else if c == '\\' {
        seq!['\\', '\\']
    } else if c == '\'' {
        seq!['\\', '\'']
    } else if c == '\0' {
        seq!['\\', '0']
    } else {
        seq![c]
    }
}

/// How `{:?}` writes an optional character: `Some('c')` or `None`.
pub open spec fn debug_option(c: Option<char>) -> Seq<char> {
    match c {
        Some(c) => "Some('"@ + debug_char(c) + "')"@,
        None => "None"@,
    }
}

fn debug_option_text(c: Option<char>) -> (r: String)
    ensures
        r@ == debug_option(c),
{
    match c {
        Some(c) => {
            let mut out = text::owned("Some('");
            if c == '\t' {
                text::push_char(&mut out, '\\');
                text::push_char(&mut out, 't');
            } else if c == '\r' {
                text::push_char(&mut out, '\\');
                text::push_char(&mut out, 'r');
            } else if c == '\n' {
                text::push_char(&mut out, '\\');
                text::push_char(&mut out, 'n');
            } else if c == '\\' {
                text::push_char(&mut out, '\\');
                text::push_char(&mut out, '\\');
            } else if c == '\'' {
                text::push_char(&mut out, '\\');
                text::push_char(&mut out, '\'');
            } else if c == '\0' {
                text::push_char(&mut out, '\\');
                text::push_char(&mut out, '0');
            } else {
                text::push_char(&mut out, c);
            }
            text::push_str(&mut out, "')");
            out
        },
        None => text::owned("None"),
    }
}

/// Skips whitespace and comments, then consumes `expected`.
fn expect(s: &Vec<char>, i: usize, expected: char) -> (r: Result<usize, ParseError>)
    requires
        i <= s@.len(),
        closed_comments(s@),
    ensures
        i <= skipped(s@, i as int) <= s@.len(),
        r matches Ok(j) ==> j == skipped(s@, i as int) + 1 && j <= s@.len() && s@[j - 1] == expected,
        r is Err ==> !(skipped(s@, i as int) < s@.len() && s@[skipped(s@, i as int)] == expected),
        r matches Err(e) ==> e.message@ == "expected '"@ + seq![expected] + "', found '"@ + debug_option(
            if skipped(s@, i as int) < s@.len() { Some(s@[skipped(s@, i as int)]) } else { None::<char> },
        ) + "'"@,
{
    let j = skip_ws_comments(s, i);
    if j < s.len() && s[j] == expected {
        Ok(j + 1)
    } else {
        let mut m = text::owned("expected '");
        text::push_char(&mut m, expected);
        text::push_str(&mut m, "', found '");
        let found = debug_option_text(peek(s, j));
        text::push_str(&mut m, found.as_str());
        text::push_str(&mut m, "'");
        Err(ParseError { message: m })
    }
}

pub open spec fn is_word_char(c: char) -> bool {
    is_alnum(c) || c == '_' || c == '-'
}

pub open spec fn is_word_start(c: char) -> bool {
    is_alpha(c) || c == '_'
}

/// The end of the run of word characters starting at `i`.
pub open spec fn word_end(s: Seq<char>, i: int) -> int
    decreases s.len() - i,
{
    if i < 0 || i >= s.len() || !is_word_char(s[i]) {
        i
    } else {
        word_end(s, i + 1)
    }
}

/// The end of the run of whitespace starting at `i`.
pub open spec fn ws_end(s: Seq<char>, i: int) -> int
    decreases s.len() - i,
{
    if i < 0 || i >= s.len() || !is_ws(s[i]) {
        i
    } else {
        ws_end(s, i + 1)
    }
}

fn word_end_at(s: &Vec<char>, i: usize) -> (r: usize)
    requires
        i <= s@.len(),
    ensures
        r == word_end(s@, i as int),
        i <= r <= s@.len(),
        forall|k: int| i <= k < r ==> is_word_char(#[trigger] s@[k]),
{
    let mut j = i;
    while j < s.len() && (text::alnum(s[j]) || s[j] == '_' || s[j] == '-')
        invariant
            i <= j <= s@.len(),
            word_end(s@, j as int) == word_end(s@, i as int),
            forall|k: int| i <= k < j ==> is_word_char(#[trigger] s@[k]),
        decreases s@.len() - j,
    {
        j = j + 1;
    }
    j
}

fn ws_end_at(s: &Vec<char>, i: usize) -> (r: usize)
    requires
        i <= s@.len(),
    ensures
        r == ws_end(s@, i as int),
        i <= r <= s@.len(),
{
    let mut j = i;
    while j < s.len() && text::whitespace(s[j])
        invariant
            i <= j <= s@.len(),
            ws_end(s@, j as int) == ws_end(s@, i as int),
        decreases s@.len() - j,
    {
        j = j + 1;
    }
    j
}

/// Whether the word after whitespace at `i` is `keyword`.
pub open spec fn keyword_at(s: Seq<char>, i: int, keyword: Seq<char>) -> bool {
    let start = ws_end(s, i);
    start < s.len() && is_word_start(s[start]) && s.subrange(start, word_end(s, start + 1))
        == keyword
}

fn check_keyword(s: &Vec<char>, i: usize, keyword: &str) -> (r: bool)
    requires
        i <= s@.len(),
    ensures
        r == keyword_at(s@, i as int, keyword@),
{
    let start = ws_end_at(s, i);
    if start >= s.len() || !(text::alpha(s[start]) || s[start] == '_') {
        return false;
    }
    let end = word_end_at(s, start + 1);
    let word = text::slice_chars(s, start, end);
    let k = text::chars_of(keyword);
    text::same_chars(&word, &k)
}

/// Where the word `keyword` ends when it comes after whitespace and
/// comments from `i`.
pub open spec fn keyword_after(s: Seq<char>, i: int, keyword: Seq<char>) -> Option<int> {
    let start = skipped(s, i);
    if start < s.len() && is_word_start(s[start]) && s.subrange(start, word_end(s, start + 1)) == keyword {
        Some(word_end(s, start + 1))
    } else {
        None
    }
}

/// Skips whitespace and comments, then consumes the word `keyword`.
fn expect_keyword(s: &Vec<char>, i: usize, keyword: &str) -> (r: Result<usize, ParseError>)
    requires
        i <= s@.len(),
        closed_comments(s@),
    ensures
        r matches Ok(j) ==> skipped(s@, i as int) < j <= s@.len() && i < j,
        match keyword_after(s@, i as int, keyword@) {
            Some(j) => r matches Ok(x) && x as int == j,
            None => r is Err,
        },
{
    let start = skip_ws_comments(s, i);
    match peek(s, start) {
        None => {
            let mut m = text::owned("expected '");
            text::push_str(&mut m, keyword);
            text::push_str(&mut m, "'");
            Err(ParseError { message: m })
        },
        Some(c) => {
            if !text::alpha(c) && c != '_' {
                let mut m = text::owned("expected '");
                text::push_str(&mut m, keyword);
                text::push_str(&mut m, "', found '");
                let found = debug_option_text(Some(c));
                text::push_str(&mut m, found.as_str());
                text::push_str(&mut m, "'");
                return Err(ParseError { message: m });
            }
            let n = s.len();
            let end = word_end_at(s, start + 1);
            let word = text::slice_chars(s, start, end);
            let k = text::chars_of(keyword);
            if text::same_chars(&word, &k) {
                Ok(end)
            } else {
                let mut m = text::owned("expected '");
                text::push_str(&mut m, keyword);
                text::push_str(&mut m, "', found '");
                let w = text::string_of(&word);
                text::push_str(&mut m, w.as_str());
                text::push_str(&mut m, "'");
                Err(ParseError { message: m })
            }
        },
    }
}

/// Whether a `key:` property starts at `i` (after whitespace).
pub open spec fn property_start(s: Seq<char>, i: int) -> bool {
    let start = ws_end(s, i);
    start < s.len() && is_word_start(s[start]) && ws_end(s, word_end(s, start)) < s.len() && s[ws_end(
        s,
        word_end(s, start),
    )] == ':'
}

fn is_property_start(s: &Vec<char>, i: usize) -> (r: bool)
    requires
        i <= s@.len(),
    ensures
        r == property_start(s@, i as int),
{
    let start = ws_end_at(s, i);
    if start >= s.len() || !(text::alpha(s[start]) || s[start] == '_') {
        return false;
    }
    let seen = word_end_at(s, start);
    let after = ws_end_at(s, seen);
    after < s.len() && s[after] == ':'
}

/// The property name after whitespace and comments from `i`, and where it
/// ends: a letter or `_`, then letters, digits, `_` and `-`.
pub open spec fn key_after(s: Seq<char>, i: int) -> Option<(Seq<char>, int)> {
    let start = skipped(s, i);
    if start < s.len() && is_word_start(s[start]) {
        Some((s.subrange(start, word_end(s, start + 1)), word_end(s, start + 1)))
    } else {
        None
    }
}

/// A property name: a letter or `_`, then letters, digits, `_` and `-`.
fn parse_key(s: &Vec<char>, i: usize) -> (r: Result<(String, usize), ParseError>)
    requires
        i <= s@.len(),
        closed_comments(s@),
    ensures
        r matches Ok((k, j)) ==> skipped(s@, i as int) < j <= s@.len() && is_identifier(k@) && i < j,
        match key_after(s@, i as int) {
            Some((k, j)) => r matches Ok((x, e)) && x@ == k && e == j,
            None => r is Err,
        },
{
    let start = skip_ws_comments(s, i);
    match peek(s, start) {
        None => Err(fail("expected property name")),
        Some(c) => {
            if !(text::alpha(c) || c == '_') {
                let mut m = text::owned("invalid property name starting with '");
                text::push_char(&mut m, c);
                text::push_str(&mut m, "'");
                return Err(ParseError { message: m });
            }
            let n = s.len();
            let end = word_end_at(s, start + 1);
            let key = text::slice_chars(s, start, end);
            assert(forall|k: int| 0 <= k < key@.len() ==> key@[k] == s@[start + k]);
            Ok((text::string_of(&key), end))
        },
    }
}

pub open spec fn hex_value(c: char) -> nat {
    if '0' <= c && c <= '9' {
        (c as nat - '0' as nat) as nat
    } else if 'a' <= c && c <= 'f' {
        (c as nat - 'a' as nat + 10) as nat
    } else {
        (c as nat - 'A' as nat + 10) as nat
    }
}

/// The value of the four hex digits at `k`.
pub open spec fn hex4(s: Seq<char>, k: int) -> nat {
    hex_value(s[k]) * 4096 + hex_value(s[k + 1]) * 256 + hex_value(s[k + 2]) * 16 + hex_value(s[k + 3])
}

/// Whether a number is the code point of a character.
pub open spec fn is_scalar(n: nat) -> bool {
    n < 0xD800 || (0xE000 <= n && n <= 0x10FFFF)
}

/// The character that a backslash followed by `c` stands for (other than `u`).
pub open spec fn unescaped(c: char) -> char {
    if c == 'n' {
        '\n'
    } else if c == 'r' {
        '\r'
    } else if c == 't' {
        '\t'
    } else {
        c
    }
}

/// Reading a string literal's body from `i`, after `acc` was read: the
/// characters and the position after the closing quote.
pub open spec fn string_body(s: Seq<char>, i: int, acc: Seq<char>) -> Option<(Seq<char>, int)>
    decreases s.len() - i,
{
    if i < 0 || i >= s.len() {
        None
    } else if s[i] == '"' {
        Some((acc, i + 1))
    } else if s[i] == '\\' {
        if i + 1 >= s.len() {
            None
        } else if s[i + 1] == 'u' {
            if i + 5 < s.len() && is_hex(s[i + 2]) && is_hex(s[i + 3]) && is_hex(s[i + 4]) && is_hex(
                s[i + 5],
            ) && is_scalar(hex4(s, i + 2)) {
                string_body(s, i + 6, acc.push(hex4(s, i + 2) as char))
            } else {
                None
            }
        } else {
            string_body(s, i + 2, acc.push(unescaped(s[i + 1])))
        }
    } else {
        string_body(s, i + 1, acc.push(s[i]))
    }
}

/// `char::from_u32`: the character with a code point, if it is one.
#[verifier::external_body]
fn char_from_code(n: u32) -> (r: Option<char>)
    ensures
        r == (if is_scalar(n as nat) { Some(n as char) } else { None::<char> }),
{
    char::from_u32(n)
}

fn hex_digit_value(c: char) -> (r: u32)
    requires
        is_hex(c),
    ensures
        r == hex_value(c),
        r < 16,
{
    if '0' <= c && c <= '9' {
        (c as u32) - ('0' as u32)
    } else if 'a' <= c && c <= 'f' {
        (c as u32) - ('a' as u32) + 10
    } else {
        (c as u32) - ('A' as u32) + 10
    }
}

/// A quoted string, after whitespace and comments.
fn parse_string(s: &Vec<char>, i: usize) -> (r: Result<(String, usize), ParseError>)
    requires
        i <= s@.len(),
        closed_comments(s@),
    ensures
        r is Ok <==> skipped(s@, i as int) < s@.len() && s@[skipped(s@, i as int)] == '"' && string_body(
            s@,
            skipped(s@, i as int) + 1,
            Seq::empty(),
        ) is Some,
        r matches Ok((v, j)) ==> string_body(s@, skipped(s@, i as int) + 1, Seq::empty()) == Some(
            (v@, j as int),
        ) && i < j <= s@.len(),
{
    let n = s.len();
    let mut pos = expect(s, i, '"')?;
    let ghost start = pos as int;
    let mut out: Vec<char> = Vec::new();
    while pos < n
        invariant
            n == s@.len(),
            start <= pos <= n,
            i < start,
            start == skipped(s@, i as int) + 1,
            s@[start - 1] == '"',
            string_body(s@, pos as int, out@) == string_body(s@, start, Seq::empty()),
        decreases n - pos,
    {
        let c = s[pos];
        if c == '"' {
            return Ok((text::string_of(&out), pos + 1));
        }
        if c == '\\' {
            if pos + 1 >= n {
                return Err(fail("unterminated escape sequence"));
            }
            let next = s[pos + 1];
            if next == 'u' {
                if n - pos <= 5 || !text::is_hex_digit(s[pos + 2]) || !text::is_hex_digit(s[pos + 3])
                    || !text::is_hex_digit(s[pos + 4]) || !text::is_hex_digit(s[pos + 5]) {
                    return Err(fail("invalid unicode escape"));
                }
                let code = hex_digit_value(s[pos + 2]) * 4096 + hex_digit_value(s[pos + 3]) * 256
                    + hex_digit_value(s[pos + 4]) * 16 + hex_digit_value(s[pos + 5]);
                match char_from_code(code) {
                    Some(ch) => {
                        out.push(ch);
                        pos = pos + 6;
                    },
                    None => {
                        return Err(fail("invalid unicode escape"));
                    },
                }
            } else {
                let escaped_char = if next == 'n' {
                    '\n'
                } else if next == 'r' {
                    '\r'
                } else if next == 't' {
                    '\t'
                } else {
                    next
                };
                out.push(escaped_char);
                pos = pos + 2;
            }
        } else {
            out.push(c);
            pos = pos + 1;
        }
    }
    Err(fail("unterminated string"))
}

/// An entry name: a quoted string or a property-style name.
fn parse_entry_name(s: &Vec<char>, i: usize) -> (r: Result<(String, usize), ParseError>)
    requires
        i <= s@.len(),
        closed_comments(s@),
    ensures
        r matches Ok((v, j)) ==> skipped(s@, i as int) < j <= s@.len() && i < j,
        match entry_name_after(s@, i as int) {
            Some((k, j)) => r matches Ok((x, e)) && x@ == k && e == j,
            None => r is Err,
        },
{
    let start = skip_ws_comments(s, i);
    if check(s, start, '"') {
        proof {
            lemma_skipped(s@, start as int);
        }
        return parse_string(s, start);
    }
    parse_key(s, start)
}

/// The entry name after whitespace and comments from `i`, and where it
/// ends: a quoted string or a property name.
pub open spec fn entry_name_after(s: Seq<char>, i: int) -> Option<(Seq<char>, int)> {
    let start = skipped(s, i);
    if start < s.len() && s[start] == '"' {
        string_body(s, start + 1, Seq::empty())
    } else {
        key_after(s, start)
    }
}

/// Characters that end a bare word.
pub open spec fn is_delimiter(c: char) -> bool {
    is_ws(c) || c == '[' || c == ']' || c == '{' || c == '}' || c == ',' || c == ':'
}

/// The end of the bare word starting at `i`.
pub open spec fn bare_end(s: Seq<char>, i: int) -> int
    decreases s.len() - i,
{
    if i < 0 || i >= s.len() || is_delimiter(s[i]) {
        i
    } else {
        bare_end(s, i + 1)
    }
}

/// Whether `v` is the value of the bare word `w`.
pub open spec fn is_bare_value(w: Seq<char>, v: Value) -> bool {
    if w == "true"@ {
        v == Value::Boolean(true)
    } else if w == "false"@ {
        v == Value::Boolean(false)
    } else if w == "null"@ {
        v == Value::Null
    } else {
        v matches Value::String(t) && t@ == w
    }
}

/// The integer that a `-`? digits text denotes.
pub open spec fn integer_of(t: Seq<char>) -> int {
    if t.len() > 0 && t[0] == '-' {
        -(digits_value(t.skip(1)) as int)
    } else {
        digits_value(t) as int
    }
}

/// The end of the digit run starting at `i`.
pub open spec fn digits_end(s: Seq<char>, i: int) -> int
    decreases s.len() - i,
{
    if i < 0 || i >= s.len() || !is_digit(s[i]) {
        i
    } else {
        digits_end(s, i + 1)
    }
}

fn bare_end_at(s: &Vec<char>, i: usize) -> (r: usize)
    requires
        i <= s@.len(),
    ensures
        r == bare_end(s@, i as int),
        i <= r <= s@.len(),
{
    let mut j = i;
    while j < s.len() && !(text::whitespace(s[j]) || s[j] == '[' || s[j] == ']' || s[j] == '{' || s[j]
        == '}' || s[j] == ',' || s[j] == ':')
        invariant
            i <= j <= s@.len(),
            bare_end(s@, j as int) == bare_end(s@, i as int),
        decreases s@.len() - j,
    {
        j = j + 1;
    }
    j
}

fn digits_end_at(s: &Vec<char>, i: usize) -> (r: usize)
    requires
        i <= s@.len(),
    ensures
        r == digits_end(s@, i as int),
        i <= r <= s@.len(),
        forall|k: int| i <= k < r ==> is_digit(#[trigger] s@[k]),
{
    let mut j = i;
    while j < s.len() && text::digit(s[j])
        invariant
            i <= j <= s@.len(),
            digits_end(s@, j as int) == digits_end(s@, i as int),
            forall|k: int| i <= k < j ==> is_digit(#[trigger] s@[k]),
        decreases s@.len() - j,
    {
        j = j + 1;
    }
    j
}

fn quoted_message(prefix: &str, body: &str) -> (e: ParseError)
    ensures
        e.message@ == prefix@ + body@ + "'"@,
{
    let mut m = text::owned(prefix);
    text::push_str(&mut m, body);
    text::push_str(&mut m, "'");
    ParseError { message: m }
}

/// Digits without leading zeros, keeping a last `0`.
pub open spec fn without_leading_zeros(s: Seq<char>) -> Seq<char>
    decreases s.len(),
{
    if s.len() > 1 && s[0] == '0' {
        without_leading_zeros(s.skip(1))
    } else {
        s
    }
}

/// Digits without trailing zeros.
pub open spec fn without_trailing_zeros(s: Seq<char>) -> Seq<char>
    decreases s.len(),
{
    if s.len() > 0 && s.last() == '0' {
        without_trailing_zeros(s.drop_last())
    } else {
        s
    }
}

/// The text of a decimal `whole.fraction` as `f64` writes the number: no
/// leading zeros before the point, no trailing zeros after it, and no
/// point when nothing follows it. This is the `f64` text of every decimal
/// of up to 15 significant digits; a longer decimal keeps all its digits
/// where `f64` would round it.
pub open spec fn decimal_text(whole: Seq<char>, fraction: Seq<char>) -> Seq<char> {
    let w = without_leading_zeros(whole);
    let f = without_trailing_zeros(fraction);
    if f.len() == 0 {
        w
    } else {
        w + seq!['.'] + f
    }
}

/// How a float is written in a document: with `.0` when it is whole.
pub open spec fn float_written(t: Seq<char>) -> Seq<char> {
    if t.contains('.') {
        t
    } else {
        t + ".0"@
    }
}

fn decimal_text_of(whole: &Vec<char>, fraction: &Vec<char>) -> (r: String)
    ensures
        r@ == decimal_text(whole@, fraction@),
{
    let mut a: usize = 0;
    assert(whole@.skip(0) =~= whole@);
    while whole.len() > 0 && a < whole.len() - 1 && whole[a] == '0'
        invariant
            a <= whole@.len(),
            without_leading_zeros(whole@.skip(a as int)) == without_leading_zeros(whole@),
        decreases whole@.len() - a,
    {
        assert(whole@.skip(a as int).skip(1) =~= whole@.skip(a + 1));
        a = a + 1;
    }
    let mut b: usize = fraction.len();
    assert(fraction@.take(b as int) =~= fraction@);
    while b > 0 && fraction[b - 1] == '0'
        invariant
            b <= fraction@.len(),
            without_trailing_zeros(fraction@.take(b as int)) == without_trailing_zeros(fraction@),
        decreases b,
    {
        assert(fraction@.take(b as int).drop_last() =~= fraction@.take(b - 1));
        b = b - 1;
    }
    let w = text::slice_chars(whole, a, whole.len());
    assert(w@ =~= whole@.skip(a as int));
    let f = text::slice_chars(fraction, 0, b);
    let mut r = text::string_of(&w);
    if b > 0 {
        text::push_char(&mut r, '.');
        let ft = text::string_of(&f);
        text::push_str(&mut r, ft.as_str());
    }
    r
}

/// How a float is written: see `float_written`.
fn float_text(t: &str) -> (r: String)
    ensures
        r@ == float_written(t@),
{
    let cs = text::chars_of(t);
    let mut i: usize = 0;
    while i < cs.len()
        invariant
            i <= cs@.len(),
            cs@ == t@,
            forall|j: int| 0 <= j < i ==> cs@[j] != '.',
        decreases cs@.len() - i,
    {
        if cs[i] == '.' {
            assert(t@.contains('.')) by {
                assert(t@[i as int] == '.');
            }
            return text::owned(t);
        }
        i = i + 1;
    }
    text::concat(t, ".0")
}

/// A string, number, `true`, `false`, `null` or bare word.
fn parse_scalar(s: &Vec<char>, i: usize) -> (r: Result<(Value, usize), ParseError>)
    requires
        i <= s@.len(),
        closed_comments(s@),
    ensures
        r matches Ok((v, j)) ==> skipped(s@, i as int) <= j <= s@.len() && well_formed(v),
        ({
            let k = skipped(s@, i as int);
            k < s@.len() && s@[k] == '"' ==> (r is Ok <==> string_body(s@, k + 1, Seq::empty()) is Some)
                && (r matches Ok((v, j)) ==> v matches Value::String(t) && string_body(
                s@,
                k + 1,
                Seq::empty(),
            ) == Some((t@, j as int)))
        }),
        ({
            let k = skipped(s@, i as int);
            k < s@.len() && s@[k] != '"' && s@[k] != '-' && !is_digit(s@[k]) ==> (r matches Ok((v, j))
                && j == bare_end(s@, k) && is_bare_value(s@.subrange(k, j as int), v))
        }),
        ({
            let k = skipped(s@, i as int);
            r matches Ok((Value::Integer(n), j)) ==> n == integer_of(s@.subrange(k, j as int))
        }),
        skipped(s@, i as int) >= s@.len() ==> (r matches Err(e) && e.message@
            == "unexpected end of input"@),
        match scalar_at(s@, skipped(s@, i as int)) {
            Some((vt, j)) => r matches Ok((v, e)) && value_text(v) == vt && e == j,
            None => r is Err,
        },
{
    let n = s.len();
    let start = skip_ws_comments(s, i);
    if start >= n {
        return Err(fail("unexpected end of input"));
    }
    let c = s[start];
    if c == '"' {
        match parse_string(s, start) {
            Ok((t, j)) => return Ok((Value::String(t), j)),
            Err(e) => return Err(e),
        }
    }
    if c == '-' || text::digit(c) {
        let negative = c == '-';
        let int_end = digits_end_at(s, start + 1);
        let mut end = int_end;
        let mut has_dot = false;
        if !negative && int_end < n && s[int_end] == '.' {
            has_dot = true;
            end = digits_end_at(s, int_end + 1);
        }
        let number = text::slice_chars(s, start, end);
        if negative && end == start + 1 {
            return Err(fail("invalid number"));
        }
        if has_dot {
            let whole = text::slice_chars(s, start, int_end);
            let fraction = text::slice_chars(s, int_end + 1, end);
            return Ok((Value::Float(decimal_text_of(&whole, &fraction)), end));
        }
        let digits_from = if negative {
            start + 1
        } else {
            start
        };
        let digits = text::slice_chars(s, digits_from, end);
        let text_of_number = text::string_of(&number);
        assert(digits@ == number@.skip(if negative { 1int } else { 0int }));
        match text::parse_u64_chars(&digits) {
            Some(magnitude) => {
                if negative && magnitude <= 9223372036854775808 {
                    let value: i64 = (-(magnitude as i128)) as i64;
                    return Ok((Value::Integer(value), end));
                } else if !negative && magnitude <= 9223372036854775807 {
                    return Ok((Value::Integer(magnitude as i64), end));
                }
                return Err(quoted_message("invalid integer '", text_of_number.as_str()));
            },
            None => {
                return Err(quoted_message("invalid integer '", text_of_number.as_str()));
            },
        }
    }
    let end = bare_end_at(s, start);
    let word = text::slice_chars(s, start, end);
    let w = text::string_of(&word);
    let value = if text::same(w.as_str(), "true") {
        Value::Boolean(true)
    } else if text::same(w.as_str(), "false") {
        Value::Boolean(false)
    } else if text::same(w.as_str(), "null") {
        Value::Null
    } else {
        Value::String(w)
    };
    Ok((value, end))
}

/// Where `key` stands among sorted properties: the number of keys before
/// it, and whether it is there.
fn key_position(m: &Vec<(String, Value)>, key: &str) -> (r: (usize, bool))
    requires
        sorted_keys(m@),
    ensures
        r.0 <= m@.len(),
        r.1 <==> r.0 < m@.len() && m@[r.0 as int].0@ == key@,
        forall|j: int| 0 <= j < r.0 ==> text_lt(#[trigger] m@[j].0@, key@),
        !r.1 ==> forall|j: int| r.0 <= j < m@.len() ==> text_lt(key@, #[trigger] m@[j].0@),
        r.1 <==> exists|j: int| 0 <= j < m@.len() && #[trigger] m@[j].0@ == key@,
{
    proof {
        text::lemma_text_order();
    }
    let mut p: usize = 0;
    while p < m.len() && text::less_str(m[p].0.as_str(), key)
        invariant
            p <= m@.len(),
            sorted_keys(m@),
            forall|j: int| 0 <= j < p ==> text_lt(#[trigger] m@[j].0@, key@),
        decreases m@.len() - p,
    {
        p = p + 1;
    }
    if p < m.len() && text::same(m[p].0.as_str(), key) {
        return (p, true);
    }
    proof {
        if p < m@.len() {
            assert(!text_lt(m@[p as int].0@, key@));
            assert(m@[p as int].0@ != key@);
            text::lemma_text_order();
            assert(text_le(key@, m@[p as int].0@) || text_le(m@[p as int].0@, key@));
            assert(text_lt(key@, m@[p as int].0@));
            assert forall|j: int| p <= j < m@.len() implies text_lt(key@, #[trigger] m@[j].0@) by {
                if j > p {
                    text::lemma_text_order();
                    let a = key@;
                    let b = m@[p as int].0@;
                    let c = m@[j].0@;
                    assert(text_lt(b, c));
                    assert(text_le(a, b) && text_le(b, c));
                    assert(text_le(a, c));
                    if a == c {
                        assert(text_le(c, b) && text_le(b, c));
                        assert(b == c);
                    }
                }
            }
        }
        assert forall|j: int| 0 <= j < m@.len() implies #[trigger] m@[j].0@ != key@ by {
            if j < p {
                assert(text_lt(m@[j].0@, key@));
            } else {
                assert(text_lt(key@, m@[j].0@));
            }
        }
    }
    (p, false)
}

/// Inserts a property whose key is not there yet, keeping keys sorted.
fn insert_property(m: &mut Vec<(String, Value)>, key: String, value: Value)
    requires
        sorted_keys(old(m)@),
        forall|j: int| 0 <= j < old(m)@.len() ==> #[trigger] old(m)@[j].0@ != key@,
    ensures
        sorted_keys(final(m)@),
        exists|p: int| 0 <= p <= old(m)@.len() && final(m)@ == old(m)@.insert(p, (key, value)),
        properties_well_formed(old(m)@) && well_formed(value) ==> properties_well_formed(final(m)@),
{
    let (p, found) = key_position(m, key.as_str());
    let ghost before = m@;
    let ghost k = key@;
    let ghost entry = (key, value);
    m.insert(p, (key, value));
    proof {
        assert(!found);
        assert(m@ == before.insert(p as int, entry));
        assert forall|i: int, j: int| 0 <= i < j < m@.len() implies text_lt(
            #[trigger] m@[i].0@,
            #[trigger] m@[j].0@,
        ) by {
            text::lemma_text_order();
            if j < p {
            } else if i > p {
                assert(m@[i] == before[i - 1]);
                assert(m@[j] == before[j - 1]);
            } else if i == p {
                assert(m@[j] == before[j - 1]);
            } else if j == p {
            } else {
                assert(m@[j] == before[j - 1]);
                assert(text_lt(before[i].0@, k));
                assert(text_lt(k, before[j - 1].0@));
            }
        }
    }
}

// ------------------------------------------------------------ the grammar

/// A parsed value as text: what a `Value` holds, read through its views.
pub enum ValueText {
    Object(Seq<(Seq<char>, ValueText)>),
    Array(Seq<ValueText>),
    Ruleset(Seq<char>, Seq<EntryText>),
    String(Seq<char>),
    Integer(int),
    Float(Seq<char>),
    Boolean(bool),
    Null,
}

/// A ruleset entry as text.
pub struct EntryText {
    pub entry_type: Seq<char>,
    pub name: Seq<char>,
    pub properties: Seq<(Seq<char>, ValueText)>,
    pub extends: Option<Seq<char>>,
}

pub open spec fn value_text(v: Value) -> ValueText
    decreases v, 1nat,
{
    match v {
        Value::Object(m) => ValueText::Object(props_text(m@)),
        Value::Array(vs) => ValueText::Array(values_text(vs@)),
        Value::Ruleset(r) => ValueText::Ruleset(r.name@, entry_texts(r.entries@)),
        Value::String(t) => ValueText::String(t@),
        Value::Integer(n) => ValueText::Integer(n as int),
        Value::Float(t) => ValueText::Float(t@),
        Value::Boolean(b) => ValueText::Boolean(b),
        Value::Null => ValueText::Null,
    }
}

pub open spec fn props_text(es: Seq<(String, Value)>) -> Seq<(Seq<char>, ValueText)>
    decreases es, 0nat,
{
    if es.len() == 0 {
        Seq::empty()
    } else {
        props_text(es.drop_last()).push((es.last().0@, value_text(es.last().1)))
    }
}

pub open spec fn values_text(vs: Seq<Value>) -> Seq<ValueText>
    decreases vs, 0nat,
{
    if vs.len() == 0 {
        Seq::empty()
    } else {
        values_text(vs.drop_last()).push(value_text(vs.last()))
    }
}

pub open spec fn entry_texts(es: Seq<Entry>) -> Seq<EntryText>
    decreases es, 0nat,
{
    if es.len() == 0 {
        Seq::empty()
    } else {
        entry_texts(es.drop_last()).push(entry_view(es.last()))
    }
}

/// A ruleset entry read through its views.
pub open spec fn entry_view(e: Entry) -> EntryText
    decreases e, 0nat,
{
    EntryText {
        entry_type: e.entry_type@,
        name: e.name@,
        properties: props_text(e.properties@),
        extends: match e.extends {
            Some(n) => Some(n@),
            None => None,
        },
    }
}

/// Where a property with key `k` goes among properties sorted by key: after
/// every key below it, before every key above it.
pub open spec fn sorted_slot(es: Seq<(Seq<char>, ValueText)>, k: Seq<char>, p: int) -> bool {
    &&& 0 <= p <= es.len()
    &&& forall|j: int| 0 <= j < p ==> text_lt(#[trigger] es[j].0, k)
    &&& forall|j: int| p <= j < es.len() ==> text_lt(k, #[trigger] es[j].0)
}

/// Properties with one more inserted in key order.
pub open spec fn insert_sorted(es: Seq<(Seq<char>, ValueText)>, k: Seq<char>, v: ValueText) -> Seq<(Seq<char>, ValueText)> {
    es.insert(choose|p: int| sorted_slot(es, k, p), (k, v))
}

pub open spec fn has_text_key(es: Seq<(Seq<char>, ValueText)>, k: Seq<char>) -> bool {
    exists|j: int| 0 <= j < es.len() && #[trigger] es[j].0 == k
}

/// A scalar at `k` (after whitespace and comments): a string, a number,
/// `true`, `false`, `null` or a bare word, and where it ends.
pub open spec fn scalar_at(s: Seq<char>, k: int) -> Option<(ValueText, int)> {
    if k < 0 || k >= s.len() {
        None
    } else if s[k] == '"' {
        match string_body(s, k + 1, Seq::empty()) {
            Some((t, j)) => Some((ValueText::String(t), j)),
            None => None,
        }
    } else if s[k] == '-' || is_digit(s[k]) {
        let negative = s[k] == '-';
        let int_end = digits_end(s, k + 1);
        let has_dot = !negative && int_end < s.len() && s[int_end] == '.';
        let end = if has_dot { digits_end(s, int_end + 1) } else { int_end };
        if negative && end == k + 1 {
            None
        } else if has_dot {
            Some((ValueText::Float(decimal_text(s.subrange(k, int_end), s.subrange(int_end + 1, end))), end))
        } else {
            match text::parse_u64(s.subrange(if negative { k + 1 } else { k }, end)) {
                Some(m) => if negative && m <= 9223372036854775808 {
                    Some((ValueText::Integer(-(m as int)), end))
                } else if !negative && m <= 9223372036854775807 {
                    Some((ValueText::Integer(m as int), end))
                } else {
                    None
                },
                None => None,
            }
        }
    } else {
        let w = s.subrange(k, bare_end(s, k));
        Some((
            if w == "true"@ {
                ValueText::Boolean(true)
            } else if w == "false"@ {
                ValueText::Boolean(false)
            } else if w == "null"@ {
                ValueText::Null
            } else {
                ValueText::String(w)
            },
            bare_end(s, k),
        ))
    }
}

/// Whether `c` is at `k`.
pub open spec fn char_at(s: Seq<char>, k: int, c: char) -> bool {
    0 <= k < s.len() && s[k] == c
}

/// The position after `c`, when `c` follows whitespace and comments.
pub open spec fn after_char(s: Seq<char>, i: int, c: char) -> Option<int> {
    if char_at(s, skipped(s, i), c) {
        Some(skipped(s, i) + 1)
    } else {
        None
    }
}

/// The string literal at `k`, and where it ends.
#[verifier::opaque]
pub open spec fn quoted_at(s: Seq<char>, k: int) -> Option<(Seq<char>, int)> {
    if char_at(s, k, '"') {
        string_body(s, k + 1, Seq::empty())
    } else {
        None
    }
}

/// An entry name (a string literal or a key) after whitespace and
/// comments from `i`, and where it ends.
#[verifier::opaque]
pub open spec fn name_at(s: Seq<char>, i: int) -> Option<(Seq<char>, int)> {
    entry_name_after(s, i)
}

/// A value from `i`, and where it ends: a ruleset, an object block, an
/// array, bare properties or a scalar.
pub open spec fn value_at(s: Seq<char>, i: int) -> Option<(ValueText, int)>
    decreases s.len() - i, 4int,
{
    let start = skipped(s, i);
    if i < 0 || start < i || start > s.len() {
        None
    } else if keyword_at(s, start, "ruleset"@) {
        ruleset_at(s, start)
    } else if char_at(s, start, '{') {
        object_block_at(s, start)
    } else if char_at(s, start, '[') {
        array_at(s, start)
    } else if property_start(s, start) {
        match props_until(s, start, None, Seq::empty()) {
            Some((m, e)) => Some((ValueText::Object(m), e)),
            None => None,
        }
    } else {
        scalar_at(s, start)
    }
}

/// `{ properties }` from `i`.
pub open spec fn object_block_at(s: Seq<char>, i: int) -> Option<(ValueText, int)>
    decreases s.len() - i, 3int,
{
    match after_char(s, i, '{') {
        Some(open) => if open <= i || open > s.len() {
            None
        } else {
            match props_until(s, open, Some('}'), Seq::empty()) {
                Some((m, end)) => match after_char(s, end, '}') {
                    Some(close) => Some((ValueText::Object(m), close)),
                    None => None,
                },
                None => None,
            }
        },
        None => None,
    }
}

/// Properties from `pos` until `terminator` (not consumed) or the end of
/// the text, after the properties `acc`, and where they end. A key given
/// twice is an error; properties are kept sorted by key.
pub open spec fn props_until(
    s: Seq<char>,
    pos: int,
    terminator: Option<char>,
    acc: Seq<(Seq<char>, ValueText)>,
) -> Option<(Seq<(Seq<char>, ValueText)>, int)>
    decreases s.len() - pos, 2int,
{
    let p = skipped(s, pos);
    if pos < 0 || p < pos || p > s.len() {
        None
    } else if terminator matches Some(t) && char_at(s, p, t) {
        Some((acc, p))
    } else if p >= s.len() {
        Some((acc, p))
    } else {
        match key_after(s, p) {
            Some((key, after_key)) => match after_char(s, after_key, ':') {
                Some(after_colon) => if after_colon <= p || after_colon > s.len() {
                    None
                } else {
                    match value_at(s, after_colon) {
                        Some((v, after_value)) => if has_text_key(acc, key) || after_value < after_colon || after_value > s.len() {
                            None
                        } else {
                            let next = insert_sorted(acc, key, v);
                            let q = skipped(s, after_value);
                            if q < after_value || q > s.len() {
                                None
                            } else if char_at(s, q, ',') {
                                props_until(s, q + 1, terminator, next)
                            } else if terminator matches Some(t) && char_at(s, q, t) {
                                Some((next, q))
                            } else if property_start(s, q) {
                                props_until(s, q, terminator, next)
                            } else {
                                Some((next, q))
                            }
                        },
                        None => None,
                    }
                },
                None => None,
            },
            None => None,
        }
    }
}

/// `[ value, ... ]` from `i`.
pub open spec fn array_at(s: Seq<char>, i: int) -> Option<(ValueText, int)>
    decreases s.len() - i, 3int,
{
    match after_char(s, i, '[') {
        Some(open) => {
            let pos = skipped(s, open);
            if open <= i || pos < open || pos > s.len() {
                None
            } else if char_at(s, pos, ']') {
                Some((ValueText::Array(Seq::empty()), pos + 1))
            } else {
                array_rest(s, pos, Seq::empty())
            }
        },
        None => None,
    }
}

/// The rest of an array from `pos`, after the items `acc`, up to and past
/// the closing `]`.
pub open spec fn array_rest(s: Seq<char>, pos: int, acc: Seq<ValueText>) -> Option<(ValueText, int)>
    decreases s.len() - pos, 5int,
{
    let p = skipped(s, pos);
    if pos < 0 || p < pos || p > s.len() {
        None
    } else if char_at(s, p, ']') {
        Some((ValueText::Array(acc), p + 1))
    } else {
        match value_at(s, p) {
            Some((v, after)) => {
                let q = skipped(s, after);
                if after < p || q < after || q > s.len() {
                    None
                } else if char_at(s, q, ',') {
                    array_rest(s, q + 1, acc.push(v))
                } else if char_at(s, q, ']') {
                    Some((ValueText::Array(acc.push(v)), q + 1))
                } else {
                    None
                }
            },
            None => None,
        }
    }
}

/// `ruleset "name" { entries }` from `i`.
#[verifier::opaque]
pub open spec fn ruleset_at(s: Seq<char>, i: int) -> Option<(ValueText, int)>
    decreases s.len() - i, 3int,
{
    match keyword_after(s, i, "ruleset"@) {
        Some(after_keyword) => {
            if after_keyword <= i || after_keyword > s.len() {
                None
            } else {
                match quoted_at(s, skipped(s, after_keyword)) {
                    Some((name, after_name)) => match after_char(s, after_name, '{') {
                        Some(open) => if open <= i || open > s.len() {
                            None
                        } else {
                            match entries_until(s, open, Some('}'), Seq::empty()) {
                                Some((es, end)) => match after_char(s, end, '}') {
                                    Some(close) => Some((ValueText::Ruleset(name, es), close)),
                                    None => None,
                                },
                                None => None,
                            }
                        },
                        None => None,
                    },
                    None => None,
                }
            }
        },
        None => None,
    }
}

/// The head of the entry at `p`: `type: name [extends parent]`, and where
/// its `{` stands.
pub open spec fn entry_head(s: Seq<char>, p: int) -> Option<(Seq<char>, Seq<char>, Option<Seq<char>>, int)> {
    match key_after(s, p) {
        Some((entry_type, after_type)) => match after_char(s, after_type, ':') {
            Some(after_colon) => match name_at(s, after_colon) {
                Some((name, after_name)) => {
                    let next = skipped(s, after_name);
                    if keyword_at(s, next, "extends"@) {
                        match keyword_after(s, next, "extends"@) {
                            Some(after_keyword) => match name_at(s, after_keyword) {
                                Some((parent, after_parent)) => Some((entry_type, name, Some(parent), skipped(s, after_parent))),
                                None => None,
                            },
                            None => None,
                        }
                    } else {
                        Some((entry_type, name, None, next))
                    }
                },
                None => None,
            },
            None => None,
        },
        None => None,
    }
}

/// The entry at `p`, up to its closing `}`: `type: name [extends parent]
/// { properties }`, and where it ends.
#[verifier::opaque]
pub open spec fn entry_at(s: Seq<char>, p: int) -> Option<(EntryText, int)>
    decreases s.len() - p, 1int,
{
    match entry_head(s, p) {
        Some((entry_type, name, ext, brace)) => if !char_at(s, brace, '{') || brace < p {
            None
        } else {
            match props_until(s, brace + 1, Some('}'), Seq::empty()) {
                Some((props, end)) => match after_char(s, end, '}') {
                    Some(close) => Some((EntryText { entry_type, name, properties: props, extends: ext }, close)),
                    None => None,
                },
                None => None,
            }
        },
        None => None,
    }
}

/// Entries from `pos` until `terminator` (not consumed) or the end of the
/// text, after the entries `acc`, and where they end.
pub open spec fn entries_until(s: Seq<char>, pos: int, terminator: Option<char>, acc: Seq<EntryText>) -> Option<(Seq<EntryText>, int)>
    decreases s.len() - pos, 2int,
{
    let p = skipped(s, pos);
    if pos < 0 || p < pos || p > s.len() {
        None
    } else if terminator matches Some(t) && char_at(s, p, t) {
        Some((acc, p))
    } else if p >= s.len() {
        Some((acc, p))
    } else {
        match entry_at(s, p) {
            Some((e, close)) => {
                let q = skipped(s, close);
                if close <= p || q < close || q > s.len() {
                    None
                } else if char_at(s, q, ',') {
                    entries_until(s, q + 1, terminator, acc.push(e))
                } else if terminator matches Some(t) && char_at(s, q, t) {
                    Some((acc.push(e), q))
                } else if q >= s.len() || char_at(s, q, '}') {
                    Some((acc.push(e), q))
                } else if property_start(s, q) {
                    entries_until(s, q, terminator, acc.push(e))
                } else {
                    Some((acc.push(e), q))
                }
            },
            None => None,
        }
    }
}

proof fn lemma_props_text(m: Seq<(String, Value)>)
    ensures
        props_text(m).len() == m.len(),
        forall|j: int| 0 <= j < m.len() ==> #[trigger] props_text(m)[j] == (m[j].0@, value_text(m[j].1)),
    decreases m.len(),
{
    if m.len() > 0 {
        lemma_props_text(m.drop_last());
        assert forall|j: int| 0 <= j < m.len() implies #[trigger] props_text(m)[j] == (m[j].0@, value_text(m[j].1)) by {
            if j < m.len() - 1 {
                assert(props_text(m.drop_last())[j] == (m.drop_last()[j].0@, value_text(m.drop_last()[j].1)));
            }
        }
    }
}

proof fn lemma_props_text_eq(a: Seq<(String, Value)>, t: Seq<(Seq<char>, ValueText)>)
    requires
        t.len() == a.len(),
        forall|j: int| 0 <= j < a.len() ==> t[j] == (#[trigger] a[j].0@, value_text(a[j].1)),
    ensures
        props_text(a) == t,
{
    lemma_props_text(a);
    assert(props_text(a) =~= t);
}

/// The key of a property is present exactly when it is present in the
/// properties' text.
proof fn lemma_has_text_key(m: Seq<(String, Value)>, k: Seq<char>)
    ensures
        has_text_key(props_text(m), k) <==> exists|j: int| 0 <= j < m.len() && #[trigger] m[j].0@ == k,
{
    lemma_props_text(m);
    if has_text_key(props_text(m), k) {
        let j = choose|j: int| 0 <= j < props_text(m).len() && #[trigger] props_text(m)[j].0 == k;
        assert(m[j].0@ == k);
    }
    if exists|j: int| 0 <= j < m.len() && #[trigger] m[j].0@ == k {
        let j = choose|j: int| 0 <= j < m.len() && #[trigger] m[j].0@ == k;
        assert(props_text(m)[j].0 == k);
    }
}

/// Inserting a property where the keys stay sorted is inserting it in key
/// order.
proof fn lemma_insert_sorted(m: Seq<(String, Value)>, p: int, k: String, v: Value)
    requires
        0 <= p <= m.len(),
        sorted_keys(m.insert(p, (k, v))),
    ensures
        props_text(m.insert(p, (k, v))) == insert_sorted(props_text(m), k@, value_text(v)),
{
    let t = props_text(m);
    let n = m.insert(p, (k, v));
    lemma_props_text(m);
    lemma_props_text(n);
    text::lemma_text_order();
    assert forall|j: int| 0 <= j < p implies text_lt(#[trigger] t[j].0, k@) by {
        assert(n[j] == m[j]);
        assert(text_lt(n[j].0@, n[p].0@));
    }
    assert forall|j: int| p <= j < t.len() implies text_lt(k@, #[trigger] t[j].0) by {
        assert(n[j + 1] == m[j]);
        assert(text_lt(n[p].0@, n[j + 1].0@));
    }
    assert(sorted_slot(t, k@, p));
    let q = choose|q: int| sorted_slot(t, k@, q);
    if q < p {
        assert(text_lt(t[q].0, k@));
        assert(text_lt(k@, t[q].0));
        assert(text_le(t[q].0, k@) && text_le(k@, t[q].0));
    } else if p < q {
        assert(text_lt(t[p].0, k@));
        assert(text_lt(k@, t[p].0));
        assert(text_le(t[p].0, k@) && text_le(k@, t[p].0));
    }
    assert(q == p);
    assert(props_text(n) =~= t.insert(p, (k@, value_text(v))));
}

/// Properties until `terminator` (not consumed) or the end of the text.
fn parse_object_entries_until(s: &Vec<char>, i: usize, terminator: Option<char>) -> (r: Result<
    (Vec<(String, Value)>, usize),
    ParseError,
>)
    requires
        i <= s@.len(),
        closed_comments(s@),
    ensures
        r matches Ok((m, j)) ==> i <= j <= s@.len() && properties_well_formed(m@),
        match props_until(s@, i as int, terminator, Seq::empty()) {
            Some((t, j)) => r matches Ok((m, e)) && props_text(m@) == t && e == j,
            None => r is Err,
        },
    decreases s@.len() - i, 2nat,
{
    let n = s.len();
    let mut map: Vec<(String, Value)> = Vec::new();
    let mut pos = i;
    let ghost whole = props_until(s@, i as int, terminator, Seq::empty());
    assert(props_text(map@) =~= Seq::<(Seq<char>, ValueText)>::empty());
    loop
        invariant_except_break
            props_until(s@, pos as int, terminator, props_text(map@)) == whole,
        invariant
            i <= pos <= s@.len(),
            n == s@.len(),
            closed_comments(s@),
            properties_well_formed(map@),
            whole == props_until(s@, i as int, terminator, Seq::empty()),
        ensures
            whole == Some((props_text(map@), pos as int)),
        decreases s@.len() - pos,
    {
        let ghost p0 = pos as int;
        pos = skip_ws_comments(s, pos);
        match terminator {
            Some(t) => {
                if check(s, pos, t) {
                    break;
                }
            },
            None => {},
        }
        if is_eof(s, pos) {
            break;
        }
        let (key, after_key) = parse_key(s, pos)?;
        let after_colon = expect(s, after_key, ':')?;
        let (value, after_value) = parse_value(s, after_colon)?;
        let (_, found) = key_position(&map, key.as_str());
        proof {
            lemma_has_text_key(map@, key@);
        }
        if found {
            return Err(quoted_message("duplicate property '", key.as_str()));
        }
        let ghost before = map@;
        let ghost k = key@;
        let ghost vt = value_text(value);
        insert_property(&mut map, key, value);
        proof {
            let p = choose|p: int| 0 <= p <= before.len() && map@ == before.insert(p, (key, value));
            lemma_insert_sorted(before, p, key, value);
        }
        pos = skip_ws_comments(s, after_value);
        if check(s, pos, ',') {
            pos = pos + 1;
            continue;
        }
        match terminator {
            Some(t) => {
                if check(s, pos, t) {
                    break;
                }
            },
            None => {},
        }
        if is_property_start(s, pos) {
            continue;
        }
        break;
    }
    Ok((map, pos))
}

/// `{ properties }`.
fn parse_object_block(s: &Vec<char>, i: usize) -> (r: Result<(Value, usize), ParseError>)
    requires
        i <= s@.len(),
        closed_comments(s@),
    ensures
        r matches Ok((v, j)) ==> i <= j <= s@.len() && well_formed(v),
        match object_block_at(s@, i as int) {
            Some((vt, j)) => r matches Ok((v, e)) && value_text(v) == vt && e == j,
            None => r is Err,
        },
    decreases s@.len() - i, 3nat,
{
    let open = expect(s, i, '{')?;
    let (map, end) = parse_object_entries_until(s, open, Some('}'))?;
    let close = expect(s, end, '}')?;
    Ok((Value::Object(map), close))
}

/// `[ value, ... ]`.
#[verifier::rlimit(100)]
#[verifier::spinoff_prover]
fn parse_array(s: &Vec<char>, i: usize) -> (r: Result<(Value, usize), ParseError>)
    requires
        i <= s@.len(),
        closed_comments(s@),
    ensures
        r matches Ok((v, j)) ==> i <= j <= s@.len() && well_formed(v),
        match array_at(s@, i as int) {
            Some((vt, j)) => r matches Ok((v, e)) && value_text(v) == vt && e == j,
            None => r is Err,
        },
    decreases s@.len() - i, 3nat,
{
    let n = s.len();
    let open = expect(s, i, '[')?;
    let mut pos = skip_ws_comments(s, open);
    let mut values: Vec<Value> = Vec::new();
    assert(values_text(values@) =~= Seq::<ValueText>::empty());
    if check(s, pos, ']') {
        return Ok((Value::Array(values), pos + 1));
    }
    let ghost whole = array_rest(s@, pos as int, Seq::empty());
    loop
        invariant_except_break
            array_rest(s@, pos as int, values_text(values@)) == whole,
        invariant
            i < pos <= s@.len(),
            n == s@.len(),
            whole == array_at(s@, i as int),
            closed_comments(s@),
            forall|k: int| 0 <= k < values@.len() ==> well_formed(#[trigger] values@[k]),
        ensures
            whole == Some((ValueText::Array(values_text(values@)), pos as int)),
        decreases s@.len() - pos,
    {
        pos = skip_ws_comments(s, pos);
        if check(s, pos, ']') {
            pos = pos + 1;
            break;
        }
        let (value, after) = parse_value(s, pos)?;
        let ghost before = values@;
        values.push(value);
        assert(values@.drop_last() =~= before);
        assert(values_text(values@) == values_text(before).push(value_text(value)));
        pos = skip_ws_comments(s, after);
        if check(s, pos, ',') {
            pos = pos + 1;
            continue;
        }
        if check(s, pos, ']') {
            pos = pos + 1;
            break;
        }
        let mut m = text::owned("expected ',' or ']' in array, found '");
        let found = debug_option_text(peek(s, pos));
        text::push_str(&mut m, found.as_str());
        text::push_str(&mut m, "'.");
        return Err(ParseError { message: m });
    }
    Ok((Value::Array(values), pos))
}

proof fn lemma_ruleset_at(s: Seq<char>, i: int)
    ensures
        ruleset_at(s, i) == ({
            match keyword_after(s, i, "ruleset"@) {
                Some(after_keyword) => {
                    if after_keyword <= i || after_keyword > s.len() {
                        None
                    } else {
                        match quoted_at(s, skipped(s, after_keyword)) {
                            Some((name, after_name)) => match after_char(s, after_name, '{') {
                                Some(open) => if open <= i || open > s.len() {
                                    None
                                } else {
                                    match entries_until(s, open, Some('}'), Seq::empty()) {
                                        Some((es, end)) => match after_char(s, end, '}') {
                                            Some(close) => Some((ValueText::Ruleset(name, es), close)),
                                            None => None,
                                        },
                                        None => None,
                                    }
                                },
                                None => None,
                            },
                            None => None,
                        }
                    }
                },
                None => None,
            }
        }),
{
    reveal_with_fuel(ruleset_at, 1);
}

proof fn lemma_entry_at(s: Seq<char>, p: int)
    ensures
        entry_at(s, p) == ({
            match entry_head(s, p) {
                Some((entry_type, name, ext, brace)) => if !char_at(s, brace, '{') || brace < p {
                    None
                } else {
                    match props_until(s, brace + 1, Some('}'), Seq::empty()) {
                        Some((props, end)) => match after_char(s, end, '}') {
                            Some(close) => Some((EntryText { entry_type, name, properties: props, extends: ext }, close)),
                            None => None,
                        },
                        None => None,
                    }
                },
                None => None,
            }
        }),
{
    reveal_with_fuel(entry_at, 1);
}

/// One entry `type: name [extends parent] { properties }` at `i`.
#[verifier::rlimit(100)]
#[verifier::spinoff_prover]
fn parse_entry(s: &Vec<char>, i: usize) -> (r: Result<(Entry, usize), ParseError>)
    requires
        i <= s@.len(),
        closed_comments(s@),
    ensures
        r matches Ok((e, j)) ==> i < j <= s@.len() && properties_well_formed(e.properties@),
        match entry_at(s@, i as int) {
            Some((et, j)) => r matches Ok((e, c)) && entry_view(e) == et && c == j,
            None => r is Err,
        },
    decreases s@.len() - i, 1nat,
{
    reveal(name_at);
    proof {
        lemma_entry_at(s@, i as int);
    }
    let (entry_type, after_type) = parse_key(s, i)?;
    let after_colon = expect(s, after_type, ':')?;
    let (name, after_name) = parse_entry_name(s, after_colon)?;
    let mut next = skip_ws_comments(s, after_name);
    let mut extends: Option<String> = None;
    if check_keyword(s, next, "extends") {
        let after_keyword = expect_keyword(s, next, "extends")?;
        let (parent, after_parent) = parse_entry_name(s, after_keyword)?;
        next = skip_ws_comments(s, after_parent);
        extends = Some(parent);
    }
    let ghost ext = match extends {
        Some(ref x) => Some(x@),
        None => None::<Seq<char>>,
    };
    assert(entry_head(s@, i as int) == Some((entry_type@, name@, ext, next as int)));
    if !check(s, next, '{') {
        let mut m = text::owned("expected '{' after entry '");
        text::push_str(&mut m, entry_type.as_str());
        text::push_str(&mut m, ": ");
        text::push_str(&mut m, name.as_str());
        text::push_str(&mut m, "'");
        return Err(ParseError { message: m });
    }
    let open = expect(s, next, '{')?;
    assert(open == next + 1);
    let (properties, end) = parse_object_entries_until(s, open, Some('}'))?;
    let close = expect(s, end, '}')?;
    let entry = Entry { entry_type, name, properties, extends };
    Ok((entry, close))
}

/// Entries `type: name [extends parent] { properties }` until `terminator`.
#[verifier::rlimit(100)]
#[verifier::spinoff_prover]
fn parse_ruleset_entries_until(s: &Vec<char>, i: usize, terminator: Option<char>) -> (r: Result<
    (Vec<Entry>, usize),
    ParseError,
>)
    requires
        i <= s@.len(),
        closed_comments(s@),
    ensures
        r matches Ok((es, j)) ==> i <= j <= s@.len() && forall|k: int|
            0 <= k < es@.len() ==> properties_well_formed(#[trigger] es@[k].properties@),
        match entries_until(s@, i as int, terminator, Seq::empty()) {
            Some((t, j)) => r matches Ok((es, e)) && entry_texts(es@) == t && e == j,
            None => r is Err,
        },
    decreases s@.len() - i, 2nat,
{
    let n = s.len();
    let mut entries: Vec<Entry> = Vec::new();
    let mut pos = i;
    let ghost whole = entries_until(s@, i as int, terminator, Seq::empty());
    assert(entry_texts(entries@) =~= Seq::<EntryText>::empty());
    loop
        invariant_except_break
            entries_until(s@, pos as int, terminator, entry_texts(entries@)) == whole,
        invariant
            i <= pos <= s@.len(),
            n == s@.len(),
            closed_comments(s@),
            whole == entries_until(s@, i as int, terminator, Seq::empty()),
            forall|k: int| 0 <= k < entries@.len() ==> properties_well_formed(#[trigger] entries@[k].properties@),
        ensures
            whole == Some((entry_texts(entries@), pos as int)),
        decreases s@.len() - pos,
    {
        pos = skip_ws_comments(s, pos);
        match terminator {
            Some(t) => {
                if check(s, pos, t) {
                    break;
                }
            },
            None => {},
        }
        if is_eof(s, pos) {
            break;
        }
        let (entry, close) = parse_entry(s, pos)?;
        let ghost before = entries@;
        entries.push(entry);
        assert(entries@.drop_last() =~= before);
        assert(entry_texts(entries@) == entry_texts(before).push(entry_view(entry)));
        pos = skip_ws_comments(s, close);
        if check(s, pos, ',') {
            pos = pos + 1;
            continue;
        }
        match terminator {
            Some(t) => {
                if check(s, pos, t) {
                    break;
                }
            },
            None => {},
        }
        if is_eof(s, pos) || check(s, pos, '}') {
            break;
        }
        if is_property_start(s, pos) {
            continue;
        }
        break;
    }
    Ok((entries, pos))
}

/// `ruleset "name" { entries }`.
#[verifier::rlimit(100)]
#[verifier::spinoff_prover]
fn parse_ruleset(s: &Vec<char>, i: usize) -> (r: Result<(Value, usize), ParseError>)
    requires
        i <= s@.len(),
        closed_comments(s@),
    ensures
        r matches Ok((v, j)) ==> i <= j <= s@.len() && well_formed(v),
        match ruleset_at(s@, i as int) {
            Some((vt, j)) => r matches Ok((v, e)) && value_text(v) == vt && e == j,
            None => r is Err,
        },
    decreases s@.len() - i, 3nat,
{
    proof {
        lemma_ruleset_at(s@, i as int);
    }
    let after_keyword = expect_keyword(s, i, "ruleset")?;
    let ghost k = skipped(s@, after_keyword as int);
    proof {
        lemma_skipped(s@, after_keyword as int);
    }
    assert(quoted_at(s@, k) == if char_at(s@, k, '"') {
        string_body(s@, k + 1, Seq::empty())
    } else {
        None
    }) by {
        reveal(quoted_at);
    }
    let (name, after_name) = parse_string(s, after_keyword)?;
    let open = expect(s, after_name, '{')?;
    let (entries, end) = parse_ruleset_entries_until(s, open, Some('}'))?;
    let close = expect(s, end, '}')?;
    let ghost es = entry_texts(entries@);
    let v = Value::Ruleset(Ruleset { name, entries });
    assert(value_text(v) == ValueText::Ruleset(name@, es));
    Ok((v, close))
}

/// Any value: a ruleset, an object block, an array, bare properties or a
/// scalar.
fn parse_value(s: &Vec<char>, i: usize) -> (r: Result<(Value, usize), ParseError>)
    requires
        i <= s@.len(),
        closed_comments(s@),
    ensures
        r matches Ok((v, j)) ==> i <= j <= s@.len() && well_formed(v),
        ({
            let k = skipped(s@, i as int);
            k < s@.len() && s@[k] == '"' ==> (r is Ok <==> string_body(s@, k + 1, Seq::empty()) is Some)
                && (r matches Ok((v, j)) ==> v matches Value::String(t) && string_body(
                s@,
                k + 1,
                Seq::empty(),
            ) == Some((t@, j as int)))
        }),
        match value_at(s@, i as int) {
            Some((vt, j)) => r matches Ok((v, e)) && value_text(v) == vt && e == j,
            None => r is Err,
        },
    decreases s@.len() - i, 4nat,
{
    reveal_with_fuel(ruleset_at, 1);
    let start = skip_ws_comments(s, i);
    if check_keyword(s, start, "ruleset") {
        return parse_ruleset(s, start);
    }
    if check(s, start, '{') {
        return parse_object_block(s, start);
    }
    if check(s, start, '[') {
        return parse_array(s, start);
    }
    if is_property_start(s, start) {
        let (map, end) = parse_object_entries_until(s, start, None)?;
        return Ok((Value::Object(map), end));
    }
    parse_scalar(s, start)
}

// ------------------------------------------------------------ extensions

/// A measure of a value's size, which every part of it is below.
pub open spec fn size(v: Value) -> nat
    decreases v, 1nat,
{
    match v {
        Value::Object(m) => size_props(m@) + 1,
        Value::Array(vs) => size_values(vs@) + 1,
        _ => 1,
    }
}

pub open spec fn size_props(es: Seq<(String, Value)>) -> nat
    decreases es, 0nat,
{
    if es.len() == 0 {
        0
    } else {
        size_props(es.drop_last()) + size(es.last().1) + 1
    }
}

pub open spec fn size_values(vs: Seq<Value>) -> nat
    decreases vs, 0nat,
{
    if vs.len() == 0 {
        0
    } else {
        size_values(vs.drop_last()) + size(vs.last()) + 1
    }
}

proof fn lemma_size_props(es: Seq<(String, Value)>, i: int)
    requires
        0 <= i < es.len(),
    ensures
        size(es[i].1) < size_props(es),
    decreases es.len(),
{
    if i < es.len() - 1 {
        lemma_size_props(es.drop_last(), i);
    }
}

proof fn lemma_size_values(vs: Seq<Value>, i: int)
    requires
        0 <= i < vs.len(),
    ensures
        size(vs[i]) < size_values(vs),
    decreases vs.len(),
{
    if i < vs.len() - 1 {
        lemma_size_values(vs.drop_last(), i);
    }
}

/// The keys of properties.
pub open spec fn prop_keys(es: Seq<(String, Value)>) -> Seq<Seq<char>> {
    es.map_values(|e: (String, Value)| e.0@)
}

/// The `type:name` keys of entries.
pub open spec fn entry_keys(es: Seq<Entry>) -> Seq<Seq<char>> {
    es.map_values(|e: Entry| e.entry_type@ + seq![':'] + e.name@)
}

pub open spec fn has_key(es: Seq<(String, Value)>, k: Seq<char>) -> bool {
    exists|i: int| 0 <= i < es.len() && #[trigger] es[i].0@ == k
}

/// No object has an `extends` key and no entry names a parent.
pub open spec fn extension_free(v: Value) -> bool
    decreases v, 1nat,
{
    match v {
        Value::Object(m) => !has_key(m@, "extends"@) && forall|i: int|
            0 <= i < m@.len() ==> extension_free(#[trigger] m@[i].1),
        Value::Array(vs) => forall|i: int| 0 <= i < vs@.len() ==> extension_free(#[trigger] vs@[i]),
        Value::Ruleset(r) => forall|i: int| 0 <= i < r.entries@.len() ==> (#[trigger] r.entries@[i]).extends is None,
        _ => true,
    }
}

fn find_name(stack: &Vec<String>, name: &str) -> (r: bool)
    ensures
        r == text::views(stack@).contains(name@),
{
    let mut i: usize = 0;
    while i < stack.len()
        invariant
            i <= stack@.len(),
            forall|j: int| 0 <= j < i ==> stack@[j]@ != name@,
        decreases stack@.len() - i,
    {
        if text::same(stack[i].as_str(), name) {
            assert(text::views(stack@)[i as int] == name@);
            return true;
        }
        i = i + 1;
    }
    proof {
        if text::views(stack@).contains(name@) {
            let j = choose|j: int| 0 <= j < text::views(stack@).len() && text::views(stack@)[j] == name@;
            assert(stack@[j]@ == name@);
        }
    }
    false
}

fn pushed(stack: &Vec<String>, name: &str) -> (r: Vec<String>)
    ensures
        text::views(r@) == text::views(stack@).push(name@),
{
    let mut r: Vec<String> = Vec::new();
    let mut i: usize = 0;
    while i < stack.len()
        invariant
            i <= stack@.len(),
            text::views(r@) == text::views(stack@.take(i as int)),
        decreases stack@.len() - i,
    {
        r.push(stack[i].clone());
        assert(text::views(stack@.take(i + 1)) == text::views(stack@.take(i as int)).push(stack@[i as int]@));
        assert(text::views(r@) == text::views(r@.drop_last()).push(r@.last()@));
        i = i + 1;
    }
    assert(stack@.take(stack@.len() as int) == stack@);
    let ghost before = r@;
    r.push(text::owned(name));
    assert(text::views(r@) == text::views(before).push(name@));
    r
}

/// Sets `key`, replacing an earlier value.
fn put_property(m: &mut Vec<(String, Value)>, key: String, value: Value)
    requires
        sorted_keys(old(m)@),
        properties_well_formed(old(m)@),
        well_formed(value),
    ensures
        sorted_keys(final(m)@),
        properties_well_formed(final(m)@),
        has_key(final(m)@, key@),
        forall|k: Seq<char>| has_key(old(m)@, k) ==> has_key(final(m)@, k),
        forall|k: Seq<char>| has_key(final(m)@, k) ==> has_key(old(m)@, k) || k == key@,
        forall|i: int|
            0 <= i < final(m)@.len() ==> (#[trigger] final(m)@[i]).1 == value || old(m)@.contains(
                final(m)@[i],
            ),
        (forall|j: int| 0 <= j < old(m)@.len() ==> text_lt(#[trigger] old(m)@[j].0@, key@)) ==> final(m)@ == old(m)@.push(
            (key, value),
        ),
{
    let (p, found) = key_position(m, key.as_str());
    let ghost k = key@;
    if found {
        let ghost before = m@;
        m.set(p, (key, value));
        assert forall|i: int, j: int| 0 <= i < j < m@.len() implies text_lt(
            #[trigger] m@[i].0@,
            #[trigger] m@[j].0@,
        ) by {
            assert(m@[i].0@ == before[i].0@);
            assert(m@[j].0@ == before[j].0@);
        }
        assert forall|q: Seq<char>| has_key(before, q) implies has_key(m@, q) by {
            let i = choose|i: int| 0 <= i < before.len() && #[trigger] before[i].0@ == q;
            assert(m@[i].0@ == q);
        }
        assert forall|q: Seq<char>| has_key(m@, q) implies has_key(before, q) || q == k by {
            let i = choose|i: int| 0 <= i < m@.len() && #[trigger] m@[i].0@ == q;
            assert(before[i].0@ == q);
        }
        assert(m@[p as int].0@ == k);
        assert forall|i: int| 0 <= i < m@.len() && i != p implies before.contains(#[trigger] m@[i]) by {
            assert(m@[i] == before[i]);
        }
        assert((forall|j: int| 0 <= j < before.len() ==> text_lt(#[trigger] before[j].0@, k)) ==> false) by {
            text::lemma_text_order();
            assert(before[p as int].0@ == k);
        }
    } else {
        let ghost before = m@;
        insert_property(m, key, value);
        let ghost q = choose|q: int| 0 <= q <= before.len() && m@ == before.insert(q, (key, value));
        assert(m@[q].0@ == k);
        assert forall|x: Seq<char>| has_key(before, x) implies has_key(m@, x) by {
            let i = choose|i: int| 0 <= i < before.len() && #[trigger] before[i].0@ == x;
            if i < q {
                assert(m@[i].0@ == x);
            } else {
                assert(m@[i + 1].0@ == x);
            }
        }
        assert forall|x: Seq<char>| has_key(m@, x) implies has_key(before, x) || x == k by {
            let i = choose|i: int| 0 <= i < m@.len() && #[trigger] m@[i].0@ == x;
            if i < q {
                assert(before[i].0@ == x);
            } else if i > q {
                assert(before[i - 1].0@ == x);
            }
        }
        assert forall|i: int| 0 <= i < m@.len() && i != q implies before.contains(#[trigger] m@[i]) by {
            if i < q {
                assert(m@[i] == before[i]);
            } else {
                assert(m@[i] == before[i - 1]);
            }
        }
        assert((forall|j: int| 0 <= j < before.len() ==> text_lt(#[trigger] before[j].0@, k)) ==> m@ == before.push(
            (key, value),
        )) by {
            if forall|j: int| 0 <= j < before.len() ==> text_lt(#[trigger] before[j].0@, k) {
                text::lemma_text_order();
                if q < before.len() {
                    assert(m@[q + 1] == before[q]);
                    assert(text_lt(m@[q].0@, m@[q + 1].0@));
                    assert(text_lt(before[q].0@, k));
                    assert(m@[q].0@ == k);
                    assert(text_le(k, before[q].0@) && text_le(before[q].0@, k));
                    assert(false);
                }
                assert(q == before.len());
                assert(before.insert(q, (key, value)) =~= before.push((key, value)));
            }
        }
    }
}

/// The string value of an `extends` property, if any.
fn extends_name(m: &Vec<(String, Value)>) -> (r: Option<String>)
    requires
        sorted_keys(m@),
    ensures
        r matches Some(t) ==> exists|j: int|
            0 <= j < m@.len() && m@[j].0@ == "extends"@ && (#[trigger] m@[j].1 matches Value::String(x) && x@ == t@),
        r is None ==> forall|j: int| 0 <= j < m@.len() && m@[j].0@ == "extends"@ ==> !(#[trigger] m@[j].1 is String),
{
    proof {
        text::lemma_text_order();
    }
    let (p, found) = key_position(m, "extends");
    proof {
        if found {
            assert forall|j: int| 0 <= j < m@.len() && m@[j].0@ == "extends"@ implies j == p by {
                if j < p {
                    assert(text_lt(m@[j].0@, "extends"@));
                } else if j > p {
                    assert(text_lt(m@[p as int].0@, m@[j].0@));
                }
            }
        }
    }
    if found {
        match &m[p].1 {
            Value::String(name) => Some(name.clone()),
            _ => None,
        }
    } else {
        None
    }
}

fn message3(a: &str, b: &str, c: &str) -> (e: ParseError)
    ensures
        e.message@ == a@ + b@ + c@,
{
    let mut m = text::owned(a);
    text::push_str(&mut m, b);
    text::push_str(&mut m, c);
    ParseError { message: m }
}

/// Whether two optional names are the same text.
pub open spec fn same_name(a: Option<String>, b: Option<String>) -> bool {
    match a {
        Some(x) => b matches Some(y) && x@ == y@,
        None => b is None,
    }
}

/// Whether two values hold the same data.
pub open spec fn same_value(a: Value, b: Value) -> bool
    decreases a, 1nat,
{
    match a {
        Value::Object(m) => b matches Value::Object(n) && same_props(m@, n@),
        Value::Array(xs) => b matches Value::Array(ys) && xs@.len() == ys@.len() && forall|i: int|
            0 <= i < xs@.len() ==> same_value(#[trigger] xs@[i], ys@[i]),
        Value::String(t) => b matches Value::String(u) && t@ == u@,
        Value::Integer(n) => b == Value::Integer(n),
        Value::Float(t) => b matches Value::Float(u) && t@ == u@,
        Value::Boolean(x) => b == Value::Boolean(x),
        Value::Null => b == Value::Null,
        Value::Ruleset(rs) => b matches Value::Ruleset(qs) && rs.name@ == qs.name@ && rs.entries@.len() == qs.entries@.len()
            && forall|i: int|
            0 <= i < rs.entries@.len() ==> (#[trigger] rs.entries@[i]).entry_type@ == qs.entries@[i].entry_type@
                && rs.entries@[i].name@ == qs.entries@[i].name@ && same_name(rs.entries@[i].extends, qs.entries@[i].extends)
                && same_props(rs.entries@[i].properties@, qs.entries@[i].properties@),
    }
}

/// Whether two property lists hold the same keys and values in order.
pub open spec fn same_props(es: Seq<(String, Value)>, fs: Seq<(String, Value)>) -> bool
    decreases es, 0nat,
{
    es.len() == fs.len() && forall|i: int|
        0 <= i < es.len() ==> (#[trigger] es[i]).0@ == fs[i].0@ && same_value(es[i].1, fs[i].1)
}

/// A copy of a value.
fn copy_value(v: &Value) -> (r: Value)
    ensures
        well_formed(*v) ==> well_formed(r),
        same_value(*v, r),
    decreases *v, 1nat,
{
    match v {
        Value::Object(m) => Value::Object(copy_props(m)),
        Value::Array(vs) => {
            let mut out: Vec<Value> = Vec::new();
            let mut i: usize = 0;
            while i < vs.len()
                invariant
                    i <= vs@.len(),
                    *v == Value::Array(*vs),
                    out@.len() == i,
                    well_formed(*v) ==> forall|k: int| 0 <= k < i ==> well_formed(#[trigger] out@[k]),
                    forall|k: int| 0 <= k < i ==> same_value(#[trigger] vs@[k], out@[k]),
                decreases vs@.len() - i,
            {
                proof {
                    assert(decreases_to!(*v => (*v)->Array_0));
                    assert(decreases_to!((*v)->Array_0 => vs@));
                    assert(decreases_to!(vs@ => vs@[i as int]));
                }
                out.push(copy_value(&vs[i]));
                i = i + 1;
            }
            Value::Array(out)
        },
        Value::String(t) => Value::String(t.clone()),
        Value::Integer(n) => Value::Integer(*n),
        Value::Float(t) => Value::Float(t.clone()),
        Value::Boolean(b) => Value::Boolean(*b),
        Value::Null => Value::Null,
        Value::Ruleset(r) => {
            let mut entries: Vec<Entry> = Vec::new();
            let mut i: usize = 0;
            while i < r.entries.len()
                invariant
                    i <= r.entries@.len(),
                    *v == Value::Ruleset(*r),
                    entries@.len() == i,
                    well_formed(*v) ==> forall|k: int|
                        0 <= k < i ==> properties_well_formed(#[trigger] entries@[k].properties@),
                    forall|k: int|
                        0 <= k < i ==> (#[trigger] r.entries@[k]).entry_type@ == entries@[k].entry_type@
                            && r.entries@[k].name@ == entries@[k].name@ && same_name(r.entries@[k].extends, entries@[k].extends)
                            && same_props(r.entries@[k].properties@, entries@[k].properties@),
                decreases r.entries@.len() - i,
            {
                let e = &r.entries[i];
                proof {
                    assert(decreases_to!(*v => (*v)->Ruleset_0));
                    assert(decreases_to!((*v)->Ruleset_0 => r.entries));
                    assert(decreases_to!(r.entries => r.entries@));
                    assert(decreases_to!(r.entries@ => r.entries@[i as int]));
                    assert(decreases_to!(r.entries@[i as int] => r.entries@[i as int].properties));
                }
                let properties = copy_props(&e.properties);
                let extends = match &e.extends {
                    Some(p) => Some(p.clone()),
                    None => None,
                };
                entries.push(Entry { entry_type: e.entry_type.clone(), name: e.name.clone(), properties, extends });
                i = i + 1;
            }
            Value::Ruleset(Ruleset { name: r.name.clone(), entries })
        },
    }
}

/// A copy of properties, with the same keys.
fn copy_props(m: &Vec<(String, Value)>) -> (r: Vec<(String, Value)>)
    ensures
        prop_keys(r@) == prop_keys(m@),
        properties_well_formed(m@) ==> properties_well_formed(r@),
        same_props(m@, r@),
    decreases *m, 0nat,
{
    let mut out: Vec<(String, Value)> = Vec::new();
    let mut i: usize = 0;
    while i < m.len()
        invariant
            i <= m@.len(),
            prop_keys(out@) == prop_keys(m@.take(i as int)),
            properties_well_formed(m@) ==> forall|k: int| 0 <= k < i ==> well_formed(#[trigger] out@[k].1),
            out@.len() == i,
            forall|k: int| 0 <= k < i ==> (#[trigger] m@[k]).0@ == out@[k].0@ && same_value(m@[k].1, out@[k].1),
        decreases m@.len() - i,
    {
        proof {
            assert(decreases_to!(*m => m@));
            assert(decreases_to!(m@ => m@[i as int]));
            assert(decreases_to!(m@[i as int] => m@[i as int].1));
        }
        let value = copy_value(&m[i].1);
        let ghost before = out@;
        out.push((m[i].0.clone(), value));
        assert(m@.take(i + 1) == m@.take(i as int).push(m@[i as int]));
        assert(prop_keys(out@) == prop_keys(before).push(m@[i as int].0@));
        assert(prop_keys(m@.take(i + 1)) == prop_keys(m@.take(i as int)).push(m@[i as int].0@));
        i = i + 1;
    }
    assert(m@.take(m@.len() as int) == m@);
    proof {
        if properties_well_formed(m@) {
            assert forall|a: int, b: int| 0 <= a < b < out@.len() implies text_lt(
                #[trigger] out@[a].0@,
                #[trigger] out@[b].0@,
            ) by {
                assert(prop_keys(out@)[a] == prop_keys(m@)[a]);
                assert(prop_keys(out@)[b] == prop_keys(m@)[b]);
            }
        }
    }
    out
}

/// A value that names no extension: no object holds an `extends` key and
/// no ruleset entry names a parent or holds an `extends` key. Resolving
/// extensions leaves such a value as it is.
pub open spec fn plain(v: ValueText) -> bool
    decreases v,
{
    match v {
        ValueText::Object(m) => !has_text_key(m, "extends"@) && forall|j: int| 0 <= j < m.len() ==> plain(#[trigger] m[j].1),
        ValueText::Array(vs) => plain_items(vs),
        ValueText::Ruleset(_, es) => forall|k: int|
            0 <= k < es.len() ==> (#[trigger] es[k]).extends is None && !has_text_key(es[k].properties, "extends"@),
        _ => true,
    }
}

pub open spec fn plain_items(vs: Seq<ValueText>) -> bool
    decreases vs,
{
    if vs.len() == 0 {
        true
    } else {
        plain_items(vs.drop_last()) && plain(vs.last())
    }
}

proof fn lemma_plain_items(vs: Seq<ValueText>, j: int)
    requires
        plain_items(vs),
        0 <= j < vs.len(),
    ensures
        plain(vs[j]),
    decreases vs.len(),
{
    if j < vs.len() - 1 {
        lemma_plain_items(vs.drop_last(), j);
    }
}

proof fn lemma_values_text(vs: Seq<Value>)
    ensures
        values_text(vs).len() == vs.len(),
        forall|j: int| 0 <= j < vs.len() ==> #[trigger] values_text(vs)[j] == value_text(vs[j]),
    decreases vs.len(),
{
    if vs.len() > 0 {
        lemma_values_text(vs.drop_last());
        assert forall|j: int| 0 <= j < vs.len() implies #[trigger] values_text(vs)[j] == value_text(vs[j]) by {
            if j < vs.len() - 1 {
                assert(values_text(vs.drop_last())[j] == value_text(vs.drop_last()[j]));
            }
        }
    }
}

proof fn lemma_entry_texts(es: Seq<Entry>)
    ensures
        entry_texts(es).len() == es.len(),
        forall|j: int| 0 <= j < es.len() ==> #[trigger] entry_texts(es)[j] == entry_view(es[j]),
    decreases es.len(),
{
    if es.len() > 0 {
        lemma_entry_texts(es.drop_last());
        assert forall|j: int| 0 <= j < es.len() implies #[trigger] entry_texts(es)[j] == entry_view(es[j]) by {
            if j < es.len() - 1 {
                assert(entry_texts(es.drop_last())[j] == entry_view(es.drop_last()[j]));
            }
        }
    }
}

/// Values that hold the same data have the same text.
proof fn lemma_same_value_text(a: Value, b: Value)
    requires
        same_value(a, b),
    ensures
        value_text(a) == value_text(b),
    decreases a, 1nat,
{
    match a {
        Value::Object(m) => {
            let n = b->Object_0;
            lemma_same_props_text(m@, n@);
        },
        Value::Array(xs) => {
            let ys = b->Array_0;
            lemma_values_text(xs@);
            lemma_values_text(ys@);
            assert forall|j: int| 0 <= j < xs@.len() implies values_text(xs@)[j] == values_text(ys@)[j] by {
                lemma_same_value_text(xs@[j], ys@[j]);
            }
            assert(values_text(xs@) =~= values_text(ys@));
        },
        Value::Ruleset(rs) => {
            let qs = b->Ruleset_0;
            lemma_entry_texts(rs.entries@);
            lemma_entry_texts(qs.entries@);
            assert forall|j: int| 0 <= j < rs.entries@.len() implies entry_texts(rs.entries@)[j] == entry_texts(qs.entries@)[j] by {
                lemma_same_props_text(rs.entries@[j].properties@, qs.entries@[j].properties@);
            }
            assert(entry_texts(rs.entries@) =~= entry_texts(qs.entries@));
        },
        _ => {},
    }
}

proof fn lemma_same_props_text(es: Seq<(String, Value)>, fs: Seq<(String, Value)>)
    requires
        same_props(es, fs),
    ensures
        props_text(es) == props_text(fs),
    decreases es, 0nat,
{
    lemma_props_text(es);
    lemma_props_text(fs);
    assert forall|j: int| 0 <= j < es.len() implies props_text(es)[j] == props_text(fs)[j] by {
        lemma_same_value_text(es[j].1, fs[j].1);
    }
    assert(props_text(es) =~= props_text(fs));
}

/// Resolves `extends` in objects, against the properties of the enclosing
/// object, and in rulesets, against entries of the same type.
fn resolve_extensions(value: &Value, scope: Option<&Vec<(String, Value)>>, stack: &Vec<String>) -> (r: Result<Value, ParseError>)
    requires
        well_formed(*value),
        scope matches Some(m) ==> properties_well_formed(m@) && size(*value) <= size_props(m@),
    ensures
        r matches Ok(v) ==> well_formed(v) && extension_free(v),
        r matches Ok(v) ==> (*value matches Value::Object(m) ==> (v matches Value::Object(n) && forall|k: Seq<char>|
            has_key(m@, k) && k != "extends"@ ==> has_key(n@, k))),
        !(*value is Object || *value is Array || *value is Ruleset) ==> r == Ok::<Value, ParseError>(*value),
        plain(value_text(*value)) ==> (r matches Ok(v) && value_text(v) == value_text(*value)),
        *value matches Value::Ruleset(rs) ==> (r matches Ok(v) ==> v matches Value::Ruleset(out) && out.name@ == rs.name@
            && out.entries@.len() == rs.entries@.len() && forall|k: int|
            0 <= k < out.entries@.len() ==> props_text((#[trigger] out.entries@[k]).properties@) == resolved_properties(
                rs.entries@,
                k,
                text::views(stack@),
            )),
    decreases
            (match scope {
                Some(m) => size_props(m@),
                None => size(*value) + 1,
            }),
            (match scope {
                Some(m) => text::unvisited(prop_keys(m@), text::views(stack@)),
                None => 0,
            }),
            size(*value),
{
    match value {
        Value::Object(map) => {
            assert(properties_well_formed(map@));
            let mut merged: Vec<(String, Value)> = Vec::new();
            proof {
                lemma_has_text_key(map@, "extends"@);
                lemma_props_text(map@);
                assert(props_text(merged@) =~= props_text(map@.take(0)));
            }
            match extends_name(map) {
                Some(extension_name) => {
                    if find_name(stack, extension_name.as_str()) {
                        return Err(quoted_message("circular extension detected through '", extension_name.as_str()));
                    }
                    let mut parent_index: Option<usize> = None;
                    match scope {
                        Some(m) => {
                            let (p, found) = key_position(m, extension_name.as_str());
                            if found {
                                parent_index = Some(p);
                            }
                        },
                        None => {},
                    }
                    match (scope, parent_index) {
                        (Some(scope_map), Some(p)) => {
                            let next = pushed(stack, extension_name.as_str());
                            proof {
                                lemma_size_props(scope_map@, p as int);
                                assert(prop_keys(scope_map@)[p as int] == extension_name@);
                                text::lemma_unvisited_push(prop_keys(scope_map@), text::views(stack@), extension_name@);
                            }
                            let parent = resolve_extensions(&scope_map[p].1, scope, &next)?;
                            match parent {
                                Value::Object(parent_map) => {
                                    merged = parent_map;
                                },
                                _ => {
                                    return Err(message3("extension target '", extension_name.as_str(), "' is not an object"));
                                },
                            }
                        },
                        _ => {
                            return Err(quoted_message("missing extension target '", extension_name.as_str()));
                        },
                    }
                },
                None => {},
            }
            let mut i: usize = 0;
            while i < map.len()
                invariant
                    i <= map@.len(),
                    *value == Value::Object(*map),
                    well_formed(*value),
                    scope matches Some(m) ==> properties_well_formed(m@) && size(*value) <= size_props(m@),
                    properties_well_formed(merged@),
                    !has_key(merged@, "extends"@),
                    forall|k: int| 0 <= k < merged@.len() ==> extension_free(#[trigger] merged@[k].1),
                    forall|k: int| 0 <= k < i && map@[k].0@ != "extends"@ ==> has_key(merged@, #[trigger] map@[k].0@),
                    plain(value_text(*value)) ==> props_text(merged@) == props_text(map@.take(i as int)),
                decreases map@.len() - i,
            {
                proof {
                    lemma_has_text_key(map@, "extends"@);
                    lemma_props_text(map@);
                    if plain(value_text(*value)) {
                        assert(plain(props_text(map@)[i as int].1));
                    }
                }
                if !text::same(map[i].0.as_str(), "extends") {
                    proof {
                        lemma_size_props(map@, i as int);
                        assert(properties_well_formed(map@));
                        assert(well_formed(map@[i as int].1));
                    }
                    let child = resolve_extensions(&map[i].1, Some(map), stack)?;
                    let ghost before = merged@;
                    let ghost key = map@[i as int].0@;
                    let name = map[i].0.clone();
                    proof {
                        if plain(value_text(*value)) {
                            lemma_props_text(before);
                            lemma_props_text(map@.take(i as int));
                            assert forall|j: int| 0 <= j < before.len() implies text_lt(#[trigger] before[j].0@, name@) by {
                                assert(props_text(before)[j] == props_text(map@.take(i as int))[j]);
                                assert(map@.take(i as int)[j] == map@[j]);
                                assert(text_lt(map@[j].0@, map@[i as int].0@));
                            }
                        }
                    }
                    put_property(&mut merged, name, child);
                    proof {
                        if plain(value_text(*value)) {
                            assert(merged@.drop_last() =~= before);
                            assert(map@.take(i + 1).drop_last() =~= map@.take(i as int));
                            assert(map@.take(i + 1).last() == map@[i as int]);
                            assert(props_text(merged@) == props_text(map@.take(i + 1)));
                        }
                    }
                    assert forall|k: int| 0 <= k < merged@.len() implies extension_free(#[trigger] merged@[k].1) by {
                        if merged@[k].1 != child {
                            let j = choose|j: int| 0 <= j < before.len() && before[j] == merged@[k];
                            assert(extension_free(before[j].1));
                        }
                    }
                    assert(!has_key(merged@, "extends"@)) by {
                        if has_key(merged@, "extends"@) {
                            assert(has_key(before, "extends"@) || key == "extends"@);
                        }
                    }
                }
                i = i + 1;
            }
            assert forall|k: Seq<char>| has_key(map@, k) && k != "extends"@ implies has_key(merged@, k) by {
                let j = choose|j: int| 0 <= j < map@.len() && #[trigger] map@[j].0@ == k;
                assert(has_key(merged@, map@[j].0@));
            }
            assert(map@.take(map@.len() as int) =~= map@);
            Ok(Value::Object(merged))
        },
        Value::Array(values) => {
            let mut out: Vec<Value> = Vec::new();
            let mut i: usize = 0;
            while i < values.len()
                invariant
                    i <= values@.len(),
                    *value == Value::Array(*values),
                    well_formed(*value),
                    scope matches Some(m) ==> properties_well_formed(m@) && size(*value) <= size_props(m@),
                    out@.len() == i,
                    forall|k: int| 0 <= k < i ==> well_formed(#[trigger] out@[k]) && extension_free(out@[k]),
                    plain(value_text(*value)) ==> values_text(out@) == values_text(values@.take(i as int)),
                decreases values@.len() - i,
            {
                proof {
                    lemma_size_values(values@, i as int);
                    lemma_values_text(values@);
                    assert(value_text(*value) == ValueText::Array(values_text(values@)));
                    if plain(value_text(*value)) {
                        lemma_plain_items(values_text(values@), i as int);
                    }
                }
                let child = resolve_extensions(&values[i], scope, stack)?;
                let ghost before = out@;
                out.push(child);
                proof {
                    assert(out@.drop_last() =~= before);
                    assert(values@.take(i + 1).drop_last() =~= values@.take(i as int));
                }
                i = i + 1;
            }
            assert(values@.take(values@.len() as int) =~= values@);
            Ok(Value::Array(out))
        },
        Value::Ruleset(ruleset) => {
            proof {
                lemma_entry_texts(ruleset.entries@);
                if plain(value_text(*value)) {
                    assert forall|k: int| 0 <= k < ruleset.entries@.len() implies extension_of(
                        #[trigger] ruleset.entries@[k],
                    ) is None by {
                        let e = ruleset.entries@[k];
                        assert(entry_texts(ruleset.entries@)[k] == entry_view(e));
                        lemma_has_text_key(e.properties@, "extends"@);
                    }
                }
            }
            let resolved = resolve_ruleset(ruleset, stack)?;
            Ok(Value::Ruleset(resolved))
        },
        Value::String(t) => Ok(Value::String(t.clone())),
        Value::Integer(n) => Ok(Value::Integer(*n)),
        Value::Float(t) => Ok(Value::Float(t.clone())),
        Value::Boolean(b) => Ok(Value::Boolean(*b)),
        Value::Null => Ok(Value::Null),
    }
}

/// The string under an `extends` key of properties, if it holds one.
pub open spec fn extends_text(es: Seq<(String, Value)>) -> Option<Seq<char>> {
    if exists|j: int| 0 <= j < es.len() && es[j].0@ == "extends"@ && #[trigger] es[j].1 is String {
        let j = choose|j: int| 0 <= j < es.len() && es[j].0@ == "extends"@ && #[trigger] es[j].1 is String;
        Some(es[j].1->String_0@)
    } else {
        None
    }
}

/// The name of the entry that an entry extends: its `extends` clause, else
/// an `extends` property.
pub open spec fn extension_of(e: Entry) -> Option<Seq<char>> {
    match e.extends {
        Some(n) => Some(n@),
        None => extends_text(e.properties@),
    }
}

/// The first entry from `j` on with type `t` and name `n`.
pub open spec fn parent_index(es: Seq<Entry>, t: Seq<char>, n: Seq<char>, j: int) -> Option<int>
    decreases es.len() - j,
{
    if j < 0 || j >= es.len() {
        None
    } else if es[j].entry_type@ == t && es[j].name@ == n {
        Some(j)
    } else {
        parent_index(es, t, n, j + 1)
    }
}

/// Whether the chain of entries that entry `i` extends can be followed
/// with the `type:name` keys in `stack` already visited: each parent is
/// an entry of the same type, and neither an entry's key nor its parent's
/// name comes round again.
pub open spec fn entry_resolves(es: Seq<Entry>, i: int, stack: Seq<Seq<char>>) -> bool
    decreases text::unvisited(entry_keys(es), stack),
{
    if 0 <= i < es.len() {
        match extension_of(es[i]) {
            None => true,
            Some(n) => {
                let key = entry_keys(es)[i];
                if stack.contains(key) || stack.contains(n) {
                    false
                } else {
                    match parent_index(es, es[i].entry_type@, n, 0) {
                        Some(p) => {
                            proof {
                                assert(entry_keys(es).contains(key));
                                text::lemma_unvisited_push(entry_keys(es), stack, key);
                            }
                            entry_resolves(es, p, stack.push(key))
                        },
                        None => false,
                    }
                }
            },
        }
    } else {
        false
    }
}

/// The parent's properties merged under `acc` from the `k`-th on: a key the
/// entry already has keeps its own value; `extends` is not inherited.
pub open spec fn merge_parent(
    acc: Seq<(Seq<char>, ValueText)>,
    parent: Seq<(Seq<char>, ValueText)>,
    k: int,
) -> Seq<(Seq<char>, ValueText)>
    decreases parent.len() - k,
{
    if k < 0 || k >= parent.len() {
        acc
    } else {
        merge_parent(
            if !has_text_key(acc, parent[k].0) && parent[k].0 != "extends"@ {
                insert_sorted(acc, parent[k].0, parent[k].1)
            } else {
                acc
            },
            parent,
            k + 1,
        )
    }
}

/// Properties without the one whose key is `key`.
pub open spec fn without_key(es: Seq<(Seq<char>, ValueText)>, key: Seq<char>) -> Seq<(Seq<char>, ValueText)> {
    if has_text_key(es, key) {
        es.remove(key_index(es, key))
    } else {
        es
    }
}

/// An index at which `key` stands among properties.
pub open spec fn key_index(es: Seq<(Seq<char>, ValueText)>, key: Seq<char>) -> int {
    choose|j: int| 0 <= j < es.len() && #[trigger] es[j].0 == key
}

/// The properties of entry `i` once its extension is resolved, with the
/// keys in `stack` visited: its own properties, over those of the entry
/// it extends (resolved the same way), without `extends`. An entry that
/// extends nothing keeps its properties as they are.
pub open spec fn resolved_properties(es: Seq<Entry>, i: int, stack: Seq<Seq<char>>) -> Seq<(Seq<char>, ValueText)>
    decreases text::unvisited(entry_keys(es), stack),
{
    if 0 <= i < es.len() {
        let own = props_text(es[i].properties@);
        match extension_of(es[i]) {
            None => own,
            Some(n) => {
                let key = entry_keys(es)[i];
                if stack.contains(key) || stack.contains(n) {
                    own
                } else {
                    match parent_index(es, es[i].entry_type@, n, 0) {
                        Some(p) => {
                            proof {
                                assert(entry_keys(es).contains(key));
                                text::lemma_unvisited_push(entry_keys(es), stack, key);
                            }
                            without_key(merge_parent(own, resolved_properties(es, p, stack.push(key)), 0), "extends"@)
                        },
                        None => own,
                    }
                }
            },
        }
    } else {
        Seq::empty()
    }
}

proof fn lemma_insert_sorted_keeps(es: Seq<(Seq<char>, ValueText)>, k: Seq<char>, v: ValueText, e: (Seq<char>, ValueText))
    requires
        es.contains(e),
        exists|p: int| sorted_slot(es, k, p),
    ensures
        insert_sorted(es, k, v).contains(e),
        insert_sorted(es, k, v).contains((k, v)),
{
    let p = choose|p: int| sorted_slot(es, k, p);
    let m = choose|m: int| 0 <= m < es.len() && es[m] == e;
    let n = es.insert(p, (k, v));
    if m < p {
        assert(n[m] == e);
    } else {
        assert(n[m + 1] == e);
    }
    assert(n[p] == (k, v));
}

/// Where a key is not among sorted keys, there is a slot for it.
proof fn lemma_sorted_slot(es: Seq<(Seq<char>, ValueText)>, k: Seq<char>)
    requires
        forall|a: int, b: int| 0 <= a < b < es.len() ==> text_lt(#[trigger] es[a].0, #[trigger] es[b].0),
        !has_text_key(es, k),
    ensures
        exists|p: int| sorted_slot(es, k, p),
    decreases es.len(),
{
    text::lemma_text_order();
    if es.len() == 0 {
        assert(sorted_slot(es, k, 0));
    } else {
        let init = es.drop_last();
        assert forall|a: int, b: int| 0 <= a < b < init.len() implies text_lt(#[trigger] init[a].0, #[trigger] init[b].0) by {
            assert(init[a] == es[a] && init[b] == es[b]);
        }
        assert(!has_text_key(init, k)) by {
            if has_text_key(init, k) {
                let j = choose|j: int| 0 <= j < init.len() && #[trigger] init[j].0 == k;
                assert(es[j].0 == k);
            }
        }
        lemma_sorted_slot(init, k);
        let last = es.last().0;
        assert(last != k) by {
            assert(es[es.len() - 1].0 == last);
        }
        if text_lt(last, k) {
            assert(sorted_slot(es, k, es.len() as int)) by {
                assert forall|j: int| 0 <= j < es.len() implies text_lt(#[trigger] es[j].0, k) by {
                    if j < es.len() - 1 {
                        assert(text_lt(es[j].0, last));
                        assert(text_le(es[j].0, last) && text_le(last, k));
                        assert(text_le(es[j].0, k));
                        if es[j].0 == k {
                            assert(text_le(k, last) && text_le(last, k));
                        }
                    }
                }
            }
        } else {
            assert(text_le(k, last) || text_le(last, k));
            assert(text_lt(k, last));
            let p = choose|p: int| sorted_slot(init, k, p);
            assert(sorted_slot(es, k, p)) by {
                assert forall|j: int| p <= j < es.len() implies text_lt(k, #[trigger] es[j].0) by {
                    if j < es.len() - 1 {
                        assert(init[j] == es[j]);
                    }
                }
                assert forall|j: int| 0 <= j < p implies text_lt(#[trigger] es[j].0, k) by {
                    assert(init[j] == es[j]);
                }
            }
        }
    }
}

/// Keys sorted in strictly increasing order.
pub open spec fn sorted_text(es: Seq<(Seq<char>, ValueText)>) -> bool {
    forall|a: int, b: int| 0 <= a < b < es.len() ==> text_lt(#[trigger] es[a].0, #[trigger] es[b].0)
}

proof fn lemma_insert_sorted_sorted(es: Seq<(Seq<char>, ValueText)>, k: Seq<char>, v: ValueText)
    requires
        sorted_text(es),
        !has_text_key(es, k),
    ensures
        sorted_text(insert_sorted(es, k, v)),
        exists|p: int| sorted_slot(es, k, p),
{
    lemma_sorted_slot(es, k);
    let p = choose|p: int| sorted_slot(es, k, p);
    let n = es.insert(p, (k, v));
    text::lemma_text_order();
    assert forall|a: int, b: int| 0 <= a < b < n.len() implies text_lt(#[trigger] n[a].0, #[trigger] n[b].0) by {
        if b < p {
        } else if a > p {
            assert(n[a] == es[a - 1] && n[b] == es[b - 1]);
        } else if a == p {
            assert(n[b] == es[b - 1]);
        } else if b == p {
            assert(n[a] == es[a]);
        } else {
            assert(n[a] == es[a] && n[b] == es[b - 1]);
            assert(text_lt(es[a].0, k) && text_lt(k, es[b - 1].0));
            assert(text_le(es[a].0, k) && text_le(k, es[b - 1].0));
            assert(text_le(es[a].0, es[b - 1].0));
            if es[a].0 == es[b - 1].0 {
                assert(text_le(k, es[a].0) && text_le(es[a].0, k));
            }
        }
    }
}

/// Merging a parent keeps the entry's sorted properties sorted and keeps
/// every one of them; it brings in every key of the parent but `extends`.
proof fn lemma_merge_parent(acc: Seq<(Seq<char>, ValueText)>, parent: Seq<(Seq<char>, ValueText)>, k: int)
    requires
        sorted_text(acc),
        0 <= k,
    ensures
        sorted_text(merge_parent(acc, parent, k)),
        forall|e: (Seq<char>, ValueText)| acc.contains(e) ==> merge_parent(acc, parent, k).contains(e),
        forall|m: int|
            k <= m < parent.len() && parent[m].0 != "extends"@ ==> has_text_key(merge_parent(acc, parent, k), #[trigger] parent[m].0),
    decreases parent.len() - k,
{
    if k < parent.len() {
        let next = if !has_text_key(acc, parent[k].0) && parent[k].0 != "extends"@ {
            insert_sorted(acc, parent[k].0, parent[k].1)
        } else {
            acc
        };
        if !has_text_key(acc, parent[k].0) && parent[k].0 != "extends"@ {
            lemma_insert_sorted_sorted(acc, parent[k].0, parent[k].1);
            assert forall|e: (Seq<char>, ValueText)| acc.contains(e) implies next.contains(e) by {
                lemma_insert_sorted_keeps(acc, parent[k].0, parent[k].1, e);
            }
            let p = choose|p: int| sorted_slot(acc, parent[k].0, p);
            assert(next[p] == (parent[k].0, parent[k].1));
        }
        lemma_merge_parent(next, parent, k + 1);
        if parent[k].0 != "extends"@ {
            assert(has_text_key(next, parent[k].0));
            let j = choose|j: int| 0 <= j < next.len() && #[trigger] next[j].0 == parent[k].0;
            assert(next.contains(next[j]));
            let out = merge_parent(next, parent, k + 1);
            let q = choose|q: int| 0 <= q < out.len() && out[q] == next[j];
            assert(out[q].0 == parent[k].0);
        }
    }
}

proof fn lemma_without_key(es: Seq<(Seq<char>, ValueText)>, key: Seq<char>, e: (Seq<char>, ValueText))
    requires
        es.contains(e),
        e.0 != key,
    ensures
        without_key(es, key).contains(e),
{
    let m = choose|m: int| 0 <= m < es.len() && es[m] == e;
    if has_text_key(es, key) {
        let j = key_index(es, key);
        let out = es.remove(j);
        assert(m != j);
        if m < j {
            assert(out[m] == e);
            assert(out.contains(e));
        } else {
            assert(out[m - 1] == e);
            assert(out.contains(e));
        }
    }
}

/// Inheritance: once entry `i` of a ruleset has its extension resolved,
/// each of its own properties other than `extends` is there with its own
/// value, and, when it extends an entry of the same type without a cycle,
/// each key of that entry's resolved properties other than `extends` is
/// there too.
pub proof fn lemma_inheritance(es: Seq<Entry>, i: int, stack: Seq<Seq<char>>)
    requires
        0 <= i < es.len(),
        properties_well_formed(es[i].properties@),
    ensures
        ({
            let own = props_text(es[i].properties@);
            forall|j: int|
                0 <= j < own.len() && own[j].0 != "extends"@ ==> resolved_properties(es, i, stack).contains(#[trigger] own[j])
        }),
        ({
            let key = entry_keys(es)[i];
            match extension_of(es[i]) {
                Some(n) => match parent_index(es, es[i].entry_type@, n, 0) {
                    Some(p) => !stack.contains(key) && !stack.contains(n) ==> forall|m: int|
                        0 <= m < resolved_properties(es, p, stack.push(key)).len() && resolved_properties(
                            es,
                            p,
                            stack.push(key),
                        )[m].0 != "extends"@ ==> has_text_key(
                            resolved_properties(es, i, stack),
                            #[trigger] resolved_properties(es, p, stack.push(key))[m].0,
                        ),
                    None => true,
                },
                None => true,
            }
        }),
{
    let own = props_text(es[i].properties@);
    lemma_props_text(es[i].properties@);
    assert(sorted_text(own)) by {
        assert forall|a: int, b: int| 0 <= a < b < own.len() implies text_lt(#[trigger] own[a].0, #[trigger] own[b].0) by {
            assert(text_lt(es[i].properties@[a].0@, es[i].properties@[b].0@));
        }
    }
    let key = entry_keys(es)[i];
    match extension_of(es[i]) {
        None => {
            assert forall|j: int| 0 <= j < own.len() && own[j].0 != "extends"@ implies resolved_properties(es, i, stack).contains(#[trigger] own[j]) by {
                assert(resolved_properties(es, i, stack)[j] == own[j]);
            }
        },
        Some(n) => {
            if !stack.contains(key) && !stack.contains(n) && parent_index(es, es[i].entry_type@, n, 0) is Some {
                let p = parent_index(es, es[i].entry_type@, n, 0)->Some_0;
                let rp = resolved_properties(es, p, stack.push(key));
                lemma_merge_parent(own, rp, 0);
                let merged = merge_parent(own, rp, 0);
                assert(resolved_properties(es, i, stack) == without_key(merged, "extends"@));
                assert forall|j: int| 0 <= j < own.len() && own[j].0 != "extends"@ implies resolved_properties(es, i, stack).contains(#[trigger] own[j]) by {
                    assert(own.contains(own[j]));
                    lemma_without_key(merged, "extends"@, own[j]);
                }
                assert forall|m: int| 0 <= m < rp.len() && rp[m].0 != "extends"@ implies has_text_key(
                    resolved_properties(es, i, stack),
                    #[trigger] rp[m].0,
                ) by {
                    assert(has_text_key(merged, rp[m].0));
                    let q = choose|q: int| 0 <= q < merged.len() && #[trigger] merged[q].0 == rp[m].0;
                    assert(merged.contains(merged[q]));
                    lemma_without_key(merged, "extends"@, merged[q]);
                    let out = without_key(merged, "extends"@);
                    let w = choose|w: int| 0 <= w < out.len() && out[w] == merged[q];
                    assert(out[w].0 == rp[m].0);
                }
            } else {
                assert forall|j: int| 0 <= j < own.len() && own[j].0 != "extends"@ implies resolved_properties(es, i, stack).contains(#[trigger] own[j]) by {
                    assert(resolved_properties(es, i, stack)[j] == own[j]);
                }
            }
        },
    }
}

proof fn lemma_extends_text(es: Seq<(String, Value)>, r: Option<String>)
    requires
        sorted_keys(es),
        r matches Some(t) ==> exists|j: int|
            0 <= j < es.len() && es[j].0@ == "extends"@ && (#[trigger] es[j].1 matches Value::String(x) && x@ == t@),
        r is None ==> forall|j: int| 0 <= j < es.len() && es[j].0@ == "extends"@ ==> !(#[trigger] es[j].1 is String),
    ensures
        match r {
            Some(t) => extends_text(es) == Some(t@),
            None => extends_text(es) is None,
        },
{
    text::lemma_text_order();
    match r {
        Some(t) => {
            let j = choose|j: int|
                0 <= j < es.len() && es[j].0@ == "extends"@ && (#[trigger] es[j].1 matches Value::String(x) && x@ == t@);
            assert(es[j].1 is String);
            let k = choose|k: int| 0 <= k < es.len() && es[k].0@ == "extends"@ && #[trigger] es[k].1 is String;
            if j < k {
                assert(text_lt(es[j].0@, es[k].0@));
            } else if k < j {
                assert(text_lt(es[k].0@, es[j].0@));
            }
        },
        None => {},
    }
}

fn resolve_ruleset(ruleset: &Ruleset, stack: &Vec<String>) -> (r: Result<Ruleset, ParseError>)
    requires
        forall|k: int| 0 <= k < ruleset.entries@.len() ==> properties_well_formed(#[trigger] ruleset.entries@[k].properties@),
    ensures
        r matches Ok(out) ==> out.name@ == ruleset.name@ && out.entries@.len() == ruleset.entries@.len()
            && forall|k: int|
            0 <= k < out.entries@.len() ==> (#[trigger] out.entries@[k]).extends is None
                && properties_well_formed(out.entries@[k].properties@),
        r is Ok <==> forall|k: int|
            0 <= k < ruleset.entries@.len() ==> #[trigger] entry_resolves(ruleset.entries@, k, text::views(stack@)),
        (forall|k: int| 0 <= k < ruleset.entries@.len() ==> extension_of(#[trigger] ruleset.entries@[k]) is None) ==> (r matches Ok(
            out,
        ) && entry_texts(out.entries@) == entry_texts(ruleset.entries@)),
        r matches Ok(out) ==> forall|k: int|
            0 <= k < out.entries@.len() ==> props_text((#[trigger] out.entries@[k]).properties@) == resolved_properties(
                ruleset.entries@,
                k,
                text::views(stack@),
            ) && out.entries@[k].entry_type@ == ruleset.entries@[k].entry_type@ && out.entries@[k].name@
                == ruleset.entries@[k].name@,
{
    let mut resolved: Vec<Entry> = Vec::new();
    let mut i: usize = 0;
    while i < ruleset.entries.len()
        invariant
            i <= ruleset.entries@.len(),
            forall|k: int| 0 <= k < i ==> #[trigger] entry_resolves(ruleset.entries@, k, text::views(stack@)),
            (forall|k: int| 0 <= k < ruleset.entries@.len() ==> extension_of(#[trigger] ruleset.entries@[k]) is None)
                ==> entry_texts(resolved@) == entry_texts(ruleset.entries@.take(i as int)),
            forall|k: int|
                0 <= k < i ==> props_text((#[trigger] resolved@[k]).properties@) == resolved_properties(
                    ruleset.entries@,
                    k,
                    text::views(stack@),
                ) && resolved@[k].entry_type@ == ruleset.entries@[k].entry_type@ && resolved@[k].name@
                    == ruleset.entries@[k].name@,
            forall|k: int| 0 <= k < ruleset.entries@.len() ==> properties_well_formed(#[trigger] ruleset.entries@[k].properties@),
            resolved@.len() == i,
            forall|k: int|
                0 <= k < i ==> (#[trigger] resolved@[k]).extends is None && properties_well_formed(
                    resolved@[k].properties@,
                ),
        decreases ruleset.entries@.len() - i,
    {
        let entry = resolve_entry(ruleset, i, stack)?;
        let ghost before = resolved@;
        resolved.push(entry);
        proof {
            assert(resolved@.drop_last() =~= before);
            assert(ruleset.entries@.take(i + 1).drop_last() =~= ruleset.entries@.take(i as int));
        }
        i = i + 1;
    }
    assert(ruleset.entries@.take(ruleset.entries@.len() as int) =~= ruleset.entries@);
    Ok(Ruleset { name: ruleset.name.clone(), entries: resolved })
}

/// The `type:name` key of an entry.
fn entry_key(e: &Entry) -> (r: String)
    ensures
        r@ == e.entry_type@ + seq![':'] + e.name@,
{
    let mut k = e.entry_type.clone();
    text::push_char(&mut k, ':');
    text::push_str(&mut k, e.name.as_str());
    k
}

/// The entry of a ruleset, with the properties of the entry it extends
/// (resolved first) under its own.
fn resolve_entry(ruleset: &Ruleset, index: usize, stack: &Vec<String>) -> (r: Result<Entry, ParseError>)
    requires
        index < ruleset.entries@.len(),
        forall|k: int| 0 <= k < ruleset.entries@.len() ==> properties_well_formed(#[trigger] ruleset.entries@[k].properties@),
    ensures
        r matches Ok(e) ==> e.extends is None && properties_well_formed(e.properties@)
            && e.entry_type@ == ruleset.entries@[index as int].entry_type@ && e.name@
            == ruleset.entries@[index as int].name@ && forall|k: Seq<char>|
            has_key(ruleset.entries@[index as int].properties@, k) && k != "extends"@ ==> has_key(
                e.properties@,
                k,
            ),
        r is Ok <==> entry_resolves(ruleset.entries@, index as int, text::views(stack@)),
        extension_of(ruleset.entries@[index as int]) is None ==> (r matches Ok(e) && entry_view(e) == entry_view(
            ruleset.entries@[index as int],
        )),
        r matches Ok(e) ==> props_text(e.properties@) == resolved_properties(ruleset.entries@, index as int, text::views(stack@)),
    decreases text::unvisited(entry_keys(ruleset.entries@), text::views(stack@)),
{
    let entry = &ruleset.entries[index];
    let extension_name = match &entry.extends {
        Some(name) => Some(name.clone()),
        None => extends_name(&entry.properties),
    };
    proof {
        if entry.extends is None {
            lemma_extends_text(entry.properties@, extension_name);
        }
        assert(match extension_name {
            Some(x) => extension_of(*entry) == Some(x@),
            None => extension_of(*entry) is None,
        });
    }
    let mut merged = copy_props(&entry.properties);
    proof {
        lemma_same_props_text(entry.properties@, merged@);
    }
    assert forall|q: Seq<char>| has_key(entry.properties@, q) implies has_key(merged@, q) by {
        let a = choose|a: int| 0 <= a < entry.properties@.len() && #[trigger] entry.properties@[a].0@ == q;
        assert(prop_keys(merged@)[a] == prop_keys(entry.properties@)[a]);
        assert(prop_keys(merged@).len() == merged@.len());
        assert(merged@[a].0@ == q);
    }
    match extension_name {
        Some(extension_name) => {
            let key = entry_key(entry);
            assert(entry_keys(ruleset.entries@)[index as int] == key@);
            if find_name(stack, key.as_str()) || find_name(stack, extension_name.as_str()) {
                return Err(quoted_message("circular extension detected through '", extension_name.as_str()));
            }
            let ghost es = ruleset.entries@;
            let ghost t = entry.entry_type@;
            let ghost n = extension_name@;
            let mut parent: Option<usize> = None;
            let mut j: usize = 0;
            while j < ruleset.entries.len()
                invariant_except_break
                    parent is None,
                invariant
                    j <= ruleset.entries@.len(),
                    es == ruleset.entries@,
                    t == entry.entry_type@,
                    n == extension_name@,
                    parent matches Some(p) ==> p < ruleset.entries@.len() && parent_index(es, t, n, 0) == Some(p as int),
                    parent is None ==> parent_index(es, t, n, 0) == parent_index(es, t, n, j as int),
                ensures
                    parent matches Some(p) ==> p < ruleset.entries@.len() && parent_index(es, t, n, 0) == Some(p as int),
                    parent is None ==> parent_index(es, t, n, 0) is None,
                decreases ruleset.entries@.len() - j,
            {
                let candidate = &ruleset.entries[j];
                if text::same(candidate.entry_type.as_str(), entry.entry_type.as_str()) && text::same(
                    candidate.name.as_str(),
                    extension_name.as_str(),
                ) {
                    assert(es[j as int].entry_type@ == t && es[j as int].name@ == n);
                    assert(parent_index(es, t, n, j as int) == Some(j as int));
                    parent = Some(j);
                    break;
                }
                j = j + 1;
            }
            let p = match parent {
                Some(p) => p,
                None => {
                    return Err(quoted_message("missing extension target '", extension_name.as_str()));
                },
            };
            let next = pushed(stack, key.as_str());
            proof {
                assert(entry_keys(ruleset.entries@)[index as int] == key@);
                text::lemma_unvisited_push(entry_keys(ruleset.entries@), text::views(stack@), key@);
            }
            let resolved_parent = resolve_entry(ruleset, p, &next)?;
            let mut k: usize = 0;
            while k < resolved_parent.properties.len()
                invariant
                    k <= resolved_parent.properties@.len(),
                    properties_well_formed(resolved_parent.properties@),
                    properties_well_formed(merged@),
                    forall|q: Seq<char>| has_key(entry.properties@, q) ==> has_key(merged@, q),
                    merge_parent(props_text(merged@), props_text(resolved_parent.properties@), k as int)
                        == merge_parent(props_text(entry.properties@), props_text(resolved_parent.properties@), 0),
                decreases resolved_parent.properties@.len() - k,
            {
                proof {
                    lemma_props_text(resolved_parent.properties@);
                    lemma_has_text_key(merged@, resolved_parent.properties@[k as int].0@);
                }
                let (_, present) = key_position(&merged, resolved_parent.properties[k].0.as_str());
                if !present && !text::same(resolved_parent.properties[k].0.as_str(), "extends") {
                    let value = copy_value(&resolved_parent.properties[k].1);
                    proof {
                        assert(well_formed(resolved_parent.properties@[k as int].1));
                        lemma_same_value_text(resolved_parent.properties@[k as int].1, value);
                    }
                    let ghost before = merged@;
                    let name = resolved_parent.properties[k].0.clone();
                    let ghost inserted = (name, value);
                    insert_property(&mut merged, name, value);
                    proof {
                        let pos = choose|pos: int| 0 <= pos <= before.len() && merged@ == before.insert(pos, inserted);
                        lemma_insert_sorted(before, pos, inserted.0, inserted.1);
                    }
                    assert forall|q: Seq<char>| has_key(entry.properties@, q) implies has_key(merged@, q) by {
                        assert(has_key(before, q));
                        let a = choose|a: int| 0 <= a < before.len() && #[trigger] before[a].0@ == q;
                        let pos = choose|pos: int| 0 <= pos <= before.len() && merged@ == before.insert(pos, inserted);
                        if a < pos {
                            assert(merged@[a].0@ == q);
                        } else {
                            assert(merged@[a + 1].0@ == q);
                        }
                    }
                }
                k = k + 1;
            }
            let ghost merged_text = props_text(merged@);
            assert(k >= resolved_parent.properties@.len());
            proof {
                lemma_props_text(resolved_parent.properties@);
            }
            assert(merge_parent(props_text(merged@), props_text(resolved_parent.properties@), k as int) == props_text(merged@));
            assert(merged_text == merge_parent(
                props_text(entry.properties@),
                props_text(resolved_parent.properties@),
                0,
            ));
            let (e, present) = key_position(&merged, "extends");
            proof {
                lemma_has_text_key(merged@, "extends"@);
                lemma_props_text(merged@);
            }
            if present {
                let ghost before = merged@;
                merged.remove(e);
                proof {
                    text::lemma_text_order();
                    let j = key_index(merged_text, "extends"@);
                    if j < e {
                        assert(text_lt(before[j].0@, before[e as int].0@));
                    } else if j > e {
                        assert(text_lt(before[e as int].0@, before[j].0@));
                    }
                    assert(j == e);
                    lemma_props_text(merged@);
                    assert(props_text(merged@) =~= merged_text.remove(e as int));
                    assert(props_text(merged@) == without_key(merged_text, "extends"@));
                }
                assert forall|a: int, b: int| 0 <= a < b < merged@.len() implies text_lt(
                    #[trigger] merged@[a].0@,
                    #[trigger] merged@[b].0@,
                ) by {
                    let a2 = if a < e { a } else { a + 1 };
                    let b2 = if b < e { b } else { b + 1 };
                    assert(merged@[a] == before[a2]);
                    assert(merged@[b] == before[b2]);
                }
                assert forall|a: int| 0 <= a < merged@.len() implies well_formed(#[trigger] merged@[a].1) by {
                    let a2 = if a < e { a } else { a + 1 };
                    assert(merged@[a] == before[a2]);
                }
                assert forall|q: Seq<char>| has_key(entry.properties@, q) && q != "extends"@ implies has_key(merged@, q) by {
                    assert(has_key(before, q));
                    let a = choose|a: int| 0 <= a < before.len() && #[trigger] before[a].0@ == q;
                    assert(a != e);
                    if a < e {
                        assert(merged@[a].0@ == q);
                    } else {
                        assert(merged@[a - 1].0@ == q);
                    }
                }
            } else {
                assert(props_text(merged@) == without_key(merged_text, "extends"@));
            }
        },
        None => {},
    }
    Ok(Entry { entry_type: entry.entry_type.clone(), name: entry.name.clone(), properties: merged, extends: None })
}

proof fn lemma_escaped_concat(a: Seq<char>, b: Seq<char>)
    ensures
        escaped(a + b) == escaped(a) + escaped(b),
    decreases b.len(),
{
    if b.len() == 0 {
        assert(a + b == a);
    } else {
        lemma_escaped_concat(a, b.drop_last());
        assert((a + b).drop_last() == a + b.drop_last());
        assert((a + b).last() == b.last());
    }
}

proof fn lemma_scan(s: Seq<char>, i: int, t: Seq<char>, acc: Seq<char>)
    requires
        0 <= i,
        i + escaped(t).len() < s.len(),
        s.subrange(i, i + escaped(t).len()) == escaped(t),
        s[i + escaped(t).len()] == '"',
    ensures
        string_body(s, i, acc) == Some((acc + t, i + escaped(t).len() + 1)),
    decreases t.len(),
{
    if t.len() == 0 {
        assert(acc + t == acc);
    } else {
        let c = t[0];
        let rest = t.skip(1);
        assert(t == seq![c] + rest);
        lemma_escaped_concat(seq![c], rest);
        assert(seq![c].drop_last() == Seq::<char>::empty());
        assert(seq![c].last() == c);
        assert(escaped(Seq::<char>::empty()) == Seq::<char>::empty());
        assert(escaped(seq![c]) == escaped(Seq::<char>::empty()) + escape_char(c));
        assert(escaped(seq![c]) == escape_char(c));
        let e = escape_char(c).len() as int;
        assert(escaped(t) == escape_char(c) + escaped(rest));
        assert(s.subrange(i + e, i + e + escaped(rest).len()) == escaped(rest)) by {
            assert forall|k: int| 0 <= k < escaped(rest).len() implies s.subrange(i + e, i + e + escaped(rest).len())[k] == escaped(rest)[k] by {
                assert(s.subrange(i, i + escaped(t).len())[e + k] == escaped(t)[e + k]);
            }
        }
        assert(s[i] == escaped(t)[0]) by {
            assert(s.subrange(i, i + escaped(t).len())[0] == escaped(t)[0]);
        }
        if e == 2 {
            assert(s[i + 1] == escaped(t)[1]) by {
                assert(s.subrange(i, i + escaped(t).len())[1] == escaped(t)[1]);
            }
        }
        lemma_scan(s, i + e, rest, acc.push(c));
        assert(acc.push(c) + rest == acc + t);
    }
}

/// A quoted string literal reads back as the string it was written from:
/// a document that is just `literal(t)` parses to the string `t`.
pub proof fn lemma_quoted_string_reads_back(t: Seq<char>)
    ensures
        skipped(literal(t), 0) == 0,
        string_body(literal(t), 1, Seq::empty()) == Some((t, literal(t).len() as int)),
        skipped(literal(t), literal(t).len() as int) >= literal(t).len(),
{
    let s = literal(t);
    assert(s[0] == '"');
    assert(s.subrange(1, 1 + escaped(t).len() as int) == escaped(t));
    assert(s[1 + escaped(t).len() as int] == '"');
    lemma_scan(s, 1, t, Seq::empty());
    assert(Seq::<char>::empty() + t == t);
}

// ------------------------------------------------------------ documents

/// The value that a NOML text holds before its extensions are resolved:
/// a value followed by nothing but whitespace and comments.
#[verifier::opaque]
pub open spec fn parsed_document(s: Seq<char>) -> Option<ValueText> {
    match value_at(s, 0) {
        Some((vt, j)) => if skipped(s, j) >= s.len() {
            Some(vt)
        } else {
            None
        },
        None => None,
    }
}

/// `v` is the ruleset `raw` with the extensions of its entries resolved:
/// its name, and each entry's properties as `resolved_properties` gives
/// them.
pub open spec fn ruleset_resolved(raw: Value, v: Value) -> bool {
    match (raw, v) {
        (Value::Ruleset(rs), Value::Ruleset(out)) => out.name@ == rs.name@ && out.entries@.len() == rs.entries@.len()
            && forall|k: int|
            0 <= k < out.entries@.len() ==> props_text((#[trigger] out.entries@[k]).properties@) == resolved_properties(
                rs.entries@,
                k,
                Seq::empty(),
            ),
        _ => false,
    }
}

/// Parses a NOML document and resolves its extensions.
pub fn parse(input: &str) -> (r: Result<Value, ParseError>)
    requires
        closed_comments(input@),
    ensures
        r matches Ok(v) ==> well_formed(v) && extension_free(v),
        match parsed_document(input@) {
            Some(vt) => plain(vt) ==> (r matches Ok(v) && value_text(v) == vt),
            None => r is Err,
        },
        match (parsed_document(input@), r) {
            (Some(ValueText::Ruleset(name, es)), Ok(v)) => exists|raw: Value|
                #[trigger] value_text(raw) == ValueText::Ruleset(name, es) && ruleset_resolved(raw, v),
            _ => true,
        },
        ({
            let s = input@;
            let k = skipped(s, 0);
            k < s.len() && s[k] == '"' && (string_body(s, k + 1, Seq::empty()) matches Some((t, j)) && skipped(s, j) >= s.len())
                ==> (r matches Ok(Value::String(x)) && string_body(s, k + 1, Seq::empty()) == Some((x@, string_body(s, k + 1, Seq::empty()).unwrap().1)))
        }),
{
    reveal(parsed_document);
    let chars = text::chars_of(input);
    let (value, end) = parse_value(&chars, 0)?;
    let rest = skip_ws_comments(&chars, end);
    if !is_eof(&chars, rest) {
        let tail = text::slice_chars(&chars, rest, chars.len());
        let t = text::string_of(&tail);
        return Err(quoted_message("unexpected trailing input: '", t.as_str()));
    }
    let empty: Vec<String> = Vec::new();
    assert(text::views(empty@) =~= Seq::<Seq<char>>::empty());
    proof {
        if value is Ruleset {
            lemma_entry_texts(value->Ruleset_0.entries@);
        }
    }
    resolve_extensions(&value, None, &empty)
}

/// Formats NOML text: parses it and writes it back.
pub fn format_text(input: &str) -> (r: Result<String, String>)
    requires
        closed_comments(input@),
    ensures
        r matches Ok(t) ==> exists|v: Value|
            well_formed(v) && extension_free(v) && (document_fits(v) ==> t@ == document_text(v)),
        match parsed_document(input@) {
            Some(vt) => plain(vt) ==> (r matches Ok(t) && exists|v: Value|
                #[trigger] value_text(v) == vt && well_formed(v) && (document_fits(v) ==> t@ == document_text(v))),
            None => r is Err,
        },
        ({
            let s = input@;
            let k = skipped(s, 0);
            k < s.len() && s[k] == '"' && (string_body(s, k + 1, Seq::empty()) matches Some((t, j)) && skipped(s, j) >= s.len())
                ==> (r matches Ok(out) && out@ == bare_or_quoted(string_body(s, k + 1, Seq::empty()).unwrap().0))
        }),
{
    match parse(input) {
        Ok(value) => Ok(serialize(&value)),
        Err(error) => Err(error.message),
    }
}

} // verus!
