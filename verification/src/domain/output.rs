//! The lines that the command line prints. Colors are ANSI escapes, used
//! only when `color` holds (the caller decides from the terminal and
//! `NO_COLOR`).
use vstd::prelude::*;
use crate::text;

verus! {

pub open spec fn blue() -> Seq<char> { "\x1b[34m"@ }
pub open spec fn cyan() -> Seq<char> { "\x1b[36m"@ }
pub open spec fn green() -> Seq<char> { "\x1b[32m"@ }
pub open spec fn magenta() -> Seq<char> { "\x1b[35m"@ }
pub open spec fn red() -> Seq<char> { "\x1b[31m"@ }
pub open spec fn yellow() -> Seq<char> { "\x1b[33m"@ }
pub open spec fn bold() -> Seq<char> { "\x1b[1m"@ }
pub open spec fn iris() -> Seq<char> { "\x1b[38;2;196;167;231m"@ }
pub open spec fn reset() -> Seq<char> { "\x1b[0m"@ }

/// A message in a color, or plain.
pub open spec fn paint(color: Seq<char>, message: Seq<char>, enabled: bool) -> Seq<char> {
    if enabled {
        color + message + reset()
    } else {
        message
    }
}

/// Writes a message in a color, or plain.
pub fn colorize(color: &str, message: &str, enabled: bool) -> (r: String)
    ensures
        r@ == paint(color@, message@, enabled),
{
    if enabled {
        let mut r = text::owned(color);
        text::push_str(&mut r, message);
        text::push_str(&mut r, "\x1b[0m");
        r
    } else {
        text::owned(message)
    }
}

/// A terminal hyperlink to `url` shown as `label`, or the label alone.
pub open spec fn link(url: Seq<char>, label: Seq<char>, enabled: bool) -> Seq<char> {
    if enabled {
        "\x1b]8;;"@ + url + "\x1b\\"@ + bold() + iris() + label + reset() + "\x1b]8;;\x1b\\"@
    } else {
        label
    }
}

pub fn hyperlink(url: &str, label: &str, enabled: bool) -> (r: String)
    ensures
        r@ == link(url@, label@, enabled),
{
    if enabled {
        let mut r = text::owned("\x1b]8;;");
        text::push_str(&mut r, url);
        text::push_str(&mut r, "\x1b\\");
        text::push_str(&mut r, "\x1b[1m");
        text::push_str(&mut r, "\x1b[38;2;196;167;231m");
        text::push_str(&mut r, label);
        text::push_str(&mut r, "\x1b[0m");
        text::push_str(&mut r, "\x1b]8;;\x1b\\");
        r
    } else {
        text::owned(label)
    }
}

/// `ACTION SUBJECT`: a green verb and a cyan subject.
pub fn action(verb: &str, subject: &str, color: bool) -> (r: String)
    ensures
        r@ == paint(bold() + green(), verb@, color) + " "@ + paint(cyan(), subject@, color),
{
    let a = colorize("\x1b[1m\x1b[32m", verb, color);
    let b = colorize("\x1b[36m", subject, color);
    proof {
        reveal_strlit("\x1b[1m\x1b[32m");
        reveal_strlit("\x1b[1m");
        reveal_strlit("\x1b[32m");
        assert("\x1b[1m\x1b[32m"@ =~= bold() + green());
    }
    let mut r = a;
    text::push_str(&mut r, " ");
    text::push_str(&mut r, b.as_str());
    r
}

/// `configured PROJECT [VERSION] in PATH`.
pub fn configured(project: &str, version: Option<&str>, path: &str, color: bool) -> (r: String)
    ensures
        r@ == paint(bold() + green(), "configured"@, color) + " "@ + paint(cyan(), project@, color) + match version {
            Some(v) => " "@ + paint(yellow(), v@, color),
            None => Seq::empty(),
        } + " "@ + paint(blue(), "in"@, color) + " "@ + paint(cyan(), path@, color),
{
    proof {
        reveal_strlit("\x1b[1m\x1b[32m");
        reveal_strlit("\x1b[1m");
        reveal_strlit("\x1b[32m");
        assert("\x1b[1m\x1b[32m"@ =~= bold() + green());
    }
    let mut r = colorize("\x1b[1m\x1b[32m", "configured", color);
    text::push_str(&mut r, " ");
    let p = colorize("\x1b[36m", project, color);
    text::push_str(&mut r, p.as_str());
    let mut v = String::new();
    match version {
        Some(value) => {
            v = text::owned(" ");
            let c = colorize("\x1b[33m", value, color);
            text::push_str(&mut v, c.as_str());
        },
        None => {},
    }
    text::push_str(&mut r, v.as_str());
    text::push_str(&mut r, " ");
    let i = colorize("\x1b[34m", "in", color);
    text::push_str(&mut r, i.as_str());
    text::push_str(&mut r, " ");
    let q = colorize("\x1b[36m", path, color);
    text::push_str(&mut r, q.as_str());
    r
}

/// A yellow item.
pub fn item(name: &str, color: bool) -> (r: String)
    ensures
        r@ == paint(yellow(), name@, color),
{
    colorize("\x1b[33m", name, color)
}

/// `NAME: DESCRIPTION`.
pub fn list_item(name: &str, description: &str, color: bool) -> (r: String)
    ensures
        r@ == paint(magenta(), name@, color) + ": "@ + paint(blue(), description@, color),
{
    let mut r = colorize("\x1b[35m", name, color);
    text::push_str(&mut r, ": ");
    let d = colorize("\x1b[34m", description, color);
    text::push_str(&mut r, d.as_str());
    r
}

fn labelled(key: &str, value: &str, value_color: &str, color: bool) -> (r: String)
    ensures
        r@ == paint(bold() + blue(), key@ + ":"@, color) + " "@ + paint(value_color@, value@, color),
{
    proof {
        reveal_strlit("\x1b[1m\x1b[34m");
        reveal_strlit("\x1b[1m");
        reveal_strlit("\x1b[34m");
        assert("\x1b[1m\x1b[34m"@ =~= bold() + blue());
    }
    let k = text::concat(key, ":");
    let mut r = colorize("\x1b[1m\x1b[34m", k.as_str(), color);
    text::push_str(&mut r, " ");
    let v = colorize(value_color, value, color);
    text::push_str(&mut r, v.as_str());
    r
}

/// `KEY: VALUE` with a green value.
pub fn key_value(key: &str, value: &str, color: bool) -> (r: String)
    ensures
        r@ == paint(bold() + blue(), key@ + ":"@, color) + " "@ + paint(green(), value@, color),
{
    labelled(key, value, "\x1b[32m", color)
}

/// `KEY: PATH` with a cyan path.
pub fn path_value(key: &str, value: &str, color: bool) -> (r: String)
    ensures
        r@ == paint(bold() + blue(), key@ + ":"@, color) + " "@ + paint(cyan(), value@, color),
{
    labelled(key, value, "\x1b[36m", color)
}

/// `NAME VERSION`.
pub fn version(name: &str, value: &str, color: bool) -> (r: String)
    ensures
        r@ == paint(cyan(), name@, color) + " "@ + paint(yellow(), value@, color),
{
    let mut r = colorize("\x1b[36m", name, color);
    text::push_str(&mut r, " ");
    let v = colorize("\x1b[33m", value, color);
    text::push_str(&mut r, v.as_str());
    r
}

/// How one line of a help text is shown: the title as a link to the
/// project, section headings in bold cyan, and `Usage:` in bold yellow.
pub open spec fn help_line(line: Seq<char>, color: bool) -> Seq<char> {
    if line.len() == 0 {
        line
    } else if line == "The Nox Build System"@ {
        link("https://github.com/playfairs/nox"@, line, color)
    } else if line == "Commands:"@ || line == "Options:"@ {
        paint(bold() + cyan(), line, color)
    } else if text::has_prefix(line, "Usage: "@) {
        paint(bold() + yellow(), "Usage:"@, color) + " "@ + line.skip(7)
    } else {
        line
    }
}

/// The lines of a help text as shown.
pub fn help(message: &str, color: bool) -> (r: Vec<String>)
    ensures
        text::views(r@) == text::lines(message@).map_values(|l: Seq<char>| help_line(l, color)),
{
    proof {
        reveal_strlit("\x1b[1m\x1b[36m");
        reveal_strlit("\x1b[1m\x1b[33m");
        reveal_strlit("\x1b[1m");
        reveal_strlit("\x1b[36m");
        reveal_strlit("\x1b[33m");
        reveal_strlit("Usage: ");
        assert("\x1b[1m\x1b[36m"@ =~= bold() + cyan());
        assert("\x1b[1m\x1b[33m"@ =~= bold() + yellow());
    }
    let cs = text::chars_of(message);
    let ls = text::split_lines(cs.as_slice());
    let ghost lines = ls@.map_values(|l: Vec<char>| l@);
    let usage = text::chars_of("Usage: ");
    let mut r: Vec<String> = Vec::new();
    let mut i: usize = 0;
    while i < ls.len()
        invariant
            i <= ls@.len(),
            lines == ls@.map_values(|l: Vec<char>| l@),
            lines == text::lines(message@),
            usage@ == "Usage: "@,
            usage@.len() == 7,
            "\x1b[1m\x1b[36m"@ == bold() + cyan(),
            "\x1b[1m\x1b[33m"@ == bold() + yellow(),
            text::views(r@) == lines.take(i as int).map_values(|l: Seq<char>| help_line(l, color)),
        decreases ls@.len() - i,
    {
        let line = text::string_of(ls[i].as_slice());
        assert(line@ == lines[i as int]);
        let v = line.as_str();
        let shown = if ls[i].len() == 0 {
            line.clone()
        } else if text::same(v, "The Nox Build System") {
            hyperlink("https://github.com/playfairs/nox", v, color)
        } else if text::same(v, "Commands:") || text::same(v, "Options:") {
            colorize("\x1b[1m\x1b[36m", v, color)
        } else if text::starts_with(ls[i].as_slice(), usage.as_slice()) {
            let rest = text::slice_chars(ls[i].as_slice(), 7, ls[i].len());
            let mut s = colorize("\x1b[1m\x1b[33m", "Usage:", color);
            text::push_str(&mut s, " ");
            let rest_text = text::string_of(rest.as_slice());
            text::push_str(&mut s, rest_text.as_str());
            s
        } else {
            line.clone()
        };
        assert(shown@ == help_line(lines[i as int], color));
        let ghost before = r@;
        r.push(shown);
        assert(text::views(r@) =~= text::views(before).push(shown@));
        assert(lines.take(i + 1).map_values(|l: Seq<char>| help_line(l, color)) =~= lines.take(i as int).map_values(|l: Seq<char>| help_line(l, color)).push(help_line(lines[i as int], color)));
        i = i + 1;
    }
    assert(lines.take(i as int) == lines);
    r
}

/// A green message.
pub fn success(message: &str, color: bool) -> (r: String)
    ensures
        r@ == paint(green(), message@, color),
{
    colorize("\x1b[32m", message, color)
}

/// A yellow message.
pub fn warning(message: &str, color: bool) -> (r: String)
    ensures
        r@ == paint(yellow(), message@, color),
{
    colorize("\x1b[33m", message, color)
}

/// A red message, for the error stream.
pub fn error(message: &str, color: bool) -> (r: String)
    ensures
        r@ == paint(red(), message@, color),
{
    colorize("\x1b[31m", message, color)
}

} // verus!
