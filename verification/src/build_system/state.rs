//! The state that `nox setup` saves in a build directory.
use vstd::prelude::*;
use crate::domain::error::Error;
use crate::paths;
use crate::text;

verus! {

/// A configured build directory: the project root, the configuration
/// (`debug` or `release`), the C toolchain, and extra compiler flags.
#[derive(Clone, Debug)]
pub struct BuildState {
    pub root: String,
    pub build_dir: String,
    pub configuration: String,
    pub compiler: String,
    pub linker: String,
    pub archiver: String,
    pub compile_flags: Vec<String>,
}

/// A `KEY=VALUE` line.
pub open spec fn setting(key: Seq<char>, value: Seq<char>) -> Seq<char> {
    key + seq!['='] + value
}

/// The lines of a state file: the root, the configuration, the toolchain,
/// and each extra compiler flag on a line of its own.
pub open spec fn state_lines(s: BuildState) -> Seq<Seq<char>> {
    seq![setting("root"@, s.root@), setting("configuration"@, s.configuration@), setting("compiler"@, s.compiler@),
        setting("linker"@, s.linker@), setting("archiver"@, s.archiver@)]
        + text::views(s.compile_flags@).map_values(|f: Seq<char>| setting("compile_flag"@, f))
}

/// The text of a state file.
pub open spec fn state_file_text(s: BuildState) -> Seq<char> {
    text::line_text(state_lines(s))
}

/// The value of the last line that sets `key`.
pub open spec fn last_value(ls: Seq<Seq<char>>, key: Seq<char>) -> Option<Seq<char>>
    decreases ls.len(),
{
    if ls.len() == 0 {
        None
    } else {
        match text::split_once(ls.last(), '=') {
            Some((k, v)) => if k == key {
                Some(v)
            } else {
                last_value(ls.drop_last(), key)
            },
            None => last_value(ls.drop_last(), key),
        }
    }
}

/// The values of the `compile_flag` lines, in order.
pub open spec fn flag_values(ls: Seq<Seq<char>>) -> Seq<Seq<char>>
    decreases ls.len(),
{
    if ls.len() == 0 {
        Seq::empty()
    } else {
        match text::split_once(ls.last(), '=') {
            Some((k, v)) => if k == "compile_flag"@ {
                flag_values(ls.drop_last()).push(v)
            } else {
                flag_values(ls.drop_last())
            },
            None => flag_values(ls.drop_last()),
        }
    }
}

/// Every line sets a key.
pub open spec fn all_settings(ls: Seq<Seq<char>>) -> bool {
    forall|i: int| 0 <= i < ls.len() ==> text::split_once(#[trigger] ls[i], '=') is Some
}

/// A setting's value, or its default.
pub open spec fn value_or(v: Option<Seq<char>>, default: Seq<char>) -> Seq<char> {
    match v {
        Some(x) => x,
        None => default,
    }
}

impl BuildState {
    /// The state file of a build directory.
    pub fn path(build_dir: &str) -> (r: String)
        ensures
            r@ == paths::join(build_dir@, "nox.state"@),
    {
        paths::join_text(build_dir, "nox.state")
    }

    /// The text that `save` writes.
    pub fn to_text(&self) -> (r: String)
        ensures
            r@ == state_file_text(*self),
    {
        let mut lines: Vec<String> = Vec::new();
        lines.push(setting_line("root", self.root.as_str()));
        lines.push(setting_line("configuration", self.configuration.as_str()));
        lines.push(setting_line("compiler", self.compiler.as_str()));
        lines.push(setting_line("linker", self.linker.as_str()));
        lines.push(setting_line("archiver", self.archiver.as_str()));
        let ghost head = text::views(lines@);
        let ghost flags = text::views(self.compile_flags@).map_values(|f: Seq<char>| setting("compile_flag"@, f));
        let mut i: usize = 0;
        while i < self.compile_flags.len()
            invariant
                i <= self.compile_flags@.len(),
                flags == text::views(self.compile_flags@).map_values(|f: Seq<char>| setting("compile_flag"@, f)),
                text::views(lines@) == head + flags.take(i as int),
            decreases self.compile_flags@.len() - i,
        {
            let ghost before = lines@;
            let l = setting_line("compile_flag", self.compile_flags[i].as_str());
            lines.push(l);
            assert(text::views(lines@) =~= text::views(before).push(l@));
            assert(flags.take(i + 1) =~= flags.take(i as int).push(flags[i as int]));
            i = i + 1;
        }
        assert(flags.take(i as int) =~= flags);
        assert(text::views(lines@) =~= state_lines(*self));
        text::line_text_of(&lines)
    }

    /// The error for a build directory without a state file.
    pub fn not_configured(build_dir: &str) -> (r: Error)
        ensures
            r matches Error::Config(m) && m@ == "'"@ + build_dir@ + "' is not configured; run nox setup "@ + build_dir@,
    {
        let mut m = text::owned("'");
        text::push_str(&mut m, build_dir);
        text::push_str(&mut m, "' is not configured; run nox setup ");
        text::push_str(&mut m, build_dir);
        Error::Config(m)
    }

    /// Reads a state file's text: every line must set a key, the root is
    /// required, and the other settings default to `debug`, `cc`, `cc` and
    /// `ar`; a key set twice takes its last value.
    pub fn parse(contents: &str, build_dir: &str) -> (r: Result<BuildState, Error>)
        ensures
            ({
                let ls = text::lines(contents@);
                match r {
                    Ok(s) => all_settings(ls) && last_value(ls, "root"@) == Some(s.root@)
                        && s.build_dir@ == build_dir@
                        && s.configuration@ == value_or(last_value(ls, "configuration"@), "debug"@)
                        && s.compiler@ == value_or(last_value(ls, "compiler"@), "cc"@)
                        && s.linker@ == value_or(last_value(ls, "linker"@), "cc"@)
                        && s.archiver@ == value_or(last_value(ls, "archiver"@), "ar"@)
                        && text::views(s.compile_flags@) == flag_values(ls),
                    Err(e) => if !all_settings(ls) {
                        e matches Error::Config(m) && m@ == "invalid build state"@
                    } else {
                        last_value(ls, "root"@) is None && (e matches Error::Config(m) && m@ == "build state has no root"@)
                    },
                }
            }),
    {
        proof {
            reveal_strlit("root");
            reveal_strlit("configuration");
            reveal_strlit("compiler");
            reveal_strlit("linker");
            reveal_strlit("archiver");
            reveal_strlit("compile_flag");
            assert("root"@.len() == 4);
            assert("configuration"@.len() == 13);
            assert("compiler"@.len() == 8);
            assert("linker"@.len() == 6);
            assert("archiver"@.len() == 8);
            assert("compile_flag"@.len() == 12);
            assert("compiler"@[0] == 'c');
            assert("archiver"@[0] == 'a');
        }
        let cs = text::chars_of(contents);
        let ls = text::split_lines(cs.as_slice());
        let ghost lines = ls@.map_values(|l: Vec<char>| l@);
        let mut root: Option<String> = None;
        let mut configuration: Option<String> = None;
        let mut compiler: Option<String> = None;
        let mut linker: Option<String> = None;
        let mut archiver: Option<String> = None;
        let mut flags: Vec<String> = Vec::new();
        let mut i: usize = 0;
        while i < ls.len()
            invariant
                i <= ls@.len(),
                lines == ls@.map_values(|l: Vec<char>| l@),
                lines == text::lines(contents@),
                all_settings(lines.take(i as int)),
                opt_view(root) == last_value(lines.take(i as int), "root"@),
                opt_view(configuration) == last_value(lines.take(i as int), "configuration"@),
                opt_view(compiler) == last_value(lines.take(i as int), "compiler"@),
                opt_view(linker) == last_value(lines.take(i as int), "linker"@),
                opt_view(archiver) == last_value(lines.take(i as int), "archiver"@),
                text::views(flags@) == flag_values(lines.take(i as int)),
                "root"@ != "configuration"@,
                "root"@ != "compiler"@,
                "root"@ != "linker"@,
                "root"@ != "archiver"@,
                "root"@ != "compile_flag"@,
                "configuration"@ != "compiler"@,
                "configuration"@ != "linker"@,
                "configuration"@ != "archiver"@,
                "configuration"@ != "compile_flag"@,
                "compiler"@ != "linker"@,
                "compiler"@ != "archiver"@,
                "compiler"@ != "compile_flag"@,
                "linker"@ != "archiver"@,
                "linker"@ != "compile_flag"@,
                "archiver"@ != "compile_flag"@,
            decreases ls@.len() - i,
        {
            let ghost t = lines.take(i + 1);
            assert(t.drop_last() == lines.take(i as int));
            assert(t.last() == lines[i as int]);
            assert(lines[i as int] == ls@[i as int]@);
            match text::split_once_char(ls[i].as_slice(), '=') {
                Some((k, v)) => {
                    let key = text::string_of(k.as_slice());
                    let value = text::string_of(v.as_slice());
                    let ks = key.as_str();
                    if text::same(ks, "root") {
                        root = Some(value);
                    } else if text::same(ks, "configuration") {
                        configuration = Some(value);
                    } else if text::same(ks, "compiler") {
                        compiler = Some(value);
                    } else if text::same(ks, "linker") {
                        linker = Some(value);
                    } else if text::same(ks, "archiver") {
                        archiver = Some(value);
                    } else if text::same(ks, "compile_flag") {
                        let ghost before = flags@;
                        flags.push(value);
                        assert(text::views(flags@) =~= text::views(before).push(v@));
                    }
                    assert forall|j: int| 0 <= j < t.len() implies text::split_once(#[trigger] t[j], '=') is Some by {
                        if j < i {
                            assert(t[j] == lines.take(i as int)[j]);
                        }
                    }
                },
                None => {
                    proof {
                        assert(!all_settings(lines)) by {
                            assert(text::split_once(lines[i as int], '=') is None);
                        }
                    }
                    return Err(Error::Config(text::owned("invalid build state")));
                },
            }
            i = i + 1;
        }
        assert(lines.take(i as int) == lines);
        let root = match root {
            Some(r) => r,
            None => return Err(Error::Config(text::owned("build state has no root"))),
        };
        Ok(BuildState {
            root,
            build_dir: text::owned(build_dir),
            configuration: or_default(configuration, "debug"),
            compiler: or_default(compiler, "cc"),
            linker: or_default(linker, "cc"),
            archiver: or_default(archiver, "ar"),
            compile_flags: flags,
        })
    }
}

fn setting_line(key: &str, value: &str) -> (r: String)
    ensures
        r@ == setting(key@, value@),
{
    let mut r = text::owned(key);
    text::push_char(&mut r, '=');
    text::push_str(&mut r, value);
    r
}

/// A state whose every value is written on one line reads back as it was.
pub open spec fn one_line_values(s: BuildState) -> bool {
    &&& text::plain_line(s.root@)
    &&& text::plain_line(s.configuration@)
    &&& text::plain_line(s.compiler@)
    &&& text::plain_line(s.linker@)
    &&& text::plain_line(s.archiver@)
    &&& forall|i: int| 0 <= i < s.compile_flags@.len() ==> text::plain_line(#[trigger] s.compile_flags@[i]@)
}

proof fn lemma_setting_plain(key: Seq<char>, value: Seq<char>)
    requires
        forall|k: int| 0 <= k < key.len() ==> key[k] != '\n',
        text::plain_line(value),
        key.len() > 0,
    ensures
        text::plain_line(setting(key, value)),
{
    let l = setting(key, value);
    assert forall|k: int| 0 <= k < l.len() implies l[k] != '\n' by {
        if k < key.len() {
            assert(l[k] == key[k]);
        } else if k > key.len() {
            assert(l[k] == value[k - key.len() - 1]);
        }
    }
    if value.len() > 0 {
        assert(l.last() == value.last());
    }
}

/// The values that lines set, read back, when only flag lines follow `a`.
proof fn lemma_values_after_flags(a: Seq<Seq<char>>, fs: Seq<Seq<char>>, key: Seq<char>)
    requires
        key != "compile_flag"@,
        forall|k: int| 0 <= k < "compile_flag"@.len() ==> "compile_flag"@[k] != '=',
    ensures
        last_value(a + fs.map_values(|f: Seq<char>| setting("compile_flag"@, f)), key) == last_value(a, key),
        flag_values(a + fs.map_values(|f: Seq<char>| setting("compile_flag"@, f))) == flag_values(a) + fs,
    decreases fs.len(),
{
    let m = fs.map_values(|f: Seq<char>| setting("compile_flag"@, f));
    if fs.len() == 0 {
        assert(a + m =~= a);
        assert(flag_values(a) + fs =~= flag_values(a));
    } else {
        let shorter = fs.drop_last();
        let ms = shorter.map_values(|f: Seq<char>| setting("compile_flag"@, f));
        lemma_values_after_flags(a, shorter, key);
        assert((a + m).drop_last() =~= a + ms);
        assert((a + m).last() == setting("compile_flag"@, fs.last()));
        text::lemma_split_setting("compile_flag"@, fs.last());
        assert(flag_values(a) + fs =~= (flag_values(a) + shorter).push(fs.last()));
    }
}

/// What `parse` reads from the text that `to_text` writes: every line sets
/// a key, and each setting and flag comes back as it was written, for
/// values without line breaks or a final carriage return.
pub proof fn lemma_state_round_trip(s: BuildState)
    requires
        one_line_values(s),
    ensures
        ({
            let ls = text::lines(state_file_text(s));
            &&& all_settings(ls)
            &&& last_value(ls, "root"@) == Some(s.root@)
            &&& value_or(last_value(ls, "configuration"@), "debug"@) == s.configuration@
            &&& value_or(last_value(ls, "compiler"@), "cc"@) == s.compiler@
            &&& value_or(last_value(ls, "linker"@), "cc"@) == s.linker@
            &&& value_or(last_value(ls, "archiver"@), "ar"@) == s.archiver@
            &&& flag_values(ls) == text::views(s.compile_flags@)
        }),
{
    reveal_strlit("root");
    reveal_strlit("configuration");
    reveal_strlit("compiler");
    reveal_strlit("linker");
    reveal_strlit("archiver");
    reveal_strlit("compile_flag");
    let keys = seq!["root"@, "configuration"@, "compiler"@, "linker"@, "archiver"@, "compile_flag"@];
    assert forall|i: int, k: int| 0 <= i < keys.len() && 0 <= k < keys[i].len() implies keys[i][k] != '=' && keys[i][k] != '\n' by {}
    let ls = state_lines(s);
    let fs = text::views(s.compile_flags@);
    let a = seq![setting("root"@, s.root@), setting("configuration"@, s.configuration@), setting("compiler"@, s.compiler@),
        setting("linker"@, s.linker@), setting("archiver"@, s.archiver@)];
    lemma_setting_plain("root"@, s.root@);
    lemma_setting_plain("configuration"@, s.configuration@);
    lemma_setting_plain("compiler"@, s.compiler@);
    lemma_setting_plain("linker"@, s.linker@);
    lemma_setting_plain("archiver"@, s.archiver@);
    assert forall|i: int| 0 <= i < ls.len() implies text::plain_line(#[trigger] ls[i]) by {
        if i >= 5 {
            assert(ls[i] == setting("compile_flag"@, fs[i - 5]));
            assert(fs[i - 5] == s.compile_flags@[i - 5]@);
            lemma_setting_plain("compile_flag"@, fs[i - 5]);
        }
    }
    text::lemma_lines_of_line_text(ls);
    assert(text::lines(state_file_text(s)) == ls);
    text::lemma_split_setting("root"@, s.root@);
    text::lemma_split_setting("configuration"@, s.configuration@);
    text::lemma_split_setting("compiler"@, s.compiler@);
    text::lemma_split_setting("linker"@, s.linker@);
    text::lemma_split_setting("archiver"@, s.archiver@);
    assert forall|i: int| 0 <= i < ls.len() implies text::split_once(#[trigger] ls[i], '=') is Some by {
        if i >= 5 {
            assert(ls[i] == setting("compile_flag"@, fs[i - 5]));
            text::lemma_split_setting("compile_flag"@, fs[i - 5]);
        }
    }
    lemma_values_after_flags(a, fs, "root"@);
    lemma_values_after_flags(a, fs, "configuration"@);
    lemma_values_after_flags(a, fs, "compiler"@);
    lemma_values_after_flags(a, fs, "linker"@);
    lemma_values_after_flags(a, fs, "archiver"@);
    assert(a.drop_last().drop_last().drop_last().drop_last().drop_last() =~= Seq::<Seq<char>>::empty());
    reveal_with_fuel(last_value, 6);
    reveal_with_fuel(flag_values, 6);
    assert(flag_values(a) =~= Seq::<Seq<char>>::empty());
    assert(flag_values(a) + fs =~= fs);
}

/// The view of an optional string.
pub open spec fn opt_view(v: Option<String>) -> Option<Seq<char>> {
    match v {
        Some(s) => Some(s@),
        None => None,
    }
}

fn or_default(v: Option<String>, default: &str) -> (r: String)
    ensures
        r@ == value_or(opt_view(v), default@),
{
    match v {
        Some(s) => s,
        None => text::owned(default),
    }
}

} // verus!
