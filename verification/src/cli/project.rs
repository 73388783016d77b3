//! The decisions of the commands that work on a project: where the build
//! directory is, whether to configure it first, what each command does,
//! and the texts they read and write.
use vstd::prelude::*;
use crate::domain::error::Error;
use crate::domain::model::{Project, TargetKind};
use crate::paths;
use crate::project::parser::keys;
use crate::text;
use crate::text::{has_prefix, is_digit, parse_u64};

verus! {

// ------------------------------------------------------------ project state

/// The `nox.state` text: the root and the build directory (relative to
/// the root when inside it), both quoted.
pub open spec fn state_text(root: Seq<char>, build_dir: Seq<char>) -> Seq<char> {
    "// This file is generated by nox.\n// It is not intended to be manually edited.\nroot=\""@ + root
        + "\"\nbuild_dir=\""@ + relative_to(build_dir, root) + "\"\n"@
}

/// `Path::strip_prefix` on text: the path below `root`, or the path itself.
pub open spec fn relative_to(path: Seq<char>, root: Seq<char>) -> Seq<char> {
    if path == root {
        Seq::empty()
    } else if root.len() > 0 && root.last() == '/' && has_prefix(path, root) {
        path.skip(root.len() as int)
    } else if has_prefix(path, root + seq!['/']) {
        path.skip(root.len() + 1int)
    } else {
        path
    }
}

pub fn relative_path(path: &str, root: &str) -> (r: String)
    ensures
        r@ == relative_to(path@, root@),
{
    let p = text::chars_of(path);
    let q = text::chars_of(root);
    if text::same_chars(&p, &q) {
        return String::new();
    }
    if q.len() > 0 && q[q.len() - 1] == '/' && text::starts_with(&p, &q) {
        let rest = text::slice_chars(&p, q.len(), p.len());
        return text::string_of(&rest);
    }
    let mut with_slash = q.clone();
    with_slash.push('/');
    assert(with_slash@ == q@ + seq!['/']);
    if text::starts_with(&p, &with_slash) {
        let rest = text::slice_chars(&p, with_slash.len(), p.len());
        return text::string_of(&rest);
    }
    text::owned(path)
}

/// The text of `nox.state` for a configured build directory.
pub fn project_config_text(root: &str, build_dir: &str) -> (r: String)
    ensures
        r@ == state_text(root@, build_dir@),
{
    let mut out = text::owned("// This file is generated by nox.\n// It is not intended to be manually edited.\nroot=\"");
    text::push_str(&mut out, root);
    text::push_str(&mut out, "\"\nbuild_dir=\"");
    let relative = relative_path(build_dir, root);
    text::push_str(&mut out, relative.as_str());
    text::push_str(&mut out, "\"\n");
    out
}

/// The value of the first `build_dir=` line.
pub open spec fn build_dir_value(lines: Seq<Seq<char>>) -> Option<Seq<char>>
    decreases lines.len(),
{
    if lines.len() == 0 {
        None
    } else if has_prefix(lines[0], "build_dir="@) {
        Some(lines[0].skip(10))
    } else {
        build_dir_value(lines.drop_first())
    }
}

/// A quoted value without its quotes and with `\"` read as `"`.
pub open spec fn unquoted_dir(v: Seq<char>) -> Seq<char> {
    if v.len() >= 2 && v[0] == '"' && v.last() == '"' {
        text::replace(v.subrange(1, v.len() - 1), "\\\""@, "\""@)
    } else {
        v
    }
}

/// The build directory that a `nox.state` (or legacy `nox.config`) text
/// names, as written there; `file_name` names the file in messages.
fn build_dir_text(state: &str, file_name: &str) -> (r: Result<String, Error>)
    ensures
        build_dir_value(text::lines(state@)) is None ==> (r matches Err(Error::Config(m)) && m@ == "invalid "@ + file_name@),
        build_dir_value(text::lines(state@)) is Some && text::trim(build_dir_value(text::lines(state@)).unwrap()).len() == 0
            ==> (r matches Err(Error::Config(m)) && m@ == file_name@ + " has no build directory"@),
        build_dir_value(text::lines(state@)) is Some && text::trim(build_dir_value(text::lines(state@)).unwrap()).len() > 0
            ==> (r matches Ok(d) && d@ == unquoted_dir(text::trim(build_dir_value(text::lines(state@)).unwrap()))),
{
    proof {
        reveal_strlit("build_dir=");
        reveal_strlit("\\\"");
        reveal_strlit("\"");
    }
    let cs = text::chars_of(state);
    let lines = text::split_lines(&cs);
    let prefix = text::chars_of("build_dir=");
    let ghost all = lines@.map_values(|l: Vec<char>| l@);
    let mut i: usize = 0;
    let mut found: Option<Vec<char>> = None;
    assert(all.skip(0) == all);
    while i < lines.len() && found.is_none()
        invariant
            i <= lines@.len(),
            prefix@ == "build_dir="@,
            prefix@.len() == 10,
            all == lines@.map_values(|l: Vec<char>| l@),
            all == text::lines(state@),
            found is None ==> build_dir_value(all) == build_dir_value(all.skip(i as int)),
            found matches Some(v) ==> build_dir_value(all) == Some(v@),
        decreases lines@.len() - i,
    {
        assert(all.skip(i as int).drop_first() == all.skip(i + 1));
        assert(all.skip(i as int)[0] == lines@[i as int]@);
        if text::starts_with(&lines[i], &prefix) {
            let rest = text::slice_chars(&lines[i], 10, lines[i].len());
            assert(build_dir_value(all.skip(i as int)) == Some(rest@));
            found = Some(rest);
        }
        i = i + 1;
    }
    let value = match found {
        Some(v) => v,
        None => {
            assert(all.skip(lines@.len() as int).len() == 0);
            let mut m = text::owned("invalid ");
            text::push_str(&mut m, file_name);
            return Err(Error::Config(m));
        },
    };
    let trimmed = text::trim_chars(&value);
    if trimmed.len() == 0 {
        let mut m = text::owned(file_name);
        text::push_str(&mut m, " has no build directory");
        return Err(Error::Config(m));
    }
    let n = trimmed.len();
    if n >= 2 && trimmed[0] == '"' && trimmed[n - 1] == '"' {
        let inner = text::slice_chars(&trimmed, 1, n - 1);
        let inner_text = text::string_of(&inner);
        Ok(text::replace_str(inner_text.as_str(), "\\\"", "\""))
    } else {
        Ok(text::string_of(&trimmed))
    }
}

/// The build directory that the project's state names: `state` is the text
/// of `nox.state` (or, without it, of the legacy `nox.config`), `None` when
/// neither file exists; `file_name` names that file in messages. A relative
/// directory is joined to `root`.
pub fn configured_build_dir(root: &str, state: Option<&str>, file_name: &str, windows: bool) -> (r: Result<
    Option<String>,
    Error,
>)
    ensures
        state is None ==> r == Ok::<Option<String>, Error>(None),
        state matches Some(t) ==> ({
            let v = build_dir_value(text::lines(t@));
            &&& v is None ==> (r matches Err(Error::Config(m)) && m@ == "invalid "@ + file_name@)
            &&& v is Some && text::trim(v.unwrap()).len() == 0 ==> (r matches Err(Error::Config(m)) && m@ == file_name@
                + " has no build directory"@)
            &&& v is Some && text::trim(v.unwrap()).len() > 0 ==> (r matches Ok(Some(d)) && d@ == paths::native_join(
                root@,
                unquoted_dir(text::trim(v.unwrap())),
                windows,
            ))
        }),
{
    match state {
        None => Ok(None),
        Some(t) => {
            let dir = build_dir_text(t, file_name)?;
            Ok(Some(paths::native_join_text(root, dir.as_str(), windows)))
        },
    }
}

// ------------------------------------------------------------ versions

/// `MAJOR.MINOR.PATCH` with three numeric parts.
pub open spec fn version_parts(value: Seq<char>) -> Option<(u64, u64, u64)> {
    let parts = text::split(value, '.');
    if parts.len() == 3 && parts[0].len() > 0 && parts[1].len() > 0 && parts[2].len() > 0 {
        match (parse_u64(parts[0]), parse_u64(parts[1]), parse_u64(parts[2])) {
            (Some(a), Some(b), Some(c)) => Some((a, b, c)),
            _ => None,
        }
    } else {
        None
    }
}

/// Why a text is not a `MAJOR.MINOR.PATCH` version.
pub open spec fn version_problem(value: Seq<char>) -> Seq<char> {
    let parts = text::split(value, '.');
    if parts.len() == 3 && parts[0].len() > 0 && parts[1].len() > 0 && parts[2].len() > 0 {
        "version '"@ + value + "' must use numeric MAJOR.MINOR.PATCH components"@
    } else {
        "version '"@ + value + "' must use MAJOR.MINOR.PATCH format"@
    }
}

/// Parses a `MAJOR.MINOR.PATCH` version.
pub fn parse_version(value: &str) -> (r: Result<[u64; 3], Error>)
    ensures
        match version_parts(value@) {
            Some((a, b, c)) => r matches Ok(v) && v@ == seq![a, b, c],
            None => r matches Err(Error::Config(m)) && m@ == version_problem(value@),
        },
{
    let cs = text::chars_of(value);
    let parts = text::split_char(&cs, '.');
    proof {
        assert(parts@.len() == parts@.map_values(|p: Vec<char>| p@).len());
    }
    if parts.len() != 3 || parts[0].len() == 0 || parts[1].len() == 0 || parts[2].len() == 0 {
        proof {
            if parts@.len() == 3 {
                assert(parts@[0]@ == text::split(value@, '.')[0]);
                assert(parts@[1]@ == text::split(value@, '.')[1]);
                assert(parts@[2]@ == text::split(value@, '.')[2]);
            }
        }
        let mut m = text::owned("version '");
        text::push_str(&mut m, value);
        text::push_str(&mut m, "' must use MAJOR.MINOR.PATCH format");
        return Err(Error::Config(m));
    }
    assert(parts@[0]@ == text::split(value@, '.')[0]);
    assert(parts@[1]@ == text::split(value@, '.')[1]);
    assert(parts@[2]@ == text::split(value@, '.')[2]);
    match (text::parse_u64_chars(&parts[0]), text::parse_u64_chars(&parts[1]), text::parse_u64_chars(&parts[2])) {
        (Some(a), Some(b), Some(c)) => {
            let v = [a, b, c];
            assert(v@ == seq![a, b, c]);
            Ok(v)
        },
        _ => {
            let mut m = text::owned("version '");
            text::push_str(&mut m, value);
            text::push_str(&mut m, "' must use numeric MAJOR.MINOR.PATCH components");
            Err(Error::Config(m))
        },
    }
}

/// The version after a bump of `current`: `major`, `minor` or `patch`
/// (the default), or an explicit version.
pub open spec fn bumped(current: (u64, u64, u64), requested: Seq<char>) -> Seq<char> {
    if requested == "major"@ {
        text::decimal((current.0 + 1) as nat) + ".0.0"@
    } else if requested == "minor"@ {
        text::decimal(current.0 as nat) + "."@ + text::decimal((current.1 + 1) as nat) + ".0"@
    } else if requested == "patch"@ {
        text::decimal(current.0 as nat) + "."@ + text::decimal(current.1 as nat) + "."@ + text::decimal(
            (current.2 + 1) as nat,
        )
    } else {
        requested
    }
}

/// The next version for `nox bump-version`.
pub fn next_version(current: &str, requested: Option<&str>) -> (r: Result<String, Error>)
    requires
        version_parts(current@) matches Some((a, b, c)) ==> a < u64::MAX && b < u64::MAX && c < u64::MAX,
    ensures
        version_parts(current@) is None ==> (r matches Err(Error::Config(m)) && m@ == version_problem(current@)),
        version_parts(current@) matches Some(parts) ==> ({
            let asked = match requested {
                Some(q) => q@,
                None => "patch"@,
            };
            !(asked == "major"@ || asked == "minor"@ || asked == "patch"@) && version_parts(asked) is None
        } ==> (r matches Err(Error::Config(m)) && m@ == version_problem(match requested {
            Some(q) => q@,
            None => "patch"@,
        }))),
        version_parts(current@) matches Some(parts) ==> ({
            let asked = match requested {
                Some(q) => q@,
                None => "patch"@,
            };
            asked == "major"@ || asked == "minor"@ || asked == "patch"@ || version_parts(asked) is Some
        } ==> (r matches Ok(v) && v@ == bumped(parts, match requested {
            Some(q) => q@,
            None => "patch"@,
        }))),
{
    let parts = parse_version(current)?;
    let asked = match requested {
        Some(q) => q,
        None => "patch",
    };
    if text::same(asked, "major") {
        let mut v = text::u64_to_string(parts[0] + 1);
        text::push_str(&mut v, ".0.0");
        Ok(v)
    } else if text::same(asked, "minor") {
        let mut v = text::u64_to_string(parts[0]);
        text::push_str(&mut v, ".");
        let minor = text::u64_to_string(parts[1] + 1);
        text::push_str(&mut v, minor.as_str());
        text::push_str(&mut v, ".0");
        Ok(v)
    } else if text::same(asked, "patch") {
        let mut v = text::u64_to_string(parts[0]);
        text::push_str(&mut v, ".");
        let minor = text::u64_to_string(parts[1]);
        text::push_str(&mut v, minor.as_str());
        text::push_str(&mut v, ".");
        let patch = text::u64_to_string(parts[2] + 1);
        text::push_str(&mut v, patch.as_str());
        Ok(v)
    } else {
        parse_version(asked)?;
        Ok(text::owned(asked))
    }
}

/// Whether a character may continue a version number.
pub open spec fn version_char(c: char) -> bool {
    is_digit(c) || c == '.'
}

/// `contents` with each whole occurrence of `current` (not preceded, within
/// the text left after the previous occurrence, and not followed by a
/// digit or `.`) replaced by `next`, from `i`.
pub open spec fn tokens_replaced(s: Seq<char>, current: Seq<char>, next: Seq<char>, i: int) -> Seq<char>
    decreases s.len() + 1 - i,
{
    if i < 0 || i > s.len() || current.len() == 0 {
        Seq::empty()
    } else {
        match text::find_from(s, current, i) {
            None => s.skip(i),
            Some(k) => {
                proof {
                    text::lemma_find_from(s, current, i);
                }
                let end = k + current.len();
                let before_ok = k == i || !version_char(s[k - 1]);
                let after_ok = end >= s.len() || !version_char(s[end]);
                s.subrange(i, k) + (if before_ok && after_ok {
                    next
                } else {
                    current
                }) + tokens_replaced(s, current, next, end)
            },
        }
    }
}

/// Replaces version references in a file's text.
pub fn replace_version_tokens(contents: &str, current: &str, next: &str) -> (r: String)
    requires
        current@.len() > 0,
    ensures
        r@ == tokens_replaced(contents@, current@, next@, 0),
{
    let s = text::chars_of(contents);
    let cur = text::chars_of(current);
    let n = s.len();
    let mut out = String::new();
    let mut i: usize = 0;
    loop
        invariant
            i <= n,
            n == s@.len(),
            s@ == contents@,
            cur@ == current@,
            cur@.len() > 0,
            out@ + tokens_replaced(s@, cur@, next@, i as int) == tokens_replaced(s@, cur@, next@, 0),
        decreases n + 1 - i,
    {
        proof {
            text::lemma_find_from(s@, cur@, i as int);
        }
        match text::find(&s, &cur, i) {
            None => {
                let rest = text::slice_chars(&s, i, n);
                let rest_text = text::string_of(&rest);
                text::push_str(&mut out, rest_text.as_str());
                return out;
            },
            Some(k) => {
                let end = k + cur.len();
                let before_ok = k == i || !(text::digit(s[k - 1]) || s[k - 1] == '.');
                let after_ok = end >= n || !(text::digit(s[end]) || s[end] == '.');
                let piece = text::slice_chars(&s, i, k);
                let piece_text = text::string_of(&piece);
                text::push_str(&mut out, piece_text.as_str());
                if before_ok && after_ok {
                    text::push_str(&mut out, next);
                } else {
                    text::push_str(&mut out, current);
                }
                i = end;
            },
        }
    }
}

// ------------------------------------------------------------ installing

/// Where an installed target goes: `lib` for libraries, `bin` for
/// executables.
pub fn install_directory(prefix: &str, kind: TargetKind) -> (r: String)
    ensures
        (kind is StaticLibrary || kind is SharedLibrary || kind is RustLibrary) ==> r@ == paths::join(prefix@, "lib"@),
        kind is Executable ==> r@ == paths::join(prefix@, "bin"@),
{
    match kind {
        TargetKind::StaticLibrary | TargetKind::SharedLibrary | TargetKind::RustLibrary => paths::join_text(prefix, "lib"),
        _ => paths::join_text(prefix, "bin"),
    }
}

/// The install prefix when none is given.
pub fn default_install_prefix(windows: bool) -> (r: String)
    ensures
        windows ==> r@ == "C:\\Program Files\\Nox"@,
        !windows ==> r@ == "/usr/local"@,
{
    if windows {
        text::owned("C:\\Program Files\\Nox")
    } else {
        text::owned("/usr/local")
    }
}

/// Whether a path is inside the Nix store or a Nix profile's `nox`.
pub open spec fn nix_managed(p: Seq<char>) -> bool {
    (has_prefix(p, "/nix/store"@) && (p.len() == 10 || p[10] == '/')) || exists|i: int|
        0 <= i && #[trigger] text::occurs_at(p, ".nix-profile/bin/nox"@, i)
}

pub fn is_nix_managed_path(path: &str) -> (r: bool)
    ensures
        r == nix_managed(path@),
{
    proof {
        reveal_strlit("/nix/store");
    }
    let cs = text::chars_of(path);
    let store = text::chars_of("/nix/store");
    if text::starts_with(&cs, &store) && (cs.len() == 10 || cs[10] == '/') {
        return true;
    }
    let profile = text::chars_of(".nix-profile/bin/nox");
    let found = text::find(&cs, &profile, 0);
    proof {
        text::lemma_find_from(cs@, profile@, 0);
    }
    found.is_some()
}

/// The project `nox install` installs: the named one (an error names the
/// projects when none has that name), or the only one; `None` when several
/// exist and none was named.
pub fn select_install_project(projects: &Vec<Project>, requested: Option<&str>) -> (r: Result<Option<usize>, Error>)
    ensures
        match requested {
            Some(name) => match crate::run::find_project(projects@, name@) {
                Some(k) => r matches Ok(Some(i)) && i == k,
                None => r matches Err(Error::Config(m)) && m@ == "unknown project '"@ + name@
                    + "'; available projects: "@ + text::join(crate::run::project_names(projects@), ", "@),
            },
            None => r == Ok::<Option<usize>, Error>(if projects@.len() == 1 { Some(0usize) } else { None }),
        },
{
    crate::cli::doctor::select_project(projects, requested)
}

/// The value of the first entry named `name` (empty when none is).
pub open spec fn env_value(env: Seq<(String, String)>, name: Seq<char>) -> Seq<char>
    decreases env.len(),
{
    if env.len() == 0 {
        Seq::empty()
    } else if env[0].0@ == name {
        env[0].1@
    } else {
        env_value(env.drop_first(), name)
    }
}

/// The `NAME=VALUE` line of an entry.
pub open spec fn env_line(env: Seq<(String, String)>, name: Seq<char>) -> Seq<char> {
    name + "="@ + env_value(env, name)
}

/// The `NAME=VALUE` lines of a project's extra environment, by name.
pub fn env_lines(env: &Vec<(String, String)>) -> (r: Vec<String>)
    requires
        keys(env@).no_duplicates(),
    ensures
        exists|names: Seq<String>|
            text::sorted_texts(names) && text::views(names).to_multiset() == keys(env@).to_multiset()
                && text::views(r@) == text::views(names).map_values(|n: Seq<char>| env_line(env@, n)),
{
    let mut names: Vec<String> = Vec::new();
    let mut i: usize = 0;
    while i < env.len()
        invariant
            i <= env@.len(),
            text::views(names@) == keys(env@).take(i as int),
        decreases env@.len() - i,
    {
        let ghost before = names@;
        names.push(env[i].0.clone());
        assert(text::views(names@) =~= text::views(before).push(env@[i as int].0@));
        assert(keys(env@).take(i + 1) =~= keys(env@).take(i as int).push(env@[i as int].0@));
        i = i + 1;
    }
    assert(keys(env@).take(i as int) =~= keys(env@));
    let sorted = text::sort_strings(names);
    let ghost lines_of = text::views(sorted@).map_values(|n: Seq<char>| env_line(env@, n));
    let mut lines: Vec<String> = Vec::new();
    let mut k: usize = 0;
    while k < sorted.len()
        invariant
            k <= sorted@.len(),
            lines_of == text::views(sorted@).map_values(|n: Seq<char>| env_line(env@, n)),
            text::views(lines@) == lines_of.take(k as int),
        decreases sorted@.len() - k,
    {
        let ghost name = sorted@[k as int]@;
        let mut j: usize = 0;
        assert(env@.skip(0) =~= env@);
        while j < env.len() && !text::same(env[j].0.as_str(), sorted[k].as_str())
            invariant
                j <= env@.len(),
                k < sorted@.len(),
                name == sorted@[k as int]@,
                env_value(env@, name) == env_value(env@.skip(j as int), name),
            decreases env@.len() - j,
        {
            assert(env@.skip(j as int).drop_first() =~= env@.skip(j + 1));
            j = j + 1;
        }
        let mut line = text::concat(sorted[k].as_str(), "=");
        if j < env.len() {
            text::push_str(&mut line, env[j].1.as_str());
        }
        assert(line@ == env_line(env@, name)) by {
            if j == env@.len() {
                assert(env@.skip(j as int).len() == 0);
            }
        }
        let ghost before = lines@;
        lines.push(line);
        assert(text::views(lines@) =~= text::views(before).push(env_line(env@, name)));
        assert(lines_of.take(k + 1) =~= lines_of.take(k as int).push(lines_of[k as int]));
        k = k + 1;
    }
    assert(lines_of.take(k as int) =~= lines_of);
    lines
}

// ------------------------------------------------------------ commands

/// What a project command does.
pub enum ProjectAction {
    /// Configure; remove the build directory first when asked to.
    Setup(bool),
    Build,
    Clean,
    Doctor,
    Rebuild,
    ListTargets,
    Validate,
    Env,
    /// `status`, which warns that it is being replaced by `doctor`.
    Status,
    Graph,
    Run,
    /// Run a noxfile task.
    Task(String),
    ListTasks,
    /// Install under a prefix (joined to the root when relative).
    Install(String),
    Uninstall(String),
    Help(String),
    BumpVersion,
}

/// The build directory a project command uses: the configured one unless
/// a directory was given or the command configures; relative directories
/// are under the root.
pub fn state_dir(root: &str, build_dir: &str, explicit: bool, command: &str, configured: Option<&str>, windows: bool) -> (r: String)
    ensures
        ({
            let chosen = if !explicit && command@ != "setup"@ && command@ != "configure"@ && configured is Some {
                configured.unwrap()@
            } else {
                build_dir@
            };
            r@ == paths::native_join(root@, chosen, windows)
        }),
{
    let chosen = if !explicit && !text::same(command, "setup") && !text::same(command, "configure") {
        match configured {
            Some(c) => c,
            None => build_dir,
        }
    } else {
        build_dir
    };
    paths::native_join_text(root, chosen, windows)
}

/// Whether a command that needs a configured build directory must
/// configure it first: when the state is missing and the project has been
/// configured before; an error when it never was.
pub fn needs_setup(requires_initialization: bool, state_exists: bool, config_exists: bool, state_dir: &str) -> (r: Result<bool, Error>)
    ensures
        !requires_initialization || state_exists ==> r == Ok::<bool, Error>(false),
        requires_initialization && !state_exists && config_exists ==> r == Ok::<bool, Error>(true),
        requires_initialization && !state_exists && !config_exists ==> (r matches Err(Error::Config(m)) && m@ == "'"@
            + state_dir@ + "' is not configured; run nox setup "@ + state_dir@),
{
    if !requires_initialization || state_exists {
        return Ok(false);
    }
    if config_exists {
        return Ok(true);
    }
    let mut m = text::owned("'");
    text::push_str(&mut m, state_dir);
    text::push_str(&mut m, "' is not configured; run nox setup ");
    text::push_str(&mut m, state_dir);
    Err(Error::Config(m))
}

/// The action that a project command names, with its positional
/// arguments, the reconfigure flag, the install prefix and the root.
pub open spec fn action_for(
    c: Seq<char>,
    positional: Seq<Seq<char>>,
    reconfigure: bool,
    prefix: Seq<char>,
    root: Seq<char>,
    windows: bool,
    r: Result<ProjectAction, Error>,
) -> bool {
    if c == "task"@ {
        if positional.len() == 0 {
            r matches Err(Error::Config(m)) && m@ == "task requires a name"@
        } else {
            r matches Ok(ProjectAction::Task(t)) && t@ == positional[0]
        }
    } else if c == "install"@ {
        r matches Ok(ProjectAction::Install(p)) && p@ == paths::native_join(root, prefix, windows)
    } else if c == "setup"@ || c == "configure"@ {
        r matches Ok(ProjectAction::Setup(b)) && b == reconfigure
    } else if c == "build"@ || c == "compile"@ {
        r matches Ok(ProjectAction::Build)
    } else if c == "clean"@ {
        r matches Ok(ProjectAction::Clean)
    } else if c == "doctor"@ || c == "doc"@ {
        r matches Ok(ProjectAction::Doctor)
    } else if c == "rebuild"@ {
        r matches Ok(ProjectAction::Rebuild)
    } else if c == "targets"@ || c == "list"@ {
        r matches Ok(ProjectAction::ListTargets)
    } else if c == "validate"@ {
        r matches Ok(ProjectAction::Validate)
    } else if c == "env"@ {
        r matches Ok(ProjectAction::Env)
    } else if c == "status"@ || c == "stat"@ {
        r matches Ok(ProjectAction::Status)
    } else if c == "graph"@ {
        r matches Ok(ProjectAction::Graph)
    } else if c == "run"@ {
        r matches Ok(ProjectAction::Run)
    } else if c == "test"@ {
        r matches Ok(ProjectAction::Task(t)) && t@ == "test"@
    } else if c == "uninstall"@ {
        r matches Ok(ProjectAction::Uninstall(p)) && p@ == paths::native_join(root, prefix, windows)
    } else if c == "tasks"@ {
        r matches Ok(ProjectAction::ListTasks)
    } else if c == "help"@ {
        r matches Ok(ProjectAction::Help(t)) && t@ == (if positional.len() > 0 {
            positional[0]
        } else {
            Seq::<char>::empty()
        })
    } else if c == "bump-version"@ || c == "bump"@ {
        r matches Ok(ProjectAction::BumpVersion)
    } else {
        r matches Err(Error::Config(m)) && m@ == "unknown command '"@ + c + "'"@
    }
}

/// What a project command does.
pub fn project_action(
    command: &str,
    positional: &Vec<String>,
    reconfigure: bool,
    prefix: &str,
    root: &str,
    windows: bool,
) -> (r: Result<ProjectAction, Error>)
    ensures
        action_for(command@, text::views(positional@), reconfigure, prefix@, root@, windows, r),
{
    let c = command;
    if text::same(c, "task") {
        return if positional.len() == 0 {
            Err(Error::Config(text::owned("task requires a name")))
        } else {
            Ok(ProjectAction::Task(positional[0].clone()))
        };
    }
    if text::same(c, "install") {
        return Ok(ProjectAction::Install(paths::native_join_text(root, prefix, windows)));
    }
    if text::same(c, "setup") || text::same(c, "configure") {
        Ok(ProjectAction::Setup(reconfigure))
    } else if text::same(c, "build") || text::same(c, "compile") {
        Ok(ProjectAction::Build)
    } else if text::same(c, "clean") {
        Ok(ProjectAction::Clean)
    } else if text::same(c, "doctor") || text::same(c, "doc") {
        Ok(ProjectAction::Doctor)
    } else if text::same(c, "rebuild") {
        Ok(ProjectAction::Rebuild)
    } else if text::same(c, "targets") || text::same(c, "list") {
        Ok(ProjectAction::ListTargets)
    } else if text::same(c, "validate") {
        Ok(ProjectAction::Validate)
    } else if text::same(c, "env") {
        Ok(ProjectAction::Env)
    } else if text::same(c, "status") || text::same(c, "stat") {
        Ok(ProjectAction::Status)
    } else if text::same(c, "graph") {
        Ok(ProjectAction::Graph)
    } else if text::same(c, "run") {
        Ok(ProjectAction::Run)
    } else if text::same(c, "test") {
        Ok(ProjectAction::Task(text::owned("test")))
    } else if text::same(c, "uninstall") {
        Ok(ProjectAction::Uninstall(paths::native_join_text(root, prefix, windows)))
    } else if text::same(c, "tasks") {
        Ok(ProjectAction::ListTasks)
    } else if text::same(c, "help") {
        let topic = if positional.len() > 0 {
            positional[0].clone()
        } else {
            String::new()
        };
        Ok(ProjectAction::Help(topic))
    } else if text::same(c, "bump-version") || text::same(c, "bump") {
        Ok(ProjectAction::BumpVersion)
    } else {
        let mut m = text::owned("unknown command '");
        text::push_str(&mut m, c);
        text::push_str(&mut m, "'");
        Err(Error::Config(m))
    }
}

/// Checks the arguments of `nox bump-version` and the `VERSION` file's
/// presence.
pub fn bump_check(argument_count: usize, version_file_exists: bool) -> (r: Result<(), Error>)
    ensures
        argument_count > 1 ==> (r matches Err(Error::Config(m)) && m@ == "bump-version accepts at most one version or release type"@),
        argument_count <= 1 && !version_file_exists ==> (r matches Err(Error::Config(m)) && m@ == "VERSION file is required"@),
        argument_count <= 1 && version_file_exists ==> r is Ok,
{
    if argument_count > 1 {
        return Err(Error::Config(text::owned("bump-version accepts at most one version or release type")));
    }
    if !version_file_exists {
        return Err(Error::Config(text::owned("VERSION file is required")));
    }
    Ok(())
}

/// Where the project is: the current directory when it holds `nox.build`,
/// else its parent when that does (with a warning that the search went
/// up), else an error.
pub fn locate_root(current: &str, has_build: bool, parent: Option<&str>, parent_has_build: bool) -> (r: Result<(String, Option<String>), Error>)
    ensures
        has_build ==> (r matches Ok((root, None)) && root@ == current@),
        !has_build && parent is Some && parent_has_build ==> (r matches Ok((root, Some(w))) && root@ == parent->0@
            && w@ == "path '"@ + current@ + "' does not contain a 'nox.build', searching up"@),
        !has_build && !(parent is Some && parent_has_build) ==> (r matches Err(Error::Config(m))
            && m@ == "could not find a 'nox.build' file"@),
{
    if has_build {
        return Ok((text::owned(current), None));
    }
    match parent {
        Some(p) => if parent_has_build {
            let mut w = text::owned("path '");
            text::push_str(&mut w, current);
            text::push_str(&mut w, "' does not contain a 'nox.build', searching up");
            Ok((text::owned(p), Some(w)))
        } else {
            Err(Error::Config(text::owned("could not find a 'nox.build' file")))
        },
        None => Err(Error::Config(text::owned("could not find a 'nox.build' file"))),
    }
}

proof fn lemma_version_text_parts(a: nat, b: nat, c: nat)
    requires
        a <= u64::MAX,
        b <= u64::MAX,
        c <= u64::MAX,
    ensures
        version_parts(text::decimal(a) + seq!['.'] + text::decimal(b) + seq!['.'] + text::decimal(c)) == Some(
            (a as u64, b as u64, c as u64),
        ),
{
    let (x, y, z) = (text::decimal(a), text::decimal(b), text::decimal(c));
    text::lemma_decimal_reads_back(a);
    text::lemma_decimal_reads_back(b);
    text::lemma_decimal_reads_back(c);
    assert forall|d: Seq<char>| text::all_digits(d) implies !d.contains('.') by {
        if d.contains('.') {
            let k = choose|k: int| 0 <= k < d.len() && d[k] == '.';
            assert(is_digit(d[k]));
        }
    }
    text::lemma_split_whole(z, '.');
    text::lemma_split_first(y, '.', z);
    text::lemma_split_first(x, '.', y + seq!['.'] + z);
    assert(x + seq!['.'] + y + seq!['.'] + z == x + seq!['.'] + (y + seq!['.'] + z));
    let parts = text::split(x + seq!['.'] + y + seq!['.'] + z, '.');
    assert(parts == seq![x, y, z]);
}

/// Law: `nox bump-version` raises the part it is asked for by one and resets
/// the parts after it: from `A.B.C`, `major` gives `A+1.0.0`, `minor` gives
/// `A.B+1.0` and `patch` gives `A.B.C+1`, each again a version.
pub proof fn lemma_bump_raises_one_part(a: u64, b: u64, c: u64)
    requires
        a < u64::MAX,
        b < u64::MAX,
        c < u64::MAX,
    ensures
        version_parts(bumped((a, b, c), "major"@)) == Some(((a + 1) as u64, 0u64, 0u64)),
        version_parts(bumped((a, b, c), "minor"@)) == Some((a, (b + 1) as u64, 0u64)),
        version_parts(bumped((a, b, c), "patch"@)) == Some((a, b, (c + 1) as u64)),
{
    reveal_strlit("major");
    reveal_strlit("minor");
    reveal_strlit("patch");
    reveal_strlit(".0.0");
    reveal_strlit(".0");
    reveal_strlit(".");
    assert("minor"@[1] != "major"@[1]);
    assert("patch"@[0] != "major"@[0] && "patch"@[0] != "minor"@[0]);
    let zero = text::decimal(0);
    assert(zero == seq!['0']);
    assert(".0.0"@ == seq!['.'] + zero + seq!['.'] + zero);
    assert(".0"@ == seq!['.'] + zero);
    lemma_version_text_parts((a + 1) as nat, 0, 0);
    assert(bumped((a, b, c), "major"@) == text::decimal((a + 1) as nat) + seq!['.'] + zero + seq!['.'] + zero);
    lemma_version_text_parts(a as nat, (b + 1) as nat, 0);
    assert(bumped((a, b, c), "minor"@) == text::decimal(a as nat) + seq!['.'] + text::decimal((b + 1) as nat) + seq!['.'] + zero);
    lemma_version_text_parts(a as nat, b as nat, (c + 1) as nat);
    assert(bumped((a, b, c), "patch"@) == text::decimal(a as nat) + seq!['.'] + text::decimal(b as nat) + seq!['.'] + text::decimal((c + 1) as nat));
}

} // verus!
