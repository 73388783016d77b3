//! Semantic versions, release channels and the decisions of `nox update`
//! and `nox bump-version`.
use vstd::prelude::*;
use crate::domain::error::Error;
use crate::text;
use crate::text::{parse_u64, text_lt};

verus! {

/// The result of comparing two values.
#[derive(Clone, Copy, Debug, PartialEq, Eq, Structural)]
pub enum Order {
    Less,
    Equal,
    Greater,
}

/// `MAJOR.MINOR.PATCH` with optional dot-separated pre-release identifiers.
#[derive(Clone, Debug)]
pub struct SemVersion {
    pub major: u64,
    pub minor: u64,
    pub patch: u64,
    pub prerelease: Vec<String>,
}

pub open spec fn order_of(a: int, b: int) -> Order {
    if a < b {
        Order::Less
    } else if a == b {
        Order::Equal
    } else {
        Order::Greater
    }
}

pub open spec fn text_order(a: Seq<char>, b: Seq<char>) -> Order {
    if text_lt(a, b) {
        Order::Less
    } else if a == b {
        Order::Equal
    } else {
        Order::Greater
    }
}

/// Numeric identifiers compare as numbers and before other identifiers,
/// which compare as text.
pub open spec fn identifier_order(a: Seq<char>, b: Seq<char>) -> Order {
    match (parse_u64(a), parse_u64(b)) {
        (Some(x), Some(y)) => order_of(x as int, y as int),
        (Some(_), None) => Order::Less,
        (None, Some(_)) => Order::Greater,
        (None, None) => text_order(a, b),
    }
}

/// Pre-release identifiers compared in order from `i`; when one list is a
/// prefix of the other, the shorter comes first.
pub open spec fn prerelease_order(a: Seq<Seq<char>>, b: Seq<Seq<char>>, i: int) -> Order
    decreases a.len() - i,
{
    if i < 0 || i >= a.len() || i >= b.len() {
        order_of(a.len() as int, b.len() as int)
    } else if identifier_order(a[i], b[i]) != Order::Equal {
        identifier_order(a[i], b[i])
    } else {
        prerelease_order(a, b, i + 1)
    }
}

/// Versions ordered by major, minor and patch; a release comes after its
/// pre-releases.
pub open spec fn version_order(a: SemVersion, b: SemVersion) -> Order {
    if a.major != b.major {
        order_of(a.major as int, b.major as int)
    } else if a.minor != b.minor {
        order_of(a.minor as int, b.minor as int)
    } else if a.patch != b.patch {
        order_of(a.patch as int, b.patch as int)
    } else if a.prerelease@.len() == 0 && b.prerelease@.len() == 0 {
        Order::Equal
    } else if a.prerelease@.len() == 0 {
        Order::Greater
    } else if b.prerelease@.len() == 0 {
        Order::Less
    } else {
        prerelease_order(text::views(a.prerelease@), text::views(b.prerelease@), 0)
    }
}

fn order_u64(a: u64, b: u64) -> (r: Order)
    ensures
        r == order_of(a as int, b as int),
{
    if a < b {
        Order::Less
    } else if a == b {
        Order::Equal
    } else {
        Order::Greater
    }
}

fn identifier_compare(a: &str, b: &str) -> (r: Order)
    ensures
        r == identifier_order(a@, b@),
{
    let x = text::parse_u64_chars(&text::chars_of(a));
    let y = text::parse_u64_chars(&text::chars_of(b));
    match (x, y) {
        (Some(p), Some(q)) => order_u64(p, q),
        (Some(_), None) => Order::Less,
        (None, Some(_)) => Order::Greater,
        (None, None) => {
            if text::less_str(a, b) {
                Order::Less
            } else if text::same(a, b) {
                Order::Equal
            } else {
                Order::Greater
            }
        },
    }
}

/// Compares pre-release identifier lists.
pub fn compare_prerelease(left: &Vec<String>, right: &Vec<String>) -> (r: Order)
    ensures
        r == prerelease_order(text::views(left@), text::views(right@), 0),
{
    let mut i: usize = 0;
    while i < left.len() && i < right.len()
        invariant
            i <= left@.len(),
            i <= right@.len(),
            prerelease_order(text::views(left@), text::views(right@), 0) == prerelease_order(
                text::views(left@),
                text::views(right@),
                i as int,
            ),
        decreases left@.len() - i,
    {
        let ordering = identifier_compare(left[i].as_str(), right[i].as_str());
        if ordering != Order::Equal {
            return ordering;
        }
        i = i + 1;
    }
    order_u64(left.len() as u64, right.len() as u64)
}

/// Compares two versions.
pub fn compare_versions(left: &SemVersion, right: &SemVersion) -> (r: Order)
    ensures
        r == version_order(*left, *right),
{
    if left.major != right.major {
        order_u64(left.major, right.major)
    } else if left.minor != right.minor {
        order_u64(left.minor, right.minor)
    } else if left.patch != right.patch {
        order_u64(left.patch, right.patch)
    } else if left.prerelease.len() == 0 && right.prerelease.len() == 0 {
        Order::Equal
    } else if left.prerelease.len() == 0 {
        Order::Greater
    } else if right.prerelease.len() == 0 {
        Order::Less
    } else {
        compare_prerelease(&left.prerelease, &right.prerelease)
    }
}

/// The same comparison seen from the other side.
pub open spec fn reversed(o: Order) -> Order {
    match o {
        Order::Less => Order::Greater,
        Order::Equal => Order::Equal,
        Order::Greater => Order::Less,
    }
}

proof fn lemma_identifier_order_reversed(a: Seq<char>, b: Seq<char>)
    ensures
        identifier_order(b, a) == reversed(identifier_order(a, b)),
        identifier_order(a, a) == Order::Equal,
{
    text::lemma_text_order();
    assert(text_lt(a, b) ==> text::text_le(a, b));
    assert(text_lt(b, a) ==> text::text_le(b, a));
    assert(text::text_le(a, b) || text::text_le(b, a));
    assert(!text_lt(a, a));
    if text_lt(a, b) && text_lt(b, a) {
        assert(a == b);
    }
}

proof fn lemma_prerelease_order_reversed(a: Seq<Seq<char>>, b: Seq<Seq<char>>, i: int)
    requires
        0 <= i,
    ensures
        prerelease_order(b, a, i) == reversed(prerelease_order(a, b, i)),
        prerelease_order(a, a, i) == Order::Equal,
    decreases a.len() - i,
{
    if i < a.len() && i < b.len() {
        lemma_identifier_order_reversed(a[i], b[i]);
        lemma_prerelease_order_reversed(a, b, i + 1);
    }
    if i < a.len() {
        lemma_identifier_order_reversed(a[i], a[i]);
        lemma_prerelease_order_reversed(a, a, i + 1);
    }
}

/// Comparing two versions the other way round gives the reversed answer,
/// and a version compares equal to itself.
pub proof fn lemma_version_order_reversed(a: SemVersion, b: SemVersion)
    ensures
        version_order(b, a) == reversed(version_order(a, b)),
        version_order(a, a) == Order::Equal,
{
    lemma_prerelease_order_reversed(text::views(a.prerelease@), text::views(b.prerelease@), 0);
    lemma_prerelease_order_reversed(text::views(a.prerelease@), text::views(a.prerelease@), 0);
}

proof fn lemma_identifier_order_transitive(a: Seq<char>, b: Seq<char>, c: Seq<char>)
    ensures
        identifier_order(a, b) == Order::Less && identifier_order(b, c) == Order::Less
            ==> identifier_order(a, c) == Order::Less,
        identifier_order(a, b) == Order::Less && identifier_order(b, c) == Order::Equal
            ==> identifier_order(a, c) == Order::Less,
        identifier_order(a, b) == Order::Equal && identifier_order(b, c) == Order::Less
            ==> identifier_order(a, c) == Order::Less,
        identifier_order(a, b) == Order::Equal && identifier_order(b, c) == Order::Equal
            ==> identifier_order(a, c) == Order::Equal,
{
    text::lemma_text_order();
    assert(text_lt(a, b) ==> text::text_le(a, b));
    assert(text_lt(b, c) ==> text::text_le(b, c));
    assert(text_lt(c, a) ==> text::text_le(c, a));
    assert(!text_lt(a, a));
    if text_lt(a, b) && text_lt(b, c) {
        assert(text::text_le(a, c));
        if a == c {
            assert(text::text_le(b, a));
            assert(a == b);
        }
    }
}

proof fn lemma_prerelease_order_transitive(
    a: Seq<Seq<char>>,
    b: Seq<Seq<char>>,
    c: Seq<Seq<char>>,
    i: int,
)
    requires
        0 <= i,
    ensures
        prerelease_order(a, b, i) == Order::Less && prerelease_order(b, c, i) == Order::Less
            ==> prerelease_order(a, c, i) == Order::Less,
        prerelease_order(a, b, i) == Order::Equal && prerelease_order(b, c, i) == Order::Equal
            ==> prerelease_order(a, c, i) == Order::Equal,
    decreases a.len() - i,
{
    if i < a.len() && i < b.len() && i < c.len() {
        lemma_identifier_order_transitive(a[i], b[i], c[i]);
        lemma_prerelease_order_transitive(a, b, c, i + 1);
    }
}

/// Comparing versions is transitive: what comes before a version that comes
/// before a third also comes before the third, and versions equal to a common
/// version compare equal.
pub proof fn lemma_version_order_transitive(a: SemVersion, b: SemVersion, c: SemVersion)
    ensures
        version_order(a, b) == Order::Less && version_order(b, c) == Order::Less
            ==> version_order(a, c) == Order::Less,
        version_order(a, b) == Order::Equal && version_order(b, c) == Order::Equal
            ==> version_order(a, c) == Order::Equal,
{
    lemma_prerelease_order_transitive(
        text::views(a.prerelease@),
        text::views(b.prerelease@),
        text::views(c.prerelease@),
        0,
    );
}

/// The version text without one leading `v` and without build metadata
/// after `+`.
pub open spec fn version_body(value: Seq<char>) -> Seq<char> {
    let v = if value.len() > 0 && value[0] == 'v' {
        value.skip(1)
    } else {
        value
    };
    match text::split_once(v, '+') {
        Some((a, _)) => a,
        None => v,
    }
}

/// The core and pre-release parts of a version body.
pub open spec fn core_of(body: Seq<char>) -> Seq<char> {
    match text::split_once(body, '-') {
        Some((a, _)) => a,
        None => body,
    }
}

pub open spec fn prerelease_of(body: Seq<char>) -> Seq<char> {
    match text::split_once(body, '-') {
        Some((_, b)) => b,
        None => Seq::empty(),
    }
}

/// Whether a version text is valid: three non-empty numeric core parts.
pub open spec fn valid_semver(value: Seq<char>) -> bool {
    let parts = text::split(core_of(version_body(value)), '.');
    &&& parts.len() == 3
    &&& forall|i: int| 0 <= i < 3 ==> parts[i].len() > 0 && (#[trigger] parse_u64(parts[i])) is Some
}

/// Parses a semantic version such as `v1.2.3-rc.1+build`.
pub fn parse_semver(value: &str) -> (r: Result<SemVersion, Error>)
    ensures
        r is Ok <==> valid_semver(value@),
        r matches Ok(v) ==> ({
            let parts = text::split(core_of(version_body(value@)), '.');
            &&& Some(v.major) == parse_u64(parts[0])
            &&& Some(v.minor) == parse_u64(parts[1])
            &&& Some(v.patch) == parse_u64(parts[2])
            &&& text::views(v.prerelease@) == if prerelease_of(version_body(value@)).len() == 0 {
                Seq::<Seq<char>>::empty()
            } else {
                text::split(prerelease_of(version_body(value@)), '.')
            }
        }),
        r matches Err(e) ==> e matches Error::Config(m) && m@ == "version '"@ + version_body(value@)
            + "' is not valid semantic version"@,
{
    let all = text::chars_of(value);
    let stripped = if all.len() > 0 && all[0] == 'v' {
        text::slice_chars(&all, 1, all.len())
    } else {
        all
    };
    let body = match text::split_once_char(&stripped, '+') {
        Some((a, _)) => a,
        None => stripped,
    };
    assert(body@ == version_body(value@));
    let (core, prerelease) = match text::split_once_char(&body, '-') {
        Some((a, b)) => (a, b),
        None => (body.clone(), Vec::new()),
    };
    assert(core@ == core_of(body@));
    assert(prerelease@ == prerelease_of(body@));
    let parts = text::split_char(&core, '.');
    proof {
        assert(parts@.len() == parts@.map_values(|p: Vec<char>| p@).len());
    }
    let error_message = {
        let mut m = text::owned("version '");
        let b = text::string_of(&body);
        text::push_str(&mut m, b.as_str());
        text::push_str(&mut m, "' is not valid semantic version");
        m
    };
    if parts.len() != 3 {
        return Err(Error::Config(error_message));
    }
    assert(parts@[0]@ == text::split(core@, '.')[0]);
    assert(parts@[1]@ == text::split(core@, '.')[1]);
    assert(parts@[2]@ == text::split(core@, '.')[2]);
    if parts[0].len() == 0 || parts[1].len() == 0 || parts[2].len() == 0 {
        return Err(Error::Config(error_message));
    }
    let major = text::parse_u64_chars(&parts[0]);
    let minor = text::parse_u64_chars(&parts[1]);
    let patch = text::parse_u64_chars(&parts[2]);
    match (major, minor, patch) {
        (Some(major), Some(minor), Some(patch)) => {
            let mut identifiers: Vec<String> = Vec::new();
            if prerelease.len() > 0 {
                let pieces = text::split_char(&prerelease, '.');
                let mut k: usize = 0;
                while k < pieces.len()
                    invariant
                        k <= pieces@.len(),
                        text::views(identifiers@) == pieces@.map_values(|p: Vec<char>| p@).take(k as int),
                    decreases pieces@.len() - k,
                {
                    let ghost before = identifiers@;
                    identifiers.push(text::string_of(&pieces[k]));
                    assert(text::views(identifiers@) == text::views(before).push(pieces@[k as int]@));
                    assert(pieces@.map_values(|p: Vec<char>| p@).take(k + 1) == pieces@.map_values(|p: Vec<char>| p@).take(k as int).push(pieces@[k as int]@));
                    k = k + 1;
                }
                assert(pieces@.map_values(|p: Vec<char>| p@).take(pieces@.len() as int) == pieces@.map_values(|p: Vec<char>| p@));
            }
            Ok(SemVersion { major, minor, patch, prerelease: identifiers })
        },
        _ => Err(Error::Config(error_message)),
    }
}

/// How a version is written: `MAJOR.MINOR.PATCH` and `-PRE` when there
/// are pre-release identifiers.
pub open spec fn version_text(v: SemVersion) -> Seq<char> {
    text::decimal(v.major as nat) + "."@ + text::decimal(v.minor as nat) + "."@ + text::decimal(v.patch as nat)
        + if v.prerelease@.len() == 0 {
        Seq::empty()
    } else {
        "-"@ + text::join(text::views(v.prerelease@), "."@)
    }
}

impl SemVersion {
    /// The version as text.
    pub fn to_text(&self) -> (r: String)
        ensures
            r@ == version_text(*self),
    {
        let mut out = text::u64_to_string(self.major);
        text::push_str(&mut out, ".");
        let minor = text::u64_to_string(self.minor);
        text::push_str(&mut out, minor.as_str());
        text::push_str(&mut out, ".");
        let patch = text::u64_to_string(self.patch);
        text::push_str(&mut out, patch.as_str());
        if self.prerelease.len() > 0 {
            text::push_str(&mut out, "-");
            let pre = text::join_strings(&self.prerelease, ".");
            text::push_str(&mut out, pre.as_str());
        }
        out
    }
}

/// The release channel that `nox update` follows.
#[derive(Clone, Copy, Debug, PartialEq, Eq, Structural)]
pub enum UpdateChannel {
    Stable,
    Dev,
}

impl UpdateChannel {
    pub fn parse(value: &str) -> (r: Result<UpdateChannel, Error>)
        ensures
            value@ == "stable"@ ==> r == Ok::<UpdateChannel, Error>(UpdateChannel::Stable),
            value@ == "dev"@ ==> r == Ok::<UpdateChannel, Error>(UpdateChannel::Dev),
            value@ != "stable"@ && value@ != "dev"@ ==> (r matches Err(Error::Config(m)) && m@
                == "unknown update channel '"@ + value@ + "' (expected stable or dev)"@),
    {
        proof {
            reveal_strlit("stable");
            reveal_strlit("dev");
            assert("dev"@ != "stable"@) by {
                assert("dev"@.len() != "stable"@.len());
            }
        }
        if text::same(value, "stable") {
            Ok(UpdateChannel::Stable)
        } else if text::same(value, "dev") {
            Ok(UpdateChannel::Dev)
        } else {
            let mut m = text::owned("unknown update channel '");
            text::push_str(&mut m, value);
            text::push_str(&mut m, "' (expected stable or dev)");
            Err(Error::Config(m))
        }
    }

    /// The branch that the channel follows.
    pub fn branch(self) -> (r: &'static str)
        ensures
            self == UpdateChannel::Stable ==> r@ == "master"@,
            self == UpdateChannel::Dev ==> r@ == "dev"@,
    {
        match self {
            UpdateChannel::Stable => "master",
            UpdateChannel::Dev => "dev",
        }
    }
}

/// Where the version of a check comes from.
pub enum UpdateTarget {
    /// The latest version of a channel.
    Channel(UpdateChannel),
    /// A version asked for by number.
    Version(SemVersion),
}

/// What `nox update` does once the target version is known.
pub enum UpdateOutcome {
    /// Nothing to install; print the message.
    Nothing(String),
    /// Install: print the message, run `cargo install` with these
    /// arguments after the repository ones, and set the channel variable.
    Install(String, Vec<String>, String),
}

/// The branch a channel follows.
pub open spec fn branch_of(c: UpdateChannel) -> Seq<char> {
    match c {
        UpdateChannel::Stable => "master"@,
        UpdateChannel::Dev => "dev"@,
    }
}

/// The arguments that select what `cargo install` fetches: a channel's
/// branch, or a version's tag.
pub open spec fn selector(t: UpdateTarget) -> Seq<Seq<char>> {
    match t {
        UpdateTarget::Channel(c) => seq!["--branch"@, branch_of(c)],
        UpdateTarget::Version(v) => seq!["--tag"@, "v"@ + version_text(v)],
    }
}

/// The arguments that select what `cargo install` fetches.
pub fn install_selector(target: &UpdateTarget) -> (r: Vec<String>)
    ensures
        text::views(r@) == selector(*target),
{
    let mut args: Vec<String> = Vec::new();
    match target {
        UpdateTarget::Channel(channel) => {
            args.push(text::owned("--branch"));
            args.push(text::owned(channel.branch()));
        },
        UpdateTarget::Version(v) => {
            args.push(text::owned("--tag"));
            let t = v.to_text();
            args.push(text::concat("v", t.as_str()));
        },
    }
    assert(text::views(args@) =~= selector(*target));
    args
}

/// Whether an update follows the development channel.
pub open spec fn follows_dev(t: UpdateTarget) -> bool {
    t == UpdateTarget::Channel(UpdateChannel::Dev)
}

/// The message when nothing is installed, or `None` when the target is
/// newer than the installed version.
pub open spec fn nothing_message(t: UpdateTarget, target: SemVersion, current: SemVersion, installed: Seq<char>) -> Option<Seq<char>> {
    let shown = version_text(target);
    let o = version_order(target, current);
    match t {
        UpdateTarget::Version(_) => if o == Order::Equal {
            Some("Nox "@ + shown + " is already installed."@)
        } else if o == Order::Less {
            Some("Requested version ("@ + shown + ") is older than the installed version ("@ + installed
                + ").\nNox will not downgrade automatically."@)
        } else {
            None
        },
        UpdateTarget::Channel(_) => if o == Order::Equal {
            if follows_dev(t) {
                Some("Nox is already up to date with the development channel ("@ + shown + ")."@)
            } else {
                Some("Nox is already up to date ("@ + shown + ")."@)
            }
        } else if o == Order::Less {
            Some("Installed Nox version ("@ + installed + (if follows_dev(t) {
                ") is newer than the latest development version ("@
            } else {
                ") is newer than the latest stable version ("@
            }) + shown + ").\nNox will not downgrade automatically."@)
        } else {
            None
        },
    }
}

/// The channel name that an installation records.
pub open spec fn channel_name(t: UpdateTarget) -> Seq<char> {
    match t {
        UpdateTarget::Channel(UpdateChannel::Stable) => "stable"@,
        UpdateTarget::Channel(UpdateChannel::Dev) => "dev"@,
        UpdateTarget::Version(_) => "unknown"@,
    }
}

/// The message before an installation.
pub open spec fn install_message(t: UpdateTarget, target: SemVersion) -> Seq<char> {
    "A newer "@ + (if follows_dev(t) { "development"@ } else { "stable"@ }) + " version of Nox is available: "@
        + version_text(target) + ".\nUpdating..."@
}

/// Compares the version to install with the installed one: an equal or
/// older version is not installed, with a message saying why; a newer one
/// is installed from the target's branch or tag.
pub fn update_outcome(target: &UpdateTarget, target_version: &SemVersion, current: &SemVersion, installed: &str) -> (r: UpdateOutcome)
    ensures
        match nothing_message(*target, *target_version, *current, installed@) {
            Some(m) => r matches UpdateOutcome::Nothing(t) && t@ == m,
            None => r matches UpdateOutcome::Install(m, args, channel) && m@ == install_message(*target, *target_version)
                && text::views(args@) == selector(*target) && channel@ == channel_name(*target),
        },
{
    let ordering = compare_versions(target_version, current);
    let shown = target_version.to_text();
    let dev = match target {
        UpdateTarget::Channel(UpdateChannel::Dev) => true,
        _ => false,
    };
    match target {
        UpdateTarget::Version(_) => {
            if ordering == Order::Equal {
                let mut m = text::owned("Nox ");
                text::push_str(&mut m, shown.as_str());
                text::push_str(&mut m, " is already installed.");
                return UpdateOutcome::Nothing(m);
            }
            if ordering == Order::Less {
                let mut m = text::owned("Requested version (");
                text::push_str(&mut m, shown.as_str());
                text::push_str(&mut m, ") is older than the installed version (");
                text::push_str(&mut m, installed);
                text::push_str(&mut m, ").\nNox will not downgrade automatically.");
                return UpdateOutcome::Nothing(m);
            }
        },
        UpdateTarget::Channel(_) => {
            if ordering == Order::Equal {
                let m = if dev {
                    let mut m = text::owned("Nox is already up to date with the development channel (");
                    text::push_str(&mut m, shown.as_str());
                    text::push_str(&mut m, ").");
                    m
                } else {
                    let mut m = text::owned("Nox is already up to date (");
                    text::push_str(&mut m, shown.as_str());
                    text::push_str(&mut m, ").");
                    m
                };
                return UpdateOutcome::Nothing(m);
            }
            if ordering == Order::Less {
                let mut m = text::owned("Installed Nox version (");
                text::push_str(&mut m, installed);
                if dev {
                    text::push_str(&mut m, ") is newer than the latest development version (");
                } else {
                    text::push_str(&mut m, ") is newer than the latest stable version (");
                }
                text::push_str(&mut m, shown.as_str());
                text::push_str(&mut m, ").\nNox will not downgrade automatically.");
                return UpdateOutcome::Nothing(m);
            }
        },
    }
    let mut m = text::owned("A newer ");
    text::push_str(&mut m, if dev { "development" } else { "stable" });
    text::push_str(&mut m, " version of Nox is available: ");
    text::push_str(&mut m, shown.as_str());
    text::push_str(&mut m, ".\nUpdating...");
    let channel_name = match target {
        UpdateTarget::Channel(UpdateChannel::Stable) => text::owned("stable"),
        UpdateTarget::Channel(UpdateChannel::Dev) => text::owned("dev"),
        UpdateTarget::Version(_) => text::owned("unknown"),
    };
    UpdateOutcome::Install(m, install_selector(target), channel_name)
}

/// The commit that `git ls-remote` reports: the first word of its output.
pub fn latest_commit(output: &str) -> (r: Result<String, Error>)
    ensures
        if crate::task::words_from(output@, 0).len() == 0 {
            r matches Err(Error::Process(m)) && m@ == "latest Nox commit response was empty"@
        } else {
            r matches Ok(c) && c@ == crate::task::words_from(output@, 0)[0]
        },
{
    let ws = crate::task::words(output);
    if ws.len() == 0 {
        return Err(Error::Process(text::owned("latest Nox commit response was empty")));
    }
    assert(text::views(ws@)[0] == ws@[0]@);
    Ok(text::owned(ws[0].as_str()))
}

/// Where the `VERSION` of a commit is read from; `stamp` keeps caches
/// from answering.
pub fn version_url(commit: &str, stamp: u128) -> (r: String)
    ensures
        r@ == "https://raw.githubusercontent.com/playfairs/nox/"@ + commit@ + "/VERSION?cachebust="@
            + text::decimal(stamp as nat),
{
    let mut r = text::owned("https://raw.githubusercontent.com/playfairs/nox/");
    text::push_str(&mut r, commit);
    text::push_str(&mut r, "/VERSION?cachebust=");
    let digits = u128_to_string(stamp);
    text::push_str(&mut r, digits.as_str());
    r
}

/// Decimal digits of a `u128`.
fn u128_chars(n: u128) -> (r: Vec<char>)
    ensures
        r@ == text::decimal(n as nat),
    decreases n,
{
    if n < 10 {
        let d: u8 = (n as u8) + 48;
        let mut r = Vec::new();
        r.push(d as char);
        r
    } else {
        let mut r = u128_chars(n / 10);
        let d: u8 = ((n % 10) as u8) + 48;
        r.push(d as char);
        r
    }
}

fn u128_to_string(n: u128) -> (r: String)
    ensures
        r@ == text::decimal(n as nat),
{
    let cs = u128_chars(n);
    text::string_of(&cs)
}

/// The arguments of `cargo install` that reinstall Nox into `root`.
pub open spec fn reinstall_arguments(root: Seq<char>, selector: Seq<Seq<char>>) -> Seq<Seq<char>> {
    seq!["install"@, "--git"@, "https://github.com/playfairs/nox.git"@, "nox"@, "--root"@, root] + selector
        + seq!["--locked"@, "--force"@]
}

pub fn cargo_install_arguments(root: &str, selector: &Vec<String>) -> (r: Vec<String>)
    ensures
        text::views(r@) == reinstall_arguments(root@, text::views(selector@)),
{
    let mut r: Vec<String> = Vec::new();
    r.push(text::owned("install"));
    r.push(text::owned("--git"));
    r.push(text::owned("https://github.com/playfairs/nox.git"));
    r.push(text::owned("nox"));
    r.push(text::owned("--root"));
    r.push(text::owned(root));
    assert(text::views(r@) =~= seq!["install"@, "--git"@, "https://github.com/playfairs/nox.git"@, "nox"@, "--root"@, root@]);
    let ghost head = text::views(r@);
    let mut i: usize = 0;
    while i < selector.len()
        invariant
            i <= selector@.len(),
            text::views(r@) == head + text::views(selector@).take(i as int),
        decreases selector@.len() - i,
    {
        let ghost before = r@;
        r.push(text::owned(selector[i].as_str()));
        assert(text::views(r@) =~= text::views(before).push(selector@[i as int]@));
        assert(text::views(selector@).take(i + 1) =~= text::views(selector@).take(i as int).push(selector@[i as int]@));
        i = i + 1;
    }
    assert(text::views(selector@).take(i as int) =~= text::views(selector@));
    let ghost mid = r@;
    r.push(text::owned("--locked"));
    r.push(text::owned("--force"));
    assert(text::views(r@) =~= text::views(mid).push("--locked"@).push("--force"@));
    assert(text::views(r@) =~= reinstall_arguments(root@, text::views(selector@)));
    r
}

/// What `nox update` prints when Nix manages the installation.
pub fn nix_managed_message() -> (r: &'static str)
    ensures
        r@ == "Nox is managed by Nix.\nUpdate Nox through your Nix configuration:\n\n    nix flake update nox\n\nRun this command from your Nix configuration directory."@,
{
    "Nox is managed by Nix.\nUpdate Nox through your Nix configuration:\n\n    nix flake update nox\n\nRun this command from your Nix configuration directory."
}

/// Law: versions are ordered by their numbers before anything else, major
/// first: a larger major number makes a version greater whatever its minor,
/// patch and pre-release; with equal majors the larger minor decides; with
/// equal major and minor the larger patch.
pub proof fn lemma_version_numbers_decide(a: SemVersion, b: SemVersion)
    ensures
        a.major > b.major ==> version_order(a, b) == Order::Greater,
        a.major < b.major ==> version_order(a, b) == Order::Less,
        a.major == b.major && a.minor > b.minor ==> version_order(a, b) == Order::Greater,
        a.major == b.major && a.minor < b.minor ==> version_order(a, b) == Order::Less,
        a.major == b.major && a.minor == b.minor && a.patch > b.patch ==> version_order(a, b) == Order::Greater,
        a.major == b.major && a.minor == b.minor && a.patch < b.patch ==> version_order(a, b) == Order::Less,
        a.major == b.major && a.minor == b.minor && a.patch == b.patch && a.prerelease@.len() == 0
            && b.prerelease@.len() > 0 ==> version_order(a, b) == Order::Greater,
{
}

/// Law: `nox update` installs exactly when the version it would install is
/// newer than the installed one; an equal or older version is never
/// installed (no downgrade), whichever channel or version was asked for.
pub proof fn lemma_update_only_upgrades(t: UpdateTarget, target: SemVersion, current: SemVersion, installed: Seq<char>)
    ensures
        nothing_message(t, target, current, installed) is None <==> version_order(target, current) == Order::Greater,
{
}

proof fn lemma_split_once_absent(s: Seq<char>, c: char)
    requires
        !s.contains(c),
    ensures
        text::split_once(s, c) is None,
{
    text::lemma_char_end(s, c, 0);
    let k = text::char_end(s, c, 0);
    if k < s.len() {
        assert(s[k] == c);
    }
}

/// Law: a release version reads back from its text: `MAJOR.MINOR.PATCH`
/// as written, with or without a leading `v`, is a valid version whose
/// parts are the same numbers.
pub proof fn lemma_release_text_reads_back(v: SemVersion)
    requires
        v.prerelease@.len() == 0,
    ensures
        ({
            let t = version_text(v);
            &&& valid_semver(t)
            &&& valid_semver(seq!['v'] + t)
            &&& version_body(seq!['v'] + t) == version_body(t)
            &&& ({
                let parts = text::split(core_of(version_body(t)), '.');
                &&& parse_u64(parts[0]) == Some(v.major)
                &&& parse_u64(parts[1]) == Some(v.minor)
                &&& parse_u64(parts[2]) == Some(v.patch)
                &&& prerelease_of(version_body(t)).len() == 0
            })
        }),
{
    reveal_strlit(".");
    let (x, y, z) = (text::decimal(v.major as nat), text::decimal(v.minor as nat), text::decimal(v.patch as nat));
    text::lemma_decimal_reads_back(v.major as nat);
    text::lemma_decimal_reads_back(v.minor as nat);
    text::lemma_decimal_reads_back(v.patch as nat);
    let t = version_text(v);
    assert(t == x + seq!['.'] + y + seq!['.'] + z);
    assert forall|k: int| 0 <= k < t.len() implies (#[trigger] t[k] == '.' || text::is_digit(t[k])) by {
        if k < x.len() {
            assert(t[k] == x[k]);
        } else if k == x.len() {
        } else if k < x.len() + 1 + y.len() {
            assert(t[k] == y[k - x.len() - 1]);
        } else if k == x.len() + 1 + y.len() {
        } else {
            assert(t[k] == z[k - x.len() - 2 - y.len()]);
        }
    }
    assert(!t.contains('+')) by {
        if t.contains('+') {
            let k = choose|k: int| 0 <= k < t.len() && t[k] == '+';
            assert(t[k] == '.' || text::is_digit(t[k]));
        }
    }
    assert(!t.contains('-')) by {
        if t.contains('-') {
            let k = choose|k: int| 0 <= k < t.len() && t[k] == '-';
            assert(t[k] == '.' || text::is_digit(t[k]));
        }
    }
    assert(t[0] != 'v') by {
        assert(t[0] == x[0]);
        assert(text::is_digit(x[0]));
    }
    lemma_split_once_absent(t, '+');
    lemma_split_once_absent(t, '-');
    let vt = seq!['v'] + t;
    assert(vt.skip(1) == t);
    assert(version_body(t) == t);
    assert(core_of(t) == t);
    assert(forall|d: Seq<char>| text::all_digits(d) ==> !d.contains('.')) by {
        assert forall|d: Seq<char>| text::all_digits(d) implies !d.contains('.') by {
            if d.contains('.') {
                let k = choose|k: int| 0 <= k < d.len() && d[k] == '.';
                assert(text::is_digit(d[k]));
            }
        }
    }
    text::lemma_split_whole(z, '.');
    text::lemma_split_first(y, '.', z);
    text::lemma_split_first(x, '.', y + seq!['.'] + z);
    assert(x + seq!['.'] + y + seq!['.'] + z == x + seq!['.'] + (y + seq!['.'] + z));
    let parts = text::split(t, '.');
    assert(parts == seq![x, y, z]);
    assert(valid_semver(t));
}

} // verus!
