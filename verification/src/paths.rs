//! Paths written as text with `/` separators: the parts of a path that the
//! build logic reads.
use vstd::prelude::*;
use crate::text;

verus! {

/// The text without trailing `/` characters and trailing `/.` components,
/// which name no further file (a lone `/` stays).
pub open spec fn without_trailing(s: Seq<char>) -> Seq<char>
    decreases s.len(),
{
    if s.len() > 1 && s.last() == '/' {
        without_trailing(s.drop_last())
    } else if s.len() > 1 && s.last() == '.' && s[s.len() - 2] == '/' {
        without_trailing(s.drop_last())
    } else {
        s
    }
}

/// The index after the last `/` in `s`, or 0.
pub open spec fn name_start(s: Seq<char>) -> int
    decreases s.len(),
{
    if s.len() == 0 {
        0
    } else if s.last() == '/' {
        s.len() as int
    } else {
        name_start(s.drop_last())
    }
}

/// The last component of a path, if it names a file or directory (not
/// `..`, `.` or the root).
pub open spec fn file_name(p: Seq<char>) -> Option<Seq<char>> {
    let s = without_trailing(p);
    let name = s.skip(name_start(s));
    if name.len() == 0 || name == seq!['.', '.'] || name == seq!['.'] {
        None
    } else {
        Some(name)
    }
}

/// The index of the last `.` in `s`, if any.
pub open spec fn last_dot(s: Seq<char>) -> Option<int>
    decreases s.len(),
{
    if s.len() == 0 {
        None
    } else if s.last() == '.' {
        Some(s.len() - 1)
    } else {
        last_dot(s.drop_last())
    }
}

/// The text after the last `.` of the file name, unless the name has no
/// `.` or only a leading one.
pub open spec fn extension(p: Seq<char>) -> Option<Seq<char>> {
    match file_name(p) {
        Some(name) => match last_dot(name) {
            Some(d) => if d == 0 {
                None
            } else {
                Some(name.skip(d + 1))
            },
            None => None,
        },
        None => None,
    }
}

/// The file name without its extension.
pub open spec fn file_stem(p: Seq<char>) -> Option<Seq<char>> {
    match file_name(p) {
        Some(name) => match last_dot(name) {
            Some(d) => if d == 0 {
                Some(name)
            } else {
                Some(name.take(d))
            },
            None => Some(name),
        },
        None => None,
    }
}

proof fn lemma_name_start(s: Seq<char>)
    ensures
        0 <= name_start(s) <= s.len(),
        forall|k: int| name_start(s) <= k < s.len() ==> s[k] != '/',
    decreases s.len(),
{
    if s.len() > 0 && s.last() != '/' {
        lemma_name_start(s.drop_last());
        assert forall|k: int| name_start(s) <= k < s.len() implies s[k] != '/' by {
            if k < s.len() - 1 {
                assert(s.drop_last()[k] == s[k]);
            }
        }
    }
}

proof fn lemma_last_dot(s: Seq<char>)
    ensures
        last_dot(s) matches Some(d) ==> 0 <= d < s.len() && s[d] == '.' && forall|k: int| d < k < s.len() ==> s[k] != '.',
        last_dot(s) is None ==> forall|k: int| 0 <= k < s.len() ==> s[k] != '.',
    decreases s.len(),
{
    if s.len() > 0 && s.last() != '.' {
        lemma_last_dot(s.drop_last());
        assert forall|k: int| 0 <= k < s.len() - 1 implies s.drop_last()[k] == s[k] by {}
    }
}

fn trailing_end(s: &Vec<char>) -> (r: usize)
    ensures
        r <= s@.len(),
        s@.take(r as int) == without_trailing(s@),
{
    let mut end = s.len();
    assert(s@.take(end as int) == s@);
    while end > 1 && (s[end - 1] == '/' || (s[end - 1] == '.' && s[end - 2] == '/'))
        invariant
            end <= s@.len(),
            without_trailing(s@.take(end as int)) == without_trailing(s@),
        decreases end,
    {
        assert(s@.take(end as int).drop_last() == s@.take(end - 1));
        end = end - 1;
    }
    end
}

fn name_start_at(s: &Vec<char>, end: usize) -> (r: usize)
    requires
        end <= s@.len(),
    ensures
        r == name_start(s@.take(end as int)),
        r <= end,
{
    let mut k = end;
    proof {
        lemma_name_start(s@.take(end as int));
    }
    while k > 0 && s[k - 1] != '/'
        invariant
            k <= end <= s@.len(),
            name_start(s@.take(k as int)) == name_start(s@.take(end as int)),
        decreases k,
    {
        assert(s@.take(k as int).drop_last() == s@.take(k - 1));
        k = k - 1;
    }
    k
}

fn last_dot_of(s: &Vec<char>) -> (r: Option<usize>)
    ensures
        r matches Some(d) ==> last_dot(s@) == Some(d as int) && d < s@.len(),
        r is None ==> last_dot(s@) is None,
{
    proof {
        lemma_last_dot(s@);
    }
    let mut k = s.len();
    assert(s@.take(k as int) == s@);
    while k > 0 && s[k - 1] != '.'
        invariant
            k <= s@.len(),
            last_dot(s@.take(k as int)) == last_dot(s@),
        decreases k,
    {
        assert(s@.take(k as int).drop_last() == s@.take(k - 1));
        k = k - 1;
    }
    if k == 0 {
        None
    } else {
        assert(s@.take(k as int).last() == '.');
        Some(k - 1)
    }
}

/// The last component of a path.
pub fn file_name_of(path: &str) -> (r: Option<String>)
    ensures
        match file_name(path@) {
            Some(n) => r matches Some(t) && t@ == n,
            None => r is None,
        },
{
    let cs = text::chars_of(path);
    let end = trailing_end(&cs);
    let start = name_start_at(&cs, end);
    let name = text::slice_chars(&cs, start, end);
    assert(name@ == without_trailing(path@).skip(name_start(without_trailing(path@))));
    if name.len() == 0 || (name.len() == 2 && name[0] == '.' && name[1] == '.') || (name.len() == 1 && name[0] == '.') {
        proof {
            if name@.len() == 2 && name@[0] == '.' && name@[1] == '.' {
                assert(name@ == seq!['.', '.']);
            }
            if name@.len() == 1 && name@[0] == '.' {
                assert(name@ == seq!['.']);
            }
        }
        None
    } else {
        Some(text::string_of(&name))
    }
}

/// The extension of a path's file name.
pub fn extension_of(path: &str) -> (r: Option<String>)
    ensures
        match extension(path@) {
            Some(e) => r matches Some(t) && t@ == e,
            None => r is None,
        },
{
    match file_name_of(path) {
        Some(name) => {
            let cs = text::chars_of(name.as_str());
            let n = cs.len();
            match last_dot_of(&cs) {
                Some(d) => {
                    if d == 0 {
                        None
                    } else {
                        let e = text::slice_chars(&cs, d + 1, cs.len());
                        Some(text::string_of(&e))
                    }
                },
                None => None,
            }
        },
        None => None,
    }
}

/// The file name of a path without its extension.
pub fn file_stem_of(path: &str) -> (r: Option<String>)
    ensures
        match file_stem(path@) {
            Some(e) => r matches Some(t) && t@ == e,
            None => r is None,
        },
{
    match file_name_of(path) {
        Some(name) => {
            let cs = text::chars_of(name.as_str());
            match last_dot_of(&cs) {
                Some(d) => {
                    if d == 0 {
                        Some(name)
                    } else {
                        let e = text::slice_chars(&cs, 0, d);
                        Some(text::string_of(&e))
                    }
                },
                None => Some(name),
            }
        },
        None => None,
    }
}

/// `Path::join` on text: an absolute `rel` replaces `root`.
pub open spec fn join(root: Seq<char>, rel: Seq<char>) -> Seq<char> {
    if rel.len() > 0 && rel[0] == '/' {
        rel
    } else if root.len() == 0 {
        rel
    } else if root.last() == '/' {
        root + rel
    } else {
        root + seq!['/'] + rel
    }
}

pub fn join_text(root: &str, rel: &str) -> (r: String)
    ensures
        r@ == join(root@, rel@),
{
    let rc = text::chars_of(rel);
    let oc = text::chars_of(root);
    if rc.len() > 0 && rc[0] == '/' {
        text::owned(rel)
    } else if oc.len() == 0 {
        text::owned(rel)
    } else if oc[oc.len() - 1] == '/' {
        text::concat(root, rel)
    } else {
        let mut r = text::owned(root);
        text::push_char(&mut r, '/');
        text::push_str(&mut r, rel);
        r
    }
}

/// A path separator on Windows.
pub open spec fn is_sep(c: char) -> bool {
    c == '/' || c == '\\'
}

/// Whether a Windows path starts with a drive prefix such as `C:`.
pub open spec fn drive_prefix(p: Seq<char>) -> bool {
    p.len() >= 2 && text::is_alpha(p[0]) && p[1] == ':'
}

/// `Path::join` on the platform the program runs on. Elsewhere than on
/// Windows this is `join`. On Windows a path with a drive or UNC prefix
/// replaces `root`, a path with only a root (`\` or `/`) keeps the drive
/// of `root`, and components are separated by `\`.
pub open spec fn native_join(root: Seq<char>, rel: Seq<char>, windows: bool) -> Seq<char> {
    if !windows {
        join(root, rel)
    } else if drive_prefix(rel) || (rel.len() >= 2 && is_sep(rel[0]) && is_sep(rel[1])) {
        rel
    } else if rel.len() > 0 && is_sep(rel[0]) {
        if drive_prefix(root) {
            root.take(2) + rel
        } else {
            rel
        }
    } else if root.len() == 0 {
        rel
    } else if is_sep(root.last()) || (root.len() == 2 && drive_prefix(root)) {
        root + rel
    } else {
        root + seq!['\\'] + rel
    }
}

fn is_sep_char(c: char) -> (r: bool)
    ensures
        r == is_sep(c),
{
    c == '/' || c == '\\'
}

/// `Path::join` on the platform: see `native_join`.
pub fn native_join_text(root: &str, rel: &str, windows: bool) -> (r: String)
    ensures
        r@ == native_join(root@, rel@, windows),
{
    if !windows {
        return join_text(root, rel);
    }
    let rc = text::chars_of(rel);
    let oc = text::chars_of(root);
    let rel_drive = rc.len() >= 2 && text::alpha(rc[0]) && rc[1] == ':';
    let root_drive = oc.len() >= 2 && text::alpha(oc[0]) && oc[1] == ':';
    if rel_drive || (rc.len() >= 2 && is_sep_char(rc[0]) && is_sep_char(rc[1])) {
        text::owned(rel)
    } else if rc.len() > 0 && is_sep_char(rc[0]) {
        if root_drive {
            let d = text::slice_chars(&oc, 0, 2);
            let mut r = text::string_of(&d);
            text::push_str(&mut r, rel);
            r
        } else {
            text::owned(rel)
        }
    } else if oc.len() == 0 {
        text::owned(rel)
    } else if is_sep_char(oc[oc.len() - 1]) || (oc.len() == 2 && root_drive) {
        text::concat(root, rel)
    } else {
        let mut r = text::owned(root);
        text::push_char(&mut r, '\\');
        text::push_str(&mut r, rel);
        r
    }
}

/// The text that orders paths as `Path` does: `/` sorts below every other
/// character, so that paths compare component by component (for paths
/// without empty or `.` components).
pub open spec fn path_key(p: Seq<char>) -> Seq<char> {
    p.map_values(|c: char| if c == '/' { '\0' } else { c })
}

/// Paths in ascending `Path` order.
pub open spec fn sorted_paths(s: Seq<String>) -> bool {
    forall|i: int, j: int| 0 <= i < j < s.len() ==> text::text_le(path_key(#[trigger] s[i]@), path_key(#[trigger] s[j]@))
}

fn key_chars(path: &str) -> (r: Vec<char>)
    ensures
        r@ == path_key(path@),
{
    let cs = text::chars_of(path);
    let mut r: Vec<char> = Vec::new();
    let mut i: usize = 0;
    while i < cs.len()
        invariant
            i <= cs@.len(),
            cs@ == path@,
            r@ == path_key(cs@.take(i as int)),
        decreases cs@.len() - i,
    {
        r.push(if cs[i] == '/' { '\0' } else { cs[i] });
        assert(path_key(cs@.take(i + 1)) == path_key(cs@.take(i as int)).push(if cs@[i as int] == '/' { '\0' } else { cs@[i as int] }));
        i = i + 1;
    }
    assert(cs@.take(cs@.len() as int) == cs@);
    r
}

/// Whether `a` comes before `b` in `Path` order.
pub fn path_less(a: &str, b: &str) -> (r: bool)
    ensures
        r == text::text_lt(path_key(a@), path_key(b@)),
{
    let x = key_chars(a);
    let y = key_chars(b);
    text::less_chars(&x, &y)
}

/// Sorts paths in the order of `Path`: component by component.
pub fn sort_paths(v: Vec<String>) -> (r: Vec<String>)
    ensures
        sorted_paths(r@),
        r@.to_multiset() == v@.to_multiset(),
        text::views(r@).to_multiset() == text::views(v@).to_multiset(),
{
    broadcast use vstd::seq_lib::group_to_multiset_ensures;

    proof {
        text::lemma_text_order();
    }
    let mut rest = v;
    let mut out: Vec<String> = Vec::new();
    while rest.len() > 0
        invariant
            sorted_paths(out@),
            out@.to_multiset().add(rest@.to_multiset()) == v@.to_multiset(),
            text::views(out@).to_multiset().add(text::views(rest@).to_multiset()) == text::views(v@).to_multiset(),
            forall|i: int, j: int|
                0 <= i < out@.len() && 0 <= j < rest@.len() ==> text::text_le(path_key(#[trigger] out@[i]@), path_key(#[trigger] rest@[j]@)),
            forall|a: Seq<char>, b: Seq<char>| text::text_le(a, b) || text::text_le(b, a),
            forall|a: Seq<char>, b: Seq<char>, c: Seq<char>|
                text::text_le(a, b) && text::text_le(b, c) ==> text::text_le(a, c),
        decreases rest@.len(),
    {
        let mut m: usize = 0;
        let mut k: usize = 1;
        while k < rest.len()
            invariant
                m < rest@.len(),
                1 <= k <= rest@.len(),
                forall|j: int| 0 <= j < k ==> text::text_le(path_key(rest@[m as int]@), path_key(#[trigger] rest@[j]@)),
                forall|a: Seq<char>, b: Seq<char>| text::text_le(a, b) || text::text_le(b, a),
                forall|a: Seq<char>, b: Seq<char>, c: Seq<char>|
                    text::text_le(a, b) && text::text_le(b, c) ==> text::text_le(a, c),
            decreases rest@.len() - k,
        {
            if path_less(rest[k].as_str(), rest[m].as_str()) {
                m = k;
            }
            k = k + 1;
        }
        let ghost old_rest = rest@;
        let ghost old_out = out@;
        let x = rest.remove(m);
        assert(x == old_rest[m as int]);
        assert(rest@ == old_rest.remove(m as int));
        proof {
            vstd::seq_lib::to_multiset_remove(old_rest, m as int);
            vstd::seq_lib::to_multiset_build(old_out, x);
            vstd::seq_lib::to_multiset_contains(old_rest, x);
            assert(old_rest.contains(x));
            vstd::seq_lib::to_multiset_remove(text::views(old_rest), m as int);
            vstd::seq_lib::to_multiset_build(text::views(old_out), x@);
            vstd::seq_lib::to_multiset_contains(text::views(old_rest), x@);
            assert(text::views(old_rest)[m as int] == x@);
            assert(text::views(rest@) =~= text::views(old_rest).remove(m as int));
            assert(text::views(old_rest).contains(x@));
        }
        assert(old_rest.remove(m as int).to_multiset() == old_rest.to_multiset().remove(x));
        out.push(x);
        assert(out@ == old_out.push(x));
        assert(text::views(out@) =~= text::views(old_out).push(old_rest[m as int]@));
        assert(text::views(out@).to_multiset().add(text::views(rest@).to_multiset()) =~= text::views(
            v@,
        ).to_multiset());
        assert(out@.to_multiset() == old_out.to_multiset().insert(x));
        assert(old_rest.to_multiset().contains(x));
        assert(out@.to_multiset().add(rest@.to_multiset()) =~= v@.to_multiset());
        assert forall|i: int, j: int|
            0 <= i < out@.len() && 0 <= j < rest@.len() implies text::text_le(path_key(#[trigger] out@[i]@), path_key(#[trigger] rest@[j]@)) by {
            let jj = if j < m { j } else { j + 1 };
            assert(rest@[j] == old_rest[jj]);
            if i < old_out.len() {
                assert(out@[i] == old_out[i]);
            }
        }
        assert forall|i: int, j: int| 0 <= i < j < out@.len() implies text::text_le(path_key(#[trigger] out@[i]@), path_key(#[trigger] out@[j]@)) by {
            if j < old_out.len() {
                assert(out@[i] == old_out[i]);
                assert(out@[j] == old_out[j]);
            } else {
                assert(out@[i] == old_out[i]);
                assert(old_rest[m as int] == x);
            }
        }
    }
    assert(rest@.to_multiset() =~= vstd::multiset::Multiset::empty());
    assert(text::views(rest@).to_multiset() =~= vstd::multiset::Multiset::empty());
    out
}


/// A sorted list without its repeated entries.
pub open spec fn dedup_sorted(s: Seq<Seq<char>>) -> Seq<Seq<char>>
    decreases s.len(),
{
    if s.len() == 0 {
        s
    } else if s.len() >= 2 && s[s.len() - 2] == s.last() {
        dedup_sorted(s.drop_last())
    } else {
        dedup_sorted(s.drop_last()).push(s.last())
    }
}

/// Removes consecutive repeated entries (as `Vec::dedup`).
pub fn dedup(v: Vec<String>) -> (r: Vec<String>)
    ensures
        text::views(r@) == dedup_sorted(text::views(v@)),
{
    let mut r: Vec<String> = Vec::new();
    let mut i: usize = 0;
    while i < v.len()
        invariant
            i <= v@.len(),
            text::views(r@) == dedup_sorted(text::views(v@).take(i as int)),
            i > 0 ==> r@.len() > 0 && r@.last()@ == v@[i - 1]@,
        decreases v@.len() - i,
    {
        let ghost t = text::views(v@).take(i + 1);
        assert(t.drop_last() == text::views(v@).take(i as int));
        if i > 0 && text::same(v[i - 1].as_str(), v[i].as_str()) {
            assert(t[t.len() - 2] == t.last());
        } else {
            r.push(v[i].clone());
            assert(text::views(r@) == dedup_sorted(text::views(v@).take(i as int)).push(v@[i as int]@));
        }
        i = i + 1;
    }
    assert(text::views(v@).take(v@.len() as int) == text::views(v@));
    r
}

/// The directory part of a relative path: everything before its last `/`.
pub open spec fn parent(p: Seq<char>) -> Seq<char> {
    if name_start(p) > 0 {
        p.take(name_start(p) - 1)
    } else {
        Seq::empty()
    }
}

/// The directory part of a relative path (`Path::parent`).
pub fn parent_of(path: &str) -> (r: String)
    ensures
        r@ == parent(path@),
{
    let cs = text::chars_of(path);
    let start = name_start_at(&cs, cs.len());
    assert(cs@.take(cs@.len() as int) == cs@);
    if start > 0 {
        let p = text::slice_chars(&cs, 0, start - 1);
        text::string_of(&p)
    } else {
        String::new()
    }
}

/// Texts in ascending `Path` order.
pub open spec fn sorted_keys(s: Seq<Seq<char>>) -> bool {
    forall|i: int, j: int| 0 <= i < j < s.len() ==> text::text_le(path_key(#[trigger] s[i]), path_key(#[trigger] s[j]))
}

pub proof fn lemma_sorted_views(v: Seq<String>)
    ensures
        sorted_paths(v) == sorted_keys(text::views(v)),
{
    if sorted_paths(v) {
        assert forall|i: int, j: int| 0 <= i < j < text::views(v).len() implies text::text_le(path_key(#[trigger] text::views(v)[i]), path_key(#[trigger] text::views(v)[j])) by {
            assert(text::views(v)[i] == v[i]@);
            assert(text::views(v)[j] == v[j]@);
        }
    }
    if sorted_keys(text::views(v)) {
        assert forall|i: int, j: int| 0 <= i < j < v.len() implies text::text_le(path_key(#[trigger] v[i]@), path_key(#[trigger] v[j]@)) by {
            assert(text::views(v)[i] == v[i]@);
            assert(text::views(v)[j] == v[j]@);
        }
    }
}

/// Removing repeated neighbours keeps what a sorted list holds, keeps it
/// sorted, and leaves no two equal neighbours.
pub proof fn lemma_dedup_sorted(s: Seq<Seq<char>>)
    ensures
        forall|x: Seq<char>| #[trigger] dedup_sorted(s).contains(x) <==> s.contains(x),
        forall|i: int| 0 <= i < dedup_sorted(s).len() - 1 ==> #[trigger] dedup_sorted(s)[i] != dedup_sorted(s)[i + 1],
        s.len() > 0 ==> dedup_sorted(s).len() > 0 && dedup_sorted(s).last() == s.last(),
        sorted_keys(s) ==> sorted_keys(dedup_sorted(s)),
        dedup_sorted(s).len() <= s.len(),
    decreases s.len(),
{
    if s.len() > 0 {
        let t = s.drop_last();
        let d = dedup_sorted(t);
        lemma_dedup_sorted(t);
        text::lemma_contains_push(t, s.last());
        assert(s == t.push(s.last()));
        if s.len() >= 2 && s[s.len() - 2] == s.last() {
            assert(t.last() == s.last());
            assert(t.contains(s.last()));
            assert(forall|i: int, j: int| 0 <= i < j < t.len() ==> t[i] == s[i] && t[j] == s[j]);
        } else {
            text::lemma_contains_push(d, s.last());
            let r = d.push(s.last());
            assert forall|i: int| 0 <= i < r.len() - 1 implies #[trigger] r[i] != r[i + 1] by {
                if i == r.len() - 2 {
                    assert(r[i] == d.last());
                    assert(d.last() == t.last());
                    assert(t.last() == s[s.len() - 2]);
                } else {
                    assert(r[i] == d[i]);
                    assert(r[i + 1] == d[i + 1]);
                }
            }
            if sorted_keys(s) {
                assert(sorted_keys(t)) by {
                    assert forall|i: int, j: int| 0 <= i < j < t.len() implies text::text_le(path_key(#[trigger] t[i]), path_key(#[trigger] t[j])) by {
                        assert(t[i] == s[i]);
                        assert(t[j] == s[j]);
                    }
                }
                assert forall|i: int, j: int| 0 <= i < j < r.len() implies text::text_le(path_key(#[trigger] r[i]), path_key(#[trigger] r[j])) by {
                    if j == r.len() - 1 {
                        assert(r[i] == d[i]);
                        assert(d.contains(d[i]));
                        assert(t.contains(d[i]));
                        let k = choose|k: int| 0 <= k < t.len() && t[k] == d[i];
                        assert(t[k] == s[k]);
                        assert(r[j] == s[s.len() - 1]);
                    } else {
                        assert(r[i] == d[i]);
                        assert(r[j] == d[j]);
                    }
                }
            }
        }
    }
}

} // verus!
