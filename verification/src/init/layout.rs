//! Where a project's headers are included from.
use vstd::prelude::*;
use crate::paths;
use crate::text;
use crate::rules::init::{InitRules, LayoutRule};
use crate::init::language::lists;
use crate::init::project::ProjectInfo;

verus! {

/// Whether a layout rule names `c` as an include directory.
pub open spec fn include_name(layouts: Seq<LayoutRule>, c: Seq<char>) -> bool {
    exists|i: int| 0 <= i < layouts.len() && (#[trigger] layouts[i]).role@ == "include"@ && layouts[i].directory@ == c
}

/// The index of the first component of `parts` that names an include
/// directory.
pub open spec fn first_include(parts: Seq<Seq<char>>, layouts: Seq<LayoutRule>) -> Option<int> {
    if exists|i: int| 0 <= i < parts.len() && include_name(layouts, #[trigger] parts[i]) {
        Some(choose|i: int| 0 <= i < parts.len() && include_name(layouts, #[trigger] parts[i])
            && forall|j: int| 0 <= j < i ==> !include_name(layouts, #[trigger] parts[j]))
    } else {
        None
    }
}

/// The directory a header is included from: the path up to and with its
/// first include directory, or the header's own directory.
pub open spec fn include_dir(path: Seq<char>, layouts: Seq<LayoutRule>) -> Seq<char> {
    let parts = text::split(path, '/');
    match first_include(parts, layouts) {
        Some(i) => text::join(parts.take(i + 1), "/"@),
        None => paths::parent(path),
    }
}

/// The include directory of one header.
fn include_dir_of(path: &str, rules: &InitRules) -> (r: String)
    ensures
        r@ == include_dir(path@, rules.layouts@),
{
    let mut names: Vec<String> = Vec::new();
    let mut i: usize = 0;
    while i < rules.layouts.len()
        invariant
            i <= rules.layouts@.len(),
            forall|c: Seq<char>| text::views(names@).contains(c) <==> include_name(rules.layouts@.take(i as int), c),
        decreases rules.layouts@.len() - i,
    {
        let rule = &rules.layouts[i];
        let ghost before = names@;
        let ghost t = rules.layouts@.take(i + 1);
        if text::same(rule.role.as_str(), "include") {
            names.push(text::owned(rule.directory.as_str()));
            assert(text::views(names@) =~= text::views(before).push(rule.directory@));
            proof {
                text::lemma_contains_push(text::views(before), rule.directory@);
            }
        }
        proof {
            assert(t == rules.layouts@.take(i as int).push(rules.layouts@[i as int]));
            assert forall|c: Seq<char>| text::views(names@).contains(c) <==> include_name(t, c) by {
                if include_name(t, c) {
                    let j = choose|j: int| 0 <= j < t.len() && (#[trigger] t[j]).role@ == "include"@ && t[j].directory@ == c;
                    if j < i {
                        assert(rules.layouts@.take(i as int)[j] == t[j]);
                        assert(include_name(rules.layouts@.take(i as int), c));
                    }
                }
                if include_name(rules.layouts@.take(i as int), c) {
                    let j = choose|j: int| 0 <= j < i && (#[trigger] rules.layouts@.take(i as int)[j]).role@ == "include"@
                        && rules.layouts@.take(i as int)[j].directory@ == c;
                    assert(t[j] == rules.layouts@.take(i as int)[j]);
                }
                if text::views(names@).contains(c) && !text::views(before).contains(c) {
                    assert(t[i as int] == rules.layouts@[i as int]);
                }
            }
        }
        i = i + 1;
    }
    assert(rules.layouts@.take(i as int) == rules.layouts@);
    let cs = text::chars_of(path);
    let parts = text::split_char(cs.as_slice(), '/');
    let ghost pieces = parts@.map_values(|p: Vec<char>| p@);
    let mut dir = String::new();
    let mut k: usize = 0;
    while k < parts.len()
        invariant
            k <= parts@.len(),
            pieces == text::split(path@, '/'),
            pieces == parts@.map_values(|p: Vec<char>| p@),
            forall|c: Seq<char>| text::views(names@).contains(c) <==> include_name(rules.layouts@, c),
            forall|j: int| 0 <= j < k ==> !include_name(rules.layouts@, #[trigger] pieces[j]),
            dir@ == text::join(pieces.take(k as int), "/"@),
        decreases parts@.len() - k,
    {
        let piece = text::string_of(parts[k].as_slice());
        assert(pieces[k as int] == parts@[k as int]@);
        assert(pieces.take(k + 1).drop_last() == pieces.take(k as int));
        if k > 0 {
            text::push_str(&mut dir, "/");
        }
        text::push_str(&mut dir, piece.as_str());
        proof {
            reveal_strlit("/");
            if k == 0 {
                reveal_strlit("");
                assert(pieces.take(1) == seq![pieces[0]]);
            }
        }
        if lists(&names, piece.as_str()) {
            proof {
                let c = first_include(pieces, rules.layouts@)->0;
                assert(include_name(rules.layouts@, pieces[k as int]));
                assert(0 <= c < pieces.len() && include_name(rules.layouts@, pieces[c]));
                if c < k {
                    assert(!include_name(rules.layouts@, pieces[c]));
                }
                if c > k {
                    assert(!include_name(rules.layouts@, pieces[k as int]));
                }
            }
            return dir;
        }
        k = k + 1;
    }
    paths::parent_of(path)
}

/// The directories that a project's headers are included from, below
/// `root`, sorted and each once.
pub fn include_directories(root: &str, project: &ProjectInfo, rules: &InitRules) -> (r: Vec<String>)
    ensures
        paths::sorted_paths(r@),
        forall|i: int| 0 <= i < r@.len() - 1 ==> (#[trigger] r@[i])@ != r@[i + 1]@,
        forall|x: Seq<char>| #[trigger] text::views(r@).contains(x) <==> exists|h: int|
            0 <= h < project.header_files@.len() && x == paths::join(root@, include_dir(project.header_files@[h]@, rules.layouts@)),
        r@.len() <= project.header_files@.len(),
{
    let ghost f = |h: String| paths::join(root@, include_dir(h@, rules.layouts@));
    let mut dirs: Vec<String> = Vec::new();
    let mut i: usize = 0;
    while i < project.header_files.len()
        invariant
            i <= project.header_files@.len(),
            f == (|h: String| paths::join(root@, include_dir(h@, rules.layouts@))),
            text::views(dirs@) == project.header_files@.take(i as int).map_values(f),
        decreases project.header_files@.len() - i,
    {
        let d = include_dir_of(project.header_files[i].as_str(), rules);
        let full = paths::join_text(root, d.as_str());
        let ghost before = dirs@;
        dirs.push(full);
        assert(text::views(dirs@) =~= text::views(before).push(full@));
        assert(project.header_files@.take(i + 1).map_values(f) =~= project.header_files@.take(i as int).map_values(f).push(f(project.header_files@[i as int])));
        i = i + 1;
    }
    assert(project.header_files@.take(i as int) == project.header_files@);
    let sorted = paths::sort_paths(dirs);
    let r = paths::dedup(sorted);
    proof {
        paths::lemma_sorted_views(sorted@);
        paths::lemma_dedup_sorted(text::views(sorted@));
        paths::lemma_sorted_views(r@);
        let m = text::views(sorted@).to_multiset();
        assert(m == text::views(dirs@).to_multiset());
        assert(text::views(sorted@).len() == text::views(dirs@).len()) by {
            text::views(sorted@).to_multiset_ensures();
            text::views(dirs@).to_multiset_ensures();
        }
        assert forall|x: Seq<char>| #[trigger] text::views(r@).contains(x) <==> exists|h: int|
            0 <= h < project.header_files@.len() && x == paths::join(root@, include_dir(project.header_files@[h]@, rules.layouts@)) by {
            vstd::seq_lib::to_multiset_contains(text::views(sorted@), x);
            vstd::seq_lib::to_multiset_contains(text::views(dirs@), x);
            if text::views(dirs@).contains(x) {
                let j = choose|j: int| 0 <= j < text::views(dirs@).len() && text::views(dirs@)[j] == x;
                assert(text::views(dirs@)[j] == f(project.header_files@[j]));
            }
            if exists|h: int| 0 <= h < project.header_files@.len() && x == paths::join(root@, include_dir(project.header_files@[h]@, rules.layouts@)) {
                let h = choose|h: int| 0 <= h < project.header_files@.len() && x == paths::join(root@, include_dir(project.header_files@[h]@, rules.layouts@));
                assert(text::views(dirs@)[h] == x);
            }
        }
        assert forall|i: int| 0 <= i < r@.len() - 1 implies (#[trigger] r@[i])@ != r@[i + 1]@ by {
            assert(text::views(r@)[i] == r@[i]@);
            assert(text::views(r@)[i + 1] == r@[i + 1]@);
        }
    }
    r
}

} // verus!
