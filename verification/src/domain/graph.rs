//! Target dependency ordering and validation.
use vstd::prelude::*;
use vstd::set_lib::lemma_len_subset;
use crate::domain::error::Error;
use crate::domain::model::{Project, Target, find_target, lemma_find_target, is_target, deps_of, edge};
use crate::text;

verus! {

/// A sequence of names in which each name depends on the next.
pub open spec fn is_path(p: Project, path: Seq<Seq<char>>) -> bool {
    forall|k: int, l: int|
        0 <= k && l == k + 1 && l < path.len() ==> #[trigger] edge(p, path[k], path[l])
}

/// A dependency path that leads from `n` back to `n`.
pub open spec fn cycle_through(p: Project, n: Seq<char>) -> bool {
    exists|path: Seq<Seq<char>>|
        path.len() >= 2 && path[0] == n && path.last() == n && #[trigger] is_path(p, path)
}

pub open spec fn has_cycle(p: Project) -> bool {
    exists|n: Seq<char>| #[trigger] cycle_through(p, n)
}

/// Some declared target depends on `n`, which is not declared.
pub open spec fn unknown_dependency(p: Project, n: Seq<char>) -> bool {
    !is_target(p, n) && exists|a: Seq<char>| #[trigger] edge(p, a, n)
}

pub open spec fn has_unknown_dependency(p: Project) -> bool {
    exists|n: Seq<char>| #[trigger] unknown_dependency(p, n)
}

/// `r` lists declared targets once each, every target after all of its
/// dependencies.
pub open spec fn closed_order(p: Project, r: Seq<Seq<char>>) -> bool {
    &&& r.no_duplicates()
    &&& forall|i: int| 0 <= i < r.len() ==> is_target(p, #[trigger] r[i])
    &&& forall|i: int, d: Seq<char>|
        0 <= i < r.len() && #[trigger] deps_of(p, r[i]).contains(d) ==> r.take(i).contains(d)
}

/// Every declared target name occurs in `r`.
pub open spec fn covers_targets(p: Project, r: Seq<Seq<char>>) -> bool {
    forall|i: int| 0 <= i < p.targets@.len() ==> r.contains(#[trigger] p.targets@[i].name@)
}

pub open spec fn quoted(prefix: Seq<char>, n: Seq<char>) -> Seq<char> {
    prefix + n + "'"@
}

/// What `order` reports when it fails.
pub open spec fn order_error(p: Project, e: Error) -> bool {
    exists|n: Seq<char>| #[trigger] order_error_at(p, e, n)
}

/// `e` reports a cycle through `n`, or a dependency on the undeclared `n`.
pub open spec fn order_error_at(p: Project, e: Error, n: Seq<char>) -> bool {
    ||| e.is_config_text(quoted("dependency cycle involving '"@, n)) && cycle_through(p, n)
    ||| e.is_config_text(quoted("unknown target '"@, n)) && unknown_dependency(p, n)
}

impl Error {
    pub open spec fn is_config_text(self, m: Seq<char>) -> bool {
        self matches Error::Config(s) && s@ == m
    }
}

pub open spec fn stack_ok(p: Project, s: Seq<Seq<char>>) -> bool {
    &&& s.no_duplicates()
    &&& forall|i: int| 0 <= i < s.len() ==> is_target(p, #[trigger] s[i])
    &&& is_path(p, s)
}

pub open spec fn disjoint_names(a: Seq<Seq<char>>, b: Seq<Seq<char>>) -> bool {
    forall|i: int| 0 <= i < a.len() ==> !b.contains(#[trigger] a[i])
}

pub open spec fn target_names(p: Project) -> Seq<Seq<char>> {
    p.targets@.map_values(|t: Target| t.name@)
}

proof fn lemma_distinct_bound(p: Project, s: Seq<Seq<char>>)
    requires
        s.no_duplicates(),
        forall|i: int| 0 <= i < s.len() ==> is_target(p, #[trigger] s[i]),
    ensures
        s.len() <= p.targets@.len(),
{
    let names = target_names(p);
    assert forall|x: Seq<char>| s.to_set().contains(x) implies names.to_set().contains(x) by {
        let i = choose|i: int| 0 <= i < s.len() && s[i] == x;
        assert(is_target(p, s[i]));
        lemma_find_target(p.targets@, x);
        let k = find_target(p.targets@, x)->0;
        assert(names[k] == x);
    }
    s.unique_seq_to_set();
    names.lemma_cardinality_of_set();
    lemma_len_subset(s.to_set(), names.to_set());
}

proof fn lemma_edge_before(p: Project, r: Seq<Seq<char>>, i: int, b: Seq<char>)
    requires
        closed_order(p, r),
        0 <= i < r.len(),
        edge(p, r[i], b),
    ensures
        exists|j: int| 0 <= j < i && r[j] == b,
{
    assert(deps_of(p, r[i]).contains(b));
    assert(r.take(i).contains(b));
    let j = choose|j: int| 0 <= j < i && r.take(i)[j] == b;
    assert(r[j] == b);
}

proof fn lemma_path_descends(p: Project, r: Seq<Seq<char>>, path: Seq<Seq<char>>, i0: int, k: int)
    requires
        closed_order(p, r),
        0 <= i0 < r.len(),
        r[i0] == path[0],
        is_path(p, path),
        1 <= k < path.len(),
    ensures
        exists|j: int| 0 <= j < i0 && r[j] == path[k],
    decreases k,
{
    if k == 1 {
        assert(edge(p, path[0], path[1]));
        lemma_edge_before(p, r, i0, path[1]);
    } else {
        lemma_path_descends(p, r, path, i0, k - 1);
        let j = choose|j: int| 0 <= j < i0 && r[j] == path[k - 1];
        assert(edge(p, path[k - 1], path[k]));
        lemma_edge_before(p, r, j, path[k]);
    }
}

/// A complete dependency order shows that the project has neither cycles
/// nor dependencies on undeclared targets.
pub proof fn lemma_order_sound(p: Project, r: Seq<Seq<char>>)
    requires
        closed_order(p, r),
        covers_targets(p, r),
    ensures
        !has_cycle(p),
        !has_unknown_dependency(p),
{
    assert forall|a: Seq<char>, b: Seq<char>| edge(p, a, b) implies is_target(p, b) by {
        lemma_find_target(p.targets@, a);
        let k = find_target(p.targets@, a)->0;
        assert(r.contains(p.targets@[k].name@));
        let i = choose|i: int| 0 <= i < r.len() && r[i] == a;
        lemma_edge_before(p, r, i, b);
        let j = choose|j: int| 0 <= j < i && r[j] == b;
        assert(is_target(p, r[j]));
    }
    assert forall|n: Seq<char>| !cycle_through(p, n) by {
        if cycle_through(p, n) {
            let path = choose|path: Seq<Seq<char>>|
                path.len() >= 2 && path[0] == n && path.last() == n && #[trigger] is_path(p, path);
            assert(edge(p, path[0], path[1]));
            lemma_find_target(p.targets@, n);
            let k = find_target(p.targets@, n)->0;
            assert(r.contains(p.targets@[k].name@));
            let i0 = choose|i: int| 0 <= i < r.len() && r[i] == n;
            lemma_path_descends(p, r, path, i0, path.len() - 1);
            let j = choose|j: int| 0 <= j < i0 && r[j] == path[path.len() - 1];
            assert(r[j] == r[i0]);
        }
    }
    assert forall|n: Seq<char>| !unknown_dependency(p, n) by {
        if unknown_dependency(p, n) {
            let a = choose|a: Seq<char>| #[trigger] edge(p, a, n);
            assert(is_target(p, n));
        }
    }
}

/// Whether `name` occurs in `names`.
pub fn contains_name(names: &Vec<String>, name: &str) -> (r: bool)
    ensures
        r == text::views(names@).contains(name@),
{
    match position(names, name) {
        Some(k) => {
            assert(text::views(names@)[k as int] == name@);
            true
        },
        None => false,
    }
}

/// The index of `name` in `names`.
pub fn position(names: &Vec<String>, name: &str) -> (r: Option<usize>)
    ensures
        r matches Some(k) ==> k < names@.len() && names@[k as int]@ == name@,
        r is None ==> !text::views(names@).contains(name@),
{
    let mut i: usize = 0;
    while i < names.len()
        invariant
            i <= names@.len(),
            forall|j: int| 0 <= j < i ==> names@[j]@ != name@,
        decreases names@.len() - i,
    {
        if text::same(names[i].as_str(), name) {
            return Some(i);
        }
        i = i + 1;
    }
    assert forall|j: int| 0 <= j < names@.len() implies text::views(names@)[j] != name@ by {
        assert(names@[j]@ != name@);
    }
    None
}

/// The depth-first visit of `name`, with `stack` the targets being visited
/// and `result` the targets finished so far: a target already finished
/// stays; a target on the stack is a cycle and an undeclared one an unknown
/// target (the error that `order` gives); otherwise its dependencies are
/// visited in their order and the target follows them.
pub open spec fn dfs_visit(p: Project, name: Seq<char>, stack: Seq<Seq<char>>, result: Seq<Seq<char>>) -> Result<
    Seq<Seq<char>>,
    Seq<char>,
>
    decreases p.targets@.len() - stack.len(), 0int, 0int,
{
    if result.contains(name) {
        Ok(result)
    } else if stack.contains(name) {
        Err(quoted("dependency cycle involving '"@, name))
    } else if !is_target(p, name) {
        Err(quoted("unknown target '"@, name))
    } else if stack.len() >= p.targets@.len() {
        Err(Seq::empty())
    } else {
        match dfs_deps(p, deps_of(p, name), 0, stack.push(name), result) {
            Ok(r) => Ok(r.push(name)),
            Err(m) => Err(m),
        }
    }
}

/// The depth-first visits of the dependencies `ds` from `i` on.
pub open spec fn dfs_deps(p: Project, ds: Seq<Seq<char>>, i: int, stack: Seq<Seq<char>>, result: Seq<Seq<char>>) -> Result<
    Seq<Seq<char>>,
    Seq<char>,
>
    decreases p.targets@.len() - stack.len(), 1int, ds.len() - i,
{
    if i < 0 || i >= ds.len() {
        Ok(result)
    } else {
        match dfs_visit(p, ds[i], stack, result) {
            Ok(r) => dfs_deps(p, ds, i + 1, stack, r),
            Err(m) => Err(m),
        }
    }
}

/// The depth-first visits of the declared targets from `i` on.
pub open spec fn dfs_from(p: Project, i: int, result: Seq<Seq<char>>) -> Result<Seq<Seq<char>>, Seq<char>>
    decreases p.targets@.len() - i,
{
    if i < 0 || i >= p.targets@.len() {
        Ok(result)
    } else {
        match dfs_visit(p, p.targets@[i].name@, Seq::empty(), result) {
            Ok(r) => dfs_from(p, i + 1, r),
            Err(m) => Err(m),
        }
    }
}

/// The targets in depth-first order: declared targets in their order, each
/// after the dependencies it lists, in their order; or the message of the
/// first cycle or unknown target that the search meets.
pub open spec fn depth_first_order(p: Project) -> Result<Seq<Seq<char>>, Seq<char>> {
    dfs_from(p, 0, Seq::empty())
}

fn visit(name: &String, project: &Project, visiting: &mut Vec<String>, result: &mut Vec<String>) -> (res:
    Result<(), Error>)
    requires
        stack_ok(*project, text::views(old(visiting)@)),
        closed_order(*project, text::views(old(result)@)),
        disjoint_names(text::views(old(visiting)@), text::views(old(result)@)),
        old(visiting)@.len() > 0 ==> edge(*project, old(visiting)@.last()@, name@),
        old(visiting)@.len() == 0 ==> is_target(*project, name@),
    ensures
        res is Ok ==> {
            &&& text::views(final(visiting)@) == text::views(old(visiting)@)
            &&& closed_order(*project, text::views(final(result)@))
            &&& text::views(final(result)@).take(old(result)@.len() as int) == text::views(
                old(result)@,
            )
            &&& old(result)@.len() <= final(result)@.len()
            &&& text::views(final(result)@).contains(name@)
            &&& disjoint_names(text::views(final(visiting)@), text::views(final(result)@))
        },
        match dfs_visit(*project, name@, text::views(old(visiting)@), text::views(old(result)@)) {
            Ok(rs) => res is Ok && text::views(final(result)@) == rs,
            Err(m) => res matches Err(e) && e.is_config_text(m),
        },
        res matches Err(e) ==> order_error(*project, e),
    decreases project.targets@.len() - old(visiting)@.len(),
{
    let ghost p = *project;
    let ghost vs0 = text::views(visiting@);
    let ghost rs0 = text::views(result@);
    if contains_name(result, name.as_str()) {
        assert(result@.take(result@.len() as int) == result@);
        assert(text::views(result@).take(result@.len() as int) == text::views(result@));
        return Ok(());
    }
    match position(visiting, name.as_str()) {
        Some(k) => {
            proof {
                let path = vs0.skip(k as int).push(name@);
                assert(path[0] == name@);
                assert forall|j: int, l: int|
                    0 <= j && l == j + 1 && l < path.len() implies #[trigger] edge(
                    p,
                    path[j],
                    path[l],
                ) by {
                    if j < path.len() - 2 {
                        assert(edge(p, vs0[k + j], vs0[k + j + 1]));
                    } else {
                        assert(path[j] == vs0.last());
                    }
                }
                assert(is_path(p, path));
                assert(cycle_through(p, name@));
            }
            let message = text::concat("dependency cycle involving '", name.as_str());
            let message = text::concat(message.as_str(), "'");
            assert(order_error_at(p, Error::Config(message), name@));
            return Err(Error::Config(message));
        },
        None => {},
    }
    let target = match project.target(name.as_str()) {
        Some(t) => t,
        None => {
            proof {
                assert(edge(p, vs0.last(), name@));
                assert(unknown_dependency(p, name@));
            }
            let message = text::concat("unknown target '", name.as_str());
            let message = text::concat(message.as_str(), "'");
            assert(order_error_at(p, Error::Config(message), name@));
            return Err(Error::Config(message));
        },
    };
    assert(deps_of(p, name@) == text::views(target.dependencies@));
    visiting.push(name.clone());
    proof {
        let vs1 = text::views(visiting@);
        assert(vs1 == vs0.push(name@));
        assert(vs1.no_duplicates());
        assert forall|j: int, l: int| 0 <= j && l == j + 1 && l < vs1.len() implies #[trigger] edge(
            p,
            vs1[j],
            vs1[l],
        ) by {
            if l < vs0.len() {
                assert(edge(p, vs0[j], vs0[l]));
            }
        }
        lemma_distinct_bound(p, vs1);
    }
    let mut i: usize = 0;
    while i < target.dependencies.len()
        invariant
            p == *project,
            vs0 == text::views(old(visiting)@),
            rs0 == text::views(old(result)@),
            i <= target.dependencies@.len(),
            deps_of(p, name@) == text::views(target.dependencies@),
            is_target(p, name@),
            text::views(visiting@) == vs0.push(name@),
            stack_ok(p, text::views(visiting@)),
            visiting@.len() <= p.targets@.len(),
            closed_order(p, text::views(result@)),
            text::views(result@).take(rs0.len() as int) == rs0,
            rs0.len() <= result@.len(),
            disjoint_names(text::views(visiting@), text::views(result@)),
            forall|j: int| 0 <= j < i ==> text::views(result@).contains(
                #[trigger] text::views(target.dependencies@)[j],
            ),
            !rs0.contains(name@),
            !vs0.contains(name@),
            vs0.len() < p.targets@.len(),
            match dfs_deps(p, deps_of(p, name@), i as int, vs0.push(name@), text::views(result@)) {
                Ok(r) => dfs_deps(p, deps_of(p, name@), 0, vs0.push(name@), rs0) == Ok::<Seq<Seq<char>>, Seq<char>>(r),
                Err(m) => dfs_deps(p, deps_of(p, name@), 0, vs0.push(name@), rs0) == Err::<Seq<Seq<char>>, Seq<char>>(m),
            },
        decreases target.dependencies@.len() - i,
    {
        let ghost r_before = text::views(result@);
        assert(text::views(visiting@).last() == name@);
        assert(edge(p, name@, text::views(target.dependencies@)[i as int]));
        match visit(&target.dependencies[i], project, visiting, result) {
            Ok(()) => {},
            Err(e) => {
                return Err(e);
            },
        }
        proof {
            let r_after = text::views(result@);
            assert forall|j: int| 0 <= j < i + 1 implies r_after.contains(
                #[trigger] text::views(target.dependencies@)[j],
            ) by {
                if j < i {
                    let w = text::views(target.dependencies@)[j];
                    let m = choose|m: int| 0 <= m < r_before.len() && r_before[m] == w;
                    assert(r_after.take(r_before.len() as int)[m] == w);
                }
            }
            assert(r_after.take(rs0.len() as int) == r_after.take(r_before.len() as int).take(
                rs0.len() as int,
            ));
        }
        i = i + 1;
    }
    let ghost r1 = text::views(result@);
    let ghost before_pop = visiting@;
    visiting.pop();
    proof {
        assert(visiting@ == before_pop.drop_last());
        assert forall|j: int| 0 <= j < vs0.len() implies text::views(visiting@)[j] == vs0[j] by {
            assert(text::views(before_pop)[j] == vs0.push(name@)[j]);
        }
        assert(text::views(visiting@) =~= vs0);
    }
    result.push(name.clone());
    proof {
        let r2 = text::views(result@);
        assert(r2 == r1.push(name@));
        assert(!r1.contains(name@)) by {
            assert(text::views(old(visiting)@).push(name@).last() == name@);
        }
        assert forall|d: Seq<char>| #[trigger] deps_of(p, name@).contains(d) implies r2.take(
            r1.len() as int,
        ).contains(d) by {
            let j = choose|j: int|
                0 <= j < deps_of(p, name@).len() && deps_of(p, name@)[j] == d;
            assert(r1.contains(text::views(target.dependencies@)[j]));
            assert(r2.take(r1.len() as int) == r1);
        }
        assert forall|ii: int, d: Seq<char>|
            0 <= ii < r2.len() && #[trigger] deps_of(p, r2[ii]).contains(d) implies r2.take(
            ii,
        ).contains(d) by {
            if ii < r1.len() {
                assert(r1.take(ii).contains(d));
                assert(r2.take(ii) == r1.take(ii));
            }
        }
        assert(r2.take(rs0.len() as int) == r1.take(rs0.len() as int));
        assert(r2.contains(name@)) by {
            assert(r2[r1.len() as int] == name@);
        }
        assert forall|j: int| 0 <= j < vs0.len() implies !r2.contains(#[trigger] vs0[j]) by {
            assert(text::views(visiting@).push(name@)[j] == vs0[j]);
            assert(vs0[j] != name@);
        }
    }
    Ok(())
}

/// The target names in dependency order: each target follows the targets
/// it depends on, and every declared target occurs once. Fails when a
/// dependency cycle or a dependency on an undeclared target exists.
pub fn order(project: &Project) -> (res: Result<Vec<String>, Error>)
    ensures
        res matches Ok(r) ==> closed_order(*project, text::views(r@)) && covers_targets(
            *project,
            text::views(r@),
        ),
        res is Ok <==> !has_cycle(*project) && !has_unknown_dependency(*project),
        res matches Err(e) ==> order_error(*project, e),
        match depth_first_order(*project) {
            Ok(names) => res matches Ok(r) && text::views(r@) == names,
            Err(m) => res matches Err(e) && e.is_config_text(m),
        },
{
    let mut visiting: Vec<String> = Vec::new();
    let mut result: Vec<String> = Vec::new();
    assert(text::views(result@) =~= Seq::<Seq<char>>::empty());
    let mut i: usize = 0;
    while i < project.targets.len()
        invariant
            i <= project.targets@.len(),
            visiting@.len() == 0,
            closed_order(*project, text::views(result@)),
            forall|j: int| 0 <= j < i ==> text::views(result@).contains(
                #[trigger] project.targets@[j].name@,
            ),
            dfs_from(*project, i as int, text::views(result@)) == depth_first_order(*project),
        decreases project.targets@.len() - i,
    {
        let ghost r_before = text::views(result@);
        proof {
            lemma_find_target(project.targets@, project.targets@[i as int].name@);
            assert(text::views(visiting@) == Seq::<Seq<char>>::empty());
        }
        match visit(&project.targets[i].name, project, &mut visiting, &mut result) {
            Ok(()) => {},
            Err(e) => {
                proof {
                    assert(has_cycle(*project) || has_unknown_dependency(*project));
                }
                return Err(e);
            },
        }
        proof {
            let r_after = text::views(result@);
            assert forall|j: int| 0 <= j < i + 1 implies r_after.contains(
                #[trigger] project.targets@[j].name@,
            ) by {
                if j < i {
                    let w = project.targets@[j].name@;
                    let m = choose|m: int| 0 <= m < r_before.len() && r_before[m] == w;
                    assert(r_after.take(r_before.len() as int)[m] == w);
                }
            }
        }
        assert(visiting@.len() == 0);
        i = i + 1;
    }
    proof {
        lemma_order_sound(*project, text::views(result@));
    }
    Ok(result)
}

/// The index of the first target whose name occurs earlier in the list.
pub open spec fn first_duplicate_from(targets: Seq<Target>, i: int) -> Option<int>
    decreases targets.len() - i,
{
    if i < 0 || i >= targets.len() {
        None
    } else if exists|j: int| 0 <= j < i && targets[j].name@ == targets[i].name@ {
        Some(i)
    } else {
        first_duplicate_from(targets, i + 1)
    }
}

/// Checks that target names are unique and that the targets can be ordered.
pub fn validate(project: &Project) -> (res: Result<(), Error>)
    ensures
        first_duplicate_from(project.targets@, 0) matches Some(k) ==> res matches Err(e)
            && e.is_config_text(quoted("duplicate target '"@, project.targets@[k].name@)),
        first_duplicate_from(project.targets@, 0) is None ==> (res is Ok <==> !has_cycle(*project)
            && !has_unknown_dependency(*project)) && (res matches Err(e) ==> order_error(
            *project,
            e,
        )),
        first_duplicate_from(project.targets@, 0) is None ==> match depth_first_order(*project) {
            Ok(_) => res is Ok,
            Err(m) => res matches Err(e) && e.is_config_text(m),
        },
{
    let mut names: Vec<String> = Vec::new();
    let mut i: usize = 0;
    while i < project.targets.len()
        invariant
            i <= project.targets@.len(),
            names@.len() == i,
            forall|j: int| 0 <= j < i ==> names@[j]@ == #[trigger] project.targets@[j].name@,
            first_duplicate_from(project.targets@, 0) == first_duplicate_from(
                project.targets@,
                i as int,
            ),
        decreases project.targets@.len() - i,
    {
        let name = &project.targets[i].name;
        if contains_name(&names, name.as_str()) {
            proof {
                let m = choose|m: int| 0 <= m < names@.len() && text::views(names@)[m] == name@;
                assert(project.targets@[m].name@ == project.targets@[i as int].name@);
            }
            let message = text::concat("duplicate target '", name.as_str());
            let message = text::concat(message.as_str(), "'");
            return Err(Error::Config(message));
        }
        proof {
            assert forall|j: int| 0 <= j < i implies project.targets@[j].name@ != name@ by {
                assert(text::views(names@)[j] == names@[j]@);
            }
        }
        names.push(name.clone());
        i = i + 1;
    }
    match order(project) {
        Ok(_) => Ok(()),
        Err(e) => Err(e),
    }
}

/// `m` is the message of a cycle through `n`, or of a dependency on the
/// undeclared `n`.
pub open spec fn order_message_at(p: Project, m: Seq<char>, n: Seq<char>) -> bool {
    ||| m == quoted("dependency cycle involving '"@, n) && cycle_through(p, n)
    ||| m == quoted("unknown target '"@, n) && unknown_dependency(p, n)
}

proof fn lemma_stack_push(p: Project, stack: Seq<Seq<char>>, name: Seq<char>)
    requires
        stack_ok(p, stack),
        !stack.contains(name),
        is_target(p, name),
        stack.len() > 0 ==> edge(p, stack.last(), name),
    ensures
        stack_ok(p, stack.push(name)),
        stack.len() < p.targets@.len(),
{
    let s1 = stack.push(name);
    assert forall|j: int, l: int| 0 <= j && l == j + 1 && l < s1.len() implies #[trigger] edge(
        p,
        s1[j],
        s1[l],
    ) by {
        if l < stack.len() {
            assert(edge(p, stack[j], stack[l]));
        } else {
            assert(s1[j] == stack.last());
        }
    }
    assert forall|i: int| 0 <= i < s1.len() implies is_target(p, #[trigger] s1[i]) by {
        if i < stack.len() {
            assert(is_target(p, stack[i]));
        }
    }
    assert(s1.no_duplicates()) by {
        assert forall|i: int, j: int| 0 <= i < j < s1.len() implies s1[i] != s1[j] by {
            if j == stack.len() {
                assert(stack.contains(s1[i]));
            }
        }
    }
    lemma_distinct_bound(p, s1);
}

proof fn lemma_stack_cycle(p: Project, stack: Seq<Seq<char>>, name: Seq<char>)
    requires
        stack_ok(p, stack),
        stack.contains(name),
        stack.len() > 0 ==> edge(p, stack.last(), name),
    ensures
        cycle_through(p, name),
{
    let k = choose|k: int| 0 <= k < stack.len() && stack[k] == name;
    let path = stack.skip(k).push(name);
    assert(path[0] == name);
    assert forall|j: int, l: int| 0 <= j && l == j + 1 && l < path.len() implies #[trigger] edge(
        p,
        path[j],
        path[l],
    ) by {
        if j < path.len() - 2 {
            assert(edge(p, stack[k + j], stack[k + j + 1]));
        } else {
            assert(path[j] == stack.last());
        }
    }
    assert(is_path(p, path));
}

proof fn lemma_dfs_visit(p: Project, name: Seq<char>, stack: Seq<Seq<char>>, result: Seq<Seq<char>>)
    requires
        stack_ok(p, stack),
        closed_order(p, result),
        disjoint_names(stack, result),
        stack.len() > 0 ==> edge(p, stack.last(), name),
        stack.len() == 0 ==> is_target(p, name),
    ensures
        dfs_visit(p, name, stack, result) matches Ok(rs) ==> {
            &&& closed_order(p, rs)
            &&& result.len() <= rs.len()
            &&& rs.take(result.len() as int) == result
            &&& rs.contains(name)
            &&& disjoint_names(stack, rs)
        },
        dfs_visit(p, name, stack, result) matches Err(m) ==> exists|n: Seq<char>| #[trigger] order_message_at(p, m, n),
    decreases p.targets@.len() - stack.len(), 0int, 0int,
{
    if result.contains(name) {
        assert(result.take(result.len() as int) == result);
    } else if stack.contains(name) {
        lemma_stack_cycle(p, stack, name);
        let m = dfs_visit(p, name, stack, result)->Err_0;
        assert(m == quoted("dependency cycle involving '"@, name));
        assert(order_message_at(p, m, name));
    } else if !is_target(p, name) {
        assert(edge(p, stack.last(), name));
        assert(unknown_dependency(p, name));
        let m = dfs_visit(p, name, stack, result)->Err_0;
        assert(m == quoted("unknown target '"@, name));
        assert(order_message_at(p, m, name));
    } else {
        lemma_stack_push(p, stack, name);
        let s1 = stack.push(name);
        let ds = deps_of(p, name);
        assert(disjoint_names(s1, result)) by {
            assert forall|i: int| 0 <= i < s1.len() implies !result.contains(#[trigger] s1[i]) by {
                if i < stack.len() {
                    assert(!result.contains(stack[i]));
                }
            }
        }
        assert forall|j: int| 0 <= j < ds.len() implies edge(p, s1.last(), #[trigger] ds[j]) by {}
        lemma_dfs_deps(p, ds, 0, s1, result);
        match dfs_deps(p, ds, 0, s1, result) {
            Ok(r) => {
                let rs = r.push(name);
                assert(!r.contains(name)) by {
                    assert(s1[stack.len() as int] == name);
                }
                assert(rs.no_duplicates()) by {
                    assert forall|i: int, j: int| 0 <= i < j < rs.len() implies rs[i] != rs[j] by {
                        if j == r.len() {
                            assert(r.contains(rs[i]));
                        }
                    }
                }
                assert forall|i: int| 0 <= i < rs.len() implies is_target(p, #[trigger] rs[i]) by {
                    if i < r.len() {
                        assert(is_target(p, r[i]));
                    }
                }
                assert forall|ii: int, d: Seq<char>|
                    0 <= ii < rs.len() && #[trigger] deps_of(p, rs[ii]).contains(d) implies rs.take(
                    ii,
                ).contains(d) by {
                    if ii < r.len() {
                        assert(r.take(ii).contains(d));
                        assert(rs.take(ii) == r.take(ii));
                    } else {
                        let j = choose|j: int| 0 <= j < ds.len() && ds[j] == d;
                        assert(r.contains(ds[j]));
                        assert(rs.take(ii) == r);
                    }
                }
                assert(rs.take(result.len() as int) == r.take(result.len() as int));
                assert(rs[r.len() as int] == name);
                assert forall|i: int| 0 <= i < stack.len() implies !rs.contains(#[trigger] stack[i]) by {
                    assert(s1[i] == stack[i]);
                    assert(!r.contains(s1[i]));
                    assert(stack[i] != name);
                }
            },
            Err(m) => {
                let n = choose|n: Seq<char>| #[trigger] order_message_at(p, m, n);
                assert(order_message_at(p, dfs_visit(p, name, stack, result)->Err_0, n));
            },
        }
    }
}

proof fn lemma_dfs_deps(p: Project, ds: Seq<Seq<char>>, i: int, stack: Seq<Seq<char>>, result: Seq<Seq<char>>)
    requires
        stack_ok(p, stack),
        stack.len() > 0,
        closed_order(p, result),
        disjoint_names(stack, result),
        0 <= i <= ds.len(),
        forall|j: int| 0 <= j < ds.len() ==> edge(p, stack.last(), #[trigger] ds[j]),
    ensures
        dfs_deps(p, ds, i, stack, result) matches Ok(r) ==> {
            &&& closed_order(p, r)
            &&& result.len() <= r.len()
            &&& r.take(result.len() as int) == result
            &&& disjoint_names(stack, r)
            &&& forall|j: int| i <= j < ds.len() ==> r.contains(#[trigger] ds[j])
        },
        dfs_deps(p, ds, i, stack, result) matches Err(m) ==> exists|n: Seq<char>| #[trigger] order_message_at(p, m, n),
    decreases p.targets@.len() - stack.len(), 1int, ds.len() - i,
{
    if i < ds.len() {
        lemma_dfs_visit(p, ds[i], stack, result);
        match dfs_visit(p, ds[i], stack, result) {
            Ok(r1) => {
                lemma_dfs_deps(p, ds, i + 1, stack, r1);
                match dfs_deps(p, ds, i + 1, stack, r1) {
                    Ok(r) => {
                        assert(r.take(result.len() as int) == r.take(r1.len() as int).take(result.len() as int));
                        let k = choose|k: int| 0 <= k < r1.len() && r1[k] == ds[i];
                        assert(r.take(r1.len() as int)[k] == ds[i]);
                    },
                    Err(m) => {},
                }
            },
            Err(m) => {},
        }
    } else {
        assert(result.take(result.len() as int) == result);
    }
}

proof fn lemma_dfs_from(p: Project, i: int, result: Seq<Seq<char>>)
    requires
        0 <= i <= p.targets@.len(),
        closed_order(p, result),
        forall|j: int| 0 <= j < i ==> result.contains(#[trigger] p.targets@[j].name@),
    ensures
        dfs_from(p, i, result) matches Ok(r) ==> closed_order(p, r) && covers_targets(p, r),
        dfs_from(p, i, result) matches Err(m) ==> exists|n: Seq<char>| #[trigger] order_message_at(p, m, n),
    decreases p.targets@.len() - i,
{
    if i < p.targets@.len() {
        let name = p.targets@[i].name@;
        lemma_find_target(p.targets@, name);
        lemma_dfs_visit(p, name, Seq::empty(), result);
        match dfs_visit(p, name, Seq::empty(), result) {
            Ok(r1) => {
                assert forall|j: int| 0 <= j < i + 1 implies r1.contains(#[trigger] p.targets@[j].name@) by {
                    if j < i {
                        let w = p.targets@[j].name@;
                        let m = choose|m: int| 0 <= m < result.len() && result[m] == w;
                        assert(r1.take(result.len() as int)[m] == w);
                    }
                }
                lemma_dfs_from(p, i + 1, r1);
            },
            Err(m) => {},
        }
    }
}

/// The targets in depth-first order form a complete dependency order, and
/// the search fails only on a cycle or a dependency on an undeclared target,
/// which its message names.
pub proof fn lemma_depth_first_order(p: Project)
    ensures
        depth_first_order(p) matches Ok(r) ==> closed_order(p, r) && covers_targets(p, r),
        depth_first_order(p) matches Err(m) ==> exists|n: Seq<char>| #[trigger] order_message_at(p, m, n),
{
    lemma_dfs_from(p, 0, Seq::empty());
}

/// Law: the order fails exactly when some dependency cycle or some
/// dependency on an undeclared target exists, and its message names one;
/// where every dependency is declared, a failure reports a dependency cycle.
pub proof fn lemma_order_fails_on_cycle_or_unknown(p: Project)
    ensures
        depth_first_order(p) is Ok <==> !has_cycle(p) && !has_unknown_dependency(p),
        depth_first_order(p) matches Err(m) ==> exists|n: Seq<char>| #[trigger] order_message_at(p, m, n),
        !has_unknown_dependency(p) && has_cycle(p) ==> (depth_first_order(p) matches Err(m) && exists|n: Seq<char>|
            m == quoted("dependency cycle involving '"@, n) && #[trigger] cycle_through(p, n)),
{
    lemma_depth_first_order(p);
    match depth_first_order(p) {
        Ok(r) => {
            lemma_order_sound(p, r);
        },
        Err(m) => {
            let n = choose|n: Seq<char>| #[trigger] order_message_at(p, m, n);
            if m == quoted("dependency cycle involving '"@, n) && cycle_through(p, n) {
                assert(has_cycle(p));
            } else {
                assert(has_unknown_dependency(p));
            }
        },
    }
}

/// Law: where target names are distinct, a successful order lists every
/// declared target exactly once and nothing else, and every dependency of a
/// target comes before the target.
pub proof fn lemma_order_lists_each_target_once(p: Project, r: Seq<Seq<char>>)
    requires
        target_names(p).no_duplicates(),
        depth_first_order(p) == Ok::<Seq<Seq<char>>, Seq<char>>(r),
    ensures
        r.len() == p.targets@.len(),
        r.no_duplicates(),
        forall|k: int| 0 <= k < p.targets@.len() ==> r.contains(#[trigger] p.targets@[k].name@),
        forall|x: Seq<char>| r.contains(x) ==> #[trigger] target_names(p).contains(x),
        forall|k: int, d: Seq<char>|
            0 <= k < p.targets@.len() && #[trigger] text::views(p.targets@[k].dependencies@).contains(d)
                ==> exists|i: int, j: int| 0 <= i < j < r.len() && r[i] == d && r[j] == p.targets@[k].name@,
{
    lemma_depth_first_order(p);
    let names = target_names(p);
    assert forall|x: Seq<char>| r.contains(x) implies #[trigger] names.contains(x) by {
        let i = choose|i: int| 0 <= i < r.len() && r[i] == x;
        assert(is_target(p, r[i]));
        lemma_find_target(p.targets@, x);
        let k = find_target(p.targets@, x)->0;
        assert(names[k] == x);
    }
    assert(r.to_set() =~= names.to_set()) by {
        assert forall|x: Seq<char>| names.to_set().contains(x) implies r.to_set().contains(x) by {
            let k = choose|k: int| 0 <= k < names.len() && names[k] == x;
            assert(r.contains(p.targets@[k].name@));
        }
    }
    r.unique_seq_to_set();
    names.unique_seq_to_set();
    assert forall|k: int, d: Seq<char>|
        0 <= k < p.targets@.len() && #[trigger] text::views(p.targets@[k].dependencies@).contains(d)
            implies exists|i: int, j: int| 0 <= i < j < r.len() && r[i] == d && r[j] == p.targets@[k].name@ by {
        let name = p.targets@[k].name@;
        lemma_find_target(p.targets@, name);
        let f = find_target(p.targets@, name)->0;
        assert(names[f] == names[k]);
        assert(f == k);
        assert(r.contains(name));
        let j = choose|j: int| 0 <= j < r.len() && r[j] == name;
        assert(deps_of(p, r[j]).contains(d));
        assert(r.take(j).contains(d));
        let i = choose|i: int| 0 <= i < j && r.take(j)[i] == d;
        assert(r[i] == d);
    }
}

/// Target names are distinct exactly when no target repeats an earlier name.
pub proof fn lemma_no_duplicate_target(p: Project)
    ensures
        first_duplicate_from(p.targets@, 0) is None <==> target_names(p).no_duplicates(),
        first_duplicate_from(p.targets@, 0) matches Some(k) ==> 0 <= k < p.targets@.len() && exists|j: int|
            0 <= j < k && #[trigger] p.targets@[j].name@ == p.targets@[k].name@,
{
    let targets = p.targets@;
    let names = target_names(p);
    lemma_first_duplicate_from(targets, 0);
    if first_duplicate_from(targets, 0) is None {
        assert forall|a: int, b: int| 0 <= a < names.len() && 0 <= b < names.len() && a != b implies names[a]
            != names[b] by {
            if a < b {
                assert(targets[a].name@ != targets[b].name@);
            } else {
                assert(targets[b].name@ != targets[a].name@);
            }
        }
    } else {
        let k = first_duplicate_from(targets, 0)->0;
        let j = choose|j: int| 0 <= j < k && #[trigger] targets[j].name@ == targets[k].name@;
        assert(names[j] == names[k]);
    }
}

proof fn lemma_first_duplicate_from(targets: Seq<Target>, i: int)
    requires
        0 <= i <= targets.len(),
    ensures
        first_duplicate_from(targets, i) is None <==> forall|a: int, b: int|
            0 <= a < b < targets.len() && i <= b ==> targets[a].name@ != targets[b].name@,
        first_duplicate_from(targets, i) matches Some(k) ==> i <= k < targets.len() && exists|j: int|
            0 <= j < k && #[trigger] targets[j].name@ == targets[k].name@,
    decreases targets.len() - i,
{
    if i < targets.len() {
        lemma_first_duplicate_from(targets, i + 1);
    }
}

/// Law: a project is valid exactly when its target names are distinct and
/// it has neither a dependency cycle nor a dependency on an undeclared
/// target.
pub proof fn lemma_valid_exactly_when(p: Project)
    ensures
        (first_duplicate_from(p.targets@, 0) is None && depth_first_order(p) is Ok) <==> (
        target_names(p).no_duplicates() && !has_cycle(p) && !has_unknown_dependency(p)),
{
    lemma_no_duplicate_target(p);
    lemma_order_fails_on_cycle_or_unknown(p);
}

} // verus!
