//! Laws of the POM algebra, proved over the models that the executable
//! functions' contracts speak of.

use vstd::prelude::*;
use crate::pom::{
    cleaned_deps, dep_apply, dep_resolve, effective_scope, model_version_4, pom_clean, pom_merge,
    propagates, same_coords, DepModel, MavenDependencyScope, PomModel,
};
use crate::properties::{
    close_from, expand_at, is_open, project_version_key, resolve, RESOLVE_DEPTH,
};
use crate::search::{lemma_first_from_none, lemma_first_from_some};
use crate::text::{has_infix, occurs_at};

verus! {

/// A POM that states nothing: every optional part is absent.
pub open spec fn is_empty_pom(e: PomModel) -> bool {
    &&& e.group_id is None
    &&& e.version is None
    &&& e.parent is None
    &&& e.properties is None
    &&& e.dependencies is None
    &&& e.dependency_management is None
}

/// `p` as merging leaves it: model version `4.0.0` and no parent.
pub open spec fn normalized(p: PomModel) -> PomModel {
    PomModel { model_version: model_version_4(), parent: None, ..p }
}

/// Merging a POM over an empty parent gives the POM back, with its model
/// version normalized and its parent cleared.
pub proof fn lemma_merge_empty_parent(e: PomModel, p: PomModel)
    requires
        is_empty_pom(e),
    ensures
        pom_merge(e, p) == normalized(p),
{
}

/// Merging an empty child with the same artifact id over a POM gives the
/// POM back, with its model version normalized and its parent cleared.
pub proof fn lemma_merge_empty_child(p: PomModel, e: PomModel)
    requires
        is_empty_pom(e),
        e.artifact_id == p.artifact_id,
    ensures
        pom_merge(p, e) == normalized(p),
{
}

/// Every dependency left by cleaning is of compile or runtime scope and is
/// not optional.
pub proof fn lemma_clean_prunes_scopes(p: PomModel)
    ensures
        pom_clean(p).dependencies matches Some(ds) ==> forall|i: int|
            0 <= i < ds.len() ==> {
                &&& (effective_scope(#[trigger] ds[i]) == MavenDependencyScope::Compile
                    || effective_scope(ds[i]) == MavenDependencyScope::Runtime)
                &&& ds[i].optional != Some(true)
            },
{
    broadcast use vstd::seq_lib::group_filter_ensures;

    let rules = match p.dependency_management {
        Some(m) => m,
        None => Seq::empty(),
    };
    let deps = match p.dependencies {
        Some(d) => d,
        None => Seq::empty(),
    };
    let props = match p.properties {
        Some(m) => m,
        None => Map::empty(),
    };
    let kept = deps.map_values(|d: DepModel| dep_apply(d, rules)).filter(
        |d: DepModel| propagates(d),
    );
    assert forall|i: int| 0 <= i < kept.len() implies propagates(#[trigger] kept[i]) by {
        deps.map_values(|d: DepModel| dep_apply(d, rules)).lemma_filter_pred(
            |d: DepModel| propagates(d),
            i,
        );
    }
}

/// The placeholder `${project.version}`.
pub open spec fn project_version_placeholder() -> Seq<char> {
    seq!['$', '{'] + project_version_key() + seq!['}']
}

/// With no properties, expansion leaves a text unchanged unless it holds
/// `${project.version}` and there is a project version.
pub proof fn lemma_expand_without_properties(
    t: Seq<char>,
    k: int,
    pv: Option<Seq<char>>,
    fuel: nat,
)
    requires
        0 <= k <= t.len(),
        pv is None || !has_infix(t, project_version_placeholder()),
    ensures
        expand_at(t, k, Map::empty(), pv, fuel) == t.subrange(k, t.len() as int),
    decreases t.len() - k,
{
    if k < t.len() {
        if is_open(t, k) {
            match close_from(t, k + 2) {
                Some(j) => {
                    lemma_first_from_some(k + 2, t.len() as int, |i: int| t[i] == '}');
                    let name = t.subrange(k + 2, j);
                    if name == project_version_key() && pv is Some {
                        assert(t.subrange(k, j + 1) =~= project_version_placeholder());
                        assert(occurs_at(t, project_version_placeholder(), k));
                    }
                    lemma_expand_without_properties(t, j + 1, pv, fuel);
                    assert(t.subrange(k, j + 1) + t.subrange(j + 1, t.len() as int) =~= t.subrange(
                        k,
                        t.len() as int,
                    ));
                },
                None => {},
            }
        } else {
            lemma_expand_without_properties(t, k + 1, pv, fuel);
            assert(seq![t[k]] + t.subrange(k + 1, t.len() as int) =~= t.subrange(
                k,
                t.len() as int,
            ));
        }
    }
}

proof fn lemma_filter_all<A>(s: Seq<A>, f: spec_fn(A) -> bool)
    requires
        forall|i: int| 0 <= i < s.len() ==> f(#[trigger] s[i]),
    ensures
        s.filter(f) == s,
    decreases s.len(),
{
    reveal(Seq::filter);
    if s.len() > 0 {
        lemma_filter_all(s.drop_last(), f);
        assert(s.drop_last().push(s.last()) =~= s);
    }
}

/// No version left by cleaning holds `${project.version}` while there is a
/// project version to put in its place.
pub open spec fn no_pending_project_version(p: PomModel) -> bool {
    p.version is None || forall|i: int|
        0 <= i < cleaned_deps(p).len() ==> ((#[trigger] cleaned_deps(p)[i]).version matches Some(v)
            ==> !has_infix(v, project_version_placeholder()))
}

/// Cleaning a cleaned POM changes nothing, where no version that the first
/// cleaning left holds `${project.version}` still to be replaced.
pub proof fn lemma_clean_idempotent(p: PomModel)
    requires
        no_pending_project_version(p),
    ensures
        pom_clean(pom_clean(p)) == pom_clean(p),
{
    broadcast use vstd::seq_lib::group_filter_ensures;

    let q = pom_clean(p);
    let cd = cleaned_deps(p);
    let deps = match q.dependencies {
        Some(d) => d,
        None => Seq::<DepModel>::empty(),
    };
    assert(deps =~= cd);
    let rules = Seq::<DepModel>::empty();
    let applied = deps.map_values(|d: DepModel| dep_apply(d, rules));
    assert forall|i: int| 0 <= i < deps.len() implies #[trigger] applied[i] == deps[i] by {
        lemma_first_from_none(0, 0, |j: int| same_coords(rules[j], deps[i]));
    }
    assert(applied =~= deps);
    lemma_clean_prunes_scopes(p);
    assert forall|i: int| 0 <= i < deps.len() implies propagates(#[trigger] deps[i]) by {
        if cd.len() > 0 {
            assert(q.dependencies == Some(cd));
        }
    }
    lemma_filter_all(deps, |d: DepModel| propagates(d));
    let g = |d: DepModel| dep_resolve(d, Map::empty(), q.version);
    assert forall|i: int| 0 <= i < deps.len() implies #[trigger] g(deps[i]) == deps[i] by {
        match deps[i].version {
            Some(v) => {
                lemma_expand_without_properties(v, 0, q.version, RESOLVE_DEPTH as nat);
                assert(v.subrange(0, v.len() as int) =~= v);
            },
            None => {},
        }
    }
    assert(deps.map_values(g) =~= deps);
    assert(cleaned_deps(q) =~= cd);
}

/// Every `$` of `t` starts a `${`.
pub open spec fn dollars_open_placeholders(t: Seq<char>) -> bool {
    forall|i: int| 0 <= i < t.len() && t[i] == '$' ==> is_open(t, i)
}

/// Every placeholder that expanding `t` from index `k` meets is resolved:
/// it is `${project.version}` with a project version, or names a property
/// within the nesting bound whose value is itself fully resolvable; and no
/// `${` is left without its `}`.
pub open spec fn resolvable_at(
    t: Seq<char>,
    k: int,
    props: Map<Seq<char>, Seq<char>>,
    pv: Option<Seq<char>>,
    fuel: nat,
) -> bool
    decreases fuel, t.len() - k,
{
    if k < 0 || k >= t.len() {
        true
    } else if is_open(t, k) {
        match close_from(t, k + 2) {
            Some(j) => {
                if j <= k || j >= t.len() {
                    true
                } else {
                    let name = t.subrange(k + 2, j);
                    let ok = if name == project_version_key() && pv is Some {
                        true
                    } else if props.contains_key(name) && fuel > 0 {
                        resolvable_at(props[name], 0, props, pv, (fuel - 1) as nat)
                    } else {
                        false
                    };
                    ok && resolvable_at(t, j + 1, props, pv, fuel)
                }
            },
            None => false,
        }
    } else {
        resolvable_at(t, k + 1, props, pv, fuel)
    }
}

proof fn lemma_expand_dollar_free(
    t: Seq<char>,
    k: int,
    props: Map<Seq<char>, Seq<char>>,
    pv: Option<Seq<char>>,
    fuel: nat,
)
    requires
        0 <= k <= t.len(),
        dollars_open_placeholders(t),
        forall|n: Seq<char>| #[trigger]
            props.contains_key(n) ==> dollars_open_placeholders(props[n]),
        pv matches Some(v) ==> !v.contains('$'),
        resolvable_at(t, k, props, pv, fuel),
    ensures
        !expand_at(t, k, props, pv, fuel).contains('$'),
    decreases fuel, t.len() - k,
{
    let e = expand_at(t, k, props, pv, fuel);
    if k < t.len() {
        if is_open(t, k) {
            match close_from(t, k + 2) {
                Some(j) => {
                    lemma_first_from_some(k + 2, t.len() as int, |i: int| t[i] == '}');
                    let name = t.subrange(k + 2, j);
                    lemma_expand_dollar_free(t, j + 1, props, pv, fuel);
                    let rest = expand_at(t, j + 1, props, pv, fuel);
                    if name == project_version_key() && pv is Some {
                        let v = pv->0;
                        assert(e == v + rest);
                        assert forall|i: int| 0 <= i < e.len() implies e[i] != '$' by {
                            if i < v.len() {
                                assert(e[i] == v[i]);
                            } else {
                                assert(e[i] == rest[i - v.len()]);
                            }
                        }
                    } else {
                        let nv = props[name];
                        lemma_expand_dollar_free(nv, 0, props, pv, (fuel - 1) as nat);
                        let v = expand_at(nv, 0, props, pv, (fuel - 1) as nat);
                        assert(e == v + rest);
                        assert forall|i: int| 0 <= i < e.len() implies e[i] != '$' by {
                            if i < v.len() {
                                assert(e[i] == v[i]);
                            } else {
                                assert(e[i] == rest[i - v.len()]);
                            }
                        }
                    }
                },
                None => {},
            }
        } else {
            lemma_expand_dollar_free(t, k + 1, props, pv, fuel);
            let rest = expand_at(t, k + 1, props, pv, fuel);
            assert(t[k] != '$');
            assert(e == seq![t[k]] + rest);
            assert forall|i: int| 0 <= i < e.len() implies e[i] != '$' by {
                if i > 0 {
                    assert(e[i] == rest[i - 1]);
                }
            }
        }
    }
}

/// After resolution no `${` remains, unless a placeholder was unresolvable
/// (undefined, past the nesting bound, or without its `}`). Stated for texts
/// whose every `$` opens a placeholder, so that no `${` can be formed by
/// putting a value next to a literal `$`.
pub proof fn lemma_resolve_leaves_no_placeholder(
    t: Seq<char>,
    props: Map<Seq<char>, Seq<char>>,
    pv: Option<Seq<char>>,
)
    requires
        dollars_open_placeholders(t),
        forall|n: Seq<char>| #[trigger]
            props.contains_key(n) ==> dollars_open_placeholders(props[n]),
        pv matches Some(v) ==> !v.contains('$'),
    ensures
        has_infix(resolve(t, props, pv), seq!['$', '{']) ==> !resolvable_at(
            t,
            0,
            props,
            pv,
            RESOLVE_DEPTH as nat,
        ),
{
    let r = resolve(t, props, pv);
    if resolvable_at(t, 0, props, pv, RESOLVE_DEPTH as nat) {
        lemma_expand_dollar_free(t, 0, props, pv, RESOLVE_DEPTH as nat);
        if has_infix(r, seq!['$', '{']) {
            let i = choose|i: int| occurs_at(r, seq!['$', '{'], i);
            assert(r.subrange(i, i + 2)[0] == r[i]);
            assert(r.contains(r[i]));
        }
    }
}

} // verus!
