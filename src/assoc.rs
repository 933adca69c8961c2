//! Associativity of POM merging: folding a parent chain gives the same POM
//! however the chain is grouped, provided the middle POM lists each
//! dependency coordinate once.

use vstd::prelude::*;
use crate::pom::{
    coords_index, dep_merge, merge_deps, merge_one, merge_opt_props, pom_merge,
    same_coords, DepModel, PomModel,
};
use crate::search::{lemma_first_from_found, lemma_first_from_none, lemma_first_from_some};

verus! {

/// No two dependencies of `s` share their coordinates.
pub open spec fn keys_unique(s: Seq<DepModel>) -> bool {
    forall|i: int, j: int|
        0 <= i < j < s.len() ==> !same_coords(#[trigger] s[i], #[trigger] s[j])
}

/// Some dependency of `s` has the coordinates of `d`.
pub open spec fn has_key(s: Seq<DepModel>, d: DepModel) -> bool {
    exists|i: int| 0 <= i < s.len() && same_coords(#[trigger] s[i], d)
}

/// The dependency lists of a POM each name a coordinate at most once.
pub open spec fn pom_keys_unique(p: PomModel) -> bool {
    &&& p.dependencies matches Some(d) ==> keys_unique(d)
    &&& p.dependency_management matches Some(d) ==> keys_unique(d)
}

proof fn lemma_index_found(s: Seq<DepModel>, d: DepModel, i: int)
    requires
        0 <= i < s.len(),
        same_coords(s[i], d),
        forall|j: int| 0 <= j < i ==> !same_coords(#[trigger] s[j], d),
    ensures
        coords_index(s, d) == Some(i),
{
    let p = |k: int| same_coords(s[k], d);
    assert forall|j: int| 0 <= j < i implies !#[trigger] p(j) by {}
    lemma_first_from_found(0, s.len() as int, p, i);
}

proof fn lemma_index_absent(s: Seq<DepModel>, d: DepModel)
    requires
        !has_key(s, d),
    ensures
        coords_index(s, d) is None,
{
    let p = |k: int| same_coords(s[k], d);
    assert forall|j: int| 0 <= j < s.len() implies !#[trigger] p(j) by {}
    lemma_first_from_none(0, s.len() as int, p);
}

proof fn lemma_index_some(s: Seq<DepModel>, d: DepModel)
    requires
        coords_index(s, d) is Some,
    ensures
        ({
            let i = coords_index(s, d)->0;
            &&& 0 <= i < s.len()
            &&& same_coords(s[i], d)
            &&& forall|j: int| 0 <= j < i ==> !same_coords(#[trigger] s[j], d)
        }),
{
    let p = |k: int| same_coords(s[k], d);
    lemma_first_from_some(0, s.len() as int, p);
    let i = coords_index(s, d)->0;
    assert forall|j: int| 0 <= j < i implies !same_coords(#[trigger] s[j], d) by {
        assert(!p(j));
    }
}

proof fn lemma_first_exists(s: Seq<DepModel>, d: DepModel, i: int)
    requires
        0 <= i < s.len(),
        same_coords(s[i], d),
    ensures
        coords_index(s, d) is Some,
    decreases i,
{
    if forall|j: int| 0 <= j < i ==> !same_coords(#[trigger] s[j], d) {
        lemma_index_found(s, d, i);
    } else {
        let j = choose|j: int| 0 <= j < i && same_coords(#[trigger] s[j], d);
        lemma_first_exists(s, d, j);
    }
}

proof fn lemma_index_none(s: Seq<DepModel>, d: DepModel)
    requires
        coords_index(s, d) is None,
    ensures
        !has_key(s, d),
{
    if has_key(s, d) {
        let i = choose|i: int| 0 <= i < s.len() && same_coords(#[trigger] s[i], d);
        lemma_first_exists(s, d, i);
    }
}

/// Same coordinates pointwise give the same first index.
proof fn lemma_index_same_keys(s: Seq<DepModel>, t: Seq<DepModel>, d: DepModel)
    requires
        s.len() == t.len(),
        forall|i: int| 0 <= i < s.len() ==> same_coords(#[trigger] s[i], t[i]),
    ensures
        coords_index(s, d) == coords_index(t, d),
{
    match coords_index(s, d) {
        Some(i) => {
            lemma_index_some(s, d);
            assert forall|j: int| 0 <= j < i implies !same_coords(#[trigger] t[j], d) by {
                assert(same_coords(s[j], t[j]));
                assert(!same_coords(s[j], d));
            }
            lemma_index_found(t, d, i);
        },
        None => {
            lemma_index_none(s, d);
            assert forall|j: int| 0 <= j < t.len() implies !same_coords(#[trigger] t[j], d) by {
                assert(same_coords(s[j], t[j]));
                if same_coords(t[j], d) {
                    assert(same_coords(s[j], d));
                }
            }
            lemma_index_absent(t, d);
        },
    }
}

proof fn lemma_index_push(s: Seq<DepModel>, y: DepModel, d: DepModel)
    ensures
        has_key(s, d) ==> coords_index(s.push(y), d) == coords_index(s, d),
        !has_key(s, d) && same_coords(y, d) ==> coords_index(s.push(y), d) == Some(s.len() as int),
        !has_key(s, d) && !same_coords(y, d) ==> coords_index(s.push(y), d) is None,
{
    let t = s.push(y);
    if has_key(s, d) {
        let i = choose|i: int| 0 <= i < s.len() && same_coords(#[trigger] s[i], d);
        lemma_first_exists(s, d, i);
        assert(coords_index(s, d) is Some);
        lemma_index_some(s, d);
        let k = coords_index(s, d)->0;
        assert forall|j: int| 0 <= j < k implies !same_coords(#[trigger] t[j], d) by {
            assert(t[j] == s[j]);
        }
        lemma_index_found(t, d, k);
    } else {
        assert forall|j: int| 0 <= j < s.len() implies !same_coords(#[trigger] t[j], d) by {
            assert(t[j] == s[j]);
        }
        if same_coords(y, d) {
            lemma_index_found(t, d, s.len() as int);
        } else {
            lemma_index_absent(t, d);
        }
    }
}

proof fn lemma_dep_merge_assoc(x: DepModel, y: DepModel, z: DepModel)
    ensures
        dep_merge(dep_merge(x, y), z) == dep_merge(x, dep_merge(y, z)),
{
}

proof fn lemma_merge_one_keys(s: Seq<DepModel>, d: DepModel)
    ensures
        has_key(merge_one(s, d), d),
        forall|x: DepModel| has_key(s, x) ==> #[trigger] has_key(merge_one(s, d), x),
        keys_unique(s) ==> keys_unique(merge_one(s, d)),
{
    let r = merge_one(s, d);
    match coords_index(s, d) {
        Some(i) => {
            lemma_index_some(s, d);
            assert(same_coords(r[i], d));
            assert forall|x: DepModel| has_key(s, x) implies #[trigger] has_key(r, x) by {
                let k = choose|k: int| 0 <= k < s.len() && same_coords(#[trigger] s[k], x);
                assert(same_coords(r[k], x));
            }
            assert forall|a: int, b: int| keys_unique(s) && 0 <= a < b < r.len() implies !same_coords(
                #[trigger] r[a],
                #[trigger] r[b],
            ) by {
                assert(same_coords(r[a], s[a]));
                assert(same_coords(r[b], s[b]));
                assert(!same_coords(s[a], s[b]));
            }
        },
        None => {
            lemma_index_none(s, d);
            assert(same_coords(r[s.len() as int], d));
            assert forall|x: DepModel| has_key(s, x) implies #[trigger] has_key(r, x) by {
                let k = choose|k: int| 0 <= k < s.len() && same_coords(#[trigger] s[k], x);
                assert(same_coords(r[k], x));
            }
            assert forall|a: int, b: int| keys_unique(s) && 0 <= a < b < r.len() implies !same_coords(
                #[trigger] r[a],
                #[trigger] r[b],
            ) by {
                if b == s.len() {
                    assert(!same_coords(s[a], d));
                } else {
                    assert(!same_coords(s[a], s[b]));
                }
            }
        },
    }
}

proof fn lemma_merge_deps_keys(a: Seq<DepModel>, m: Seq<DepModel>, x: DepModel)
    requires
        has_key(m, x),
    ensures
        has_key(merge_deps(a, m), x),
    decreases m.len(),
{
    let y = m.last();
    let m2 = m.drop_last();
    lemma_merge_one_keys(merge_deps(a, m2), y);
    if same_coords(y, x) {
        let r = merge_deps(a, m);
        let k = choose|k: int| 0 <= k < r.len() && same_coords(#[trigger] r[k], y);
        assert(same_coords(r[k], x));
    } else {
        let k = choose|k: int| 0 <= k < m.len() && same_coords(#[trigger] m[k], x);
        assert(k < m2.len());
        assert(same_coords(m2[k], x));
        lemma_merge_deps_keys(a, m2, x);
    }
}

proof fn lemma_merge_deps_unique(b: Seq<DepModel>, c: Seq<DepModel>)
    requires
        keys_unique(b),
    ensures
        keys_unique(merge_deps(b, c)),
    decreases c.len(),
{
    if c.len() > 0 {
        lemma_merge_deps_unique(b, c.drop_last());
        lemma_merge_one_keys(merge_deps(b, c.drop_last()), c.last());
    }
}

/// Merging two dependencies with the same coordinates one after the other
/// is merging their merge.
proof fn lemma_merge_one_same(x: Seq<DepModel>, y: DepModel, z: DepModel)
    requires
        same_coords(y, z),
    ensures
        merge_one(merge_one(x, y), z) == merge_one(x, dep_merge(y, z)),
{
    let yz = dep_merge(y, z);
    let x1 = merge_one(x, y);
    match coords_index(x, y) {
        Some(j) => {
            lemma_index_some(x, y);
            assert forall|i: int| 0 <= i < x.len() implies same_coords(#[trigger] x[i], x1[i]) by {}
            lemma_index_same_keys(x, x1, z);
            lemma_index_same_keys(x, x, z);
            lemma_index_found(x, z, j);
            lemma_index_found(x, yz, j);
            lemma_dep_merge_assoc(x[j], y, z);
            assert(merge_one(x1, z) =~= merge_one(x, yz));
        },
        None => {
            lemma_index_none(x, y);
            lemma_index_push(x, y, z);
            lemma_index_push(x, y, yz);
            lemma_index_absent(x, yz);
            assert(merge_one(x1, z) =~= merge_one(x, yz));
        },
    }
}

/// Merging dependencies with different coordinates commutes, where the
/// second is already present.
proof fn lemma_merge_one_commute(x: Seq<DepModel>, y: DepModel, z: DepModel)
    requires
        !same_coords(y, z),
        has_key(x, z),
    ensures
        merge_one(merge_one(x, z), y) == merge_one(merge_one(x, y), z),
{
    lemma_first_exists(x, z, choose|i: int| 0 <= i < x.len() && same_coords(#[trigger] x[i], z));
    assert(coords_index(x, z) is Some);
    lemma_index_some(x, z);
    let jz = coords_index(x, z)->0;
    let x1 = merge_one(x, z);
    assert forall|i: int| 0 <= i < x.len() implies same_coords(#[trigger] x[i], x1[i]) by {}
    lemma_index_same_keys(x, x1, y);
    match coords_index(x, y) {
        Some(jy) => {
            lemma_index_some(x, y);
            let x2 = merge_one(x, y);
            assert forall|i: int| 0 <= i < x.len() implies same_coords(#[trigger] x[i], x2[i]) by {}
            lemma_index_same_keys(x, x2, z);
            assert(jy != jz);
            assert(merge_one(x1, y) =~= merge_one(x2, z));
        },
        None => {
            lemma_index_none(x, y);
            lemma_index_push(x, y, z);
            assert(merge_one(x1, y) =~= merge_one(merge_one(x, y), z));
        },
    }
}

/// Folding a list into `a` after merging `z` into it equals merging `z`
/// after the fold, for a list with unique coordinates.
proof fn lemma_fold_merge_one(a: Seq<DepModel>, m: Seq<DepModel>, z: DepModel)
    requires
        keys_unique(m),
    ensures
        merge_deps(a, merge_one(m, z)) == merge_one(merge_deps(a, m), z),
    decreases m.len(),
{
    let mz = merge_one(m, z);
    match coords_index(m, z) {
        None => {
            assert(mz.drop_last() =~= m);
        },
        Some(i) => {
            lemma_index_some(m, z);
            let m2 = m.drop_last();
            let y = m.last();
            if i == m.len() - 1 {
                assert(mz.drop_last() =~= m2);
                assert(m.drop_last().push(y) =~= m);
                lemma_merge_one_same(merge_deps(a, m2), y, z);
            } else {
                assert(!same_coords(y, z)) by {
                    assert(!same_coords(m[i], m[m.len() - 1]));
                }
                assert forall|k: int| 0 <= k < i implies !same_coords(#[trigger] m2[k], z) by {
                    assert(m2[k] == m[k]);
                }
                lemma_index_found(m2, z, i);
                assert(mz =~= merge_one(m2, z).push(y));
                assert(mz.drop_last() =~= merge_one(m2, z));
                assert forall|p: int, q: int| 0 <= p < q < m2.len() implies !same_coords(
                    #[trigger] m2[p],
                    #[trigger] m2[q],
                ) by {
                    assert(m2[p] == m[p] && m2[q] == m[q]);
                }
                lemma_fold_merge_one(a, m2, z);
                assert(has_key(m2, z)) by {
                    assert(same_coords(m2[i], z));
                }
                lemma_merge_deps_keys(a, m2, z);
                lemma_merge_one_commute(merge_deps(a, m2), y, z);
            }
        },
    }
}

/// Folding dependency lists is associative when the middle list names
/// each coordinate once.
pub proof fn lemma_merge_deps_assoc(a: Seq<DepModel>, b: Seq<DepModel>, c: Seq<DepModel>)
    requires
        keys_unique(b),
    ensures
        merge_deps(merge_deps(a, b), c) == merge_deps(a, merge_deps(b, c)),
    decreases c.len(),
{
    if c.len() > 0 {
        let c2 = c.drop_last();
        lemma_merge_deps_assoc(a, b, c2);
        lemma_merge_deps_unique(b, c2);
        lemma_fold_merge_one(a, merge_deps(b, c2), c.last());
    }
}

/// Merging a chain of POMs gives the same POM however it is grouped:
/// `merge(merge(a, b), c) == merge(a, merge(b, c))`, where the middle POM
/// lists each dependency coordinate once (so that a longer chain may be
/// folded in any grouping).
pub proof fn lemma_merge_associative(a: PomModel, b: PomModel, c: PomModel)
    requires
        pom_keys_unique(b),
    ensures
        pom_merge(pom_merge(a, b), c) == pom_merge(a, pom_merge(b, c)),
{
    match (a.dependencies, b.dependencies, c.dependencies) {
        (Some(x), Some(y), Some(z)) => lemma_merge_deps_assoc(x, y, z),
        _ => {},
    }
    match (a.dependency_management, b.dependency_management, c.dependency_management) {
        (Some(x), Some(y), Some(z)) => lemma_merge_deps_assoc(x, y, z),
        _ => {},
    }
    match (a.properties, b.properties, c.properties) {
        (Some(x), Some(y), Some(z)) => {
            assert(x.union_prefer_right(y).union_prefer_right(z) =~= x.union_prefer_right(
                y.union_prefer_right(z),
            ));
        },
        _ => {},
    }
    assert(merge_opt_props(merge_opt_props(a.properties, b.properties), c.properties)
        == merge_opt_props(a.properties, merge_opt_props(b.properties, c.properties)));
}

} // verus!
