//! POM properties and the expansion of `${name}` placeholders.

use vstd::prelude::*;
use crate::search::{first_from, lemma_first_from_found, lemma_first_from_none};
use crate::text::chars_of;

verus! {

/// How deep property expansion may nest before a placeholder counts as
/// unresolvable.
pub const RESOLVE_DEPTH: u32 = 64;

/// One `name -> value` entry.
#[derive(Clone, Debug, PartialEq, Eq)]
pub struct Property {
    pub name: String,
    pub value: String,
}

impl Property {
    pub fn duplicate(&self) -> (r: Property)
        ensures
            r == *self,
    {
        Property { name: self.name.clone(), value: self.value.clone() }
    }
}

/// The mapping that a list of entries stands for: a later entry overrides
/// an earlier one with the same name.
pub open spec fn entries_map(s: Seq<Property>) -> Map<Seq<char>, Seq<char>>
    decreases s.len(),
{
    if s.len() == 0 {
        Map::empty()
    } else {
        entries_map(s.drop_last()).insert(s.last().name@, s.last().value@)
    }
}

/// Properties of a POM: a mapping from names to values.
#[derive(Clone, Debug, PartialEq, Eq)]
pub struct Properties {
    pub entries: Vec<Property>,
}

impl View for Properties {
    type V = Map<Seq<char>, Seq<char>>;

    open spec fn view(&self) -> Map<Seq<char>, Seq<char>> {
        entries_map(self.entries@)
    }
}

proof fn lemma_lookup_last(s: Seq<Property>, k: Seq<char>, idx: int)
    requires
        0 <= idx < s.len(),
        s[idx].name@ == k,
        forall|j: int| idx < j < s.len() ==> (#[trigger] s[j]).name@ != k,
    ensures
        entries_map(s).contains_key(k),
        entries_map(s)[k] == s[idx].value@,
    decreases s.len(),
{
    if idx < s.len() - 1 {
        lemma_lookup_last(s.drop_last(), k, idx);
    }
}

proof fn lemma_lookup_absent(s: Seq<Property>, k: Seq<char>)
    requires
        forall|j: int| 0 <= j < s.len() ==> (#[trigger] s[j]).name@ != k,
    ensures
        !entries_map(s).contains_key(k),
    decreases s.len(),
{
    if s.len() > 0 {
        lemma_lookup_absent(s.drop_last(), k);
    }
}

impl Properties {
    pub fn new() -> (r: Properties)
        ensures
            r@ == Map::<Seq<char>, Seq<char>>::empty(),
    {
        Properties { entries: Vec::new() }
    }

    /// Bind `name` to `value`, replacing an earlier binding.
    pub fn insert(&mut self, name: String, value: String)
        ensures
            final(self)@ == old(self)@.insert(name@, value@),
    {
        let ghost prev = self.entries@;
        self.entries.push(Property { name, value });
        proof {
            assert(self.entries@.drop_last() =~= prev);
        }
    }

    /// The value bound to `name`.
    pub fn get(&self, name: &String) -> (r: Option<&String>)
        ensures
            r is Some <==> self@.contains_key(name@),
            r is Some ==> r->0@ == self@[name@],
    {
        let mut i: usize = self.entries.len();
        while i > 0
            invariant
                i <= self.entries.len(),
                forall|j: int| i <= j < self.entries.len() ==> (#[trigger] self.entries@[j]).name@
                    != name@,
            decreases i,
        {
            i -= 1;
            if self.entries[i].name == *name {
                proof {
                    lemma_lookup_last(self.entries@, name@, i as int);
                }
                return Some(&self.entries[i].value);
            }
        }
        proof {
            lemma_lookup_absent(self.entries@, name@);
        }
        None
    }

    pub fn duplicate(&self) -> (r: Properties)
        ensures
            r@ == self@,
    {
        let mut out: Vec<Property> = Vec::new();
        let n = self.entries.len();
        for k in 0..n
            invariant
                n == self.entries.len(),
                out@ == self.entries@.take(k as int),
        {
            out.push(self.entries[k].duplicate());
            proof {
                assert(out@ =~= self.entries@.take(k + 1));
            }
        }
        proof {
            assert(self.entries@.take(n as int) =~= self.entries@);
        }
        Properties { entries: out }
    }

    /// These properties with the entries of `other` overriding them.
    pub fn merge(&self, other: &Properties) -> (r: Properties)
        ensures
            r@ == self@.union_prefer_right(other@),
    {
        let mut new = self.duplicate();
        let n = other.entries.len();
        for k in 0..n
            invariant
                n == other.entries.len(),
                new@ == self@.union_prefer_right(entries_map(other.entries@.take(k as int))),
        {
            let e = &other.entries[k];
            new.insert(e.name.clone(), e.value.clone());
            proof {
                let t = other.entries@.take(k + 1);
                assert(t.drop_last() =~= other.entries@.take(k as int));
                assert(new@ =~= self@.union_prefer_right(entries_map(t)));
            }
        }
        proof {
            assert(other.entries@.take(n as int) =~= other.entries@);
        }
        new
    }
}

/// The name of the built-in property bound to the project's version.
pub open spec fn project_version_key() -> Seq<char> {
    seq!['p', 'r', 'o', 'j', 'e', 'c', 't', '.', 'v', 'e', 'r', 's', 'i', 'o', 'n']
}

/// `${` starts at index `i` of `t`.
pub open spec fn is_open(t: Seq<char>, i: int) -> bool {
    0 <= i && i + 1 < t.len() && t[i] == '$' && t[i + 1] == '{'
}

/// The index of the first `}` at or after `lo`.
pub open spec fn close_from(t: Seq<char>, lo: int) -> Option<int> {
    first_from(lo, t.len() as int, |i: int| t[i] == '}')
}

/// The text of `t` from index `k` with its placeholders expanded: `${name}`
/// becomes the expanded value of `name`, `${project.version}` the project
/// version when there is one; an undefined name, or one past the nesting
/// bound `fuel`, keeps its placeholder as written.
pub open spec fn expand_at(
    t: Seq<char>,
    k: int,
    props: Map<Seq<char>, Seq<char>>,
    pv: Option<Seq<char>>,
    fuel: nat,
) -> Seq<char>
    decreases fuel, t.len() - k,
{
    if k < 0 || k >= t.len() {
        Seq::empty()
    } else if is_open(t, k) {
        match close_from(t, k + 2) {
            Some(j) => {
                if j <= k || j >= t.len() {
                    Seq::empty()
                } else {
                    let name = t.subrange(k + 2, j);
                    let value = if name == project_version_key() && pv is Some {
                        pv->0
                    } else if props.contains_key(name) && fuel > 0 {
                        expand_at(props[name], 0, props, pv, (fuel - 1) as nat)
                    } else {
                        t.subrange(k, j + 1)
                    };
                    value + expand_at(t, j + 1, props, pv, fuel)
                }
            },
            None => t.subrange(k, t.len() as int),
        }
    } else {
        seq![t[k]] + expand_at(t, k + 1, props, pv, fuel)
    }
}

/// `t` with its placeholders expanded, nesting at most `RESOLVE_DEPTH` deep.
pub open spec fn resolve(t: Seq<char>, props: Map<Seq<char>, Seq<char>>, pv: Option<Seq<char>>) -> Seq<char> {
    expand_at(t, 0, props, pv, RESOLVE_DEPTH as nat)
}

/// The text of an optional string.
pub open spec fn opt_text(o: Option<String>) -> Option<Seq<char>> {
    match o {
        Some(s) => Some(s@),
        None => None,
    }
}

/// Append `src[lo..hi]` to `out`.
pub fn extend_chars(out: &mut Vec<char>, src: &Vec<char>, lo: usize, hi: usize)
    requires
        lo <= hi <= src.len(),
    ensures
        final(out)@ == old(out)@ + src@.subrange(lo as int, hi as int),
{
    let ghost start = out@;
    let mut i = lo;
    while i < hi
        invariant
            lo <= i <= hi <= src.len(),
            out@ == start + src@.subrange(lo as int, i as int),
        decreases hi - i,
    {
        out.push(src[i]);
        i += 1;
        proof {
            assert(out@ =~= start + src@.subrange(lo as int, i as int));
        }
    }
}

/// The string made of `src[lo..hi]`.
pub fn string_of(src: &Vec<char>, lo: usize, hi: usize) -> (r: String)
    requires
        lo <= hi <= src.len(),
    ensures
        r@ == src@.subrange(lo as int, hi as int),
{
    let mut r = String::new();
    let mut i = lo;
    while i < hi
        invariant
            lo <= i <= hi <= src.len(),
            r@ == src@.subrange(lo as int, i as int),
        decreases hi - i,
    {
        r.push(src[i]);
        i += 1;
        proof {
            assert(r@ =~= src@.subrange(lo as int, i as int));
        }
    }
    r
}

/// The string `project.version`.
fn project_version_name() -> (r: String)
    ensures
        r@ == project_version_key(),
{
    let mut r = String::new();
    r.push('p');
    r.push('r');
    r.push('o');
    r.push('j');
    r.push('e');
    r.push('c');
    r.push('t');
    r.push('.');
    r.push('v');
    r.push('e');
    r.push('r');
    r.push('s');
    r.push('i');
    r.push('o');
    r.push('n');
    proof {
        assert(r@ =~= project_version_key());
    }
    r
}

impl Properties {
    /// Expand the placeholders of `t`, nesting at most `fuel` deep.
    pub fn expand(&self, t: &Vec<char>, pv: &Option<String>, fuel: u32) -> (r: Vec<char>)
        ensures
            r@ == expand_at(t@, 0, self@, opt_text(*pv), fuel as nat),
        decreases fuel,
    {
        let ghost props = self@;
        let ghost pvv = opt_text(*pv);
        let n = t.len();
        let mut out: Vec<char> = Vec::new();
        let mut k: usize = 0;
        while k < n
            invariant
                n == t.len(),
                k <= n,
                props == self@,
                pvv == opt_text(*pv),
                out@ + expand_at(t@, k as int, props, pvv, fuel as nat) == expand_at(
                    t@,
                    0,
                    props,
                    pvv,
                    fuel as nat,
                ),
            decreases n - k,
        {
            let ghost prev = out@;
            if k + 1 < n && t[k] == '$' && t[k + 1] == '{' {
                let mut j = k + 2;
                while j < n && t[j] != '}'
                    invariant
                        k + 2 <= j <= n,
                        n == t.len(),
                        forall|i: int| k + 2 <= i < j ==> t@[i] != '}',
                    decreases n - j,
                {
                    j += 1;
                }
                let ghost p = |i: int| t@[i] == '}';
                if j == n {
                    proof {
                        assert forall|i: int| k + 2 <= i < n implies !#[trigger] p(i) by {}
                        lemma_first_from_none(k + 2, n as int, p);
                    }
                    extend_chars(&mut out, t, k, n);
                    proof {
                        assert(out@ + expand_at(t@, n as int, props, pvv, fuel as nat) =~= out@);
                    }
                    k = n;
                } else {
                    proof {
                        assert forall|i: int| k + 2 <= i < j implies !#[trigger] p(i) by {}
                        lemma_first_from_found(k + 2, n as int, p, j as int);
                    }
                    let name = string_of(t, k + 2, j);
                    let key = project_version_name();
                    let ghost nm = t@.subrange(k + 2, j as int);
                    let ghost value = if nm == project_version_key() && pvv is Some {
                        pvv->0
                    } else if props.contains_key(nm) && fuel > 0 {
                        expand_at(props[nm], 0, props, pvv, (fuel - 1) as nat)
                    } else {
                        t@.subrange(k as int, j + 1)
                    };
                    proof {
                        assert(close_from(t@, k + 2) == Some(j as int));
                        assert(expand_at(t@, k as int, props, pvv, fuel as nat) == value + expand_at(
                            t@,
                            j + 1,
                            props,
                            pvv,
                            fuel as nat,
                        ));
                    }
                    if name == key && pv.is_some() {
                        match pv {
                            Some(v) => {
                                let vc = chars_of(v.as_str());
                                extend_chars(&mut out, &vc, 0, vc.len());
                                proof {
                                    assert(vc@.subrange(0, vc@.len() as int) =~= vc@);
                                    assert(out@ =~= prev + value);
                                }
                            },
                            None => {},
                        }
                    } else {
                        let found = self.get(&name);
                        if found.is_some() && fuel > 0 {
                            let v = found.unwrap();
                            let vc = chars_of(v.as_str());
                            let e = self.expand(&vc, pv, fuel - 1);
                            extend_chars(&mut out, &e, 0, e.len());
                            proof {
                                assert(e@.subrange(0, e@.len() as int) =~= e@);
                                assert(out@ =~= prev + value);
                            }
                        } else {
                            extend_chars(&mut out, t, k, j + 1);
                            assert(out@ =~= prev + value);
                        }
                    }
                    proof {
                        assert(out@ =~= prev + value);
                        assert(out@ + expand_at(t@, j + 1, props, pvv, fuel as nat) =~= prev
                            + expand_at(t@, k as int, props, pvv, fuel as nat));
                    }
                    k = j + 1;
                }
            } else {
                out.push(t[k]);
                proof {
                    assert(out@ + expand_at(t@, k + 1, props, pvv, fuel as nat) =~= prev
                        + expand_at(t@, k as int, props, pvv, fuel as nat));
                }
                k += 1;
            }
        }
        proof {
            assert(out@ + expand_at(t@, n as int, props, pvv, fuel as nat) =~= out@);
        }
        out
    }

    /// Recursively resolve the properties in the given text.
    pub fn recurse_resolve(&self, text: &str, project_version: &Option<String>) -> (r: String)
        ensures
            r@ == resolve(text@, self@, opt_text(*project_version)),
    {
        let t = chars_of(text);
        let e = self.expand(&t, project_version, RESOLVE_DEPTH);
        let r = string_of(&e, 0, e.len());
        proof {
            assert(e@.subrange(0, e@.len() as int) =~= e@);
        }
        r
    }
}

} // verus!
