//! Reading back what the serializer writes: the token sequence of a written
//! POM is read into the same POM. The step from text to tokens is in
//! `textround`.

use vstd::prelude::*;
use crate::pom::{DepModel, MavenDependencyScope, ParentModel, PomModel};
use crate::reader::{
    assign, empty_dep, finish_dep, finish_read, initial_read, is_dependency_path, read_all,
    read_step, set_dep_field, trimmed, ReadModel,
};
use crate::xml::TokenModel;

verus! {

/// The reader after the tokens `ts`, starting from `st`.
pub open spec fn read_from(st: ReadModel, ts: Seq<TokenModel>) -> ReadModel
    decreases ts.len(),
{
    if ts.len() == 0 {
        st
    } else {
        read_step(read_from(st, ts.drop_last()), ts.last())
    }
}

proof fn lemma_read_all_from(ts: Seq<TokenModel>)
    ensures
        read_all(ts) == read_from(initial_read(), ts),
    decreases ts.len(),
{
    if ts.len() > 0 {
        lemma_read_all_from(ts.drop_last());
    }
}

proof fn lemma_read_concat(st: ReadModel, a: Seq<TokenModel>, b: Seq<TokenModel>)
    ensures
        read_from(st, a + b) == read_from(read_from(st, a), b),
    decreases b.len(),
{
    if b.len() == 0 {
        assert(a + b =~= a);
    } else {
        lemma_read_concat(st, a, b.drop_last());
        assert((a + b).drop_last() =~= a + b.drop_last());
        assert((a + b).last() == b.last());
    }
}

/// `<name>v</name>` as tokens.
pub open spec fn leaf(name: Seq<char>, v: Seq<char>) -> Seq<TokenModel> {
    seq![TokenModel::Open(name), TokenModel::Text(v), TokenModel::Close(name)]
}

pub open spec fn opt_leaf(name: Seq<char>, o: Option<Seq<char>>) -> Seq<TokenModel> {
    match o {
        Some(v) => leaf(name, v),
        None => Seq::empty(),
    }
}

pub open spec fn scope_word(s: Option<MavenDependencyScope>) -> Option<Seq<char>> {
    match s {
        Some(MavenDependencyScope::Compile) => Some("compile"@),
        Some(MavenDependencyScope::Runtime) => Some("runtime"@),
        Some(MavenDependencyScope::Test) => Some("test"@),
        Some(MavenDependencyScope::Provided) => Some("provided"@),
        None => None,
    }
}

pub open spec fn flag_word(b: Option<bool>) -> Option<Seq<char>> {
    match b {
        Some(true) => Some("true"@),
        Some(false) => Some("false"@),
        None => None,
    }
}

pub open spec fn dep_tokens(d: DepModel) -> Seq<TokenModel> {
    seq![TokenModel::Open("dependency"@)] + leaf("groupId"@, d.group_id) + leaf(
        "artifactId"@,
        d.artifact_id,
    ) + opt_leaf("version"@, d.version) + opt_leaf("scope"@, scope_word(d.scope)) + opt_leaf(
        "type"@,
        d.dep_type,
    ) + opt_leaf("optional"@, flag_word(d.optional)) + seq![TokenModel::Close("dependency"@)]
}

pub open spec fn deps_tokens(s: Seq<DepModel>) -> Seq<TokenModel>
    decreases s.len(),
{
    if s.len() == 0 {
        Seq::empty()
    } else {
        deps_tokens(s.drop_last()) + dep_tokens(s.last())
    }
}

pub open spec fn parent_tokens(p: Option<ParentModel>) -> Seq<TokenModel> {
    match p {
        Some(p) => seq![TokenModel::Open("parent"@)] + leaf("groupId"@, p.group_id) + leaf(
            "artifactId"@,
            p.artifact_id,
        ) + leaf("version"@, p.version) + seq![TokenModel::Close("parent"@)],
        None => Seq::empty(),
    }
}

pub open spec fn deps_block_tokens(o: Option<Seq<DepModel>>) -> Seq<TokenModel> {
    match o {
        Some(ds) => seq![TokenModel::Open("dependencies"@)] + deps_tokens(ds) + seq![
            TokenModel::Close("dependencies"@),
        ],
        None => Seq::empty(),
    }
}

/// The tokens of a POM without properties and dependency management, as
/// the serializer writes it.
pub open spec fn pom_tokens(q: PomModel) -> Seq<TokenModel> {
    seq![TokenModel::Open("project"@)] + leaf("modelVersion"@, q.model_version) + parent_tokens(
        q.parent,
    ) + opt_leaf("groupId"@, q.group_id) + leaf("artifactId"@, q.artifact_id) + opt_leaf(
        "version"@,
        q.version,
    ) + deps_block_tokens(q.dependencies) + seq![TokenModel::Close("project"@)]
}

/// A value that reads back as itself: not empty and without surrounding
/// whitespace.
pub open spec fn writable(v: Seq<char>) -> bool {
    v.len() > 0 && trimmed(v) == v
}

pub open spec fn opt_writable(o: Option<Seq<char>>) -> bool {
    o matches Some(v) ==> writable(v)
}

pub open spec fn dep_writable(d: DepModel) -> bool {
    writable(d.group_id) && writable(d.artifact_id) && opt_writable(d.version) && opt_writable(
        d.dep_type,
    )
}

/// A POM that the reader gets back from its tokens: no properties or
/// management (as cleaning leaves it), a non-empty dependency list when
/// there is one, and every value writable.
pub open spec fn round_trippable(q: PomModel) -> bool {
    &&& q.properties is None
    &&& q.dependency_management is None
    &&& q.dependencies matches Some(ds) ==> ds.len() > 0 && forall|i: int|
        0 <= i < ds.len() ==> dep_writable(#[trigger] ds[i])
    &&& trimmed(q.model_version) == q.model_version
    &&& opt_writable(q.group_id)
    &&& writable(q.artifact_id)
    &&& opt_writable(q.version)
    &&& q.parent matches Some(p) ==> writable(p.group_id) && writable(p.artifact_id) && writable(
        p.version,
    )
}


proof fn lemma_words_distinct()
    ensures
        "project"@.len() == 7,
        "modelVersion"@ != "groupId"@,
        "modelVersion"@ != "artifactId"@,
        "modelVersion"@ != "version"@,
        "modelVersion"@ != "parent"@,
        "modelVersion"@ != "dependencies"@,
        "groupId"@ != "artifactId"@,
        "groupId"@ != "version"@,
        "groupId"@ != "parent"@,
        "groupId"@ != "dependencies"@,
        "artifactId"@ != "version"@,
        "artifactId"@ != "parent"@,
        "artifactId"@ != "dependencies"@,
        "version"@ != "parent"@,
        "version"@ != "dependencies"@,
        "parent"@ != "dependencies"@,
        "parent"@ != "properties"@,
        "dependencies"@ != "properties"@,
        "dependencies"@ != "dependencyManagement"@,
        "dependency"@ != "groupId"@,
        "scope"@ != "groupId"@,
        "scope"@ != "artifactId"@,
        "scope"@ != "version"@,
        "type"@ != "groupId"@,
        "type"@ != "artifactId"@,
        "type"@ != "version"@,
        "type"@ != "scope"@,
        "optional"@ != "groupId"@,
        "optional"@ != "artifactId"@,
        "optional"@ != "version"@,
        "optional"@ != "scope"@,
        "optional"@ != "type"@,
        "compile"@ != "runtime"@,
        "compile"@ != "test"@,
        "compile"@ != "provided"@,
        "test"@ != "runtime"@,
        "provided"@ != "runtime"@,
        "provided"@ != "test"@,
        "true"@ != "false"@,
{
    reveal_strlit("project");
    reveal_strlit("modelVersion");
    reveal_strlit("groupId");
    reveal_strlit("artifactId");
    reveal_strlit("version");
    reveal_strlit("parent");
    reveal_strlit("dependencies");
    reveal_strlit("dependency");
    reveal_strlit("dependencyManagement");
    reveal_strlit("properties");
    reveal_strlit("scope");
    reveal_strlit("type");
    reveal_strlit("optional");
    reveal_strlit("compile");
    reveal_strlit("runtime");
    reveal_strlit("test");
    reveal_strlit("provided");
    reveal_strlit("true");
    reveal_strlit("false");
    assert("project"@.len() == 7);
    assert("modelVersion"@.len() == 12);
    assert("groupId"@.len() == 7);
    assert("artifactId"@.len() == 10);
    assert("version"@.len() == 7);
    assert("parent"@.len() == 6);
    assert("dependencies"@.len() == 12);
    assert("dependency"@.len() == 10);
    assert("dependencyManagement"@.len() == 20);
    assert("properties"@.len() == 10);
    assert("scope"@.len() == 5);
    assert("type"@.len() == 4);
    assert("optional"@.len() == 8);
    assert("compile"@.len() == 7);
    assert("runtime"@.len() == 7);
    assert("test"@.len() == 4);
    assert("provided"@.len() == 8);
    assert("true"@.len() == 4);
    assert("false"@.len() == 5);
    assert("modelVersion"@[0] != "dependencies"@[0]);
    assert("groupId"@[0] != "version"@[0]);
    assert("parent"@[0] != "scope"@[0]);
    assert("dependencies"@[0] != "properties"@[0]);
    assert("parent"@[1] != "properties"@[1]);
    assert("dependencies"@.len() != "dependencyManagement"@.len());
    assert("compile"@[0] != "runtime"@[0]);
    assert("provided"@[0] != "test"@[0]);
    assert("true"@[0] != "false"@[0]);
}

proof fn lemma_words_trimmed()
    ensures
        trimmed("compile"@) == "compile"@,
        trimmed("runtime"@) == "runtime"@,
        trimmed("test"@) == "test"@,
        trimmed("provided"@) == "provided"@,
        trimmed("true"@) == "true"@,
        trimmed("false"@) == "false"@,
        writable("compile"@),
        writable("runtime"@),
        writable("test"@),
        writable("provided"@),
        writable("true"@),
        writable("false"@),
{
    reveal_strlit("compile");
    reveal_strlit("runtime");
    reveal_strlit("test");
    reveal_strlit("provided");
    reveal_strlit("true");
    reveal_strlit("false");
}

/// Reading `<n>v</n>` below the current element: the element's effect,
/// with the stack and text restored.
proof fn lemma_leaf(st: ReadModel, n: Seq<char>, v: Seq<char>)
    requires
        !st.failed,
        !st.done,
        st.stack.len() >= 1,
        !is_dependency_path(st.stack.push(n)),
    ensures
        read_from(st, leaf(n, v)) == ({
            let s3 = assign(ReadModel { stack: st.stack.push(n), text: v, ..st }, st.stack.push(n), v);
            ReadModel { stack: st.stack, text: Seq::empty(), done: false, ..s3 }
        }),
{
    let t = leaf(n, v);
    let t1 = seq![TokenModel::Open(n)];
    let t2 = seq![TokenModel::Open(n), TokenModel::Text(v)];
    assert(t.drop_last() =~= t2);
    assert(t2.drop_last() =~= t1);
    assert(t1.drop_last() =~= Seq::<TokenModel>::empty());
    let s1 = read_step(st, TokenModel::Open(n));
    assert(read_from(st, Seq::<TokenModel>::empty()) == st);
    assert(t1.last() == TokenModel::Open(n));
    assert(read_from(st, t1) == s1);
    let s2 = read_step(s1, TokenModel::Text(v));
    assert(Seq::<char>::empty() + v =~= v);
    assert(s2 == ReadModel { stack: st.stack.push(n), text: v, ..st });
    assert(read_from(st, t2) == s2);
    assert(st.stack.push(n).drop_last() =~= st.stack);
}


pub open spec fn dep_path() -> Seq<Seq<char>> {
    seq!["project"@, "dependencies"@, "dependency"@]
}

/// The reader after a field of the dependency being read.
pub open spec fn with_field(s: ReadModel, n: Seq<char>, v: Seq<char>) -> ReadModel {
    ReadModel { dep: set_dep_field(s, n, v).dep, text: Seq::empty(), ..s }
}

proof fn lemma_dep_leaf(s: ReadModel, n: Seq<char>, v: Seq<char>)
    requires
        !s.failed,
        !s.done,
        s.stack == dep_path(),
    ensures
        read_from(s, leaf(n, v)) == with_field(s, n, v),
{
    lemma_words_distinct();
    let p = s.stack.push(n);
    assert(p.len() == 4);
    assert(p[1] == "dependencies"@);
    assert(!is_dependency_path(p));
    lemma_leaf(s, n, v);
    let x = ReadModel { stack: p, text: v, ..s };
    assert(assign(x, p, v) == set_dep_field(x, n, v));
    assert(set_dep_field(x, n, v).dep == set_dep_field(s, n, v).dep);
}

proof fn lemma_dep_opt_leaf(s: ReadModel, n: Seq<char>, o: Option<Seq<char>>)
    requires
        !s.failed,
        !s.done,
        s.stack == dep_path(),
    ensures
        read_from(s, opt_leaf(n, o)) == match o {
            Some(v) => with_field(s, n, v),
            None => s,
        },
{
    match o {
        Some(v) => lemma_dep_leaf(s, n, v),
        None => {},
    }
}

/// Reading the tokens of one dependency inside `<dependencies>` appends it.
proof fn lemma_dep(st: ReadModel, d: DepModel)
    requires
        !st.failed,
        !st.done,
        st.stack == seq!["project"@, "dependencies"@],
        dep_writable(d),
    ensures
        ({
            let r = read_from(st, dep_tokens(d));
            r == ReadModel { deps: st.deps.push(d), dep: r.dep, text: Seq::<char>::empty(), ..st }
        }),
{
    lemma_words_distinct();
    lemma_words_trimmed();
    let a0 = seq![TokenModel::Open("dependency"@)];
    let l1 = leaf("groupId"@, d.group_id);
    let l2 = leaf("artifactId"@, d.artifact_id);
    let l3 = opt_leaf("version"@, d.version);
    let l4 = opt_leaf("scope"@, scope_word(d.scope));
    let l5 = opt_leaf("type"@, d.dep_type);
    let l6 = opt_leaf("optional"@, flag_word(d.optional));
    let c = seq![TokenModel::Close("dependency"@)];
    // opening the dependency
    assert(a0.drop_last() =~= Seq::<TokenModel>::empty());
    assert(read_from(st, Seq::<TokenModel>::empty()) == st);
    let dp = st.stack.push("dependency"@);
    assert(dp =~= dep_path());
    assert(is_dependency_path(dp));
    let s0 = ReadModel { stack: dp, text: Seq::empty(), dep: empty_dep(), ..st };
    assert(read_from(st, a0) == s0);
    // the fields
    lemma_read_concat(st, a0, l1);
    lemma_dep_leaf(s0, "groupId"@, d.group_id);
    let s1 = with_field(s0, "groupId"@, d.group_id);
    lemma_read_concat(st, a0 + l1, l2);
    lemma_dep_leaf(s1, "artifactId"@, d.artifact_id);
    let s2 = with_field(s1, "artifactId"@, d.artifact_id);
    lemma_read_concat(st, a0 + l1 + l2, l3);
    lemma_dep_opt_leaf(s2, "version"@, d.version);
    let s3 = read_from(s2, l3);
    lemma_read_concat(st, a0 + l1 + l2 + l3, l4);
    lemma_dep_opt_leaf(s3, "scope"@, scope_word(d.scope));
    let s4 = read_from(s3, l4);
    lemma_read_concat(st, a0 + l1 + l2 + l3 + l4, l5);
    lemma_dep_opt_leaf(s4, "type"@, d.dep_type);
    let s5 = read_from(s4, l5);
    lemma_read_concat(st, a0 + l1 + l2 + l3 + l4 + l5, l6);
    lemma_dep_opt_leaf(s5, "optional"@, flag_word(d.optional));
    let s6 = read_from(s5, l6);
    assert(s6.dep.group_id == Some(d.group_id));
    assert(s6.dep.artifact_id == Some(d.artifact_id));
    assert(s6.dep.version == d.version);
    assert(s6.dep.scope == d.scope);
    assert(s6.dep.dep_type == d.dep_type);
    assert(s6.dep.optional == d.optional);
    assert(s6.stack == dp);
    // closing it
    lemma_read_concat(st, a0 + l1 + l2 + l3 + l4 + l5 + l6, c);
    assert(c.drop_last() =~= Seq::<TokenModel>::empty());
    assert(read_from(s6, Seq::<TokenModel>::empty()) == s6);
    assert(dp.drop_last() =~= st.stack);
    let fd = finish_dep(s6, false);
    assert(assign(s6, s6.stack, s6.text) == fd);
    let m = DepModel {
        group_id: d.group_id,
        artifact_id: d.artifact_id,
        version: d.version,
        scope: d.scope,
        dep_type: d.dep_type,
        optional: d.optional,
    };
    assert(m == d);
    assert(dep_tokens(d) == a0 + l1 + l2 + l3 + l4 + l5 + l6 + c);
}


/// The parts of the reader outside the dependency lists agree.
pub open spec fn same_outer(a: ReadModel, b: ReadModel) -> bool {
    &&& a.stack == b.stack
    &&& a.failed == b.failed
    &&& a.done == b.done
    &&& a.model_version == b.model_version
    &&& a.group_id == b.group_id
    &&& a.artifact_id == b.artifact_id
    &&& a.version == b.version
    &&& a.has_parent == b.has_parent
    &&& a.parent_group == b.parent_group
    &&& a.parent_artifact == b.parent_artifact
    &&& a.parent_version == b.parent_version
    &&& a.properties == b.properties
    &&& a.has_props == b.has_props
    &&& a.mgmt == b.mgmt
}

proof fn lemma_deps(st: ReadModel, s: Seq<DepModel>)
    requires
        !st.failed,
        !st.done,
        st.stack == seq!["project"@, "dependencies"@],
        forall|i: int| 0 <= i < s.len() ==> dep_writable(#[trigger] s[i]),
    ensures
        same_outer(read_from(st, deps_tokens(s)), st),
        read_from(st, deps_tokens(s)).deps == st.deps + s,
    decreases s.len(),
{
    if s.len() == 0 {
        assert(deps_tokens(s) =~= Seq::<TokenModel>::empty());
        assert(st.deps + s =~= st.deps);
    } else {
        let s2 = s.drop_last();
        assert forall|i: int| 0 <= i < s2.len() implies dep_writable(#[trigger] s2[i]) by {
            assert(s2[i] == s[i]);
        }
        lemma_deps(st, s2);
        let m = read_from(st, deps_tokens(s2));
        lemma_read_concat(st, deps_tokens(s2), dep_tokens(s.last()));
        lemma_dep(m, s.last());
        assert(st.deps + s2 + seq![s.last()] =~= st.deps + s);
    }
}

proof fn lemma_deps_block(st: ReadModel, o: Option<Seq<DepModel>>)
    requires
        !st.failed,
        !st.done,
        st.stack == seq!["project"@],
        o matches Some(ds) ==> forall|i: int| 0 <= i < ds.len() ==> dep_writable(#[trigger] ds[i]),
    ensures
        same_outer(read_from(st, deps_block_tokens(o)), st),
        read_from(st, deps_block_tokens(o)).deps == match o {
            Some(ds) => st.deps + ds,
            None => st.deps,
        },
{
    lemma_words_distinct();
    match o {
        Some(ds) => {
            let a0 = seq![TokenModel::Open("dependencies"@)];
            let c = seq![TokenModel::Close("dependencies"@)];
            assert(a0.drop_last() =~= Seq::<TokenModel>::empty());
            assert(read_from(st, Seq::<TokenModel>::empty()) == st);
            let sp = st.stack.push("dependencies"@);
            assert(sp =~= seq!["project"@, "dependencies"@]);
            assert(!is_dependency_path(sp));
            let s0 = ReadModel { stack: sp, text: Seq::empty(), ..st };
            assert(read_from(st, a0) == s0);
            lemma_read_concat(st, a0, deps_tokens(ds));
            lemma_deps(s0, ds);
            let s1 = read_from(s0, deps_tokens(ds));
            lemma_read_concat(st, a0 + deps_tokens(ds), c);
            assert(c.drop_last() =~= Seq::<TokenModel>::empty());
            assert(read_from(s1, Seq::<TokenModel>::empty()) == s1);
            assert(assign(s1, s1.stack, s1.text) == s1);
            assert(sp.drop_last() =~= st.stack);
        },
        None => {
            assert(deps_block_tokens(o) =~= Seq::<TokenModel>::empty());
        },
    }
}

proof fn lemma_parent_block(st: ReadModel, o: Option<ParentModel>)
    requires
        !st.failed,
        !st.done,
        st.stack == seq!["project"@],
        o matches Some(p) ==> writable(p.group_id) && writable(p.artifact_id) && writable(p.version),
    ensures
        ({
            let r = read_from(st, parent_tokens(o));
            match o {
                Some(p) => r == ReadModel {
                    has_parent: true,
                    parent_group: Some(p.group_id),
                    parent_artifact: Some(p.artifact_id),
                    parent_version: Some(p.version),
                    text: Seq::empty(),
                    ..st
                },
                None => r == st,
            }
        }),
{
    lemma_words_distinct();
    match o {
        Some(p) => {
            let a0 = seq![TokenModel::Open("parent"@)];
            let l1 = leaf("groupId"@, p.group_id);
            let l2 = leaf("artifactId"@, p.artifact_id);
            let l3 = leaf("version"@, p.version);
            let c = seq![TokenModel::Close("parent"@)];
            assert(a0.drop_last() =~= Seq::<TokenModel>::empty());
            assert(read_from(st, Seq::<TokenModel>::empty()) == st);
            let sp = st.stack.push("parent"@);
            assert(sp =~= seq!["project"@, "parent"@]);
            assert(!is_dependency_path(sp));
            let s0 = ReadModel { stack: sp, text: Seq::empty(), ..st };
            assert(read_from(st, a0) == s0);
            lemma_read_concat(st, a0, l1);
            assert(!is_dependency_path(sp.push("groupId"@)));
            lemma_leaf(s0, "groupId"@, p.group_id);
            let s1 = ReadModel { parent_group: Some(p.group_id), ..s0 };
            assert(read_from(s0, l1) == s1);
            lemma_read_concat(st, a0 + l1, l2);
            assert(!is_dependency_path(sp.push("artifactId"@)));
            lemma_leaf(s1, "artifactId"@, p.artifact_id);
            let s2 = ReadModel { parent_artifact: Some(p.artifact_id), ..s1 };
            assert(read_from(s1, l2) == s2);
            lemma_read_concat(st, a0 + l1 + l2, l3);
            assert(!is_dependency_path(sp.push("version"@)));
            lemma_leaf(s2, "version"@, p.version);
            let s3 = ReadModel { parent_version: Some(p.version), ..s2 };
            assert(read_from(s2, l3) == s3);
            lemma_read_concat(st, a0 + l1 + l2 + l3, c);
            assert(c.drop_last() =~= Seq::<TokenModel>::empty());
            assert(read_from(s3, Seq::<TokenModel>::empty()) == s3);
            assert(sp.drop_last() =~= st.stack);
            assert(parent_tokens(o) == a0 + l1 + l2 + l3 + c);
        },
        None => {
            assert(parent_tokens(o) =~= Seq::<TokenModel>::empty());
        },
    }
}


proof fn lemma_top_opt_leaf(s: ReadModel, n: Seq<char>, o: Option<Seq<char>>)
    requires
        !s.failed,
        !s.done,
        s.stack == seq!["project"@],
        n == "groupId"@ || n == "version"@,
        opt_writable(o),
    ensures
        read_from(s, opt_leaf(n, o)) == match o {
            Some(v) => if n == "groupId"@ {
                ReadModel { group_id: Some(v), text: Seq::empty(), ..s }
            } else {
                ReadModel { version: Some(v), text: Seq::empty(), ..s }
            },
            None => s,
        },
{
    lemma_words_distinct();
    match o {
        Some(v) => {
            let sp = s.stack.push(n);
            assert(sp =~= seq!["project"@, n]);
            assert(!is_dependency_path(sp));
            lemma_leaf(s, n, v);
        },
        None => {},
    }
}

/// Reading the tokens of a written POM gives the POM back, for a POM as
/// cleaning leaves it (no properties, no management) whose values read back
/// as themselves.
pub proof fn lemma_read_back(q: PomModel)
    requires
        round_trippable(q),
    ensures
        finish_read(read_all(pom_tokens(q))) == Ok::<PomModel, crate::error::ResolveError>(q),
{
    lemma_words_distinct();
    let st = initial_read();
    let a0 = seq![TokenModel::Open("project"@)];
    let l1 = leaf("modelVersion"@, q.model_version);
    let b2 = parent_tokens(q.parent);
    let l3 = opt_leaf("groupId"@, q.group_id);
    let l4 = leaf("artifactId"@, q.artifact_id);
    let l5 = opt_leaf("version"@, q.version);
    let b6 = deps_block_tokens(q.dependencies);
    let c = seq![TokenModel::Close("project"@)];
    lemma_read_all_from(pom_tokens(q));
    assert(pom_tokens(q) == a0 + l1 + b2 + l3 + l4 + l5 + b6 + c);
    // <project>
    assert(a0.drop_last() =~= Seq::<TokenModel>::empty());
    assert(read_from(st, Seq::<TokenModel>::empty()) == st);
    let sp = st.stack.push("project"@);
    assert(sp =~= seq!["project"@]);
    assert(!is_dependency_path(sp));
    let s0 = ReadModel { stack: sp, text: Seq::empty(), ..st };
    assert(read_from(st, a0) == s0);
    // <modelVersion>
    lemma_read_concat(st, a0, l1);
    assert(!is_dependency_path(sp.push("modelVersion"@)));
    lemma_leaf(s0, "modelVersion"@, q.model_version);
    let s1 = ReadModel { model_version: q.model_version, ..s0 };
    assert(read_from(s0, l1) == s1);
    // <parent>
    lemma_read_concat(st, a0 + l1, b2);
    lemma_parent_block(s1, q.parent);
    let s2 = read_from(s1, b2);
    // <groupId>
    lemma_read_concat(st, a0 + l1 + b2, l3);
    lemma_top_opt_leaf(s2, "groupId"@, q.group_id);
    let s3 = read_from(s2, l3);
    // <artifactId>
    lemma_read_concat(st, a0 + l1 + b2 + l3, l4);
    assert(!is_dependency_path(sp.push("artifactId"@)));
    lemma_leaf(s3, "artifactId"@, q.artifact_id);
    let s4 = ReadModel { artifact_id: Some(q.artifact_id), text: Seq::empty(), ..s3 };
    assert(read_from(s3, l4) == s4);
    // <version>
    lemma_read_concat(st, a0 + l1 + b2 + l3 + l4, l5);
    lemma_top_opt_leaf(s4, "version"@, q.version);
    let s5 = read_from(s4, l5);
    // <dependencies>
    lemma_read_concat(st, a0 + l1 + b2 + l3 + l4 + l5, b6);
    lemma_deps_block(s5, q.dependencies);
    let s6 = read_from(s5, b6);
    match q.dependencies {
        Some(ds) => {
            assert(Seq::<DepModel>::empty() + ds =~= ds);
        },
        None => {},
    }
    // </project>
    lemma_read_concat(st, a0 + l1 + b2 + l3 + l4 + l5 + b6, c);
    assert(c.drop_last() =~= Seq::<TokenModel>::empty());
    assert(read_from(s6, Seq::<TokenModel>::empty()) == s6);
    assert(assign(s6, s6.stack, s6.text) == s6);
    let s7 = read_from(s6, c);
    assert(s7.done);
    assert(!s7.failed);
    assert(s7.has_props == false);
    assert(s7.mgmt.len() == 0);
    assert(finish_read(s7) == Ok::<PomModel, crate::error::ResolveError>(q));
}

/// The same with a line break before and after the document, as the
/// serializer writes it.
pub proof fn lemma_read_back_framed(q: PomModel)
    requires
        round_trippable(q),
    ensures
        finish_read(
            read_all(
                seq![TokenModel::Text(seq!['\n'])] + pom_tokens(q) + seq![TokenModel::Text(seq!['\n'])],
            ),
        ) == Ok::<PomModel, crate::error::ResolveError>(q),
{
    let nl = seq![TokenModel::Text(seq!['\n'])];
    let p = pom_tokens(q);
    let st = initial_read();
    lemma_read_all_from(nl + p + nl);
    lemma_read_all_from(p);
    lemma_read_concat(st, nl + p, nl);
    lemma_read_concat(st, nl, p);
    assert(nl.drop_last() =~= Seq::<TokenModel>::empty());
    assert(read_from(st, Seq::<TokenModel>::empty()) == st);
    let i2 = read_from(st, nl);
    let op = seq![TokenModel::Open("project"@)];
    let rest = p.subrange(1, p.len() as int);
    assert(p =~= op + rest);
    lemma_read_concat(i2, op, rest);
    lemma_read_concat(st, op, rest);
    assert(op.drop_last() =~= Seq::<TokenModel>::empty());
    assert(read_from(i2, Seq::<TokenModel>::empty()) == i2);
    assert(read_from(i2, op) == read_from(st, op));
    lemma_read_back(q);
    let s1 = read_from(st, p);
    assert(!s1.failed);
    assert(read_from(s1, Seq::<TokenModel>::empty()) == s1);
    assert(nl.last() == TokenModel::Text(seq!['\n']));
    assert(read_from(s1, nl) == read_step(s1, TokenModel::Text(seq!['\n'])));
}

} // verus!
