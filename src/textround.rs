//! Tokenizing what the serializer writes: the text of a POM whose values
//! hold no XML special character splits into the tokens that the reader
//! reads back; with the reader's half this gives the round trip.

use vstd::prelude::*;
use crate::search::{lemma_first_from_found, lemma_first_from_none};
use crate::text::occurs_at;
use crate::xml::{
    append_opt, decoded, escaped, is_name_end, prepend, tokens_at, tokens_of, TokenModel,
};
use crate::codec::{
    dep_xml, deps_block, deps_xml, elem, mgmt_block, opt_elem, parent_block, parse_spec, pom_xml,
    props_block, scope_text, xml_header,
};
use crate::roundtrip::{
    dep_tokens, dep_writable, deps_block_tokens, deps_tokens, flag_word, leaf,
    lemma_read_back_framed, opt_leaf, parent_tokens, pom_tokens, round_trippable, scope_word,
};
use crate::reader::trimmed;
use crate::pom::{DepModel, MavenPom, ParentModel, PomModel};

verus! {

/// A tag name that the tokenizer reads back whole.
pub open spec fn name_ok(n: Seq<char>) -> bool {
    &&& n.len() > 0
    &&& n[0] != '?' && n[0] != '!'
    &&& forall|i: int| 0 <= i < n.len() ==> !is_name_end(#[trigger] n[i]) && n[i] != '<'
}

proof fn lemma_not_markup(t: Seq<char>, k: int)
    requires
        0 <= k,
        k + 1 < t.len(),
        t[k] == '<',
        t[k + 1] != '!',
    ensures
        !occurs_at(t, "<!--"@, k),
        !occurs_at(t, "<![CDATA["@, k),
{
    reveal_strlit("<!--");
    reveal_strlit("<![CDATA[");
    if occurs_at(t, "<!--"@, k) {
        assert(t.subrange(k, k + 4)[1] == t[k + 1]);
    }
    if occurs_at(t, "<![CDATA["@, k) {
        assert(t.subrange(k, k + 9)[1] == t[k + 1]);
    }
}

/// `<n attrs>` at `k` gives an open token.
pub proof fn lemma_tok_tag(t: Seq<char>, k: int, n: Seq<char>, attrs: Seq<char>)
    requires
        0 <= k,
        name_ok(n),
        attrs.len() == 0 || is_name_end(attrs[0]),
        forall|i: int| 0 <= i < attrs.len() ==> #[trigger] attrs[i] != '>',
        attrs.len() > 0 ==> attrs.last() != '/',
        k + n.len() + attrs.len() + 2 <= t.len(),
        t.subrange(k, k + n.len() + attrs.len() + 2) == seq!['<'] + n + attrs + seq!['>'],
    ensures
        tokens_at(t, k) == prepend(
            TokenModel::Open(n),
            tokens_at(t, k + n.len() + attrs.len() + 2),
        ),
{
    let x = seq!['<'] + n + attrs + seq!['>'];
    let len = x.len() as int;
    let j = k + len - 1;
    assert forall|i: int| 0 <= i < len implies t[k + i] == #[trigger] x[i] by {
        assert(t.subrange(k, k + len)[i] == t[k + i]);
    }
    assert(x[0] == '<');
    assert(t[k + 0] == x[0]);
    assert(t[k + 1] == x[1]);
    assert(x[1] == n[0]);
    lemma_not_markup(t, k);
    let p = |i: int| t[i] == '>';
    assert forall|i: int| k + 1 <= i < j implies !#[trigger] p(i) by {
        assert(t[k + (i - k)] == x[i - k]);
        if i < k + 1 + n.len() {
            assert(x[i - k] == n[i - k - 1]);
        } else {
            assert(x[i - k] == attrs[i - k - 1 - n.len()]);
        }
    }
    assert(t[k + (len - 1)] == x[len - 1]);
    assert(p(j));
    lemma_first_from_found(k + 1, t.len() as int, p, j);
    let q = |i: int| is_name_end(t[i]);
    let ne = k + 1 + n.len();
    assert forall|i: int| k + 1 <= i < ne implies !#[trigger] q(i) by {
        assert(t[k + (i - k)] == x[i - k]);
        assert(x[i - k] == n[i - k - 1]);
    }
    if attrs.len() == 0 {
        lemma_first_from_none(k + 1, j, q);
        assert(t[k + (len - 2)] == x[len - 2]);
        assert(x[len - 2] == n[n.len() - 1]);
    } else {
        assert(t[k + (ne - k)] == x[ne - k]);
        assert(x[ne - k] == attrs[0]);
        lemma_first_from_found(k + 1, j, q, ne);
        assert(t[k + (len - 2)] == x[len - 2]);
        assert(x[len - 2] == attrs.last());
    }
    assert forall|i: int| 0 <= i < n.len() implies t.subrange(k + 1, ne)[i] == n[i] by {
        assert(t[k + (i + 1)] == x[i + 1]);
    }
    assert(t.subrange(k + 1, ne) =~= n);
}

/// `</n>` at `k` gives a close token.
pub proof fn lemma_tok_close(t: Seq<char>, k: int, n: Seq<char>)
    requires
        0 <= k,
        name_ok(n),
        k + n.len() + 3 <= t.len(),
        t.subrange(k, k + n.len() + 3) == seq!['<', '/'] + n + seq!['>'],
    ensures
        tokens_at(t, k) == prepend(TokenModel::Close(n), tokens_at(t, k + n.len() + 3)),
{
    let x = seq!['<', '/'] + n + seq!['>'];
    let len = x.len() as int;
    let j = k + len - 1;
    assert forall|i: int| 0 <= i < len implies t[k + i] == #[trigger] x[i] by {
        assert(t.subrange(k, k + len)[i] == t[k + i]);
    }
    assert(x[0] == '<' && x[1] == '/');
    assert(t[k + 0] == x[0]);
    assert(t[k + 1] == x[1]);
    lemma_not_markup(t, k);
    let p = |i: int| t[i] == '>';
    assert forall|i: int| k + 1 <= i < j implies !#[trigger] p(i) by {
        assert(t[k + (i - k)] == x[i - k]);
        if i > k + 1 {
            assert(x[i - k] == n[i - k - 2]);
        }
    }
    assert(t[k + (len - 1)] == x[len - 1]);
    lemma_first_from_found(k + 1, t.len() as int, p, j);
    let q = |i: int| is_name_end(t[i]);
    assert forall|i: int| k + 2 <= i < j implies !#[trigger] q(i) by {
        assert(t[k + (i - k)] == x[i - k]);
        assert(x[i - k] == n[i - k - 2]);
    }
    lemma_first_from_none(k + 2, j, q);
    assert forall|i: int| 0 <= i < n.len() implies t.subrange(k + 2, j)[i] == n[i] by {
        assert(t[k + (i + 2)] == x[i + 2]);
    }
    assert(t.subrange(k + 2, j) =~= n);
}

/// `<?body>` at `k` gives no token.
pub proof fn lemma_tok_decl(t: Seq<char>, k: int, body: Seq<char>)
    requires
        0 <= k,
        forall|i: int| 0 <= i < body.len() ==> #[trigger] body[i] != '>',
        k + body.len() + 3 <= t.len(),
        t.subrange(k, k + body.len() + 3) == seq!['<', '?'] + body + seq!['>'],
    ensures
        tokens_at(t, k) == tokens_at(t, k + body.len() + 3),
{
    let x = seq!['<', '?'] + body + seq!['>'];
    let len = x.len() as int;
    let j = k + len - 1;
    assert forall|i: int| 0 <= i < len implies t[k + i] == #[trigger] x[i] by {
        assert(t.subrange(k, k + len)[i] == t[k + i]);
    }
    assert(x[0] == '<' && x[1] == '?');
    assert(t[k + 0] == x[0]);
    assert(t[k + 1] == x[1]);
    lemma_not_markup(t, k);
    let p = |i: int| t[i] == '>';
    assert forall|i: int| k + 1 <= i < j implies !#[trigger] p(i) by {
        assert(t[k + (i - k)] == x[i - k]);
        if i > k + 1 {
            assert(x[i - k] == body[i - k - 2]);
        }
    }
    assert(t[k + (len - 1)] == x[len - 1]);
    lemma_first_from_found(k + 1, t.len() as int, p, j);
}

/// A text run `v` at `k`, followed by `<` or the end, gives a text token.
pub proof fn lemma_tok_text(t: Seq<char>, k: int, v: Seq<char>)
    requires
        0 <= k,
        v.len() > 0,
        forall|i: int| 0 <= i < v.len() ==> #[trigger] v[i] != '<' && v[i] != '&',
        k + v.len() <= t.len(),
        t.subrange(k, k + v.len()) == v,
        k + v.len() == t.len() || t[k + v.len()] == '<',
    ensures
        tokens_at(t, k) == prepend(TokenModel::Text(v), tokens_at(t, k + v.len())),
{
    let e = k + v.len();
    assert forall|i: int| 0 <= i < v.len() implies t[k + i] == #[trigger] v[i] by {
        assert(t.subrange(k, e)[i] == t[k + i]);
    }
    assert(t[k + 0] == v[0]);
    let p = |i: int| t[i] == '<';
    assert forall|i: int| k <= i < e implies !#[trigger] p(i) by {
        assert(t[k + (i - k)] == v[i - k]);
    }
    if e == t.len() {
        lemma_first_from_none(k, t.len() as int, p);
    } else {
        lemma_first_from_found(k, t.len() as int, p, e);
    }
    assert(!v.contains('&'));
    assert(decoded(v) == Some(v));
}

/// The text `x`, wherever it stands, gives the tokens `ts` and then what
/// follows it.
pub open spec fn reads(x: Seq<char>, ts: Seq<TokenModel>) -> bool {
    forall|t: Seq<char>, k: int|
        0 <= k && k + x.len() <= t.len() && #[trigger] t.subrange(k, k + x.len()) == x ==> tokens_at(
            t,
            k,
        ) == append_opt(ts, tokens_at(t, k + x.len()))
}

pub proof fn lemma_reads_empty()
    ensures
        reads(Seq::empty(), Seq::empty()),
{
    assert forall|t: Seq<char>, k: int|
        0 <= k && k + 0 <= t.len() && #[trigger] t.subrange(k, k + 0) == Seq::<char>::empty()
            implies tokens_at(t, k) == append_opt(Seq::empty(), tokens_at(t, k + 0)) by {
        match tokens_at(t, k) {
            Some(s) => assert(Seq::<TokenModel>::empty() + s =~= s),
            None => {},
        }
    }
}

pub proof fn lemma_reads_concat(a: Seq<char>, ta: Seq<TokenModel>, b: Seq<char>, tb: Seq<TokenModel>)
    requires
        reads(a, ta),
        reads(b, tb),
    ensures
        reads(a + b, ta + tb),
{
    assert forall|t: Seq<char>, k: int|
        0 <= k && k + (a + b).len() <= t.len() && #[trigger] t.subrange(k, k + (a + b).len()) == a
            + b implies tokens_at(t, k) == append_opt(ta + tb, tokens_at(t, k + (a + b).len())) by {
        let ka = k + a.len();
        assert(t.subrange(k, ka) =~= t.subrange(k, k + (a + b).len()).subrange(0, a.len() as int));
        assert(t.subrange(k, ka) =~= a);
        assert(t.subrange(ka, ka + b.len()) =~= t.subrange(k, k + (a + b).len()).subrange(
            a.len() as int,
            (a + b).len() as int,
        ));
        assert(t.subrange(ka, ka + b.len()) =~= b);
        assert(tokens_at(t, k) == append_opt(ta, tokens_at(t, ka)));
        assert(tokens_at(t, ka) == append_opt(tb, tokens_at(t, ka + b.len())));
        match tokens_at(t, ka + b.len()) {
            Some(s) => assert(ta + (tb + s) =~= (ta + tb) + s),
            None => {},
        }
    }
}


/// A character that escaping changes.
pub open spec fn special(c: char) -> bool {
    c == '<' || c == '>' || c == '&' || c == '\'' || c == '"' || c == '\r'
}

/// A value with no character that escaping changes.
pub open spec fn plain(v: Seq<char>) -> bool {
    v.len() > 0 && forall|i: int| 0 <= i < v.len() ==> !special(#[trigger] v[i])
}

pub proof fn lemma_escaped_plain(v: Seq<char>)
    requires
        forall|i: int| 0 <= i < v.len() ==> !special(#[trigger] v[i]),
    ensures
        escaped(v) == v,
    decreases v.len(),
{
    if v.len() > 0 {
        let w = v.drop_last();
        assert forall|i: int| 0 <= i < w.len() implies !special(#[trigger] w[i]) by {
            assert(w[i] == v[i]);
        }
        lemma_escaped_plain(w);
        assert(!special(v[v.len() - 1]));
        assert(w.push(v.last()) =~= v);
    }
}

proof fn lemma_lits()
    ensures
        "<"@ == seq!['<'],
        ">"@ == seq!['>'],
        "</"@ == seq!['<', '/'],
{
    reveal_strlit("<");
    reveal_strlit(">");
    reveal_strlit("</");
    assert("<"@ =~= seq!['<']);
    assert(">"@ =~= seq!['>']);
    assert("</"@ =~= seq!['<', '/']);
}

pub proof fn lemma_reads_open(n: Seq<char>)
    requires
        name_ok(n),
    ensures
        reads(seq!['<'] + n + seq!['>'], seq![TokenModel::Open(n)]),
{
    let x = seq!['<'] + n + seq!['>'];
    assert forall|t: Seq<char>, k: int|
        0 <= k && k + x.len() <= t.len() && #[trigger] t.subrange(k, k + x.len()) == x implies tokens_at(
            t,
            k,
        ) == append_opt(seq![TokenModel::Open(n)], tokens_at(t, k + x.len())) by {
        assert(x =~= seq!['<'] + n + Seq::<char>::empty() + seq!['>']);
        lemma_tok_tag(t, k, n, Seq::empty());
    }
}

pub proof fn lemma_reads_close(n: Seq<char>)
    requires
        name_ok(n),
    ensures
        reads(seq!['<', '/'] + n + seq!['>'], seq![TokenModel::Close(n)]),
{
    let x = seq!['<', '/'] + n + seq!['>'];
    assert forall|t: Seq<char>, k: int|
        0 <= k && k + x.len() <= t.len() && #[trigger] t.subrange(k, k + x.len()) == x implies tokens_at(
            t,
            k,
        ) == append_opt(seq![TokenModel::Close(n)], tokens_at(t, k + x.len())) by {
        lemma_tok_close(t, k, n);
    }
}

/// A text followed by a close tag.
pub proof fn lemma_reads_text_close(v: Seq<char>, n: Seq<char>)
    requires
        plain(v),
        name_ok(n),
    ensures
        reads(v + (seq!['<', '/'] + n + seq!['>']), seq![TokenModel::Text(v), TokenModel::Close(n)]),
{
    let c = seq!['<', '/'] + n + seq!['>'];
    let x = v + c;
    assert forall|t: Seq<char>, k: int|
        0 <= k && k + x.len() <= t.len() && #[trigger] t.subrange(k, k + x.len()) == x implies tokens_at(
            t,
            k,
        ) == append_opt(
            seq![TokenModel::Text(v), TokenModel::Close(n)],
            tokens_at(t, k + x.len()),
        ) by {
        let kv = k + v.len();
        assert(t.subrange(k, kv) =~= t.subrange(k, k + x.len()).subrange(0, v.len() as int));
        assert(t.subrange(kv, kv + c.len()) =~= t.subrange(k, k + x.len()).subrange(
            v.len() as int,
            x.len() as int,
        ));
        assert(t.subrange(k, k + x.len())[v.len() as int] == t[kv]);
        assert(x[v.len() as int] == '<');
        assert(x.subrange(0, v.len() as int) =~= v);
        assert(x.subrange(v.len() as int, x.len() as int) =~= c);
        lemma_tok_text(t, k, v);
        lemma_tok_close(t, kv, n);
        match tokens_at(t, k + x.len()) {
            Some(r) => {
                assert(seq![TokenModel::Text(v)] + (seq![TokenModel::Close(n)] + r) =~= seq![
                    TokenModel::Text(v),
                    TokenModel::Close(n),
                ] + r);
            },
            None => {},
        }
    }
}

/// `<n>v</n>` gives its three tokens.
pub proof fn lemma_reads_elem(n: Seq<char>, v: Seq<char>)
    requires
        name_ok(n),
        plain(v),
    ensures
        reads(elem(n, v), leaf(n, v)),
{
    lemma_lits();
    lemma_escaped_plain(v);
    lemma_reads_open(n);
    lemma_reads_text_close(v, n);
    let o = seq!['<'] + n + seq!['>'];
    let c = seq!['<', '/'] + n + seq!['>'];
    lemma_reads_concat(o, seq![TokenModel::Open(n)], v + c, seq![TokenModel::Text(v), TokenModel::Close(n)]);
    assert(elem(n, v) =~= o + (v + c));
    assert(leaf(n, v) =~= seq![TokenModel::Open(n)] + seq![TokenModel::Text(v), TokenModel::Close(n)]);
}

pub open spec fn opt_plain(o: Option<Seq<char>>) -> bool {
    o matches Some(v) ==> plain(v)
}

pub proof fn lemma_reads_opt_elem(n: Seq<char>, o: Option<Seq<char>>)
    requires
        name_ok(n),
        opt_plain(o),
    ensures
        reads(opt_elem(n, o), opt_leaf(n, o)),
{
    match o {
        Some(v) => lemma_reads_elem(n, v),
        None => lemma_reads_empty(),
    }
}


proof fn lemma_names_ok()
    ensures
        name_ok("project"@),
        name_ok("modelVersion"@),
        name_ok("parent"@),
        name_ok("groupId"@),
        name_ok("artifactId"@),
        name_ok("version"@),
        name_ok("dependencies"@),
        name_ok("dependency"@),
        name_ok("scope"@),
        name_ok("type"@),
        name_ok("optional"@),
{
    reveal_strlit("project");
    reveal_strlit("modelVersion");
    reveal_strlit("parent");
    reveal_strlit("groupId");
    reveal_strlit("artifactId");
    reveal_strlit("version");
    reveal_strlit("dependencies");
    reveal_strlit("dependency");
    reveal_strlit("scope");
    reveal_strlit("type");
    reveal_strlit("optional");
    assert("project"@.len() == 7);
    assert("modelVersion"@.len() == 12);
    assert("parent"@.len() == 6);
    assert("groupId"@.len() == 7);
    assert("artifactId"@.len() == 10);
    assert("version"@.len() == 7);
    assert("dependencies"@.len() == 12);
    assert("dependency"@.len() == 10);
    assert("scope"@.len() == 5);
    assert("type"@.len() == 4);
    assert("optional"@.len() == 8);
}

proof fn lemma_tag_lits()
    ensures
        "<parent>"@ == seq!['<'] + "parent"@ + seq!['>'],
        "</parent>"@ == seq!['<', '/'] + "parent"@ + seq!['>'],
        "<dependencies>"@ == seq!['<'] + "dependencies"@ + seq!['>'],
        "</dependencies>"@ == seq!['<', '/'] + "dependencies"@ + seq!['>'],
        "<dependency>"@ == seq!['<'] + "dependency"@ + seq!['>'],
        "</dependency>"@ == seq!['<', '/'] + "dependency"@ + seq!['>'],
{
    reveal_strlit("project");
    reveal_strlit("modelVersion");
    reveal_strlit("parent");
    reveal_strlit("groupId");
    reveal_strlit("artifactId");
    reveal_strlit("version");
    reveal_strlit("dependencies");
    reveal_strlit("dependency");
    reveal_strlit("scope");
    reveal_strlit("type");
    reveal_strlit("optional");
    reveal_strlit("<parent>");
    reveal_strlit("</parent>");
    reveal_strlit("<dependencies>");
    reveal_strlit("</dependencies>");
    reveal_strlit("<dependency>");
    reveal_strlit("</dependency>");
    assert("<parent>"@ =~= seq!['<'] + "parent"@ + seq!['>']);
    assert("</parent>"@ =~= seq!['<', '/'] + "parent"@ + seq!['>']);
    assert("<dependencies>"@ =~= seq!['<'] + "dependencies"@ + seq!['>']);
    assert("</dependencies>"@ =~= seq!['<', '/'] + "dependencies"@ + seq!['>']);
    assert("<dependency>"@ =~= seq!['<'] + "dependency"@ + seq!['>']);
    assert("</dependency>"@ =~= seq!['<', '/'] + "dependency"@ + seq!['>']);
}

proof fn lemma_words_plain()
    ensures
        plain("compile"@),
        plain("runtime"@),
        plain("test"@),
        plain("provided"@),
        plain("true"@),
        plain("false"@),
{
    reveal_strlit("compile");
    reveal_strlit("runtime");
    reveal_strlit("test");
    reveal_strlit("provided");
    reveal_strlit("true");
    reveal_strlit("false");
    assert("compile"@.len() == 7);
    assert("runtime"@.len() == 7);
    assert("test"@.len() == 4);
    assert("provided"@.len() == 8);
    assert("true"@.len() == 4);
    assert("false"@.len() == 5);
}

pub open spec fn dep_plain(d: DepModel) -> bool {
    plain(d.group_id) && plain(d.artifact_id) && opt_plain(d.version) && opt_plain(d.dep_type)
}

pub proof fn lemma_reads_dep(d: DepModel)
    requires
        dep_plain(d),
    ensures
        reads(dep_xml(d), dep_tokens(d)),
{
    lemma_names_ok();
    lemma_tag_lits();
    lemma_words_plain();
    let sc = match d.scope {
        Some(s) => Some(scope_text(s)),
        None => None,
    };
    let fl = match d.optional {
        Some(true) => Some("true"@),
        Some(false) => Some("false"@),
        None => None,
    };
    assert(sc == scope_word(d.scope));
    assert(fl == flag_word(d.optional));
    let x0 = "<dependency>"@;
    let t0 = seq![TokenModel::Open("dependency"@)];
    lemma_reads_open("dependency"@);
    lemma_reads_elem("groupId"@, d.group_id);
    lemma_reads_concat(x0, t0, elem("groupId"@, d.group_id), leaf("groupId"@, d.group_id));
    let x1 = x0 + elem("groupId"@, d.group_id);
    let t1 = t0 + leaf("groupId"@, d.group_id);
    lemma_reads_elem("artifactId"@, d.artifact_id);
    lemma_reads_concat(x1, t1, elem("artifactId"@, d.artifact_id), leaf("artifactId"@, d.artifact_id));
    let x2 = x1 + elem("artifactId"@, d.artifact_id);
    let t2 = t1 + leaf("artifactId"@, d.artifact_id);
    lemma_reads_opt_elem("version"@, d.version);
    lemma_reads_concat(x2, t2, opt_elem("version"@, d.version), opt_leaf("version"@, d.version));
    let x3 = x2 + opt_elem("version"@, d.version);
    let t3 = t2 + opt_leaf("version"@, d.version);
    lemma_reads_opt_elem("scope"@, sc);
    lemma_reads_concat(x3, t3, opt_elem("scope"@, sc), opt_leaf("scope"@, sc));
    let x4 = x3 + opt_elem("scope"@, sc);
    let t4 = t3 + opt_leaf("scope"@, sc);
    lemma_reads_opt_elem("type"@, d.dep_type);
    lemma_reads_concat(x4, t4, opt_elem("type"@, d.dep_type), opt_leaf("type"@, d.dep_type));
    let x5 = x4 + opt_elem("type"@, d.dep_type);
    let t5 = t4 + opt_leaf("type"@, d.dep_type);
    lemma_reads_opt_elem("optional"@, fl);
    lemma_reads_concat(x5, t5, opt_elem("optional"@, fl), opt_leaf("optional"@, fl));
    let x6 = x5 + opt_elem("optional"@, fl);
    let t6 = t5 + opt_leaf("optional"@, fl);
    lemma_reads_close("dependency"@);
    lemma_reads_concat(x6, t6, "</dependency>"@, seq![TokenModel::Close("dependency"@)]);
    assert(dep_xml(d) == x6 + "</dependency>"@);
    assert(dep_tokens(d) == t6 + seq![TokenModel::Close("dependency"@)]);
}

pub proof fn lemma_reads_deps(s: Seq<DepModel>)
    requires
        forall|i: int| 0 <= i < s.len() ==> dep_plain(#[trigger] s[i]),
    ensures
        reads(deps_xml(s), deps_tokens(s)),
    decreases s.len(),
{
    if s.len() == 0 {
        lemma_reads_empty();
    } else {
        let w = s.drop_last();
        assert forall|i: int| 0 <= i < w.len() implies dep_plain(#[trigger] w[i]) by {
            assert(w[i] == s[i]);
        }
        lemma_reads_deps(w);
        lemma_reads_dep(s.last());
        lemma_reads_concat(deps_xml(w), deps_tokens(w), dep_xml(s.last()), dep_tokens(s.last()));
    }
}


/// The header: a declaration, a line break, and the root element's open
/// tag with its schema attributes.
pub proof fn lemma_reads_header()
    ensures
        reads(xml_header(), seq![TokenModel::Text(seq!['\n']), TokenModel::Open("project"@)]),
{
    lemma_names_ok();
    reveal_strlit("project");
    reveal_strlit("xml version=\"1.0\" encoding=\"UTF-8\"?");
    reveal_strlit(" xmlns=\"http://maven.apache.org/POM/4.0.0\" xmlns:xsi=\"http://www.w3.org/2001/XMLSchema-instance\" xsi:schemaLocation=\"http://maven.apache.org/POM/4.0.0 http://maven.apache.org/xsd/maven-4.0.0.xsd\"");
    reveal_strlit("<?xml version=\"1.0\" encoding=\"UTF-8\"?>\n<project xmlns=\"http://maven.apache.org/POM/4.0.0\" xmlns:xsi=\"http://www.w3.org/2001/XMLSchema-instance\" xsi:schemaLocation=\"http://maven.apache.org/POM/4.0.0 http://maven.apache.org/xsd/maven-4.0.0.xsd\">");
    let b = "xml version=\"1.0\" encoding=\"UTF-8\"?"@;
    let a = " xmlns=\"http://maven.apache.org/POM/4.0.0\" xmlns:xsi=\"http://www.w3.org/2001/XMLSchema-instance\" xsi:schemaLocation=\"http://maven.apache.org/POM/4.0.0 http://maven.apache.org/xsd/maven-4.0.0.xsd\""@;
    let d = seq!['<', '?'] + b + seq!['>'];
    let o = seq!['<'] + "project"@ + a + seq!['>'];
    assert(xml_header() =~= d + seq!['\n'] + o);
    assert forall|i: int| 0 <= i < b.len() implies #[trigger] b[i] != '>' by {}
    assert forall|i: int| 0 <= i < a.len() implies #[trigger] a[i] != '>' by {}
    assert(is_name_end(a[0]));
    assert(a.last() != '/');
    let x = xml_header();
    let nl = seq!['\n'];
    assert forall|t: Seq<char>, k: int|
        0 <= k && k + x.len() <= t.len() && #[trigger] t.subrange(k, k + x.len()) == x implies tokens_at(
            t,
            k,
        ) == append_opt(
            seq![TokenModel::Text(nl), TokenModel::Open("project"@)],
            tokens_at(t, k + x.len()),
        ) by {
        let dl = d.len() as int;
        let k1 = k + d.len();
        let k2 = k1 + 1;
        assert(t.subrange(k, k1) =~= x.subrange(0, d.len() as int));
        assert(x.subrange(0, d.len() as int) =~= d);
        lemma_tok_decl(t, k, b);
        assert(t.subrange(k1, k2) =~= x.subrange(d.len() as int, dl + 1));
        assert(x.subrange(d.len() as int, dl + 1) =~= nl);
        assert(t.subrange(k, k + x.len())[dl + 1] == t[k2]);
        assert(x[dl + 1] == '<');
        lemma_tok_text(t, k1, nl);
        assert(t.subrange(k2, k2 + o.len()) =~= x.subrange(dl + 1, x.len() as int));
        assert(x.subrange(dl + 1, x.len() as int) =~= o);
        lemma_tok_tag(t, k2, "project"@, a);
        match tokens_at(t, k + x.len()) {
            Some(r) => {
                assert(seq![TokenModel::Text(nl)] + (seq![TokenModel::Open("project"@)] + r) =~= seq![
                    TokenModel::Text(nl),
                    TokenModel::Open("project"@),
                ] + r);
            },
            None => {},
        }
    }
}


pub proof fn lemma_reads_deps_block(o: Option<Seq<DepModel>>)
    requires
        o matches Some(ds) ==> forall|i: int| 0 <= i < ds.len() ==> dep_plain(#[trigger] ds[i]),
    ensures
        reads(
            match o {
                Some(ds) => "<dependencies>"@ + deps_xml(ds) + "</dependencies>"@,
                None => Seq::empty(),
            },
            deps_block_tokens(o),
        ),
{
    match o {
        Some(ds) => {
            lemma_names_ok();
            lemma_tag_lits();
            lemma_reads_open("dependencies"@);
            lemma_reads_deps(ds);
            lemma_reads_concat(
                "<dependencies>"@,
                seq![TokenModel::Open("dependencies"@)],
                deps_xml(ds),
                deps_tokens(ds),
            );
            lemma_reads_close("dependencies"@);
            lemma_reads_concat(
                "<dependencies>"@ + deps_xml(ds),
                seq![TokenModel::Open("dependencies"@)] + deps_tokens(ds),
                "</dependencies>"@,
                seq![TokenModel::Close("dependencies"@)],
            );
        },
        None => {
            lemma_reads_empty();
            assert(deps_block_tokens(o) =~= Seq::<TokenModel>::empty());
        },
    }
}

pub proof fn lemma_reads_parent_block(o: Option<ParentModel>)
    requires
        o matches Some(p) ==> plain(p.group_id) && plain(p.artifact_id) && plain(p.version),
    ensures
        reads(
            match o {
                Some(q) => "<parent>"@ + elem("groupId"@, q.group_id) + elem(
                    "artifactId"@,
                    q.artifact_id,
                ) + elem("version"@, q.version) + "</parent>"@,
                None => Seq::empty(),
            },
            parent_tokens(o),
        ),
{
    match o {
        Some(q) => {
            lemma_names_ok();
            lemma_tag_lits();
            let t0 = seq![TokenModel::Open("parent"@)];
            lemma_reads_open("parent"@);
            lemma_reads_elem("groupId"@, q.group_id);
            lemma_reads_concat("<parent>"@, t0, elem("groupId"@, q.group_id), leaf("groupId"@, q.group_id));
            let x1 = "<parent>"@ + elem("groupId"@, q.group_id);
            let t1 = t0 + leaf("groupId"@, q.group_id);
            lemma_reads_elem("artifactId"@, q.artifact_id);
            lemma_reads_concat(x1, t1, elem("artifactId"@, q.artifact_id), leaf("artifactId"@, q.artifact_id));
            let x2 = x1 + elem("artifactId"@, q.artifact_id);
            let t2 = t1 + leaf("artifactId"@, q.artifact_id);
            lemma_reads_elem("version"@, q.version);
            lemma_reads_concat(x2, t2, elem("version"@, q.version), leaf("version"@, q.version));
            let x3 = x2 + elem("version"@, q.version);
            let t3 = t2 + leaf("version"@, q.version);
            lemma_reads_close("parent"@);
            lemma_reads_concat(x3, t3, "</parent>"@, seq![TokenModel::Close("parent"@)]);
        },
        None => {
            lemma_reads_empty();
            assert(parent_tokens(o) =~= Seq::<TokenModel>::empty());
        },
    }
}


/// A value that is written and read back unchanged: not empty, without
/// surrounding whitespace, and without a character that escaping changes.
pub open spec fn value_ok(v: Seq<char>) -> bool {
    plain(v) && trimmed(v) == v
}

pub open spec fn dep_value_ok(d: DepModel) -> bool {
    &&& value_ok(d.group_id)
    &&& value_ok(d.artifact_id)
    &&& d.version matches Some(v) ==> value_ok(v)
    &&& d.dep_type matches Some(v) ==> value_ok(v)
}

/// A POM that the codec writes and reads back unchanged: no properties and
/// no management (as cleaning leaves it), its group and version present, a
/// dependency list only when it is not empty, and every value `value_ok`.
pub open spec fn writes_back(m: MavenPom) -> bool {
    let q = m@;
    &&& m.properties is None
    &&& q.dependency_management is None
    &&& value_ok(q.model_version)
    &&& q.group_id matches Some(g) && value_ok(g)
    &&& q.version matches Some(v) && value_ok(v)
    &&& value_ok(q.artifact_id)
    &&& q.parent matches Some(p) ==> value_ok(p.group_id) && value_ok(p.artifact_id) && value_ok(
        p.version,
    )
    &&& q.dependencies matches Some(ds) ==> ds.len() > 0 && forall|i: int|
        0 <= i < ds.len() ==> dep_value_ok(#[trigger] ds[i])
}

pub open spec fn body_xml(m: MavenPom) -> Seq<char> {
    let q = m@;
    xml_header() + elem("modelVersion"@, q.model_version) + parent_block(m) + opt_elem(
        "groupId"@,
        q.group_id,
    ) + elem("artifactId"@, q.artifact_id) + opt_elem("version"@, q.version) + props_block(m)
        + deps_block(m) + mgmt_block(m)
}

pub open spec fn body_tokens(q: PomModel) -> Seq<TokenModel> {
    seq![TokenModel::Text(seq!['\n']), TokenModel::Open("project"@)] + leaf(
        "modelVersion"@,
        q.model_version,
    ) + parent_tokens(q.parent) + opt_leaf("groupId"@, q.group_id) + leaf(
        "artifactId"@,
        q.artifact_id,
    ) + opt_leaf("version"@, q.version) + Seq::<TokenModel>::empty() + deps_block_tokens(
        q.dependencies,
    ) + Seq::<TokenModel>::empty()
}

#[verifier::rlimit(50)]
proof fn lemma_reads_body(m: MavenPom)
    requires
        writes_back(m),
    ensures
        reads(body_xml(m), body_tokens(m@)),
{
    let q = m@;
    lemma_names_ok();
    let nl = seq!['\n'];
    lemma_reads_header();
    let x0 = xml_header();
    let t0 = seq![TokenModel::Text(nl), TokenModel::Open("project"@)];
    lemma_reads_elem("modelVersion"@, q.model_version);
    lemma_reads_concat(x0, t0, elem("modelVersion"@, q.model_version), leaf("modelVersion"@, q.model_version));
    let x1 = x0 + elem("modelVersion"@, q.model_version);
    let t1 = t0 + leaf("modelVersion"@, q.model_version);
    lemma_reads_parent_block(q.parent);
    lemma_reads_concat(x1, t1, parent_block(m), parent_tokens(q.parent));
    let x2 = x1 + parent_block(m);
    let t2 = t1 + parent_tokens(q.parent);
    lemma_reads_opt_elem("groupId"@, q.group_id);
    lemma_reads_concat(x2, t2, opt_elem("groupId"@, q.group_id), opt_leaf("groupId"@, q.group_id));
    let x3 = x2 + opt_elem("groupId"@, q.group_id);
    let t3 = t2 + opt_leaf("groupId"@, q.group_id);
    lemma_reads_elem("artifactId"@, q.artifact_id);
    lemma_reads_concat(x3, t3, elem("artifactId"@, q.artifact_id), leaf("artifactId"@, q.artifact_id));
    let x4 = x3 + elem("artifactId"@, q.artifact_id);
    let t4 = t3 + leaf("artifactId"@, q.artifact_id);
    lemma_reads_opt_elem("version"@, q.version);
    lemma_reads_concat(x4, t4, opt_elem("version"@, q.version), opt_leaf("version"@, q.version));
    let x5 = x4 + opt_elem("version"@, q.version);
    let t5 = t4 + opt_leaf("version"@, q.version);
    lemma_reads_empty();
    assert(props_block(m) == Seq::<char>::empty());
    lemma_reads_concat(x5, t5, props_block(m), Seq::empty());
    let x6 = x5 + props_block(m);
    let t6 = t5 + Seq::<TokenModel>::empty();
    match q.dependencies {
        Some(ds) => {
            assert forall|i: int| 0 <= i < ds.len() implies dep_plain(#[trigger] ds[i]) by {
                assert(dep_value_ok(ds[i]));
            }
        },
        None => {},
    }
    lemma_reads_deps_block(q.dependencies);
    lemma_reads_concat(x6, t6, deps_block(m), deps_block_tokens(q.dependencies));
    let x7 = x6 + deps_block(m);
    let t7 = t6 + deps_block_tokens(q.dependencies);
    assert(mgmt_block(m) == Seq::<char>::empty());
    lemma_reads_concat(x7, t7, mgmt_block(m), Seq::empty());
}

proof fn lemma_xml_split(m: MavenPom)
    ensures
        pom_xml(m) == body_xml(m) + "</project>\n"@,
{
}

proof fn lemma_tokens_split(q: PomModel)
    ensures
        body_tokens(q) + seq![TokenModel::Close("project"@), TokenModel::Text(seq!['\n'])]
            == seq![TokenModel::Text(seq!['\n'])] + pom_tokens(q) + seq![TokenModel::Text(seq!['\n'])],
{
    assert(body_tokens(q) + seq![TokenModel::Close("project"@), TokenModel::Text(seq!['\n'])]
        =~= seq![TokenModel::Text(seq!['\n'])] + pom_tokens(q) + seq![TokenModel::Text(seq!['\n'])]);
}

proof fn lemma_tail(t: Seq<char>, kx: int)
    requires
        0 <= kx,
        t.len() == kx + 11,
        t.subrange(kx, kx + 11) == "</project>\n"@,
    ensures
        tokens_at(t, kx) == Some(seq![TokenModel::Close("project"@), TokenModel::Text(seq!['\n'])]),
{
    let nl = seq!['\n'];
    reveal_strlit("</project>\n");
    reveal_strlit("project");
    lemma_names_ok();
    assert(t.subrange(kx, kx + 10) =~= t.subrange(kx, kx + 11).subrange(0, 10));
    assert(t.subrange(kx, kx + 10) =~= seq!['<', '/'] + "project"@ + seq!['>']);
    lemma_tok_close(t, kx, "project"@);
    assert(t.subrange(kx + 10, kx + 11) =~= t.subrange(kx, kx + 11).subrange(10, 11));
    assert(t.subrange(kx + 10, kx + 11) =~= nl);
    lemma_tok_text(t, kx + 10, nl);
    assert(tokens_at(t, kx + 11) == Some(Seq::<TokenModel>::empty()));
    assert(seq![TokenModel::Close("project"@)] + (seq![TokenModel::Text(nl)] + Seq::<
        TokenModel,
    >::empty()) =~= seq![TokenModel::Close("project"@), TokenModel::Text(nl)]);
}

proof fn lemma_tokens_of_written(m: MavenPom)
    requires
        writes_back(m),
    ensures
        tokens_of(pom_xml(m)) == Some(
            seq![TokenModel::Text(seq!['\n'])] + pom_tokens(m@) + seq![TokenModel::Text(seq!['\n'])],
        ),
{
    let q = m@;
    lemma_reads_body(m);
    let x8 = body_xml(m);
    let t8 = body_tokens(q);
    lemma_xml_split(m);
    let t = pom_xml(m);
    let tail = "</project>\n"@;
    reveal_strlit("</project>\n");
    assert(tail.len() == 11);
    let kx = x8.len() as int;
    assert(t.subrange(0, 0int + x8.len()) =~= x8);
    assert(tokens_at(t, 0) == append_opt(t8, tokens_at(t, 0int + x8.len())));
    assert(t.subrange(kx, kx + 11) =~= tail);
    lemma_tail(t, kx);
    lemma_tokens_split(q);
}

/// Writing a POM and parsing the text gives the POM back: the round trip
/// of a cleaned POM whose values are `value_ok`.
pub proof fn lemma_round_trip(m: MavenPom)
    requires
        writes_back(m),
    ensures
        parse_spec(pom_xml(m)) == Ok::<PomModel, crate::error::ResolveError>(m@),
{
    let q = m@;
    lemma_tokens_of_written(m);
    assert(round_trippable(q)) by {
        match q.dependencies {
            Some(ds) => {
                assert forall|i: int| 0 <= i < ds.len() implies dep_writable(#[trigger] ds[i]) by {
                    assert(dep_value_ok(ds[i]));
                }
            },
            None => {},
        }
    }
    lemma_read_back_framed(q);
}

} // verus!
