//! The XML layer of the POM wire format: a tokenizer that turns text into
//! open tags, close tags and decoded text, and the escaping of text.

use vstd::prelude::*;
use crate::properties::{opt_text, string_of};
use crate::search::{first_from, lemma_first_from_found, lemma_first_from_none, lemma_first_from_some};
use crate::text::{chars_of, occurs_at};

verus! {

/// What `quick_xml` decodes a text run to: the text with its entity and
/// character references replaced, or `None` where a reference is malformed.
pub uninterp spec fn unescaped_of(s: Seq<char>) -> Option<Seq<char>>;

/// Relies on `quick_xml::escape::unescape`: decodes `&...;` references; a
/// text without `&` comes back unchanged.
#[verifier::external_body]
fn unescape_text(raw: &str) -> (r: Option<String>)
    ensures
        opt_text(r) == unescaped_of(raw@),
        !raw@.contains('&') ==> opt_text(r) == Some(raw@),
{
    match quick_xml::escape::unescape(raw) {
        Ok(s) => Some(s.into_owned()),
        Err(_) => None,
    }
}

/// The escape of one character in text content.
pub open spec fn escape_char(c: char) -> Seq<char> {
    if c == '<' {
        seq!['&', 'l', 't', ';']
    } else if c == '>' {
        seq!['&', 'g', 't', ';']
    } else if c == '&' {
        seq!['&', 'a', 'm', 'p', ';']
    } else if c == '\'' {
        seq!['&', 'a', 'p', 'o', 's', ';']
    } else if c == '"' {
        seq!['&', 'q', 'u', 'o', 't', ';']
    } else if c == '\r' {
        seq!['&', '#', '1', '3', ';']
    } else {
        seq![c]
    }
}

/// `s` with each of `< > & ' "` and carriage return replaced by its reference.
pub open spec fn escaped(s: Seq<char>) -> Seq<char>
    decreases s.len(),
{
    if s.len() == 0 {
        s
    } else {
        escaped(s.drop_last()) + escape_char(s.last())
    }
}

/// Relies on `quick_xml::escape::escape`, which replaces exactly those
/// characters.
#[verifier::external_body]
pub fn escape_text(raw: &str) -> (r: String)
    ensures
        r@ == escaped(raw@),
{
    quick_xml::escape::escape(raw).into_owned()
}

/// A token of XML text.
#[derive(Clone, Debug, PartialEq, Eq)]
pub enum XmlToken {
    Open(String),
    Close(String),
    Text(String),
}

pub ghost enum TokenModel {
    Open(Seq<char>),
    Close(Seq<char>),
    Text(Seq<char>),
}

impl View for XmlToken {
    type V = TokenModel;

    open spec fn view(&self) -> TokenModel {
        match self {
            XmlToken::Open(s) => TokenModel::Open(s@),
            XmlToken::Close(s) => TokenModel::Close(s@),
            XmlToken::Text(s) => TokenModel::Text(s@),
        }
    }
}

pub open spec fn tokens_view(v: Seq<XmlToken>) -> Seq<TokenModel> {
    v.map_values(|x: XmlToken| x@)
}

/// The first occurrence of `pat` at or after `k`.
pub open spec fn find_at(t: Seq<char>, k: int, pat: Seq<char>) -> Option<int> {
    first_from(k, t.len() as int, |i: int| occurs_at(t, pat, i))
}

pub open spec fn is_name_end(c: char) -> bool {
    c == ' ' || c == '\t' || c == '\n' || c == '\r' || c == '/' || c == '>'
}

/// Where the tag name that starts at `k` ends, within `[k, j)`.
pub open spec fn name_end(t: Seq<char>, k: int, j: int) -> int {
    match first_from(k, j, |i: int| is_name_end(t[i])) {
        Some(e) => e,
        None => j,
    }
}

/// A text run decoded: unchanged when it holds no `&`.
pub open spec fn decoded(raw: Seq<char>) -> Option<Seq<char>> {
    if raw.contains('&') {
        unescaped_of(raw)
    } else {
        Some(raw)
    }
}

pub open spec fn prepend(x: TokenModel, o: Option<Seq<TokenModel>>) -> Option<Seq<TokenModel>> {
    match o {
        Some(s) => Some(seq![x] + s),
        None => None,
    }
}

/// The tokens of `t` from index `k`, or `None` where the text is not
/// well-formed: an unterminated comment, section or tag, or a bad reference.
/// Declarations, processing instructions and comments give no token;
/// `<a/>` gives an open and a close token; attributes are skipped.
pub open spec fn tokens_at(t: Seq<char>, k: int) -> Option<Seq<TokenModel>>
    decreases t.len() - k,
{
    if k < 0 || k >= t.len() {
        Some(Seq::empty())
    } else if t[k] != '<' {
        let e = match first_from(k, t.len() as int, |i: int| t[i] == '<') {
            Some(e) => e,
            None => t.len() as int,
        };
        if e <= k || e > t.len() {
            None
        } else {
            match decoded(t.subrange(k, e)) {
                Some(u) => prepend(TokenModel::Text(u), tokens_at(t, e)),
                None => None,
            }
        }
    } else if occurs_at(t, "<!--"@, k) {
        match find_at(t, k + 4, "-->"@) {
            Some(j) => if j < k || j + 3 > t.len() {
                None
            } else {
                tokens_at(t, j + 3)
            },
            None => None,
        }
    } else if occurs_at(t, "<![CDATA["@, k) {
        match find_at(t, k + 9, "]]>"@) {
            Some(j) => if j < k + 9 || j + 3 > t.len() {
                None
            } else {
                prepend(TokenModel::Text(t.subrange(k + 9, j)), tokens_at(t, j + 3))
            },
            None => None,
        }
    } else {
        match first_from(k + 1, t.len() as int, |i: int| t[i] == '>') {
            Some(j) => if j <= k || j >= t.len() {
                None
            } else {
                let rest = tokens_at(t, j + 1);
                if t[k + 1] == '?' || t[k + 1] == '!' {
                    rest
                } else if t[k + 1] == '/' {
                    prepend(TokenModel::Close(t.subrange(k + 2, name_end(t, k + 2, j))), rest)
                } else if t[j - 1] == '/' {
                    let name = t.subrange(k + 1, name_end(t, k + 1, j));
                    prepend(TokenModel::Open(name), prepend(TokenModel::Close(name), rest))
                } else {
                    prepend(TokenModel::Open(t.subrange(k + 1, name_end(t, k + 1, j))), rest)
                }
            },
            None => None,
        }
    }
}

/// The tokens of an XML text.
pub open spec fn tokens_of(t: Seq<char>) -> Option<Seq<TokenModel>> {
    tokens_at(t, 0)
}

/// The first index in `[from, to)` holding `c`, or `to`.
fn find_char(t: &Vec<char>, from: usize, to: usize, c: char) -> (r: usize)
    requires
        from <= to <= t.len(),
    ensures
        match first_from(from as int, to as int, |i: int| t@[i] == c) {
            Some(e) => r == e,
            None => r == to,
        },
        from <= r <= to,
{
    let ghost p = |i: int| t@[i] == c;
    let mut i = from;
    while i < to
        invariant
            from <= i <= to <= t.len(),
            p == (|i: int| t@[i] == c),
            forall|j: int| from <= j < i ==> !#[trigger] p(j),
        decreases to - i,
    {
        if t[i] == c {
            proof {
                assert(p(i as int));
                lemma_first_from_found(from as int, to as int, p, i as int);
            }
            return i;
        }
        i += 1;
    }
    proof {
        lemma_first_from_none(from as int, to as int, p);
    }
    to
}

/// Whether `pat` occurs in `t` at `k`.
fn occurs(t: &Vec<char>, k: usize, pat: &Vec<char>) -> (r: bool)
    requires
        k <= t.len(),
    ensures
        r == occurs_at(t@, pat@, k as int),
{
    if pat.len() > t.len() - k {
        return false;
    }
    let mut i: usize = 0;
    while i < pat.len()
        invariant
            i <= pat.len(),
            k + pat.len() <= t.len(),
            forall|j: int| 0 <= j < i ==> t@[k + j] == pat@[j],
        decreases pat.len() - i,
    {
        if t[k + i] != pat[i] {
            proof {
                assert(t@.subrange(k as int, k + pat.len())[i as int] != pat@[i as int]);
            }
            return false;
        }
        i += 1;
    }
    proof {
        assert(t@.subrange(k as int, k + pat.len()) =~= pat@);
    }
    true
}

/// The first occurrence of `pat` at or after `from`.
fn find_pattern(t: &Vec<char>, from: usize, pat: &Vec<char>) -> (r: Option<usize>)
    requires
        from <= t.len(),
    ensures
        match r {
            Some(j) => find_at(t@, from as int, pat@) == Some(j as int) && j < t.len(),
            None => find_at(t@, from as int, pat@) is None,
        },
{
    let ghost p = |i: int| occurs_at(t@, pat@, i);
    let mut i = from;
    while i < t.len()
        invariant
            from <= i <= t.len(),
            p == (|i: int| occurs_at(t@, pat@, i)),
            forall|j: int| from <= j < i ==> !#[trigger] p(j),
        decreases t.len() - i,
    {
        if occurs(t, i, pat) {
            proof {
                lemma_first_from_found(from as int, t.len() as int, p, i as int);
            }
            return Some(i);
        }
        i += 1;
    }
    proof {
        lemma_first_from_none(from as int, t.len() as int, p);
    }
    None
}

/// Where the tag name that starts at `k` ends, within `[k, j)`.
fn tag_name_end(t: &Vec<char>, k: usize, j: usize) -> (r: usize)
    requires
        k <= j <= t.len(),
    ensures
        r == name_end(t@, k as int, j as int),
        k <= r <= j,
{
    let ghost p = |i: int| is_name_end(t@[i]);
    let mut i = k;
    while i < j
        invariant
            k <= i <= j <= t.len(),
            p == (|i: int| is_name_end(t@[i])),
            forall|m: int| k <= m < i ==> !#[trigger] p(m),
        decreases j - i,
    {
        let c = t[i];
        if c == ' ' || c == '\t' || c == '\n' || c == '\r' || c == '/' || c == '>' {
            proof {
                assert(p(i as int));
                lemma_first_from_found(k as int, j as int, p, i as int);
            }
            return i;
        }
        i += 1;
    }
    proof {
        lemma_first_from_none(k as int, j as int, p);
    }
    j
}

pub open spec fn append_opt(acc: Seq<TokenModel>, o: Option<Seq<TokenModel>>) -> Option<Seq<TokenModel>> {
    match o {
        Some(s) => Some(acc + s),
        None => None,
    }
}

/// Split an XML text into tokens; `None` where it is not well-formed.
pub fn tokenize(text: &str) -> (r: Option<Vec<XmlToken>>)
    ensures
        match r {
            Some(v) => tokens_of(text@) == Some(tokens_view(v@)),
            None => tokens_of(text@) is None,
        },
{
    let t = chars_of(text);
    let comment_open = chars_of("<!--");
    let comment_close = chars_of("-->");
    let cdata_open = chars_of("<![CDATA[");
    let cdata_close = chars_of("]]>");
    let n = t.len();
    let mut out: Vec<XmlToken> = Vec::new();
    let mut k: usize = 0;
    while k < n
        invariant
            n == t.len(),
            t@ == text@,
            k <= n,
            comment_open@ == "<!--"@,
            comment_close@ == "-->"@,
            cdata_open@ == "<![CDATA["@,
            cdata_close@ == "]]>"@,
            tokens_at(t@, 0) == append_opt(tokens_view(out@), tokens_at(t@, k as int)),
        decreases n - k,
    {
        let ghost acc = tokens_view(out@);
        if t[k] != '<' {
            let e = find_char(&t, k, n, '<');
            let raw = string_of(&t, k, e);
            let dec = unescape_text(raw.as_str());
            proof {
                assert(opt_text(dec) == decoded(raw@));
            }
            match dec {
                Some(u) => {
                    let ghost um = u@;
                    out.push(XmlToken::Text(u));
                    proof {
                        assert(tokens_view(out@) =~= acc.push(TokenModel::Text(um)));
                        match tokens_at(t@, e as int) {
                            Some(s) => assert(acc.push(TokenModel::Text(um)) + s =~= acc + (seq![
                                TokenModel::Text(um),
                            ] + s)),
                            None => {},
                        }
                    }
                    k = e;
                },
                None => {
                    return None;
                },
            }
        } else if occurs(&t, k, &comment_open) {
            proof {
                reveal_strlit("<!--");
            }
            match find_pattern(&t, k + 4, &comment_close) {
                Some(j) => {
                    proof {
                        reveal_strlit("-->");
                        lemma_first_from_some(k + 4, n as int, |i: int| occurs_at(t@, "-->"@, i));
                    }
                    k = j + 3;
                },
                None => {
                    return None;
                },
            }
        } else if occurs(&t, k, &cdata_open) {
            proof {
                reveal_strlit("<![CDATA[");
            }
            match find_pattern(&t, k + 9, &cdata_close) {
                Some(j) => {
                    proof {
                        reveal_strlit("]]>");
                        lemma_first_from_some(k + 9, n as int, |i: int| occurs_at(t@, "]]>"@, i));
                    }
                    let s = string_of(&t, k + 9, j);
                    let ghost sm = s@;
                    out.push(XmlToken::Text(s));
                    proof {
                        assert(tokens_view(out@) =~= acc.push(TokenModel::Text(sm)));
                        match tokens_at(t@, j + 3) {
                            Some(s) => assert(acc.push(TokenModel::Text(sm)) + s =~= acc + (seq![
                                TokenModel::Text(sm),
                            ] + s)),
                            None => {},
                        }
                    }
                    k = j + 3;
                },
                None => {
                    return None;
                },
            }
        } else {
            let j = find_char(&t, k + 1, n, '>');
            if j == n {
                return None;
            }
            let c = t[k + 1];
            if c == '?' || c == '!' {
            } else if c == '/' {
                let e = tag_name_end(&t, k + 2, j);
                let name = string_of(&t, k + 2, e);
                let ghost nm = name@;
                out.push(XmlToken::Close(name));
                proof {
                    assert(tokens_view(out@) =~= acc.push(TokenModel::Close(nm)));
                    match tokens_at(t@, j + 1) {
                        Some(s) => assert(acc.push(TokenModel::Close(nm)) + s =~= acc + (seq![
                            TokenModel::Close(nm),
                        ] + s)),
                        None => {},
                    }
                }
            } else {
                let e = tag_name_end(&t, k + 1, j);
                let name = string_of(&t, k + 1, e);
                let ghost nm = name@;
                if t[j - 1] == '/' {
                    let name2 = string_of(&t, k + 1, e);
                    out.push(XmlToken::Open(name));
                    out.push(XmlToken::Close(name2));
                    proof {
                        assert(tokens_view(out@) =~= acc.push(TokenModel::Open(nm)).push(
                            TokenModel::Close(nm),
                        ));
                        match tokens_at(t@, j + 1) {
                            Some(s) => assert(acc.push(TokenModel::Open(nm)).push(
                                TokenModel::Close(nm),
                            ) + s =~= acc + (seq![TokenModel::Open(nm)] + (seq![
                                TokenModel::Close(nm),
                            ] + s))),
                            None => {},
                        }
                    }
                } else {
                    out.push(XmlToken::Open(name));
                    proof {
                        assert(tokens_view(out@) =~= acc.push(TokenModel::Open(nm)));
                        match tokens_at(t@, j + 1) {
                            Some(s) => assert(acc.push(TokenModel::Open(nm)) + s =~= acc + (seq![
                                TokenModel::Open(nm),
                            ] + s)),
                            None => {},
                        }
                    }
                }
            }
            k = j + 1;
        }
    }
    proof {
        assert(tokens_view(out@) + Seq::<TokenModel>::empty() =~= tokens_view(out@));
    }
    Some(out)
}

} // verus!
