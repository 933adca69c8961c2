//! The POM codec: `parse` reads a POM from XML text and fills the group and
//! version that it inherits from its parent; `serialize` writes a POM back.

use vstd::prelude::*;
use crate::error::ResolveError;
use crate::pom::{
    or_else, DepModel, MavenDependencyScope, MavenPom, PomDependency, PomModel, deps_view,
    text_of,
};
use crate::properties::{Properties, Property};
use crate::reader::{finish_read, pom_result, read_all, read_pom};
use crate::xml::{escape_text, escaped, tokenize, tokens_of};

verus! {

/// The POM with its absent group and version taken from its parent; when
/// one of them stays absent the POM is malformed.
pub open spec fn fill_inherited(p: PomModel) -> Result<PomModel, ResolveError> {
    let g = or_else(
        p.group_id,
        match p.parent {
            Some(q) => Some(q.group_id),
            None => None,
        },
    );
    let v = or_else(
        p.version,
        match p.parent {
            Some(q) => Some(q.version),
            None => None,
        },
    );
    if g is None || v is None {
        Err(ResolveError::MalformedPom)
    } else {
        Ok(PomModel { group_id: g, version: v, ..p })
    }
}

/// The POM that an XML text describes, its identity inherited.
pub open spec fn parse_spec(text: Seq<char>) -> Result<PomModel, ResolveError> {
    match tokens_of(text) {
        None => Err(ResolveError::ParseError),
        Some(ts) => match finish_read(read_all(ts)) {
            Ok(p) => fill_inherited(p),
            Err(e) => Err(e),
        },
    }
}

/// `<name>escaped value</name>`.
pub open spec fn elem(name: Seq<char>, v: Seq<char>) -> Seq<char> {
    "<"@ + name + ">"@ + escaped(v) + "</"@ + name + ">"@
}

pub open spec fn opt_elem(name: Seq<char>, o: Option<Seq<char>>) -> Seq<char> {
    match o {
        Some(v) => elem(name, v),
        None => Seq::empty(),
    }
}

pub open spec fn scope_text(s: MavenDependencyScope) -> Seq<char> {
    match s {
        MavenDependencyScope::Compile => "compile"@,
        MavenDependencyScope::Runtime => "runtime"@,
        MavenDependencyScope::Test => "test"@,
        MavenDependencyScope::Provided => "provided"@,
    }
}

pub open spec fn dep_xml(d: DepModel) -> Seq<char> {
    "<dependency>"@ + elem("groupId"@, d.group_id) + elem("artifactId"@, d.artifact_id) + opt_elem(
        "version"@,
        d.version,
    ) + opt_elem(
        "scope"@,
        match d.scope {
            Some(s) => Some(scope_text(s)),
            None => None,
        },
    ) + opt_elem("type"@, d.dep_type) + opt_elem(
        "optional"@,
        match d.optional {
            Some(true) => Some("true"@),
            Some(false) => Some("false"@),
            None => None,
        },
    ) + "</dependency>"@
}

pub open spec fn deps_xml(s: Seq<DepModel>) -> Seq<char>
    decreases s.len(),
{
    if s.len() == 0 {
        Seq::empty()
    } else {
        deps_xml(s.drop_last()) + dep_xml(s.last())
    }
}

pub open spec fn props_xml(s: Seq<Property>) -> Seq<char>
    decreases s.len(),
{
    if s.len() == 0 {
        Seq::empty()
    } else {
        props_xml(s.drop_last()) + elem(s.last().name@, s.last().value@)
    }
}

/// The XML declaration and the opening of the root element, with the POM
/// schema location.
pub open spec fn xml_header() -> Seq<char> {
    "<?xml version=\"1.0\" encoding=\"UTF-8\"?>\n<project xmlns=\"http://maven.apache.org/POM/4.0.0\" xmlns:xsi=\"http://www.w3.org/2001/XMLSchema-instance\" xsi:schemaLocation=\"http://maven.apache.org/POM/4.0.0 http://maven.apache.org/xsd/maven-4.0.0.xsd\">"@
}

pub open spec fn parent_block(p: MavenPom) -> Seq<char> {
    match p@.parent {
        Some(q) => "<parent>"@ + elem("groupId"@, q.group_id) + elem("artifactId"@, q.artifact_id)
            + elem("version"@, q.version) + "</parent>"@,
        None => Seq::empty(),
    }
}

pub open spec fn props_block(p: MavenPom) -> Seq<char> {
    match p.properties {
        Some(ps) => "<properties>"@ + props_xml(ps.entries@) + "</properties>"@,
        None => Seq::empty(),
    }
}

pub open spec fn deps_block(p: MavenPom) -> Seq<char> {
    match p@.dependencies {
        Some(ds) => "<dependencies>"@ + deps_xml(ds) + "</dependencies>"@,
        None => Seq::empty(),
    }
}

pub open spec fn mgmt_block(p: MavenPom) -> Seq<char> {
    match p@.dependency_management {
        Some(ds) => "<dependencyManagement><dependencies>"@ + deps_xml(ds)
            + "</dependencies></dependencyManagement>"@,
        None => Seq::empty(),
    }
}

/// The XML text of a POM.
pub open spec fn pom_xml(p: MavenPom) -> Seq<char> {
    xml_header() + elem("modelVersion"@, p@.model_version) + parent_block(p) + opt_elem(
        "groupId"@,
        p@.group_id,
    ) + elem("artifactId"@, p@.artifact_id) + opt_elem("version"@, p@.version) + props_block(p)
        + deps_block(p) + mgmt_block(p) + "</project>\n"@
}

fn put(out: &mut String, s: &str)
    ensures
        final(out)@ == old(out)@ + s@,
{
    out.append(s);
}

fn put_elem(out: &mut String, name: &str, v: &str)
    ensures
        final(out)@ == old(out)@ + elem(name@, v@),
{
    let ghost start = out@;
    put(out, "<");
    put(out, name);
    put(out, ">");
    let e = escape_text(v);
    put(out, e.as_str());
    put(out, "</");
    put(out, name);
    put(out, ">");
    proof {
        assert(out@ =~= start + elem(name@, v@));
    }
}

fn opt_elem_text(name: &str, o: &Option<crate::pom::Element>) -> (r: String)
    ensures
        r@ == opt_elem(name@, text_of(*o)),
{
    let mut r = String::new();
    match o {
        Some(e) => {
            put_elem(&mut r, name, e.value.as_str());
            proof {
                assert(r@ =~= elem(name@, e@));
            }
        },
        None => {},
    }
    r
}

fn put_opt_elem(out: &mut String, name: &str, o: &Option<crate::pom::Element>)
    ensures
        final(out)@ == old(out)@ + opt_elem(name@, text_of(*o)),
{
    let t = opt_elem_text(name, o);
    put(out, t.as_str());
}

fn scope_opt(d: &PomDependency) -> (r: Option<crate::pom::Element>)
    ensures
        text_of(r) == match d@.scope {
            Some(s) => Some(scope_text(s)),
            None => None,
        },
{
    match d.scope {
        Some(s) => Some(
            crate::pom::Element::new(
                match s.value {
                    MavenDependencyScope::Compile => "compile".to_owned(),
                    MavenDependencyScope::Runtime => "runtime".to_owned(),
                    MavenDependencyScope::Test => "test".to_owned(),
                    MavenDependencyScope::Provided => "provided".to_owned(),
                },
            ),
        ),
        None => None,
    }
}

fn flag_opt(d: &PomDependency) -> (r: Option<crate::pom::Element>)
    ensures
        text_of(r) == match d@.optional {
            Some(true) => Some("true"@),
            Some(false) => Some("false"@),
            None => None,
        },
{
    match d.optional {
        Some(true) => Some(crate::pom::Element::new("true".to_owned())),
        Some(false) => Some(crate::pom::Element::new("false".to_owned())),
        None => None,
    }
}

fn put_dep(out: &mut String, d: &PomDependency)
    ensures
        final(out)@ == old(out)@ + dep_xml(d@),
{
    let mut t = "<dependency>".to_owned();
    put_elem(&mut t, "groupId", d.group_id.value.as_str());
    put_elem(&mut t, "artifactId", d.artifact_id.value.as_str());
    put_opt_elem(&mut t, "version", &d.version);
    put_opt_elem(&mut t, "scope", &scope_opt(d));
    put_opt_elem(&mut t, "type", &d.dep_type);
    put_opt_elem(&mut t, "optional", &flag_opt(d));
    put(&mut t, "</dependency>");
    put(out, t.as_str());
}

fn put_deps(out: &mut String, ds: &Vec<PomDependency>)
    ensures
        final(out)@ == old(out)@ + deps_xml(deps_view(ds@)),
{
    let ghost start = out@;
    let n = ds.len();
    for k in 0..n
        invariant
            n == ds.len(),
            out@ == start + deps_xml(deps_view(ds@).take(k as int)),
    {
        put_dep(out, &ds[k]);
        proof {
            let s = deps_view(ds@).take(k + 1);
            assert(s.drop_last() =~= deps_view(ds@).take(k as int));
            assert(out@ =~= start + deps_xml(s));
        }
    }
    proof {
        assert(deps_view(ds@).take(n as int) =~= deps_view(ds@));
    }
}

fn put_props(out: &mut String, ps: &Properties)
    ensures
        final(out)@ == old(out)@ + props_xml(ps.entries@),
{
    let ghost start = out@;
    let n = ps.entries.len();
    for k in 0..n
        invariant
            n == ps.entries.len(),
            out@ == start + props_xml(ps.entries@.take(k as int)),
    {
        let e = &ps.entries[k];
        put_elem(out, e.name.as_str(), e.value.as_str());
        proof {
            let s = ps.entries@.take(k + 1);
            assert(s.drop_last() =~= ps.entries@.take(k as int));
            assert(out@ =~= start + props_xml(s));
        }
    }
    proof {
        assert(ps.entries@.take(n as int) =~= ps.entries@);
    }
}

impl MavenPom {
    /// Read a POM from XML text. Its group and version, when absent, are
    /// taken from its parent.
    pub fn parse(text: &str) -> (r: Result<MavenPom, ResolveError>)
        ensures
            pom_result(r) == parse_spec(text@),
    {
        let tokens = match tokenize(text) {
            Some(t) => t,
            None => {
                return Err(ResolveError::ParseError);
            },
        };
        let mut pom = match read_pom(&tokens) {
            Ok(p) => p,
            Err(e) => {
                return Err(e);
            },
        };
        if pom.group_id.is_none() {
            match &pom.parent {
                Some(q) => {
                    pom.group_id = Some(q.group_id.duplicate());
                },
                None => {},
            }
        }
        if pom.version.is_none() {
            match &pom.parent {
                Some(q) => {
                    pom.version = Some(q.version.duplicate());
                },
                None => {},
            }
        }
        if pom.group_id.is_none() || pom.version.is_none() {
            return Err(ResolveError::MalformedPom);
        }
        Ok(pom)
    }

    /// The XML text of this POM, under the POM schema.
    pub fn serialize(&self) -> (r: String)
        ensures
            r@ == pom_xml(*self),
    {
        let mut out = "<?xml version=\"1.0\" encoding=\"UTF-8\"?>\n<project xmlns=\"http://maven.apache.org/POM/4.0.0\" xmlns:xsi=\"http://www.w3.org/2001/XMLSchema-instance\" xsi:schemaLocation=\"http://maven.apache.org/POM/4.0.0 http://maven.apache.org/xsd/maven-4.0.0.xsd\">".to_owned();
        put_elem(&mut out, "modelVersion", self.model_version.value.as_str());
        let parent = self.parent_text();
        put(&mut out, parent.as_str());
        put_opt_elem(&mut out, "groupId", &self.group_id);
        put_elem(&mut out, "artifactId", self.artifact_id.value.as_str());
        put_opt_elem(&mut out, "version", &self.version);
        let props = self.props_text();
        put(&mut out, props.as_str());
        let deps = self.deps_text();
        put(&mut out, deps.as_str());
        let mgmt = self.mgmt_text();
        put(&mut out, mgmt.as_str());
        put(&mut out, "</project>\n");
        out
    }

    fn parent_text(&self) -> (r: String)
        ensures
            r@ == parent_block(*self),
    {
        match &self.parent {
            Some(q) => {
                let mut t = "<parent>".to_owned();
                put_elem(&mut t, "groupId", q.group_id.value.as_str());
                put_elem(&mut t, "artifactId", q.artifact_id.value.as_str());
                put_elem(&mut t, "version", q.version.value.as_str());
                put(&mut t, "</parent>");
                t
            },
            None => String::new(),
        }
    }

    fn props_text(&self) -> (r: String)
        ensures
            r@ == props_block(*self),
    {
        match &self.properties {
            Some(ps) => {
                let mut t = "<properties>".to_owned();
                put_props(&mut t, ps);
                put(&mut t, "</properties>");
                t
            },
            None => String::new(),
        }
    }

    fn deps_text(&self) -> (r: String)
        ensures
            r@ == deps_block(*self),
    {
        match &self.dependencies {
            Some(ds) => {
                let mut t = "<dependencies>".to_owned();
                put_deps(&mut t, &ds.dependencies);
                put(&mut t, "</dependencies>");
                t
            },
            None => String::new(),
        }
    }

    fn mgmt_text(&self) -> (r: String)
        ensures
            r@ == mgmt_block(*self),
    {
        match &self.dependency_management {
            Some(m) => {
                let mut t = "<dependencyManagement><dependencies>".to_owned();
                put_deps(&mut t, &m.dependencies.dependencies);
                put(&mut t, "</dependencies></dependencyManagement>");
                t
            },
            None => String::new(),
        }
    }
}

} // verus!
