use jcargo::pom::{
    DependencyManagement, DependencyScope, Element, MavenDependencyScope, MavenPom,
    PomDependencies, PomDependency,
};
use jcargo::properties::Properties;

fn el(s: &str) -> Element {
    Element::new(s.to_string())
}

fn dep(g: &str, a: &str) -> PomDependency {
    PomDependency {
        group_id: el(g),
        artifact_id: el(a),
        version: None,
        scope: None,
        dep_type: None,
        optional: None,
    }
}

fn pom(a: &str) -> MavenPom {
    MavenPom {
        model_version: el("4.0.0"),
        group_id: None,
        artifact_id: el(a),
        version: None,
        parent: None,
        properties: None,
        dependencies: None,
        dependency_management: None,
    }
}

#[test]
fn test_props_resolve() {
    let mut props = Properties::new();
    props.insert(
        "propname".to_string(),
        "you thought it was me, ${other}".to_string(),
    );
    props.insert("other".to_string(), "but it was me dio".to_string());
    assert_eq!(
        props.recurse_resolve("yay ${propname}", &None).to_string(),
        "yay you thought it was me, but it was me dio".to_string()
    );
}

#[test]
fn property_resolution_with_builtin() {
    let mut props = Properties::new();
    props.insert("a".to_string(), "v".to_string());
    props.insert("b".to_string(), "c${a}".to_string());
    assert_eq!(
        props.recurse_resolve("x-${b}-${project.version}", &Some("9".to_string())),
        "x-cv-9"
    );
}

#[test]
fn undefined_property_is_kept() {
    let props = Properties::new();
    assert_eq!(props.recurse_resolve("a-${nope}-b", &None), "a-${nope}-b");
    assert_eq!(props.recurse_resolve("${project.version}", &None), "${project.version}");
    assert_eq!(props.recurse_resolve("open ${ without close", &None), "open ${ without close");
}

#[test]
fn cyclic_property_is_bounded() {
    let mut props = Properties::new();
    props.insert("a".to_string(), "${b}".to_string());
    props.insert("b".to_string(), "${a}".to_string());
    let r = props.recurse_resolve("${a}", &None);
    assert!(r == "${a}" || r == "${b}");
}

#[test]
fn later_property_overrides() {
    let mut props = Properties::new();
    props.insert("k".to_string(), "1".to_string());
    props.insert("k".to_string(), "2".to_string());
    assert_eq!(props.get(&"k".to_string()).unwrap(), "2");
    let mut other = Properties::new();
    other.insert("k".to_string(), "3".to_string());
    let merged = props.merge(&other);
    assert_eq!(merged.get(&"k".to_string()).unwrap(), "3");
    assert!(merged.get(&"missing".to_string()).is_none());
}

#[test]
fn dependency_merge_child_wins() {
    let mut p = dep("g", "a");
    p.version = Some(el("1"));
    p.dep_type = Some(el("jar"));
    let mut c = dep("g", "a");
    c.version = Some(el("2"));
    let m = p.merge(&c);
    assert_eq!(m.version, Some(el("2")));
    assert_eq!(m.dep_type, Some(el("jar")));
}

#[test]
fn dependencies_merge_by_coordinates() {
    let mut x = dep("g", "x");
    x.version = Some(el("1"));
    let parent = PomDependencies { dependencies: vec![x, dep("g", "y")] };
    let mut x2 = dep("g", "x");
    x2.scope = Some(DependencyScope { value: MavenDependencyScope::Runtime });
    let child = PomDependencies { dependencies: vec![x2, dep("g", "z")] };
    let m = parent.merge(&child);
    assert_eq!(m.dependencies.len(), 3);
    assert_eq!(m.dependencies[0].version, Some(el("1")));
    assert_eq!(
        m.dependencies[0].scope,
        Some(DependencyScope { value: MavenDependencyScope::Runtime })
    );
    assert_eq!(m.dependencies[2].artifact_id, el("z"));
}

#[test]
fn merge_fills_identity_from_parent() {
    let mut parent = pom("p");
    parent.group_id = Some(el("org.x"));
    parent.version = Some(el("1.0"));
    let mut child = pom("c");
    child.model_version = el("3.0.0");
    let m = parent.merge(&child);
    assert_eq!(m.group_id, Some(el("org.x")));
    assert_eq!(m.version, Some(el("1.0")));
    assert_eq!(m.artifact_id, el("c"));
    assert_eq!(m.model_version, el("4.0.0"));
    assert!(m.parent.is_none());
}

#[test]
fn merge_with_empty_is_identity() {
    let mut p = pom("a");
    p.group_id = Some(el("g"));
    p.version = Some(el("1"));
    let mut d = dep("g", "d");
    d.version = Some(el("2"));
    p.dependencies = Some(PomDependencies { dependencies: vec![d] });
    let mut props = Properties::new();
    props.insert("k".to_string(), "v".to_string());
    p.properties = Some(props);
    let over_empty = pom("ignored").merge(&p);
    assert_eq!(over_empty, p);
    let under_empty = p.merge(&pom("a"));
    assert_eq!(under_empty, p);
}

#[test]
fn merge_chain_is_associative() {
    let mut a = pom("a");
    a.group_id = Some(el("g"));
    let mut da = dep("g", "x");
    da.version = Some(el("1"));
    a.dependencies = Some(PomDependencies { dependencies: vec![da] });
    let mut b = pom("b");
    b.version = Some(el("2"));
    let mut db = dep("g", "x");
    db.scope = Some(DependencyScope { value: MavenDependencyScope::Test });
    b.dependencies = Some(PomDependencies { dependencies: vec![db, dep("g", "y")] });
    let mut c = pom("c");
    let mut dc = dep("g", "y");
    dc.version = Some(el("3"));
    c.dependencies = Some(PomDependencies { dependencies: vec![dc] });
    let left = a.merge(&b).merge(&c);
    let right = a.merge(&b.merge(&c));
    assert_eq!(left, right);
}

#[test]
fn dependency_management_fills_version() {
    let mut parent = pom("p");
    parent.group_id = Some(el("io.q"));
    parent.version = Some(el("1"));
    let mut rule = dep("io.q", "lib");
    rule.version = Some(el("2.3"));
    parent.dependency_management = Some(DependencyManagement {
        dependencies: PomDependencies { dependencies: vec![rule] },
    });
    let mut child = pom("c");
    child.dependencies = Some(PomDependencies { dependencies: vec![dep("io.q", "lib")] });
    let mut merged = parent.merge(&child);
    merged.clean();
    let deps = merged.dependencies.unwrap().dependencies;
    assert_eq!(deps.len(), 1);
    assert_eq!(deps[0].version, Some(el("2.3")));
    assert!(merged.dependency_management.is_none());
}

#[test]
fn apply_rules_keeps_present_fields() {
    let mut d = dep("g", "a");
    d.version = Some(el("1"));
    let mut rule = dep("g", "a");
    rule.version = Some(el("9"));
    rule.scope = Some(DependencyScope { value: MavenDependencyScope::Runtime });
    let rules = DependencyManagement { dependencies: PomDependencies { dependencies: vec![rule] } };
    let r = d.apply_rules(&rules);
    assert_eq!(r.version, Some(el("1")));
    assert_eq!(r.scope, Some(DependencyScope { value: MavenDependencyScope::Runtime }));
    let other = dep("g", "b").apply_rules(&rules);
    assert_eq!(other, dep("g", "b"));
}

#[test]
fn scope_prune() {
    let mut x = dep("g", "x");
    x.scope = Some(DependencyScope { value: MavenDependencyScope::Test });
    let y = dep("g", "y");
    let mut z = dep("g", "z");
    z.optional = Some(true);
    let mut w = dep("g", "w");
    w.scope = Some(DependencyScope { value: MavenDependencyScope::Runtime });
    let mut p = pom("r");
    p.group_id = Some(el("g"));
    p.version = Some(el("1"));
    p.dependencies = Some(PomDependencies { dependencies: vec![x, y, z, w] });
    p.clean();
    let deps = p.dependencies.unwrap().dependencies;
    assert_eq!(deps.len(), 2);
    assert_eq!(deps[0].artifact_id, el("y"));
    assert_eq!(deps[0].scope, None);
    assert_eq!(deps[1].artifact_id, el("w"));
    assert_eq!(deps[1].scope, Some(DependencyScope { value: MavenDependencyScope::Runtime }));
}

#[test]
fn clean_resolves_versions_and_clears() {
    let mut p = pom("r");
    p.group_id = Some(el("g"));
    p.version = Some(el("5"));
    let mut props = Properties::new();
    props.insert("lib.version".to_string(), "1.${minor}".to_string());
    props.insert("minor".to_string(), "2".to_string());
    p.properties = Some(props);
    let mut a = dep("g", "a");
    a.version = Some(el("${lib.version}"));
    let mut b = dep("g", "b");
    b.version = Some(el("${project.version}"));
    let mut c = dep("g", "c");
    c.version = Some(el("${unknown}"));
    p.dependencies = Some(PomDependencies { dependencies: vec![a, b, c] });
    p.clean();
    assert!(p.properties.is_none());
    let deps = p.clone().dependencies.unwrap().dependencies;
    assert_eq!(deps[0].version, Some(el("1.2")));
    assert_eq!(deps[1].version, Some(el("5")));
    assert_eq!(deps[2].version, Some(el("${unknown}")));
    let mut again = p.clone();
    again.clean();
    assert_eq!(again, p);
}

#[test]
fn clean_clears_empty_dependencies() {
    let mut x = dep("g", "x");
    x.scope = Some(DependencyScope { value: MavenDependencyScope::Provided });
    let mut p = pom("r");
    p.dependencies = Some(PomDependencies { dependencies: vec![x] });
    p.clean();
    assert!(p.dependencies.is_none());
}

#[test]
fn apply_properties_resolves_versions() {
    let mut props = Properties::new();
    props.insert("v".to_string(), "3.1".to_string());
    let mut a = dep("g", "a");
    a.version = Some(el("${v}"));
    let mut b = dep("g", "b");
    b.version = Some(el("${project.version}-x"));
    let mut deps = PomDependencies { dependencies: vec![a, b, dep("g", "c")] };
    deps.apply_properties(&props, &Some("7".to_string()));
    assert_eq!(deps.dependencies[0].version, Some(el("3.1")));
    assert_eq!(deps.dependencies[1].version, Some(el("7-x")));
    assert_eq!(deps.dependencies[2].version, None);
}
