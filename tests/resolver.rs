use jcargo::backend::JavaCompilationBackend;
use std::collections::HashMap;

use jcargo::cache::{Admission, PomCache};
use jcargo::coordinate::{MavenRepo, MavenRepoDependency};
use jcargo::dependencies::Dependency;
use jcargo::error::ResolveError;
use jcargo::manifest::{CompleteDependencyDef, DependencyDef, EntrypointDef};
use jcargo::pom::{Element, MavenPom};
use jcargo::resolver::{
    check_ancestors, child_coordinates, complete_main_pom, complete_parent_pom, parent_coordinate,
    plan_jar_fetch, plan_pom_fetch, resolved_jar_paths, FetchPlan,
};

fn repo() -> MavenRepo {
    MavenRepo::new("fixture".to_string(), "http://localhost:8080/maven2").unwrap()
}

fn coord(g: &str, a: &str, v: &str) -> MavenRepoDependency {
    MavenRepoDependency {
        group: g.to_string(),
        artifact: a.to_string(),
        version: v.to_string(),
        repo: repo(),
    }
}

#[test]
fn repository_url_gets_trailing_slash() {
    assert_eq!(repo().url, "http://localhost:8080/maven2/");
    let r = MavenRepo::new("c".to_string(), "https://repo.maven.apache.org/maven2/").unwrap();
    assert_eq!(r.url, "https://repo.maven.apache.org/maven2/");
    assert_eq!(MavenRepo::new("bad".to_string(), "not a url").unwrap_err(), ResolveError::InvalidUrl);
    let n = MavenRepo::new("n".to_string(), "HTTP://Example.COM/a/../m2").unwrap();
    assert_eq!(n.url, "http://example.com/m2/");
}

#[test]
fn coordinate_names_and_urls() {
    let c = coord("org.apache.logging.log4j", "log4j-api", "2.17.1");
    assert_eq!(c.get_path(), "org/apache/logging/log4j/log4j-api/2.17.1/");
    assert_eq!(c.base_name(), "log4j-api-2.17.1");
    assert_eq!(c.jar_name(), "log4j-api-2.17.1.jar");
    assert_eq!(c.pom_name(), "log4j-api-2.17.1.pom");
    assert_eq!(c.dependency_notation(), "org.apache.logging.log4j:log4j-api:2.17.1");
    assert_eq!(
        c.jar_url(),
        "http://localhost:8080/maven2/org/apache/logging/log4j/log4j-api/2.17.1/log4j-api-2.17.1.jar"
    );
    assert_eq!(
        c.pom_url(),
        "http://localhost:8080/maven2/org/apache/logging/log4j/log4j-api/2.17.1/log4j-api-2.17.1.pom"
    );
    assert_eq!(
        c.sources_url(),
        "http://localhost:8080/maven2/org/apache/logging/log4j/log4j-api/2.17.1/log4j-api-2.17.1-sources.jar"
    );
    assert_eq!(
        c.docs_url(),
        "http://localhost:8080/maven2/org/apache/logging/log4j/log4j-api/2.17.1/log4j-api-2.17.1-javadoc.jar"
    );
}

#[test]
fn single_flight() {
    let mut cache = PomCache::new();
    let key = "k".to_string();
    let mut runs = 0;
    let mut waits = 0;
    for _ in 0..100 {
        match cache.begin(&key) {
            Admission::Run => runs += 1,
            Admission::Wait => waits += 1,
            Admission::Hit(_) => panic!("nothing is known yet"),
        }
    }
    assert_eq!(runs, 1);
    assert_eq!(waits, 99);
    assert!(cache.get(&key).is_none());
    let v = MavenPom::parse(
        "<project><groupId>g</groupId><artifactId>v</artifactId><version>1</version></project>",
    )
    .unwrap();
    cache.finish(&key, Some(v.clone()));
    for _ in 0..100 {
        match cache.begin(&key) {
            Admission::Hit(p) => assert_eq!(p, v),
            _ => panic!("the value is known"),
        }
    }
    assert_eq!(cache.get(&key), Some(&v));
}

#[test]
fn failed_initializer_is_retried() {
    let mut cache = PomCache::new();
    let key = "k".to_string();
    assert!(matches!(cache.begin(&key), Admission::Run));
    assert!(matches!(cache.begin(&key), Admission::Wait));
    cache.finish(&key, None);
    assert!(matches!(cache.begin(&key), Admission::Run));
}

#[test]
fn cycle_is_detected() {
    let chain = vec!["a:b:1".to_string(), "a:c:1".to_string()];
    assert_eq!(check_ancestors(&chain, &"a:c:1".to_string()), Err(ResolveError::Cycle));
    assert_eq!(check_ancestors(&chain, &"a:d:1".to_string()), Ok(()));
}

#[test]
fn dependency_without_version_is_malformed() {
    let p = MavenPom::parse(
        "<project><groupId>g</groupId><artifactId>r</artifactId><version>1</version><dependencies><dependency><groupId>g</groupId><artifactId>x</artifactId></dependency></dependencies></project>",
    )
    .unwrap();
    assert_eq!(child_coordinates(&p, &repo()).unwrap_err(), ResolveError::MalformedPom);
}

#[test]
fn jar_paths_are_sorted_and_unique() {
    let coords = vec![
        coord("r", "root", "1"),
        coord("d", "d2", "1"),
        coord("d", "d1", "1"),
        coord("d", "d2", "1"),
        coord("d", "d1x", "1"),
    ];
    let (sorted, paths) = resolved_jar_paths(&"/cache".to_string(), &coords);
    let notations: Vec<String> = sorted.iter().map(|c| c.dependency_notation()).collect();
    assert_eq!(notations, vec!["d:d1:1", "d:d1x:1", "d:d2:1", "r:root:1"]);
    assert_eq!(
        paths,
        vec!["/cache/d1-1.jar", "/cache/d1x-1.jar", "/cache/d2-1.jar", "/cache/root-1.jar"]
    );
}

fn pom_text(g: &str, a: &str, v: &str, parent: Option<(&str, &str, &str)>, deps: &[(&str, &str, &str)]) -> String {
    let mut s = String::from("<project><modelVersion>4.0.0</modelVersion>");
    if let Some((pg, pa, pv)) = parent {
        s.push_str(&format!("<parent><groupId>{}</groupId><artifactId>{}</artifactId><version>{}</version></parent>", pg, pa, pv));
    }
    if !g.is_empty() {
        s.push_str(&format!("<groupId>{}</groupId>", g));
    }
    s.push_str(&format!("<artifactId>{}</artifactId>", a));
    if !v.is_empty() {
        s.push_str(&format!("<version>{}</version>", v));
    }
    s.push_str("<dependencies>");
    for (dg, da, dv) in deps {
        s.push_str(&format!("<dependency><groupId>{}</groupId><artifactId>{}</artifactId><version>{}</version></dependency>", dg, da, dv));
    }
    s.push_str("<dependency><groupId>t</groupId><artifactId>junit</artifactId><version>4</version><scope>test</scope></dependency>");
    s.push_str("</dependencies></project>");
    s
}

/// Resolve `root` against an in-memory repository (URL -> text) and an
/// in-memory disk (path -> text); returns the jar paths and how many
/// downloads were made.
fn resolve_offline(
    root: MavenRepoDependency,
    remote: &HashMap<String, String>,
    disk: &mut HashMap<String, String>,
) -> Result<(Vec<String>, usize), ResolveError> {
    let dir = "/cache".to_string();
    let mut cache = PomCache::new();
    let mut downloads = 0;
    let mut seen: Vec<MavenRepoDependency> = Vec::new();
    let mut queue = vec![root];
    while let Some(c) = queue.pop() {
        let key = c.dependency_notation();
        let pom = match cache.begin(&key) {
            Admission::Hit(p) => p,
            Admission::Wait => continue,
            Admission::Run => {
                let cached = disk.contains_key(&format!("{}/{}", dir, c.pom_name()));
                let pom = match plan_pom_fetch(&c, &dir, cached) {
                    FetchPlan::ReadCached { path } => MavenPom::parse(&disk[&path])?,
                    FetchPlan::Download { url, path } => {
                        downloads += 1;
                        let text = remote.get(&url).ok_or(ResolveError::NotFound)?;
                        let raw = MavenPom::parse(text)?;
                        let mut chain = vec![key.clone()];
                        let parent = fetch_parent(&raw, &c.repo, remote, &mut chain, &mut downloads)?;
                        let done = complete_main_pom(raw, parent);
                        disk.insert(path, done.serialize());
                        done
                    }
                };
                cache.finish(&key, Some(pom.clone()));
                pom
            }
        };
        let present = disk.contains_key(&format!("{}/{}", dir, c.jar_name()));
        if let FetchPlan::Download { url, path } = plan_jar_fetch(&c, &dir, present) {
            downloads += 1;
            assert!(remote.contains_key(&url));
            disk.insert(path, "jar".to_string());
        }
        for child in child_coordinates(&pom, &c.repo)? {
            queue.push(child);
        }
        seen.push(c);
    }
    let (_, paths) = resolved_jar_paths(&dir, &seen);
    Ok((paths, downloads))
}

fn fetch_parent(
    pom: &MavenPom,
    repo: &MavenRepo,
    remote: &HashMap<String, String>,
    chain: &mut Vec<String>,
    downloads: &mut usize,
) -> Result<Option<MavenPom>, ResolveError> {
    match parent_coordinate(pom, repo) {
        None => Ok(None),
        Some(pc) => {
            let key = pc.dependency_notation();
            check_ancestors(chain, &key)?;
            chain.push(key);
            *downloads += 1;
            let text = remote.get(&pc.pom_url()).ok_or(ResolveError::NotFound)?;
            let raw = MavenPom::parse(text)?;
            let grand = fetch_parent(&raw, repo, remote, chain, downloads)?;
            Ok(Some(complete_parent_pom(raw, grand)))
        }
    }
}

fn fixture() -> HashMap<String, String> {
    let mut remote = HashMap::new();
    let mut put = |c: MavenRepoDependency, text: String| {
        remote.insert(c.pom_url(), text);
        remote.insert(c.jar_url(), "jar".to_string());
    };
    put(coord("org.p", "parent", "1"), "<project><modelVersion>4.0.0</modelVersion><groupId>org.p</groupId><artifactId>parent</artifactId><version>1</version><dependencyManagement><dependencies><dependency><groupId>d</groupId><artifactId>d1</artifactId><version>1.0</version></dependency></dependencies></dependencyManagement></project>".to_string());
    put(coord("org.r", "r", "1"), "<project><modelVersion>4.0.0</modelVersion><parent><groupId>org.p</groupId><artifactId>parent</artifactId><version>1</version></parent><groupId>org.r</groupId><artifactId>r</artifactId><dependencies><dependency><groupId>d</groupId><artifactId>d1</artifactId></dependency><dependency><groupId>d</groupId><artifactId>d2</artifactId><version>${project.version}</version></dependency></dependencies></project>".to_string());
    put(coord("d", "d1", "1.0"), pom_text("d", "d1", "1.0", None, &[("d", "d1b", "1")]));
    put(coord("d", "d2", "1"), pom_text("d", "d2", "1", None, &[("d", "d2b", "1"), ("d", "d1", "1.0")]));
    put(coord("d", "d1b", "1"), pom_text("d", "d1b", "1", None, &[]));
    put(coord("d", "d2b", "1"), pom_text("d", "d2b", "1", None, &[]));
    remote
}

#[test]
fn end_to_end_resolve_with_fixture_repo() {
    let remote = fixture();
    let mut disk = HashMap::new();
    let (paths, downloads) = resolve_offline(coord("org.r", "r", "1"), &remote, &mut disk).unwrap();
    assert_eq!(
        paths,
        vec![
            "/cache/d1-1.0.jar",
            "/cache/d1b-1.jar",
            "/cache/d2-1.jar",
            "/cache/d2b-1.jar",
            "/cache/r-1.jar",
        ]
    );
    assert!(downloads > 0);
    assert!(disk.contains_key("/cache/r-1.pom"));
    let cached = MavenPom::parse(&disk["/cache/r-1.pom"]).unwrap();
    assert!(cached.parent.is_none());
    assert!(cached.dependency_management.is_none());
    let (again, downloads2) = resolve_offline(coord("org.r", "r", "1"), &remote, &mut disk).unwrap();
    assert_eq!(again, paths);
    assert_eq!(downloads2, 0);
}

#[test]
fn cyclic_parent_chain_fails() {
    let mut remote = HashMap::new();
    let a = coord("g", "a", "1");
    let b = coord("g", "b", "1");
    remote.insert(a.pom_url(), "<project><parent><groupId>g</groupId><artifactId>b</artifactId><version>1</version></parent><artifactId>a</artifactId></project>".to_string());
    remote.insert(b.pom_url(), "<project><parent><groupId>g</groupId><artifactId>a</artifactId><version>1</version></parent><artifactId>b</artifactId></project>".to_string());
    let mut disk = HashMap::new();
    assert_eq!(resolve_offline(a, &remote, &mut disk).unwrap_err(), ResolveError::Cycle);
}

#[test]
fn missing_pom_is_not_found() {
    let remote = HashMap::new();
    let mut disk = HashMap::new();
    assert_eq!(
        resolve_offline(coord("g", "none", "1"), &remote, &mut disk).unwrap_err(),
        ResolveError::NotFound
    );
}

#[test]
fn short_notation_splits() {
    let c = CompleteDependencyDef::from_def(DependencyDef::ShortNotation("org.a:lib:1.2".to_string())).unwrap();
    assert_eq!(c.group, "org.a");
    assert_eq!(c.artifact, "lib");
    assert_eq!(c.version, "1.2");
    assert_eq!(c.get_path(), "org/a/lib/1.2");
    assert_eq!(c.get_file(), "lib-1.2.jar");
    assert!(CompleteDependencyDef::from_def(DependencyDef::ShortNotation("org.a:lib".to_string())).is_none());
}

#[test]
fn version_requirement_pins_version() {
    let c = CompleteDependencyDef { group: "g".to_string(), artifact: "a".to_string(), version: "1.2.3".to_string() };
    match Dependency::from_def(c, &repo()) {
        Some(Dependency::MavenRepo(m)) => assert_eq!(m.version, "1.2.3"),
        _ => panic!("expected a repository dependency"),
    }
    let bad = CompleteDependencyDef { group: "g".to_string(), artifact: "a".to_string(), version: "x.y".to_string() };
    assert!(Dependency::from_def(bad, &repo()).is_none());
}

#[test]
fn classpath_of_repository_dependency() {
    let d = Dependency::MavenRepo(coord("g", "a", "1"));
    assert_eq!(d.classpath(), "libs/a-1.jar");
}

#[test]
fn entrypoint_names_without_space() {
    let ok = EntrypointDef { name: "main".to_string(), class: "a.Main".to_string() };
    let bad = EntrypointDef { name: "my main".to_string(), class: "a.Main".to_string() };
    assert!(ok.validate());
    assert!(!bad.validate());
}

#[test]
fn backend_names() {
    assert_eq!(JavaCompilationBackend::from_str("javac"), Ok(JavaCompilationBackend::JdkJavac));
    assert_eq!(JavaCompilationBackend::from_str("native"), Ok(JavaCompilationBackend::NativeJavac));
    assert_eq!(
        JavaCompilationBackend::from_str("gcc"),
        Err("Can't convert gcc to a valid Backend".to_string())
    );
    let _ = Element::new(String::new());
}
