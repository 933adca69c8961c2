use jcargo::xml::{tokenize, XmlToken};
use jcargo::error::ResolveError;
use jcargo::pom::{Element, MavenDependencyScope, MavenPom, ParentPom, PomDependencies, PomDependency};
use jcargo::properties::Properties;

fn el(s: &str) -> Element {
    Element::new(s.to_string())
}

#[test]
fn test_parse() {
    println!(
        "{:#?}",
        MavenPom::parse(
            r#"<project xsi:schemaLocation="http://maven.apache.org/POM/4.0.0 http://maven.apache.org/maven-v4_0_0.xsd">
<modelVersion>4.0.0</modelVersion>
<parent>
<groupId>org.apache.logging.log4j</groupId>
<artifactId>log4j</artifactId>
<version>2.14.1</version>
<relativePath>../</relativePath>
</parent>
<artifactId>log4j-api</artifactId>
<packaging>jar</packaging>
<name>Apache Log4j API</name>
<description>The Apache Log4j API</description>
<properties>
<log4jParentDir>${basedir}/..</log4jParentDir>
<docLabel>API Documentation</docLabel>
<projectDir>/api</projectDir>
<maven.doap.skip>true</maven.doap.skip>
</properties>
<dependencies>
<dependency>
<groupId>org.apache.logging.log4j</groupId>
<artifactId>log4j-api-java9</artifactId>
<scope>provided</scope>
<type>zip</type>
</dependency>
<!--
 Place Felix before Equinox because Felix is signed. / also place it before org.osgi.core so that its versions of the OSGi classes are used 
-->
<dependency>
<groupId>org.apache.felix</groupId>
<artifactId>org.apache.felix.framework</artifactId>
<scope>test</scope>
</dependency>
<dependency>
<groupId>org.osgi</groupId>
<artifactId>org.osgi.core</artifactId>
<scope>provided</scope>
</dependency>
<dependency>
<groupId>org.junit.vintage</groupId>
<artifactId>junit-vintage-engine</artifactId>
</dependency>
</dependencies></project>"#,
        )
        .expect("Can't parse pom")
    );
}

#[test]
fn parsed_pom_content() {
    let text = r#"<?xml version="1.0"?>
<project>
  <modelVersion>4.0.0</modelVersion>
  <parent><groupId>org.x</groupId><artifactId>p</artifactId><version>1.0</version></parent>
  <artifactId>c</artifactId>
  <properties><v>2 &amp; 3</v></properties>
  <dependencies>
    <dependency>
      <groupId>a.b</groupId>
      <artifactId>lib</artifactId>
      <version> 1.2 </version>
      <scope>runtime</scope>
      <optional>true</optional>
    </dependency>
    <dependency><groupId>a.b</groupId><artifactId>other</artifactId><scope>weird</scope><version/></dependency>
  </dependencies>
</project>"#;
    let p = MavenPom::parse(text).unwrap();
    assert_eq!(p.group_id, Some(el("org.x")));
    assert_eq!(p.version, Some(el("1.0")));
    assert_eq!(p.artifact_id, el("c"));
    let props = p.properties.as_ref().unwrap();
    assert_eq!(props.get(&"v".to_string()).unwrap(), "2 & 3");
    let deps = &p.dependencies.as_ref().unwrap().dependencies;
    assert_eq!(deps.len(), 2);
    assert_eq!(deps[0].version, Some(el("1.2")));
    assert_eq!(deps[0].scope.unwrap().value, MavenDependencyScope::Runtime);
    assert_eq!(deps[0].optional, Some(true));
    assert_eq!(deps[1].scope.unwrap().value, MavenDependencyScope::Compile);
    assert_eq!(deps[1].version, None);
}

#[test]
fn inheritance_fills_identity() {
    let parent = MavenPom::parse(
        "<project><modelVersion>4.0.0</modelVersion><groupId>org.x</groupId><artifactId>p</artifactId><version>1.0</version></project>",
    )
    .unwrap();
    assert_eq!(parent.group_id, Some(el("org.x")));
    let child = MavenPom::parse(
        "<project><modelVersion>4.0.0</modelVersion><parent><groupId>org.x</groupId><artifactId>p</artifactId><version>1.0</version></parent><artifactId>c</artifactId></project>",
    )
    .unwrap();
    assert_eq!(child.group_id, Some(el("org.x")));
    assert_eq!(child.version, Some(el("1.0")));
}

#[test]
fn missing_identity_is_malformed() {
    let r = MavenPom::parse("<project><modelVersion>4.0.0</modelVersion><artifactId>c</artifactId></project>");
    assert_eq!(r, Err(ResolveError::MalformedPom));
}

#[test]
fn bad_xml_is_parse_error() {
    assert_eq!(MavenPom::parse("<project><artifactId>c</project>"), Err(ResolveError::ParseError));
    assert_eq!(MavenPom::parse("<project><!-- open"), Err(ResolveError::ParseError));
    assert_eq!(MavenPom::parse("<other><artifactId>c</artifactId></other>"), Err(ResolveError::ParseError));
    assert_eq!(
        MavenPom::parse("<project><groupId>g</groupId><version>1</version></project>"),
        Err(ResolveError::ParseError)
    );
    assert_eq!(
        MavenPom::parse("<project><groupId>g &bogus; </groupId><artifactId>a</artifactId><version>1</version></project>"),
        Err(ResolveError::ParseError)
    );
}

fn sample() -> MavenPom {
    let mut d = PomDependency {
        group_id: el("marais"),
        artifact_id: el("pomreader"),
        version: Some(el("1 < 2 & \"3\"")),
        scope: None,
        dep_type: Some(el("jar")),
        optional: Some(false),
    };
    d.scope = Some(jcargo::pom::DependencyScope { value: MavenDependencyScope::Runtime });
    MavenPom {
        model_version: el("4.0.0"),
        group_id: Some(el("marais")),
        artifact_id: el("jcargo-bin"),
        version: Some(el("0.1.0")),
        parent: None,
        properties: None,
        dependencies: Some(PomDependencies { dependencies: vec![d] }),
        dependency_management: None,
    }
}

#[test]
fn mavenpom_test_ser() {
    let mut props = Properties::new();
    props.insert("a".to_string(), "b".to_string());
    let pom = MavenPom {
        model_version: "4.0.0".to_string().into_element(),
        group_id: None,
        artifact_id: "jcargo-bin".to_string().into_element(),
        version: None,
        parent: Some(ParentPom {
            group_id: "marais".to_string().into_element(),
            artifact_id: "jcargo".to_string().into_element(),
            version: "0.1.0".to_string().into_element(),
        }),
        properties: Some(props),
        dependencies: Some(PomDependencies {
            dependencies: vec![
                PomDependency {
                    group_id: el("marais"),
                    artifact_id: el("pomreader"),
                    version: None,
                    scope: None,
                    dep_type: None,
                    optional: None,
                },
                PomDependency {
                    group_id: el("marais"),
                    artifact_id: el("pomreader"),
                    version: None,
                    scope: None,
                    dep_type: None,
                    optional: None,
                },
            ],
        }),
        dependency_management: None,
    };
    let text = pom.serialize();
    println!("{}", text);
    let back = MavenPom::parse(&text).unwrap();
    assert_eq!(back.group_id, Some(el("marais")));
    assert_eq!(back.dependencies.unwrap().dependencies.len(), 2);
}

trait IntoElement {
    fn into_element(self) -> Element;
}

impl IntoElement for String {
    fn into_element(self) -> Element {
        Element::new(self)
    }
}

#[test]
fn serialize_escapes_text() {
    let text = sample().serialize();
    assert!(text.contains("1 &lt; 2 &amp; &quot;3&quot;"));
    assert!(text.starts_with("<?xml version=\"1.0\" encoding=\"UTF-8\"?>"));
    assert!(text.contains("xsi:schemaLocation=\"http://maven.apache.org/POM/4.0.0 http://maven.apache.org/xsd/maven-4.0.0.xsd\""));
    assert!(text.contains("<scope>runtime</scope>"));
}

#[test]
fn round_trip_of_cleaned_pom() {
    let mut p = sample();
    p.clean();
    let back = MavenPom::parse(&p.serialize()).unwrap();
    assert_eq!(back, p);
}

#[test]
fn tokens_of_self_closing_and_cdata() {
    let t = tokenize("<?xml?><a x='1'><b/><![CDATA[<raw>]]>t&lt;</a>").unwrap();
    assert_eq!(
        t,
        vec![
            XmlToken::Open("a".to_string()),
            XmlToken::Open("b".to_string()),
            XmlToken::Close("b".to_string()),
            XmlToken::Text("<raw>".to_string()),
            XmlToken::Text("t<".to_string()),
            XmlToken::Close("a".to_string()),
        ]
    );
}
