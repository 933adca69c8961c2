//! Coordinates of artifacts and the repositories that serve them.

use vstd::prelude::*;
use crate::error::ResolveError;
use crate::text::chars_of;

verus! {

/// What the `url` crate makes of a URL text: its serialization, or `None`
/// where the text is not a valid absolute URL.
pub uninterp spec fn parsed_url(s: Seq<char>) -> Option<Seq<char>>;

/// Relies on `url::Url::parse`: whether the text is a valid URL, and its
/// serialization when it is.
#[verifier::external_body]
fn parse_url(s: &str) -> (r: Option<String>)
    ensures
        match r {
            Some(u) => parsed_url(s@) == Some(u@),
            None => parsed_url(s@) is None,
        },
{
    match url::Url::parse(s) {
        Ok(u) => Some(u.into()),
        Err(_) => None,
    }
}

/// `u` ending with a `/`, so that relative paths are appended to it.
pub open spec fn with_trailing_slash(u: Seq<char>) -> Seq<char> {
    if u.len() > 0 && u.last() == '/' {
        u
    } else {
        u.push('/')
    }
}

/// A named repository of artifacts.
#[derive(Clone, Debug, PartialEq, Eq)]
pub struct MavenRepo {
    pub name: String,
    /// Base URL, ending with `/`
    pub url: String,
}

impl MavenRepo {
    pub open spec fn wf(&self) -> bool {
        self.url@.len() > 0 && self.url@.last() == '/'
    }

    /// A repository at the given base URL; fails on a URL that does not parse.
    pub fn new(name: String, url: &str) -> (r: Result<MavenRepo, ResolveError>)
        ensures
            match parsed_url(url@) {
                Some(u) => r matches Ok(repo) && repo.name@ == name@ && repo.url@
                    == with_trailing_slash(u),
                None => r == Err::<MavenRepo, ResolveError>(ResolveError::InvalidUrl),
            },
            r matches Ok(repo) ==> repo.wf(),
    {
        match parse_url(url) {
            Some(u) => {
                let mut base = u;
                let n = base.as_str().unicode_len();
                if n == 0 || base.as_str().get_char(n - 1) != '/' {
                    base.push('/');
                }
                Ok(MavenRepo { name, url: base })
            },
            None => Err(ResolveError::InvalidUrl),
        }
    }

    pub fn duplicate(&self) -> (r: MavenRepo)
        ensures
            r == *self,
    {
        MavenRepo { name: self.name.clone(), url: self.url.clone() }
    }
}

/// The group id with each `.` turned into `/`.
pub open spec fn group_path(g: Seq<char>) -> Seq<char> {
    g.map_values(|c: char| if c == '.' { '/' } else { c })
}

/// `artifact-version`.
pub open spec fn base_name_of(artifact: Seq<char>, version: Seq<char>) -> Seq<char> {
    artifact + seq!['-'] + version
}

/// `group:artifact:version`.
pub open spec fn notation_of(group: Seq<char>, artifact: Seq<char>, version: Seq<char>) -> Seq<
    char,
> {
    group + seq![':'] + artifact + seq![':'] + version
}

/// A dependency on an artifact of a repository.
#[derive(Clone, Debug, PartialEq, Eq)]
pub struct MavenRepoDependency {
    pub group: String,
    pub artifact: String,
    pub version: String,
    pub repo: MavenRepo,
}

fn push_str(s: &mut String, t: &str)
    ensures
        final(s)@ == old(s)@ + t@,
{
    s.append(t);
}

impl MavenRepoDependency {
    /// Repository-relative directory: `group/with/slashes/artifact/version/`.
    pub open spec fn path_spec(&self) -> Seq<char> {
        group_path(self.group@) + seq!['/'] + self.artifact@ + seq!['/'] + self.version@ + seq![
            '/',
        ]
    }

    pub open spec fn base_spec(&self) -> Seq<char> {
        base_name_of(self.artifact@, self.version@)
    }

    pub fn duplicate(&self) -> (r: MavenRepoDependency)
        ensures
            r == *self,
    {
        MavenRepoDependency {
            group: self.group.clone(),
            artifact: self.artifact.clone(),
            version: self.version.clone(),
            repo: self.repo.duplicate(),
        }
    }

    pub fn get_path(&self) -> (r: String)
        ensures
            r@ == self.path_spec(),
    {
        let g = chars_of(self.group.as_str());
        let mut r = String::new();
        let n = g.len();
        for i in 0..n
            invariant
                n == g.len(),
                g@ == self.group@,
                r@ == group_path(g@.take(i as int)),
        {
            let c = g[i];
            r.push(if c == '.' { '/' } else { c });
            proof {
                assert(group_path(g@.take(i + 1)) =~= group_path(g@.take(i as int)).push(
                    if c == '.' { '/' } else { c },
                ));
            }
        }
        proof {
            assert(g@.take(n as int) =~= g@);
        }
        r.push('/');
        push_str(&mut r, self.artifact.as_str());
        r.push('/');
        push_str(&mut r, self.version.as_str());
        r.push('/');
        proof {
            assert(r@ =~= self.path_spec());
        }
        r
    }

    pub fn base_name(&self) -> (r: String)
        ensures
            r@ == self.base_spec(),
    {
        let mut r = self.artifact.clone();
        r.push('-');
        push_str(&mut r, self.version.as_str());
        proof {
            assert(r@ =~= self.base_spec());
        }
        r
    }

    pub fn jar_name(&self) -> (r: String)
        ensures
            r@ == self.base_spec() + ".jar"@,
    {
        let mut r = self.base_name();
        push_str(&mut r, ".jar");
        r
    }

    pub fn pom_name(&self) -> (r: String)
        ensures
            r@ == self.base_spec() + ".pom"@,
    {
        let mut r = self.base_name();
        push_str(&mut r, ".pom");
        r
    }

    pub fn sources_name(&self) -> (r: String)
        ensures
            r@ == self.base_spec() + "-sources.jar"@,
    {
        let mut r = self.base_name();
        push_str(&mut r, "-sources.jar");
        r
    }

    pub fn docs_name(&self) -> (r: String)
        ensures
            r@ == self.base_spec() + "-javadoc.jar"@,
    {
        let mut r = self.base_name();
        push_str(&mut r, "-javadoc.jar");
        r
    }

    /// The repository's base URL followed by the path and the file name.
    fn url_of(&self, file: &String) -> (r: String)
        ensures
            r@ == self.repo.url@ + self.path_spec() + file@,
    {
        let mut r = self.repo.url.clone();
        let p = self.get_path();
        push_str(&mut r, p.as_str());
        push_str(&mut r, file.as_str());
        proof {
            assert(r@ =~= self.repo.url@ + self.path_spec() + file@);
        }
        r
    }

    /// `U` + `g/with/slashes/` + `a/v/` + `a-v.jar`, for base URL `U`.
    pub fn jar_url(&self) -> (r: String)
        ensures
            r@ == self.repo.url@ + group_path(self.group@) + seq!['/'] + self.artifact@ + seq!['/']
                + self.version@ + seq!['/'] + self.artifact@ + seq!['-'] + self.version@
                + ".jar"@,
    {
        let r = self.url_of(&self.jar_name());
        proof {
            assert(r@ =~= self.repo.url@ + group_path(self.group@) + seq!['/'] + self.artifact@
                + seq!['/'] + self.version@ + seq!['/'] + self.artifact@ + seq!['-']
                + self.version@ + ".jar"@);
        }
        r
    }

    pub fn sources_url(&self) -> (r: String)
        ensures
            r@ == self.repo.url@ + self.path_spec() + self.base_spec() + "-sources.jar"@,
    {
        let r = self.url_of(&self.sources_name());
        proof {
            assert(r@ =~= self.repo.url@ + self.path_spec() + self.base_spec() + "-sources.jar"@);
        }
        r
    }

    pub fn docs_url(&self) -> (r: String)
        ensures
            r@ == self.repo.url@ + self.path_spec() + self.base_spec() + "-javadoc.jar"@,
    {
        let r = self.url_of(&self.docs_name());
        proof {
            assert(r@ =~= self.repo.url@ + self.path_spec() + self.base_spec() + "-javadoc.jar"@);
        }
        r
    }

    pub fn pom_url(&self) -> (r: String)
        ensures
            r@ == self.repo.url@ + self.path_spec() + self.base_spec() + ".pom"@,
    {
        let r = self.url_of(&self.pom_name());
        proof {
            assert(r@ =~= self.repo.url@ + self.path_spec() + self.base_spec() + ".pom"@);
        }
        r
    }

    /// `group:artifact:version`, the key of the coordinate.
    pub fn dependency_notation(&self) -> (r: String)
        ensures
            r@ == notation_of(self.group@, self.artifact@, self.version@),
    {
        let mut r = self.group.clone();
        r.push(':');
        push_str(&mut r, self.artifact.as_str());
        r.push(':');
        push_str(&mut r, self.version.as_str());
        proof {
            assert(r@ =~= notation_of(self.group@, self.artifact@, self.version@));
        }
        r
    }
}

} // verus!
