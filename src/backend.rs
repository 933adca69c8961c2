//! The external tools that build steps drive. Starting them is the
//! application's part.

use vstd::prelude::*;

verus! {

#[derive(Debug, Copy, Clone, PartialEq, Eq, Structural)]
pub enum JavaCompilationBackend {
    JdkJavac,
    NativeJavac,
}

impl JavaCompilationBackend {
    /// `javac` or `native`; any other name is refused with a message.
    pub fn from_str(s: &str) -> (r: Result<JavaCompilationBackend, String>)
        ensures
            s@ == "javac"@ ==> r == Ok::<JavaCompilationBackend, String>(
                JavaCompilationBackend::JdkJavac,
            ),
            s@ == "native"@ ==> r == Ok::<JavaCompilationBackend, String>(
                JavaCompilationBackend::NativeJavac,
            ),
            s@ != "javac"@ && s@ != "native"@ ==> (r matches Err(m) && m@ == "Can't convert "@
                + s@ + " to a valid Backend"@),
    {
        proof {
            reveal_strlit("javac");
            reveal_strlit("native");
            assert("javac"@[0] != "native"@[0]);
        }
        let name = s.to_owned();
        if name == "javac".to_owned() {
            Ok(JavaCompilationBackend::JdkJavac)
        } else if name == "native".to_owned() {
            Ok(JavaCompilationBackend::NativeJavac)
        } else {
            let mut m = "Can't convert ".to_owned();
            m.append(s);
            m.append(" to a valid Backend");
            Err(m)
        }
    }
}

#[derive(Debug, Copy, Clone, PartialEq, Eq, Structural)]
pub enum KotlinCompilationBackend {
    Kotlinc,
}

#[derive(Debug, Copy, Clone, PartialEq, Eq, Structural)]
pub enum Runtime {
    Java,
}

#[derive(Debug, Copy, Clone, PartialEq, Eq, Structural)]
pub enum DocumentationBackend {
    JdkJavadoc,
    NativeJavadoc,
}

#[derive(Debug, Copy, Clone, PartialEq, Eq, Structural)]
pub enum PackageBackend {
    JdkJar,
    NativeJar,
}

/// A task of the command line.
#[derive(Debug, Clone, PartialEq, Eq)]
pub enum Task {
    /// Init a new project in the current directory
    Init { group: String, artifact: String },
    /// Check project consistency (manifest, dependencies)
    Check,
    /// Build project classes
    Build,
    /// Run a main class
    Run { entrypoint: Option<String> },
    /// Create javadoc
    Doc,
    /// Create a jar of the built classes
    Package { sources: bool, docs: bool, entrypoint: Option<String> },
    /// Delete all generated directories
    Clean,
}

} // verus!
