//! The build-script configuration builder: which Java sources to compile
//! and against which target SDK. Running the compilers is the driver's
//! process work; the configuration state itself is verified here.

use vstd::prelude::*;

use crate::strutil;

verus! {

/// Build configuration: explicit Java sources, a source directory, and
/// the target SDK level.
pub struct Builder {
    pub java_sources: Vec<String>,
    pub java_dir: Option<String>,
    pub target_sdk: u32,
}

impl Builder {
    /// The default configuration: no explicit sources, sources under
    /// `java/`, target SDK 30.
    pub fn new() -> (r: Builder)
        ensures
            r.java_sources@.len() == 0,
            r.java_dir matches Some(d) && d@ == "java"@,
            r.target_sdk == 30,
    {
        Builder {
            java_sources: Vec::new(),
            java_dir: Some(strutil::str_to_string("java")),
            target_sdk: 30,
        }
    }

    /// Add one Java source file to compile.
    pub fn java_source(self, path: &str) -> (r: Builder)
        ensures
            r.java_sources@.len() == self.java_sources@.len() + 1,
            forall|i: int|
                0 <= i < self.java_sources@.len() ==> r.java_sources@[i] == self.java_sources@[i],
            r.java_sources@.last()@ == path@,
            r.java_dir == self.java_dir,
            r.target_sdk == self.target_sdk,
    {
        let mut java_sources = self.java_sources;
        java_sources.push(strutil::str_to_string(path));
        Builder { java_sources, java_dir: self.java_dir, target_sdk: self.target_sdk }
    }

    /// Set the directory holding Java sources.
    pub fn java_dir(self, dir: &str) -> (r: Builder)
        ensures
            r.java_sources@ == self.java_sources@,
            r.java_dir matches Some(d) && d@ == dir@,
            r.target_sdk == self.target_sdk,
    {
        Builder {
            java_sources: self.java_sources,
            java_dir: Some(strutil::str_to_string(dir)),
            target_sdk: self.target_sdk,
        }
    }

    /// Set the target SDK level.
    pub fn target_sdk(self, sdk: u32) -> (r: Builder)
        ensures
            r.java_sources@ == self.java_sources@,
            r.java_dir == self.java_dir,
            r.target_sdk == sdk,
    {
        Builder { java_sources: self.java_sources, java_dir: self.java_dir, target_sdk: sdk }
    }
}

impl Default for Builder {
    /// The same configuration `new` gives.
    fn default() -> (r: Builder)
        ensures
            r.java_sources@.len() == 0,
            r.java_dir matches Some(d) && d@ == "java"@,
            r.target_sdk == 30,
    {
        Builder::new()
    }
}

} // verus!
