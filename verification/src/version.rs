//! What the engine says of itself: its version and how it was built.

use crate::error::CziError;
use crate::text::{is_utf8_text_of, text_from_utf8};
use vstd::prelude::*;

verus! {

/// The version of the engine, after the rules of semantic versioning. The
/// tweak number carries no meaning under those rules.
#[derive(Clone, Copy, Debug, PartialEq, Eq, Structural)]
pub struct LibCZIVersionInfo {
    pub major: i32,
    pub minor: i32,
    pub patch: i32,
    pub tweak: i32,
}

/// How the engine was built. Each text is kept as the bytes that were handed
/// over, and is checked to be UTF-8 when it is read.
#[derive(Debug)]
pub struct LibCZIBuildInformation {
    pub compiler_identification: Vec<u8>,
    pub repository_url: Vec<u8>,
    pub repository_branch: Vec<u8>,
    pub repository_tag: Vec<u8>,
}

impl LibCZIVersionInfo {
    /// The version of this engine.
    pub open spec fn current() -> LibCZIVersionInfo {
        LibCZIVersionInfo { major: 0, minor: 1, patch: 0, tweak: 0 }
    }

    /// The version of this engine. It is known at all times, so the call
    /// always succeeds.
    pub fn get_lib_czi_version_info() -> (version: Result<LibCZIVersionInfo, CziError>)
        ensures
            version == Ok::<LibCZIVersionInfo, CziError>(LibCZIVersionInfo::current()),
    {
        Ok(LibCZIVersionInfo { major: 0, minor: 1, patch: 0, tweak: 0 })
    }

    pub fn get_major(&self) -> (major: i32)
        ensures
            major == self.major,
    {
        self.major
    }

    pub fn get_minor(&self) -> (minor: i32)
        ensures
            minor == self.minor,
    {
        self.minor
    }

    pub fn get_patch(&self) -> (patch: i32)
        ensures
            patch == self.patch,
    {
        self.patch
    }

    pub fn get_tweak(&self) -> (tweak: i32)
        ensures
            tweak == self.tweak,
    {
        self.tweak
    }

}

impl Clone for LibCZIBuildInformation {
    fn clone(&self) -> (copy: Self)
        ensures
            copy.compiler_identification@ == self.compiler_identification@,
            copy.repository_url@ == self.repository_url@,
            copy.repository_branch@ == self.repository_branch@,
            copy.repository_tag@ == self.repository_tag@,
    {
        LibCZIBuildInformation {
            compiler_identification: self.compiler_identification.clone(),
            repository_url: self.repository_url.clone(),
            repository_branch: self.repository_branch.clone(),
            repository_tag: self.repository_tag.clone(),
        }
    }
}

impl LibCZIBuildInformation {
    /// How this engine was built: by the Rust compiler, from a repository
    /// that is not stated. The call always succeeds.
    pub fn get() -> (information: Result<LibCZIBuildInformation, CziError>)
        ensures
            information matches Ok(found) && {
                &&& found.compiler_identification@ == seq![114u8, 117u8, 115u8, 116u8, 99u8]
                &&& found.repository_url@.len() == 0
                &&& found.repository_branch@.len() == 0
                &&& found.repository_tag@.len() == 0
            },
    {
        let mut compiler_identification: Vec<u8> = Vec::new();
        compiler_identification.push(114u8);
        compiler_identification.push(117u8);
        compiler_identification.push(115u8);
        compiler_identification.push(116u8);
        compiler_identification.push(99u8);
        assert(compiler_identification@ =~= seq![114u8, 117u8, 115u8, 116u8, 99u8]);
        Ok(
            LibCZIBuildInformation {
                compiler_identification,
                repository_url: Vec::new(),
                repository_branch: Vec::new(),
                repository_tag: Vec::new(),
            },
        )
    }

    /// The compiler that built the engine, or `InvalidUtf8` where the bytes
    /// are no text.
    pub fn get_compiler_information(&self) -> (text: Result<&str, CziError>)
        ensures
            is_utf8_text_of(text, self.compiler_identification@),
    {
        text_from_utf8(self.compiler_identification.as_slice())
    }

    /// The address of the repository the engine was built from, or
    /// `InvalidUtf8` where the bytes are no text.
    pub fn get_repository_url(&self) -> (text: Result<&str, CziError>)
        ensures
            is_utf8_text_of(text, self.repository_url@),
    {
        text_from_utf8(self.repository_url.as_slice())
    }

    /// The branch the engine was built from, or `InvalidUtf8` where the bytes
    /// are no text.
    pub fn get_repository_branch(&self) -> (text: Result<&str, CziError>)
        ensures
            is_utf8_text_of(text, self.repository_branch@),
    {
        text_from_utf8(self.repository_branch.as_slice())
    }

    /// The tag the engine was built from, or `InvalidUtf8` where the bytes
    /// are no text.
    pub fn get_repository_tag(&self) -> (text: Result<&str, CziError>)
        ensures
            is_utf8_text_of(text, self.repository_tag@),
    {
        text_from_utf8(self.repository_tag.as_slice())
    }
}

} // verus!
