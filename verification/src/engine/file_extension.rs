//! Which files are mush scripts, by the extension of their name.

use vstd::prelude::*;
use vstd::string::*;

verus! {

/// `==` on `str` holds exactly of strings with the same characters.
pub assume_specification[ <str as PartialEq>::eq ](a: &str, b: &str) -> (equal: bool)
    ensures
        equal == (a@ == b@),
;

/// The extensions that a mush script can have.
#[derive(Clone, Copy, Debug, PartialEq, Eq)]
pub enum FileExtensions {
    MUSH,
    MSH,
    MS,
}

impl FileExtensions {
    /// The extension as it is written, without the dot.
    pub open spec fn text(self) -> Seq<char> {
        match self {
            FileExtensions::MUSH => "mush"@,
            FileExtensions::MSH => "msh"@,
            FileExtensions::MS => "ms"@,
        }
    }

    /// The extension that is written `value`, if there is one. Case
    /// matters.
    pub open spec fn parse(value: Seq<char>) -> Option<FileExtensions> {
        if value == "mush"@ {
            Some(FileExtensions::MUSH)
        } else if value == "msh"@ {
            Some(FileExtensions::MSH)
        } else if value == "ms"@ {
            Some(FileExtensions::MS)
        } else {
            None
        }
    }

    pub fn from_string(value: &str) -> (extension: Option<Self>)
        ensures
            extension == Self::parse(value@),
    {
        if value.eq("mush") {
            Some(Self::MUSH)
        } else if value.eq("msh") {
            Some(Self::MSH)
        } else if value.eq("ms") {
            Some(Self::MS)
        } else {
            None
        }
    }
}

/// `text` stands in `path` directly after a dot.
pub open spec fn follows_dot(path: Seq<char>, text: Seq<char>) -> bool {
    exists|at: int|
        0 < at && at + text.len() <= path.len() && path[at - 1] == '.' && #[trigger] path.subrange(
            at,
            at + text.len(),
        ) == text
}

/// `std::path::Path::extension` on the path written `file_path`. Which part
/// of a path is its file name depends on the platform; on every platform
/// the extension is a part of the path that follows a dot.
#[verifier::external_body]
fn path_extension(file_path: &str) -> (extension: Option<String>)
    ensures
        extension matches Some(text) ==> follows_dot(file_path@, text@),
{
    let extension = std::path::Path::new(file_path).extension()?;
    Some(extension.to_string_lossy().into_owned())
}

/// Whether a file whose name has the extension `extension`, or has none, is
/// a mush script: it has an extension, and the extension is one of
/// [`FileExtensions`].
pub open spec fn is_script(extension: Option<Seq<char>>) -> bool {
    extension matches Some(text) && FileExtensions::parse(text) is Some
}

/// Whether a file whose name has the extension `extension`, or has none, is
/// a mush script.
pub fn is_script_extension(extension: &Option<String>) -> (valid: bool)
    ensures
        valid == is_script(
            match *extension {
                Some(text) => Some(text@),
                None => None,
            },
        ),
{
    match extension {
        Some(text) => FileExtensions::from_string(text.as_str()).is_some(),
        None => false,
    }
}

/// Whether the file named by `file_path` is a mush script: its name has an
/// extension, and the extension is one of [`FileExtensions`]. The extension
/// is what `std::path::Path::extension` finds in the path, and
/// [`is_script_extension`] decides on it. Which part of a path is the file
/// name depends on the platform, so what is stated here is what holds on
/// every platform: a path in which none of the extensions follows a dot
/// names no script.
pub fn has_valid_file_extension(file_path: &str) -> (valid: bool)
    ensures
        valid ==> exists|extension: FileExtensions|
            follows_dot(file_path@, #[trigger] extension.text()),
{
    let found = path_extension(file_path);
    let valid = is_script_extension(&found);
    proof {
        if valid {
            assert(FileExtensions::parse(found->0@)->0.text() == found->0@);
        }
    }
    valid
}

} // verus!
