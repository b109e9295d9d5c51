//! Converting game images to PNG: which conversion to run, and what its outcome means.
use vstd::prelude::*;
use vstd::string::StringExecFns;

verus! {

/// An image converter, by the path of its program.
#[derive(Debug)]
pub struct ImageMagick {
    pub path: String,
}

/// One conversion to run: the program, the file it reads and the file it writes.
#[derive(Debug)]
pub struct Conversion {
    pub program: String,
    pub source: String,
    pub target: String,
}

/// What `Path::file_stem` gives for a path. Like the two names below, it follows the
/// path separator of the platform the library is built for, which one build never changes.
pub uninterp spec fn file_stem_of(p: Seq<char>) -> Option<Seq<char>>;

/// What `Path::parent` gives for a path.
pub uninterp spec fn parent_of(p: Seq<char>) -> Option<Seq<char>>;

/// What `Path::join` gives for two paths.
pub uninterp spec fn joined(base: Seq<char>, name: Seq<char>) -> Seq<char>;

/// Relies on `std::path::Path::file_stem`: the file name without its extension, none
/// where the path has no file name.
#[verifier::external_body]
fn file_stem(p: &str) -> (r: Option<String>)
    ensures
        match r {
            Some(s) => file_stem_of(p@) == Some(s@),
            None => file_stem_of(p@) is None,
        },
{
    std::path::Path::new(p).file_stem().map(|s| s.to_string_lossy().into_owned())
}

/// Relies on `std::path::Path::parent`: the path without its last component.
#[verifier::external_body]
fn parent(p: &str) -> (r: Option<String>)
    ensures
        match r {
            Some(s) => parent_of(p@) == Some(s@),
            None => parent_of(p@) is None,
        },
{
    std::path::Path::new(p).parent().map(|s| s.to_string_lossy().into_owned())
}

/// Relies on `std::path::Path::join`: `name` appended to `base` as a component.
#[verifier::external_body]
fn join(base: &str, name: &str) -> (r: String)
    ensures
        r@ == joined(base@, name@),
{
    std::path::Path::new(base).join(name).to_string_lossy().into_owned()
}

/// The PNG file that a conversion of `source` writes: beside it, under its stem.
pub open spec fn png_target(source: Seq<char>) -> Option<Seq<char>> {
    match (file_stem_of(source), parent_of(source)) {
        (Some(stem), Some(dir)) => Some(joined(dir, stem + ".png"@)),
        _ => None,
    }
}

impl ImageMagick {
    /// A converter run from `path`.
    pub fn new(path: &str) -> (r: ImageMagick)
        ensures
            r.path@ == path@,
    {
        ImageMagick { path: String::from_str(path) }
    }

    /// The conversion of `source_file` into a PNG beside it; none where the path names
    /// no file.
    pub fn convert_to_png(&self, source_file: &str) -> (r: Option<Conversion>)
        ensures
            match r {
                Some(c) => png_target(source_file@) == Some(c.target@) && c.program@ == self.path@
                    && c.source@ == source_file@,
                None => png_target(source_file@) is None,
            },
    {
        let stem = match file_stem(source_file) {
            Some(s) => s,
            None => {
                return None;
            },
        };
        let dir = match parent(source_file) {
            Some(d) => d,
            None => {
                return None;
            },
        };
        let name = stem.concat(".png");
        let target = join(dir.as_str(), name.as_str());
        Some(Conversion { program: self.path.clone(), source: String::from_str(source_file), target })
    }
}

impl Conversion {
    /// The written file, where the converter printed nothing; none where it reported
    /// a problem.
    pub fn finish(self, output: &str) -> (r: Option<String>)
        ensures
            match r {
                Some(t) => output@.len() == 0 && t@ == self.target@,
                None => output@.len() != 0,
            },
    {
        if output.is_empty() {
            Some(self.target)
        } else {
            None
        }
    }
}

} // verus!
