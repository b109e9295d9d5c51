//! Why a projection from a tree to typed records failed.
use vstd::prelude::*;
use crate::scalar::ScalarDecodeFailure;

verus! {

/// A failed projection, with the path of keys from the record down to the offending one.
#[derive(Debug)]
pub enum ProjectionError {
    /// The buffer could not be read as a tree; the byte offset where reading stopped.
    MalformedSyntax { offset: usize },
    /// A key that the context does not know, where the context is not extensible.
    UnmodeledStructure { key_path: Vec<Vec<u8>> },
    /// A field that needs a number held something else.
    ScalarDecode { key_path: Vec<Vec<u8>>, failure: ScalarDecodeFailure },
    /// Triggers nested deeper than the cap.
    TooDeep { key_path: Vec<Vec<u8>> },
}

/// The mathematical form of a [`ProjectionError`].
pub enum ErrV {
    MalformedSyntax(int),
    UnmodeledStructure(Seq<Seq<u8>>),
    ScalarDecode(Seq<Seq<u8>>, ScalarDecodeFailure),
    TooDeep(Seq<Seq<u8>>),
}

pub open spec fn path_view(p: Seq<Vec<u8>>) -> Seq<Seq<u8>> {
    p.map_values(|k: Vec<u8>| k@)
}

pub open spec fn err_view(e: ProjectionError) -> ErrV {
    match e {
        ProjectionError::MalformedSyntax { offset } => ErrV::MalformedSyntax(offset as int),
        ProjectionError::UnmodeledStructure { key_path } => ErrV::UnmodeledStructure(
            path_view(key_path@),
        ),
        ProjectionError::ScalarDecode { key_path, failure } => ErrV::ScalarDecode(
            path_view(key_path@),
            failure,
        ),
        ProjectionError::TooDeep { key_path } => ErrV::TooDeep(path_view(key_path@)),
    }
}

/// The error seen from one level up: `k` goes in front of its path.
pub open spec fn within(k: Seq<u8>, e: ErrV) -> ErrV {
    match e {
        ErrV::MalformedSyntax(o) => ErrV::MalformedSyntax(o),
        ErrV::UnmodeledStructure(p) => ErrV::UnmodeledStructure(seq![k] + p),
        ErrV::ScalarDecode(p, f) => ErrV::ScalarDecode(seq![k] + p, f),
        ErrV::TooDeep(p) => ErrV::TooDeep(seq![k] + p),
    }
}

pub fn copy_key(k: &Vec<u8>) -> (r: Vec<u8>)
    ensures
        r@ == k@,
{
    let mut r: Vec<u8> = Vec::new();
    let mut j: usize = 0;
    while j < k.len()
        invariant
            j <= k@.len(),
            r@ == k@.subrange(0, j as int),
        decreases k@.len() - j,
    {
        r.push(k[j]);
        assert(r@ =~= k@.subrange(0, j + 1));
        j = j + 1;
    }
    assert(k@.subrange(0, k@.len() as int) =~= k@);
    r
}

fn prefixed(k: &Vec<u8>, p: Vec<Vec<u8>>) -> (r: Vec<Vec<u8>>)
    ensures
        path_view(r@) == seq![k@] + path_view(p@),
{
    let mut p = p;
    let ghost before = path_view(p@);
    p.insert(0, copy_key(k));
    assert(path_view(p@) =~= seq![k@] + before);
    p
}

/// Puts `k` in front of the error's key path.
pub fn within_key(k: &Vec<u8>, e: ProjectionError) -> (r: ProjectionError)
    ensures
        err_view(r) == within(k@, err_view(e)),
{
    match e {
        ProjectionError::MalformedSyntax { offset } => ProjectionError::MalformedSyntax { offset },
        ProjectionError::UnmodeledStructure { key_path } => ProjectionError::UnmodeledStructure {
            key_path: prefixed(k, key_path),
        },
        ProjectionError::ScalarDecode { key_path, failure } => ProjectionError::ScalarDecode {
            key_path: prefixed(k, key_path),
            failure,
        },
        ProjectionError::TooDeep { key_path } => ProjectionError::TooDeep {
            key_path: prefixed(k, key_path),
        },
    }
}

/// An error about the key `k` itself.
pub fn unmodeled(k: &Vec<u8>) -> (r: ProjectionError)
    ensures
        err_view(r) == ErrV::UnmodeledStructure(seq![k@]),
{
    let mut p: Vec<Vec<u8>> = Vec::new();
    p.push(copy_key(k));
    assert(path_view(p@) =~= seq![k@]);
    ProjectionError::UnmodeledStructure { key_path: p }
}

/// A decode failure of the value under the key `k`.
pub fn undecodable(k: &Vec<u8>, failure: ScalarDecodeFailure) -> (r: ProjectionError)
    ensures
        err_view(r) == ErrV::ScalarDecode(seq![k@], failure),
{
    let mut p: Vec<Vec<u8>> = Vec::new();
    p.push(copy_key(k));
    assert(path_view(p@) =~= seq![k@]);
    ProjectionError::ScalarDecode { key_path: p, failure }
}

} // verus!
