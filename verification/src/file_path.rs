use vstd::prelude::*;

use std::path::{Path, PathBuf};

verus! {

/// A file system path together with its bytes in the platform's encoding of
/// OS strings (`OsStr::as_encoded_bytes`).
#[derive(Debug)]
pub struct FilePath {
    path: PathBuf,
    encoded: Vec<u8>,
}

impl View for FilePath {
    type V = Seq<u8>;

    /// The encoded bytes of the path, which determine it.
    closed spec fn view(&self) -> Seq<u8> {
        self.encoded@
    }
}

/// Whether `std` compares equal (`PartialEq` of `Path`, component by
/// component) the two paths whose encoded bytes are `a` and `b`.
pub uninterp spec fn path_eq(a: Seq<u8>, b: Seq<u8>) -> bool;

/// The bytes of the borrowed path `path` in the platform's encoding
/// (`OsStr::as_encoded_bytes`); they are a function of the path alone.
pub uninterp spec fn encoding_of(path: &Path) -> Seq<u8>;

/// The bytes of the owned path `path` in the platform's encoding
/// (`OsStr::as_encoded_bytes` of the path it holds).
pub uninterp spec fn owned_encoding(path: PathBuf) -> Seq<u8>;

/// An owned copy of a path (`Path::to_path_buf`): it holds the same OS
/// string, so the same bytes.
#[verifier::external_body]
fn owned_path(path: &Path) -> (r: PathBuf)
    ensures
        owned_encoding(r) == encoding_of(path),
{
    path.to_path_buf()
}

/// The bytes of a path in the platform's encoding
/// (`OsStr::as_encoded_bytes`).
#[verifier::external_body]
fn encoded_bytes(path: &Path) -> (r: Vec<u8>)
    ensures
        r@ == encoding_of(path),
{
    path.as_os_str().as_encoded_bytes().to_vec()
}

/// The empty path (`PathBuf::new`, an empty OS string): its encoding has no
/// bytes.
#[verifier::external_body]
fn empty_path() -> (r: PathBuf)
    ensures
        owned_encoding(r) == Seq::<u8>::empty(),
{
    PathBuf::new()
}

/// Whether two paths are equal (`<PathBuf as PartialEq>::eq`, which
/// compares components): `path_eq` of their encodings. The encoding
/// determines the path and `Path` equality is reflexive (`Path` is `Eq`), so
/// paths with equal encodings compare equal.
#[verifier::external_body]
fn paths_equal(a: &PathBuf, b: &PathBuf) -> (r: bool)
    ensures
        r == path_eq(owned_encoding(*a), owned_encoding(*b)),
        owned_encoding(*a) == owned_encoding(*b) ==> r,
{
    a == b
}

impl FilePath {
    /// The bytes kept are those of the path kept.
    #[verifier::type_invariant]
    spec fn encoding_matches(self) -> bool {
        owned_encoding(self.path) == self.encoded@
    }

    /// The path `path`.
    pub fn from_path(path: &Path) -> (r: FilePath)
        ensures
            r@ == encoding_of(path),
    {
        FilePath { path: owned_path(path), encoded: encoded_bytes(path) }
    }

    /// The empty path.
    pub fn empty() -> (r: FilePath)
        ensures
            r@ == Seq::<u8>::empty(),
    {
        FilePath { path: empty_path(), encoded: Vec::new() }
    }

    /// Whether `self` and `other` are the same path for `std`.
    pub fn same_as(&self, other: &FilePath) -> (r: bool)
        ensures
            r == path_eq(self@, other@),
            self@ == other@ ==> r,
    {
        proof {
            use_type_invariant(self);
            use_type_invariant(other);
        }
        paths_equal(&self.path, &other.path)
    }
}

} // verus!
