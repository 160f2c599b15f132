//! The path guard: a received file may only be created inside the upload
//! directory.
//!
//! The guard compares canonical paths: absolute, with every symbolic link and
//! every `..` resolved. A canonical path is held as the list of its
//! components, each the bytes of one name.

use vstd::prelude::*;

verus! {

/// A canonical path as the list of its components, outermost first.
#[derive(Debug, PartialEq, Eq)]
pub struct CanonicalPath {
    pub components: Vec<Vec<u8>>,
}

impl View for CanonicalPath {
    type V = Seq<Seq<u8>>;

    open spec fn view(&self) -> Seq<Seq<u8>> {
        Seq::new(self.components@.len(), |i: int| self.components@[i]@)
    }
}

/// Why a destination was refused.
#[derive(Clone, Copy, Debug, PartialEq, Eq, Structural)]
pub enum SecurityError {
    /// The upload directory or the destination could not be made canonical.
    Unresolved,
    /// The destination lies outside the upload directory.
    Outside,
}

/// Whether `inner` is `root` itself or lies below it: the components of
/// `root` are the first components of `inner`.
pub open spec fn is_within(root: Seq<Seq<u8>>, inner: Seq<Seq<u8>>) -> bool {
    root.len() <= inner.len() && inner.subrange(0, root.len() as int) == root
}

/// What the guard decides of a root and a destination, each canonical or
/// `None` where it could not be resolved.
pub open spec fn validate_spec(root: Option<Seq<Seq<u8>>>, target: Option<Seq<Seq<u8>>>) -> Result<
    Seq<Seq<u8>>,
    SecurityError,
> {
    if root.is_none() || target.is_none() {
        Err(SecurityError::Unresolved)
    } else if is_within(root.unwrap(), target.unwrap()) {
        Ok(target.unwrap())
    } else {
        Err(SecurityError::Outside)
    }
}

/// The view of a canonical path that may be missing.
pub open spec fn option_view(p: Option<CanonicalPath>) -> Option<Seq<Seq<u8>>> {
    match p {
        Some(path) => Some(path@),
        None => None,
    }
}

/// Whether two byte strings are equal.
pub fn bytes_equal(a: &[u8], b: &[u8]) -> (same: bool)
    ensures
        same == (a@ == b@),
{
    if a.len() != b.len() {
        return false;
    }
    let mut i: usize = 0;
    while i < a.len()
        invariant
            0 <= i <= a@.len(),
            a@.len() == b@.len(),
            forall|j: int| 0 <= j < i ==> a@[j] == b@[j],
        decreases a@.len() - i,
    {
        if a[i] != b[i] {
            return false;
        }
        i = i + 1;
    }
    assert(a@ =~= b@);
    true
}

/// Whether `inner` is `root` or lies below it.
pub fn path_within(root: &CanonicalPath, inner: &CanonicalPath) -> (within: bool)
    ensures
        within == is_within(root@, inner@),
{
    let n: usize = root.components.len();
    if n > inner.components.len() {
        return false;
    }
    let mut i: usize = 0;
    while i < n
        invariant
            0 <= i <= n,
            n == root.components@.len(),
            n <= inner.components@.len(),
            forall|j: int| 0 <= j < i ==> root@[j] == inner@[j],
        decreases n - i,
    {
        if !bytes_equal(root.components[i].as_slice(), inner.components[i].as_slice()) {
            assert(inner@.subrange(0, n as int)[i as int] != root@[i as int]);
            return false;
        }
        i = i + 1;
    }
    assert(inner@.subrange(0, n as int) =~= root@);
    true
}

/// Decides whether a file may be created at `target`. `root` is the upload
/// directory and `target` the destination, each made canonical by the caller,
/// or `None` where that failed. The destination is handed back when it is the
/// root or lies below it; otherwise the error says which of the two rules was
/// broken.
pub fn validate(root: Option<CanonicalPath>, target: Option<CanonicalPath>) -> (r: Result<
    CanonicalPath,
    SecurityError,
>)
    ensures
        match r {
            Ok(path) => validate_spec(option_view(root), option_view(target)) == Ok::<
                Seq<Seq<u8>>,
                SecurityError,
            >(path@) && Some(path) == target,
            Err(e) => validate_spec(option_view(root), option_view(target)) == Err::<
                Seq<Seq<u8>>,
                SecurityError,
            >(e),
        },
{
    match (root, target) {
        (Some(base), Some(path)) => {
            if path_within(&base, &path) {
                Ok(path)
            } else {
                Err(SecurityError::Outside)
            }
        },
        _ => Err(SecurityError::Unresolved),
    }
}

/// A destination is accepted exactly when both paths were resolved and the
/// root's components begin the destination's.
pub proof fn lemma_validate_accepts(root: Option<Seq<Seq<u8>>>, target: Option<Seq<Seq<u8>>>)
    ensures
        validate_spec(root, target) is Ok <==> root is Some && target is Some && is_within(
            root.unwrap(),
            target.unwrap(),
        ),
{
}

/// A destination whose component at some index within the root's length
/// differs from the root's is refused as lying outside.
pub proof fn lemma_escape_is_refused(root: Seq<Seq<u8>>, target: Seq<Seq<u8>>, at: int)
    requires
        0 <= at < root.len(),
        at >= target.len() || target[at] != root[at],
    ensures
        validate_spec(Some(root), Some(target)) == Err::<Seq<Seq<u8>>, SecurityError>(
            SecurityError::Outside,
        ),
{
    if root.len() <= target.len() {
        assert(target.subrange(0, root.len() as int)[at] == target[at]);
    }
}

} // verus!
