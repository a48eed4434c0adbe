use vstd::prelude::*;

use crate::digest::{sha256_of, Sha256Hash};
use crate::manifest::KnownHashes;

verus! {

/// Whether an extracted file is a version the manifest lacks. `computed` is
/// the digest of the file, or `None` when the file could not be read: an
/// unreadable file counts as already archived, so that no new version is
/// reported by mistake.
pub fn is_version_unarchived(archived: &KnownHashes, computed: Option<Sha256Hash>) -> (r: bool)
    ensures
        r == (computed matches Some(h) && !archived@.contains(h@)),
{
    match computed {
        Some(h) => !archived.contains(&h),
        None => false,
    }
}

/// Whether content with these bytes is a version the manifest lacks.
pub fn is_content_unarchived(archived: &KnownHashes, content: &[u8]) -> (r: bool)
    ensures
        r == !archived@.contains(sha256_of(content@)),
{
    is_version_unarchived(archived, Some(Sha256Hash::of_bytes(content)))
}

/// An extracted file: where it was written, and its digest if it could be read back.
#[derive(Debug)]
pub struct Artifact {
    /// The path the file was written to.
    pub path: String,
    /// The digest of the file as read back from disk.
    pub digest: Option<Sha256Hash>,
}

/// Whether an artifact is reported as a new version.
pub open spec fn is_fresh(archived: Set<Seq<u8>>, a: Artifact) -> bool {
    a.digest matches Some(h) && !archived.contains(h@)
}

/// The paths of the artifacts that are new versions, in the order given.
pub open spec fn fresh_paths_of(archived: Set<Seq<u8>>, arts: Seq<Artifact>) -> Seq<Seq<char>>
    decreases arts.len(),
{
    if arts.len() == 0 {
        Seq::empty()
    } else {
        let rest = fresh_paths_of(archived, arts.drop_last());
        if is_fresh(archived, arts.last()) {
            rest.push(arts.last().path@)
        } else {
            rest
        }
    }
}

/// The paths reported for the artifacts of several downloads together are
/// those reported for each download's artifacts on its own, one after the
/// other: what one download yields, or fails to yield, changes nothing in
/// what is reported for another.
pub proof fn lemma_fresh_paths_concat(archived: Set<Seq<u8>>, a: Seq<Artifact>, b: Seq<Artifact>)
    ensures
        fresh_paths_of(archived, a + b) == fresh_paths_of(archived, a) + fresh_paths_of(
            archived,
            b,
        ),
    decreases b.len(),
{
    if b.len() == 0 {
        assert(a + b =~= a);
        assert(fresh_paths_of(archived, a) + Seq::empty() =~= fresh_paths_of(archived, a));
    } else {
        lemma_fresh_paths_concat(archived, a, b.drop_last());
        assert((a + b).drop_last() =~= a + b.drop_last());
        assert((a + b).last() == b.last());
        let fa = fresh_paths_of(archived, a);
        let fb = fresh_paths_of(archived, b.drop_last());
        assert((fa + fb).push(b.last().path@) =~= fa + fb.push(b.last().path@));
    }
}

/// A download that yields no fresh artifact, because it failed or extracted
/// nothing new, leaves the report of the other downloads as it is.
pub proof fn lemma_unfresh_download_changes_nothing(
    archived: Set<Seq<u8>>,
    a: Seq<Artifact>,
    b: Seq<Artifact>,
)
    requires
        forall|k: int| 0 <= k < a.len() ==> !is_fresh(archived, #[trigger] a[k]),
    ensures
        fresh_paths_of(archived, a + b) == fresh_paths_of(archived, b),
{
    lemma_no_fresh_reports_nothing(archived, a);
    lemma_fresh_paths_concat(archived, a, b);
    assert(Seq::<Seq<char>>::empty() + fresh_paths_of(archived, b) =~= fresh_paths_of(archived, b));
}

proof fn lemma_no_fresh_reports_nothing(archived: Set<Seq<u8>>, a: Seq<Artifact>)
    requires
        forall|k: int| 0 <= k < a.len() ==> !is_fresh(archived, #[trigger] a[k]),
    ensures
        fresh_paths_of(archived, a) == Seq::<Seq<char>>::empty(),
    decreases a.len(),
{
    if a.len() > 0 {
        assert(!is_fresh(archived, a[a.len() - 1]));
        lemma_no_fresh_reports_nothing(archived, a.drop_last());
    }
}

/// Joins the extracted artifacts with the manifest: the paths whose digest the
/// manifest does not record. An artifact that could not be read is left out.
pub fn fresh_paths(archived: &KnownHashes, artifacts: Vec<Artifact>) -> (r: Vec<String>)
    ensures
        r@.map_values(|s: String| s@) == fresh_paths_of(archived@, artifacts@),
{
    let mut r: Vec<String> = Vec::new();
    let mut rest = artifacts;
    let ghost full = rest@;
    let ghost mut done: Seq<Artifact> = Seq::empty();
    while rest.len() > 0
        invariant
            done + rest@ == full,
            r@.map_values(|s: String| s@) == fresh_paths_of(archived@, done),
        decreases rest@.len(),
    {
        let a = rest.remove(0);
        proof {
            assert((done.push(a)).drop_last() =~= done);
        }
        let ghost before = r@;
        if is_version_unarchived(archived, a.digest) {
            r.push(a.path);
            assert(r@.map_values(|s: String| s@) =~= before.map_values(|s: String| s@).push(a.path@));
        }
        proof {
            done = done.push(a);
            assert(done + rest@ =~= full);
        }
    }
    assert(done =~= full);
    r
}

} // verus!
