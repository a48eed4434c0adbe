use vstd::prelude::*;

verus! {

/// A platform tag that the storefront attaches to a download.
#[derive(Debug, Clone, Copy, PartialEq, Eq, Structural)]
pub enum Platform {
    Windows,
    Linux,
    MacOs,
    Android,
}

/// One download offered on the game's storefront page.
#[derive(Debug)]
pub struct Download {
    /// The storefront's numeric identifier, when it has one.
    pub id: Option<u64>,
    /// The title shown on the page.
    pub title: String,
    /// The platforms the download is tagged for.
    pub platforms: Vec<Platform>,
}

/// A download is a candidate when it is tagged for both Linux and Windows:
/// such a download is the cross-platform one that packages the game archive.
pub open spec fn is_candidate(d: Download) -> bool {
    d.platforms@.contains(Platform::Linux) && d.platforms@.contains(Platform::Windows)
}

/// The identifiers of the candidates among `ds`, in the order given; a
/// candidate without an identifier is left out.
pub open spec fn candidate_ids(ds: Seq<Download>) -> Seq<u64>
    decreases ds.len(),
{
    if ds.len() == 0 {
        Seq::empty()
    } else {
        let rest = candidate_ids(ds.drop_last());
        let d = ds.last();
        if is_candidate(d) && d.id is Some {
            rest.push(d.id->0)
        } else {
            rest
        }
    }
}

fn has_platform(platforms: &Vec<Platform>, p: Platform) -> (r: bool)
    ensures
        r == platforms@.contains(p),
{
    let mut i: usize = 0;
    while i < platforms.len()
        invariant
            i <= platforms@.len(),
            forall|j: int| 0 <= j < i ==> platforms@[j] != p,
        decreases platforms@.len() - i,
    {
        if platforms[i] == p {
            return true;
        }
        i = i + 1;
    }
    false
}

/// Whether the download is tagged for both Linux and Windows.
pub fn is_candidate_download(d: &Download) -> (r: bool)
    ensures
        r == is_candidate(*d),
{
    has_platform(&d.platforms, Platform::Linux) && has_platform(&d.platforms, Platform::Windows)
}

/// The identifiers of the candidate downloads, in the storefront's order.
pub fn candidate_download_ids(downloads: &Vec<Download>) -> (r: Vec<u64>)
    ensures
        r@ == candidate_ids(downloads@),
{
    let mut r: Vec<u64> = Vec::new();
    let mut i: usize = 0;
    while i < downloads.len()
        invariant
            i <= downloads@.len(),
            r@ == candidate_ids(downloads@.take(i as int)),
        decreases downloads@.len() - i,
    {
        let d = &downloads[i];
        proof {
            assert(downloads@.take(i + 1).drop_last() =~= downloads@.take(i as int));
        }
        if is_candidate_download(d) {
            if let Some(id) = d.id {
                r.push(id);
            }
        }
        i = i + 1;
    }
    assert(downloads@.take(downloads@.len() as int) =~= downloads@);
    r
}

} // verus!
