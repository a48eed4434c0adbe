use vstd::prelude::*;

use crate::digest::{hex_decode, is_digest_text, DigestParseError, Sha256Hash};

verus! {

/// A URL as the url crate parses it, carried through opaque.
#[verifier::external_type_specification]
#[verifier::external_body]
pub struct ExUrl(url::Url);

/// The url crate's parse error, carried through opaque.
#[verifier::external_type_specification]
#[verifier::external_body]
pub struct ExUrlParseError(url::ParseError);

/// Whether the url crate accepts `s` as an absolute URL.
pub uninterp spec fn url_accepts(s: Seq<char>) -> bool;

/// Relies on url::Url::parse: it succeeds exactly on the texts it accepts,
/// which depends on the text alone.
#[verifier::external_body]
fn parse_url(s: &str) -> (r: Result<url::Url, url::ParseError>)
    ensures
        r is Ok == url_accepts(s@),
{
    url::Url::parse(s)
}

/// The octets of each digest in `hs`.
pub open spec fn digest_views(hs: Seq<Sha256Hash>) -> Seq<Seq<u8>> {
    hs.map_values(|h: Sha256Hash| h@)
}

/// A set of digests, each held once.
pub struct KnownHashes {
    hashes: Vec<Sha256Hash>,
}

impl View for KnownHashes {
    type V = Set<Seq<u8>>;

    closed spec fn view(&self) -> Set<Seq<u8>> {
        digest_views(self.hashes@).to_set()
    }
}

impl KnownHashes {
    /// Well-formed: no digest is held twice.
    pub closed spec fn wf(&self) -> bool {
        digest_views(self.hashes@).no_duplicates()
    }

    /// The empty set.
    pub fn new() -> (r: KnownHashes)
        ensures
            r.wf(),
            r@ == Set::<Seq<u8>>::empty(),
    {
        let r = KnownHashes { hashes: Vec::new() };
        assert(digest_views(r.hashes@) =~= Seq::<Seq<u8>>::empty());
        r
    }

    /// Whether the set holds `h`.
    pub fn contains(&self, h: &Sha256Hash) -> (r: bool)
        ensures
            r == self@.contains(h@),
    {
        let mut i: usize = 0;
        while i < self.hashes.len()
            invariant
                i <= self.hashes@.len(),
                forall|j: int| 0 <= j < i ==> self.hashes@[j]@ != h@,
            decreases self.hashes@.len() - i,
        {
            if self.hashes[i].same_as(h) {
                assert(digest_views(self.hashes@)[i as int] == h@);
                return true;
            }
            i = i + 1;
        }
        assert(!digest_views(self.hashes@).contains(h@));
        false
    }

    /// Adds `h`; a digest already held is not added again.
    pub fn insert(&mut self, h: Sha256Hash)
        requires
            old(self).wf(),
        ensures
            final(self).wf(),
            final(self)@ == old(self)@.insert(h@),
    {
        if !self.contains(&h) {
            let ghost before = digest_views(self.hashes@);
            self.hashes.push(h);
            assert(digest_views(self.hashes@) =~= before.push(h@));
            proof {
                before.lemma_push_to_set_commute(h@);
            }
        } else {
            assert(old(self)@.insert(h@) =~= old(self)@);
        }
    }

    /// The number of digests held.
    pub fn len(&self) -> (r: usize)
        requires
            self.wf(),
        ensures
            r == self@.len(),
    {
        proof {
            digest_views(self.hashes@).unique_seq_to_set();
        }
        self.hashes.len()
    }

    /// The digests held, each once.
    pub fn to_vec(&self) -> (r: Vec<Sha256Hash>)
        requires
            self.wf(),
        ensures
            digest_views(r@).no_duplicates(),
            digest_views(r@).to_set() == self@,
    {
        self.hashes.clone()
    }
}

/// Why a manifest record was refused.
#[derive(Debug, Clone, Copy, PartialEq, Eq)]
pub enum ManifestError {
    /// The record's URL is not one that the url crate accepts.
    InvalidUrl,
    /// The record's digest is not 64 lowercase hexadecimal digits.
    InvalidDigest(DigestParseError),
}

/// The error for a record whose URL or digest text is refused: the URL is
/// checked first.
pub open spec fn record_error(url: Seq<char>, sha256: Seq<char>) -> ManifestError {
    if !url_accepts(url) {
        ManifestError::InvalidUrl
    } else if sha256.len() != 64 {
        ManifestError::InvalidDigest(DigestParseError::InvalidLength)
    } else {
        ManifestError::InvalidDigest(DigestParseError::InvalidCharacter)
    }
}

/// A manifest record's field values as the JSON document holds them, before
/// its URL and digest are parsed.
#[derive(Debug)]
pub struct RawVersion {
    /// The version's name.
    pub id: String,
    /// The release channel.
    pub kind: String,
    /// When it was released.
    pub release_time: u64,
    /// The URL text.
    pub url: String,
    /// The digest text.
    pub sha256: String,
    /// The declared size in bytes.
    pub size: u64,
}

/// Whether a raw record's URL and digest are accepted.
pub open spec fn is_valid_record(r: RawVersion) -> bool {
    url_accepts(r.url@) && is_digest_text(r.sha256@)
}

/// Whether `v` is what parsing the raw record `r` gives.
pub open spec fn parsed_from(v: Version, r: RawVersion) -> bool {
    &&& v.id == r.id
    &&& v.kind == r.kind
    &&& v.release_time == r.release_time
    &&& v.sha256@ == hex_decode(r.sha256@)
    &&& v.size == r.size
}

/// One archived version as the manifest records it.
#[derive(Debug)]
pub struct Version {
    /// The version's name.
    pub id: String,
    /// The release channel (`type` in the manifest).
    pub kind: String,
    /// When it was released (`releaseTime` in the manifest).
    pub release_time: u64,
    /// Where the archived file lies.
    pub url: url::Url,
    /// The digest of the game archive.
    pub sha256: Sha256Hash,
    /// The declared size in bytes.
    pub size: u64,
}

impl Version {
    /// Builds a record from the manifest's field values, parsing its URL and digest.
    pub fn parse(
        id: String,
        kind: String,
        release_time: u64,
        url: &str,
        sha256: &str,
        size: u64,
    ) -> (r: Result<Version, ManifestError>)
        ensures
            r is Ok <==> url_accepts(url@) && is_digest_text(sha256@),
            r matches Ok(v) ==> {
                &&& v.id == id
                &&& v.kind == kind
                &&& v.release_time == release_time
                &&& v.sha256@ == hex_decode(sha256@)
                &&& v.size == size
            },
            r matches Err(e) ==> e == record_error(url@, sha256@),
    {
        let url = match parse_url(url) {
            Ok(u) => u,
            Err(_) => return Err(ManifestError::InvalidUrl),
        };
        let sha256 = match Sha256Hash::from_hex(sha256) {
            Ok(h) => h,
            Err(e) => return Err(ManifestError::InvalidDigest(e)),
        };
        Ok(Version { id, kind, release_time, url, sha256, size })
    }
}

/// The digests that the records carry, as a set.
pub open spec fn manifest_digests(vs: Seq<Version>) -> Set<Seq<u8>> {
    vs.map_values(|v: Version| v.sha256@).to_set()
}

/// Two records that carry the same digest give a set of one element.
pub proof fn lemma_duplicate_digest_held_once(vs: Seq<Version>)
    requires
        vs.len() == 2,
        vs[0].sha256@ == vs[1].sha256@,
    ensures
        manifest_digests(vs) == set![vs[0].sha256@],
        manifest_digests(vs).len() == 1,
{
    let d = vs[0].sha256@;
    let ds = vs.map_values(|v: Version| v.sha256@);
    assert(ds =~= seq![d, d]);
    assert(ds.to_set() =~= set![d]) by {
        assert forall|x: Seq<u8>| ds.to_set().contains(x) <==> x == d by {
            if x == d {
                assert(ds[0] == x);
            }
        }
    }
    assert(set![d].len() == 1) by {
        assert(set![d] =~= Set::<Seq<u8>>::empty().insert(d));
    }
}

/// The archived-versions manifest: the newest version of each channel, and
/// every archived version.
#[derive(Debug)]
pub struct Versions {
    /// Channel name and the identifier of its newest version.
    pub latest: Vec<(String, String)>,
    /// Every archived version.
    pub versions: Vec<Version>,
}

impl Versions {
    /// Builds the manifest from its records' field values. It fails on the
    /// first record whose URL or digest is refused, with that record's error.
    pub fn parse(latest: Vec<(String, String)>, records: Vec<RawVersion>) -> (r: Result<
        Versions,
        ManifestError,
    >)
        ensures
            r is Ok <==> forall|i: int| 0 <= i < records@.len() ==> is_valid_record(#[trigger] records@[i]),
            r matches Ok(m) ==> {
                &&& m.latest == latest
                &&& m.versions@.len() == records@.len()
                &&& forall|i: int|
                    0 <= i < records@.len() ==> parsed_from(#[trigger] m.versions@[i], records@[i])
            },
            r matches Err(e) ==> exists|i: int|
                0 <= i < records@.len() && !is_valid_record(#[trigger] records@[i]) && (forall|j: int|
                    0 <= j < i ==> is_valid_record(#[trigger] records@[j])) && e == record_error(
                    records@[i].url@,
                    records@[i].sha256@,
                ),
    {
        let ghost all = records@;
        let mut rest = records;
        let mut versions: Vec<Version> = Vec::new();
        while rest.len() > 0
            invariant
                all == records@,
                versions@.len() + rest@.len() == all.len(),
                rest@ == all.subrange(versions@.len() as int, all.len() as int),
                forall|i: int| 0 <= i < versions@.len() ==> is_valid_record(#[trigger] all[i]),
                forall|i: int|
                    0 <= i < versions@.len() ==> parsed_from(#[trigger] versions@[i], all[i]),
            decreases rest@.len(),
        {
            let k = versions.len();
            let raw = rest.remove(0);
            assert(raw == all[k as int]);
            match Version::parse(raw.id, raw.kind, raw.release_time, raw.url.as_str(), raw.sha256.as_str(), raw.size) {
                Ok(v) => {
                    versions.push(v);
                    assert(rest@ =~= all.subrange(versions@.len() as int, all.len() as int));
                },
                Err(e) => {
                    assert(!is_valid_record(all[k as int]));
                    assert(e == record_error(all[k as int].url@, all[k as int].sha256@));
                    return Err(e);
                },
            }
        }
        Ok(Versions { latest, versions })
    }

    /// The set of digests that the manifest records; a digest listed twice is held once.
    pub fn hashes(&self) -> (r: KnownHashes)
        ensures
            r.wf(),
            r@ == manifest_digests(self.versions@),
    {
        let mut r = KnownHashes::new();
        let mut i: usize = 0;
        while i < self.versions.len()
            invariant
                i <= self.versions@.len(),
                r.wf(),
                r@ == manifest_digests(self.versions@.take(i as int)),
            decreases self.versions@.len() - i,
        {
            let ghost before = self.versions@.take(i as int);
            r.insert(self.versions[i].sha256);
            proof {
                let v = self.versions@[i as int];
                assert(self.versions@.take(i + 1) =~= before.push(v));
                assert(before.push(v).map_values(|v: Version| v.sha256@) =~= before.map_values(
                    |v: Version| v.sha256@,
                ).push(v.sha256@));
                before.map_values(|v: Version| v.sha256@).lemma_push_to_set_commute(v.sha256@);
            }
            i = i + 1;
        }
        assert(self.versions@.take(self.versions@.len() as int) =~= self.versions@);
        r
    }
}

} // verus!
