use vstd::prelude::*;

verus! {

/// A ZIP archive read by the zip crate, carried through opaque.
#[verifier::external_type_specification]
#[verifier::external_body]
#[verifier::reject_recursive_types(R)]
pub struct ExZipArchive<R>(zip::ZipArchive<R>);

/// The zip crate's error, carried through opaque.
#[verifier::external_type_specification]
#[verifier::external_body]
pub struct ExZipError(zip::result::ZipError);

/// An in-memory reader, carried through opaque.
#[verifier::external_type_specification]
#[verifier::external_body]
#[verifier::reject_recursive_types(T)]
pub struct ExCursor<T>(std::io::Cursor<T>);

/// An archive whose bytes are held in memory.
pub type Archive = zip::ZipArchive<std::io::Cursor<Vec<u8>>>;

/// Whether the zip crate, with its default settings, reads `bytes` as a ZIP archive.
pub uninterp spec fn zip_accepts(bytes: Seq<u8>) -> bool;

/// For each entry of the archive that the zip crate reads from `bytes` with
/// its default settings, in central-directory order, the entry's name, or
/// `None` where the name cannot be decoded.
pub uninterp spec fn zip_entry_names(bytes: Seq<u8>) -> Seq<Option<Seq<char>>>;

/// For each entry of the archive that the zip crate reads from `bytes` with
/// its default settings, its decompressed content, or `None` where it cannot
/// be found or decompressed.
pub uninterp spec fn zip_entry_contents(bytes: Seq<u8>) -> Seq<Option<Seq<u8>>>;

/// The names of the entries that an opened archive holds, as `zip_entry_names`.
pub uninterp spec fn zip_names_of(a: Archive) -> Seq<Option<Seq<char>>>;

/// The decompressed contents of the entries that an opened archive holds, as
/// `zip_entry_contents`.
pub uninterp spec fn zip_contents_of(a: Archive) -> Seq<Option<Seq<u8>>>;

/// Relies on zip::ZipArchive::new: reads the central directory of the archive
/// in `bytes` with the default settings; what it reads depends on the bytes alone.
#[verifier::external_body]
fn open_zip(bytes: Vec<u8>) -> (r: Result<Archive, zip::result::ZipError>)
    ensures
        r is Ok == zip_accepts(bytes@),
        r is Ok ==> zip_names_of(r->Ok_0) == zip_entry_names(bytes@),
        r is Ok ==> zip_contents_of(r->Ok_0) == zip_entry_contents(bytes@),
{
    zip::ZipArchive::new(std::io::Cursor::new(bytes))
}

/// Relies on zip::ZipArchive::len: the number of entries.
#[verifier::external_body]
fn zip_len(a: &Archive) -> (r: usize)
    ensures
        r == zip_names_of(*a).len(),
        r == zip_contents_of(*a).len(),
{
    a.len()
}

/// Relies on zip::ZipArchive::name_for_index: the entry's name as stored,
/// decoded to text.
#[verifier::external_body]
fn zip_entry_name(a: &Archive, index: usize) -> (r: Result<String, zip::result::ZipError>)
    requires
        index < zip_names_of(*a).len(),
    ensures
        r is Ok == zip_names_of(*a)[index as int] is Some,
        r is Ok ==> r->Ok_0@ == zip_names_of(*a)[index as int]->0,
{
    match a.name_for_index(index) {
        Some(Ok(name)) => Ok(name.into_owned()),
        Some(Err(e)) => Err(e),
        None => Err(zip::result::ZipError::FileNotFound),
    }
}

/// Relies on zip::ZipArchive::by_index and its std::io::Read impl: the
/// decompressed content of the entry. Reading leaves the entries as they were.
#[verifier::external_body]
fn zip_read_entry(a: &mut Archive, index: usize) -> (r: Result<Vec<u8>, zip::result::ZipError>)
    requires
        index < zip_contents_of(*old(a)).len(),
    ensures
        zip_names_of(*final(a)) == zip_names_of(*old(a)),
        zip_contents_of(*final(a)) == zip_contents_of(*old(a)),
        r is Ok == zip_contents_of(*old(a))[index as int] is Some,
        r is Ok ==> r->Ok_0@ == zip_contents_of(*old(a))[index as int]->0,
{
    let mut entry = a.by_index(index)?;
    let mut out = Vec::new();
    std::io::Read::read_to_end(&mut entry, &mut out)?;
    Ok(out)
}

/// The literal that the base name of the game archive begins with.
pub const GAME_PREFIX: &'static str = "Cosmic Reach-";

/// The characters of `GAME_PREFIX`.
pub open spec fn game_prefix() -> Seq<char> {
    seq!['C', 'o', 's', 'm', 'i', 'c', ' ', 'R', 'e', 'a', 'c', 'h', '-']
}

/// Whether a base name names the game archive: it begins with `Cosmic Reach-`
/// and its extension is `jar` in any letter case. As `jar` holds no dot, the
/// extension is `jar` exactly when the name ends in a dot and those three
/// letters; the prefix ends in `-`, so it never overlaps that ending.
pub open spec fn is_game_jar_name(s: Seq<char>) -> bool {
    let n = s.len();
    &&& n >= 13 + 4
    &&& s.subrange(0, 13) == game_prefix()
    &&& s[n - 4] == '.'
    &&& (s[n - 3] == 'j' || s[n - 3] == 'J')
    &&& (s[n - 2] == 'a' || s[n - 2] == 'A')
    &&& (s[n - 1] == 'r' || s[n - 1] == 'R')
}

/// Whether `c` separates the components of an entry's name.
pub open spec fn is_separator(c: char) -> bool {
    c == '/' || c == '\\'
}

/// Whether `s` is a plain file or directory name: not empty, not `.` or
/// `..`, and without a separator, a drive colon or a NUL.
pub open spec fn is_plain_name(s: Seq<char>) -> bool {
    &&& s.len() > 0
    &&& s != seq!['.']
    &&& s != seq!['.', '.']
    &&& forall|i: int|
        0 <= i < s.len() ==> !is_separator(#[trigger] s[i]) && s[i] != ':' && s[i] != '\0'
}

/// The pieces of `s` between separators, in order, empty pieces included.
pub open spec fn segments(s: Seq<char>) -> Seq<Seq<char>>
    decreases s.len(),
{
    if s.len() == 0 {
        seq![Seq::empty()]
    } else {
        let r = segments(s.drop_last());
        if is_separator(s.last()) {
            r.push(Seq::empty())
        } else {
            r.update(r.len() - 1, r.last().push(s.last()))
        }
    }
}

/// The plain names among `segs`, in order.
pub open spec fn plain_names(segs: Seq<Seq<char>>) -> Seq<Seq<char>>
    decreases segs.len(),
{
    if segs.len() == 0 {
        Seq::empty()
    } else if is_plain_name(segs.last()) {
        plain_names(segs.drop_last()).push(segs.last())
    } else {
        plain_names(segs.drop_last())
    }
}

/// The sanitised path of an entry name: its plain components, in order.
/// Roots, drive prefixes, `.` and `..` are dropped, so the path stays below
/// the directory it is placed in.
pub open spec fn kept_names(name: Seq<char>) -> Seq<Seq<char>> {
    plain_names(segments(name))
}

/// Whether the entry name marks a directory: it ends in a separator.
pub open spec fn is_directory_name(name: Seq<char>) -> bool {
    name.len() > 0 && is_separator(name.last())
}

/// Where an entry with the given name is extracted to, below the download's
/// own directory; `None` when the entry is a directory or not the game archive.
pub open spec fn target_of(name: Seq<char>) -> Option<Seq<Seq<char>>> {
    let names = kept_names(name);
    if !is_directory_name(name) && names.len() > 0 && is_game_jar_name(names.last()) {
        Some(names)
    } else {
        None
    }
}

/// The text of each string.
pub open spec fn texts(v: Seq<String>) -> Seq<Seq<char>> {
    v.map_values(|s: String| s@)
}

/// Whether the base name names the game archive (see `is_game_jar_name`).
pub fn is_game_jar(name: &str) -> (r: bool)
    ensures
        r == is_game_jar_name(name@),
{
    proof {
        reveal_strlit("Cosmic Reach-");
    }
    let n = name.unicode_len();
    if n < 13 + 4 {
        return false;
    }
    let mut i: usize = 0;
    while i < 13
        invariant
            n == name@.len(),
            n >= 17,
            i <= 13,
            GAME_PREFIX@ == game_prefix(),
            forall|j: int| 0 <= j < i ==> name@[j] == game_prefix()[j],
        decreases 13 - i,
    {
        if name.get_char(i) != GAME_PREFIX.get_char(i) {
            assert(name@.subrange(0, 13)[i as int] != game_prefix()[i as int]);
            return false;
        }
        i = i + 1;
    }
    assert(name@.subrange(0, 13) =~= game_prefix());
    let dot = name.get_char(n - 4);
    let j = name.get_char(n - 3);
    let a = name.get_char(n - 2);
    let r = name.get_char(n - 1);
    dot == '.' && (j == 'j' || j == 'J') && (a == 'a' || a == 'A') && (r == 'r' || r == 'R')
}

fn is_plain(s: &str) -> (r: bool)
    ensures
        r == is_plain_name(s@),
{
    let n = s.unicode_len();
    if n == 0 {
        return false;
    }
    let mut dots: usize = 0;
    let mut i: usize = 0;
    while i < n
        invariant
            n == s@.len(),
            i <= n,
            dots <= i,
            forall|j: int|
                0 <= j < i ==> !is_separator(#[trigger] s@[j]) && s@[j] != ':' && s@[j] != '\0',
            dots == i <==> forall|j: int| 0 <= j < i ==> #[trigger] s@[j] == '.',
        decreases n - i,
    {
        let c = s.get_char(i);
        if c == '/' || c == '\\' || c == ':' || c == '\0' {
            return false;
        }
        if c == '.' && dots == i {
            dots = dots + 1;
        }
        i = i + 1;
    }
    if n <= 2 && dots == n {
        assert(s@ =~= seq!['.'] || s@ =~= seq!['.', '.']);
        return false;
    }
    assert(s@ != seq!['.'] && s@ != seq!['.', '.']) by {
        if n <= 2 {
            let k = choose|k: int| 0 <= k < n && #[trigger] s@[k] != '.';
            assert(seq!['.'][k] == '.' || k >= 1);
        }
    }
    true
}

proof fn lemma_segments_not_empty(s: Seq<char>)
    ensures
        segments(s).len() >= 1,
    decreases s.len(),
{
    if s.len() > 0 {
        lemma_segments_not_empty(s.drop_last());
    }
}

/// The sanitised path of an entry name (see `kept_names`), or `None` when the
/// entry is not the game archive.
pub fn target_names(name: &str) -> (r: Option<Vec<String>>)
    ensures
        r is Some == target_of(name@) is Some,
        r matches Some(v) ==> texts(v@) == target_of(name@)->0,
{
    let n = name.unicode_len();
    let mut names: Vec<String> = Vec::new();
    let mut start: usize = 0;
    let mut i: usize = 0;
    proof {
        assert(name@.take(0) =~= Seq::<char>::empty());
    }
    while i < n
        invariant
            n == name@.len(),
            start <= i <= n,
            segments(name@.take(i as int)).len() >= 1,
            segments(name@.take(i as int)).last() == name@.subrange(start as int, i as int),
            texts(names@) == plain_names(segments(name@.take(i as int)).drop_last()),
        decreases n - i,
    {
        let ghost segs = segments(name@.take(i as int));
        proof {
            assert(name@.take(i + 1).drop_last() =~= name@.take(i as int));
            assert(name@.take(i + 1).last() == name@[i as int]);
        }
        let c = name.get_char(i);
        if c == '/' || c == '\\' {
            let seg = name.substring_char(start, i);
            let ghost before = names@;
            if is_plain(seg) {
                names.push(String::from_str(seg));
                assert(texts(names@) =~= texts(before).push(seg@));
            }
            proof {
                let next = segs.push(Seq::empty());
                assert(next.drop_last() =~= segs);
                assert(segs.drop_last().push(segs.last()) =~= segs);
                assert(name@.subrange(i + 1, i + 1) =~= Seq::<char>::empty());
            }
            start = i + 1;
        } else {
            proof {
                let next = segs.update(segs.len() - 1, segs.last().push(c));
                assert(next.drop_last() =~= segs.drop_last());
                assert(name@.subrange(start as int, i + 1) =~= name@.subrange(
                    start as int,
                    i as int,
                ).push(c));
            }
        }
        i = i + 1;
    }
    let ghost segs = segments(name@.take(n as int));
    let seg = name.substring_char(start, n);
    let ghost before = names@;
    if is_plain(seg) {
        names.push(String::from_str(seg));
        assert(texts(names@) =~= texts(before).push(seg@));
    }
    proof {
        assert(name@.take(n as int) =~= name@);
        assert(segs.drop_last().push(segs.last()) =~= segs);
    }
    assert(texts(names@) == kept_names(name@));
    let directory = n > 0 && {
        let last = name.get_char(n - 1);
        last == '/' || last == '\\'
    };
    let k = names.len();
    if !directory && k > 0 && is_game_jar(names[k - 1].as_str()) {
        Some(names)
    } else {
        None
    }
}

/// The decimal digit for `d`.
pub open spec fn digit_char(d: int) -> char {
    ((d + 48) as u8) as char
}

/// The decimal form of `n`, without leading zeros.
pub open spec fn decimal(n: nat) -> Seq<char>
    decreases n,
{
    if n < 10 {
        seq![digit_char(n as int)]
    } else {
        decimal(n / 10).push(digit_char((n % 10) as int))
    }
}

/// The names joined into a relative path, each after a `/`.
pub open spec fn joined(names: Seq<Seq<char>>) -> Seq<char>
    decreases names.len(),
{
    if names.len() == 0 {
        Seq::empty()
    } else {
        joined(names.drop_last()) + seq!['/'] + names.last()
    }
}

fn digit_text(d: u64) -> (r: &'static str)
    requires
        d < 10,
    ensures
        r@ == seq![digit_char(d as int)],
{
    if d == 0 {
        proof {
            reveal_strlit("0");
        }
        "0"
    } else if d == 1 {
        proof {
            reveal_strlit("1");
        }
        "1"
    } else if d == 2 {
        proof {
            reveal_strlit("2");
        }
        "2"
    } else if d == 3 {
        proof {
            reveal_strlit("3");
        }
        "3"
    } else if d == 4 {
        proof {
            reveal_strlit("4");
        }
        "4"
    } else if d == 5 {
        proof {
            reveal_strlit("5");
        }
        "5"
    } else if d == 6 {
        proof {
            reveal_strlit("6");
        }
        "6"
    } else if d == 7 {
        proof {
            reveal_strlit("7");
        }
        "7"
    } else if d == 8 {
        proof {
            reveal_strlit("8");
        }
        "8"
    } else {
        proof {
            reveal_strlit("9");
        }
        "9"
    }
}

fn decimal_text(n: u64) -> (r: String)
    ensures
        r@ == decimal(n as nat),
    decreases n,
{
    let mut s = if n < 10 {
        String::new()
    } else {
        decimal_text(n / 10)
    };
    s.append(digit_text(n % 10));
    assert(s@ =~= decimal(n as nat));
    s
}

/// Why an archive, or an entry of it, could not be read.
#[derive(Debug, Clone, Copy, PartialEq, Eq, Structural)]
pub enum ArchiveError {
    /// The bytes are not a ZIP archive that the zip crate can read.
    Malformed,
    /// The entry could not be found or decompressed.
    Entry,
}

/// An archive entry that is extracted, and the path it is written to: the
/// names under the directory named after the download identifier.
#[derive(Debug)]
pub struct ExtractionTarget {
    /// The entry's position in the archive.
    pub index: usize,
    /// The download identifier, whose decimal form names the directory.
    pub directory: u64,
    /// The path below that directory, one name per component.
    pub names: Vec<String>,
}

impl ExtractionTarget {
    /// The path the entry is written to, relative to the working directory:
    /// the decimal identifier, then each name after a `/`.
    pub fn path_text(&self) -> (r: String)
        ensures
            r@ == decimal(self.directory as nat) + joined(texts(self.names@)),
    {
        let mut s = decimal_text(self.directory);
        let ghost start = s@;
        let mut i: usize = 0;
        while i < self.names.len()
            invariant
                i <= self.names@.len(),
                s@ == start + joined(texts(self.names@).take(i as int)),
            decreases self.names@.len() - i,
        {
            proof {
                let t = texts(self.names@);
                assert(t.take(i + 1).drop_last() =~= t.take(i as int));
                assert(t.take(i + 1).last() == self.names@[i as int]@);
            }
            s.append("/");
            s.append(self.names[i].as_str());
            proof {
                reveal_strlit("/");
                assert(s@ =~= start + joined(texts(self.names@).take(i + 1)));
            }
            i = i + 1;
        }
        assert(texts(self.names@).take(self.names@.len() as int) =~= texts(self.names@));
        s
    }
}

/// The entry position and destination names of a target.
pub open spec fn target_view(t: ExtractionTarget) -> (int, Seq<Seq<char>>) {
    (t.index as int, texts(t.names@))
}

/// Whether an entry of `plan` already goes to `names`.
pub open spec fn destination_taken(plan: Seq<(int, Seq<Seq<char>>)>, names: Seq<Seq<char>>) -> bool {
    exists|k: int| 0 <= k < plan.len() && (#[trigger] plan[k]).1 == names
}

/// The entries to extract, in archive order, with their destinations: each
/// entry whose sanitised path names the game archive, except one whose
/// destination an earlier selected entry already takes, so that no path is
/// written twice.
pub open spec fn plan_of(entries: Seq<Option<Seq<char>>>) -> Seq<(int, Seq<Seq<char>>)>
    decreases entries.len(),
{
    if entries.len() == 0 {
        Seq::empty()
    } else {
        let rest = plan_of(entries.drop_last());
        match entries.last() {
            Some(name) => match target_of(name) {
                Some(names) => if destination_taken(rest, names) {
                    rest
                } else {
                    rest.push(((entries.len() - 1) as int, names))
                },
                None => rest,
            },
            None => rest,
        }
    }
}

proof fn lemma_plan_indices_below(entries: Seq<Option<Seq<char>>>)
    ensures
        forall|k: int|
            0 <= k < plan_of(entries).len() ==> 0 <= (#[trigger] plan_of(entries)[k]).0
                < entries.len(),
    decreases entries.len(),
{
    if entries.len() > 0 {
        let rest = plan_of(entries.drop_last());
        lemma_plan_indices_below(entries.drop_last());
        let p = plan_of(entries);
        assert forall|k: int| 0 <= k < p.len() implies 0 <= (#[trigger] p[k]).0 < entries.len() by {
            if k < rest.len() {
                assert(p[k] == rest[k]);
            }
        }
    }
}

/// Whether entry `i` is in the plan.
pub open spec fn is_planned(plan: Seq<(int, Seq<Seq<char>>)>, i: int) -> bool {
    exists|k: int| 0 <= k < plan.len() && (#[trigger] plan[k]).0 == i
}

/// The selection rule over a whole archive: entry `i` is extracted exactly
/// when its sanitised path names the game archive (prefix `Cosmic Reach-`,
/// extension `jar` in any case) and no earlier extracted entry already goes to
/// the same destination; it then goes to that sanitised path.
pub proof fn lemma_selection_rule(entries: Seq<Option<Seq<char>>>, i: int)
    requires
        0 <= i < entries.len(),
    ensures
        is_planned(plan_of(entries), i) <==> (entries[i] matches Some(parts) && target_of(
            parts,
        ) is Some && !destination_taken(plan_of(entries.take(i)), target_of(parts)->0)),
        forall|k: int|
            0 <= k < plan_of(entries).len() && (#[trigger] plan_of(entries)[k]).0 == i ==> (
            entries[i] matches Some(parts) && target_of(parts) == Some(plan_of(entries)[k].1)),
    decreases entries.len(),
{
    let n = entries.len();
    let init = entries.drop_last();
    let rest = plan_of(init);
    lemma_plan_indices_below(init);
    if i < n - 1 {
        lemma_selection_rule(init, i);
        assert(init.take(i) =~= entries.take(i));
        assert(init[i] == entries[i]);
        let p = plan_of(entries);
        assert(p == rest || (p == rest.push((n - 1, p.last().1)) && p.len() == rest.len() + 1));
        if is_planned(p, i) {
            let k = choose|k: int| 0 <= k < p.len() && (#[trigger] p[k]).0 == i;
            assert(k < rest.len());
            assert(rest[k] == p[k]);
        }
        if is_planned(rest, i) {
            let k = choose|k: int| 0 <= k < rest.len() && (#[trigger] rest[k]).0 == i;
            assert(p[k] == rest[k]);
        }
        assert forall|k: int|
            0 <= k < p.len() && (#[trigger] p[k]).0 == i implies (entries[i] matches Some(
            parts) && target_of(parts) == Some(p[k].1)) by {
            assert(k < rest.len());
            assert(rest[k] == p[k]);
        }
    } else {
        assert(init =~= entries.take(i));
        let p = plan_of(entries);
        assert(!is_planned(rest, i));
        if is_planned(p, i) {
            let k = choose|k: int| 0 <= k < p.len() && (#[trigger] p[k]).0 == i;
            if p != rest {
                assert(k == rest.len());
            }
        }
        match entries[i] {
            Some(name) => match target_of(name) {
                Some(names) => if !destination_taken(rest, names) {
                    assert(p[rest.len() as int].0 == i);
                },
                None => {},
            },
            None => {},
        }
    }
}

/// A target stays inside the download's own directory and names the game
/// archive: every name is plain, so none climbs out or restarts at a root.
pub open spec fn is_safe_target(t: ExtractionTarget, id: u64) -> bool {
    let names = texts(t.names@);
    &&& t.directory == id
    &&& names.len() > 0
    &&& forall|k: int| 0 <= k < names.len() ==> is_plain_name(#[trigger] names[k])
    &&& is_game_jar_name(names.last())
}

proof fn lemma_plain_names_plain(segs: Seq<Seq<char>>)
    ensures
        forall|k: int|
            0 <= k < plain_names(segs).len() ==> is_plain_name(#[trigger] plain_names(segs)[k]),
    decreases segs.len(),
{
    if segs.len() > 0 {
        let rest = plain_names(segs.drop_last());
        lemma_plain_names_plain(segs.drop_last());
        if is_plain_name(segs.last()) {
            assert forall|k: int| 0 <= k < rest.push(segs.last()).len() implies is_plain_name(
                #[trigger] rest.push(segs.last())[k],
            ) by {
                if k < rest.len() {
                    assert(rest.push(segs.last())[k] == rest[k]);
                }
            }
        }
    }
}

/// Whether every target is safe for `id`, the targets come in increasing
/// entry order, and no two of them share a destination.
pub open spec fn is_safe_plan(ts: Seq<ExtractionTarget>, id: u64) -> bool {
    &&& forall|k: int| 0 <= k < ts.len() ==> is_safe_target(#[trigger] ts[k], id)
    &&& forall|a: int, b: int| 0 <= a < b < ts.len() ==> ts[a].index < ts[b].index
    &&& forall|a: int, b: int|
        0 <= a < b < ts.len() ==> texts((#[trigger] ts[a]).names@) != texts((#[trigger] ts[b]).names@)
}

/// The plans of two different downloads write into different directories, so
/// what one extracts never lands where the other's files go.
pub proof fn lemma_plans_isolated(
    p1: Seq<ExtractionTarget>,
    id1: u64,
    p2: Seq<ExtractionTarget>,
    id2: u64,
)
    requires
        id1 != id2,
        is_safe_plan(p1, id1),
        is_safe_plan(p2, id2),
    ensures
        forall|a: int, b: int|
            0 <= a < p1.len() && 0 <= b < p2.len() ==> (#[trigger] p1[a]).directory
                != (#[trigger] p2[b]).directory,
{
    assert forall|a: int, b: int| 0 <= a < p1.len() && 0 <= b < p2.len() implies (
    #[trigger] p1[a]).directory != (#[trigger] p2[b]).directory by {
        assert(is_safe_target(p1[a], id1));
        assert(is_safe_target(p2[b], id2));
    }
}

/// Opens the bytes of a downloaded file as a ZIP archive; fails exactly when
/// the zip crate does not read them as one.
pub fn open_archive(bytes: Vec<u8>) -> (r: Result<Archive, ArchiveError>)
    ensures
        r is Ok == zip_accepts(bytes@),
        r matches Ok(a) ==> zip_names_of(a) == zip_entry_names(bytes@),
        r matches Ok(a) ==> zip_contents_of(a) == zip_entry_contents(bytes@),
        r matches Err(e) ==> e == ArchiveError::Malformed,
{
    match open_zip(bytes) {
        Ok(a) => Ok(a),
        Err(_) => Err(ArchiveError::Malformed),
    }
}

fn same_names(a: &Vec<String>, b: &Vec<String>) -> (r: bool)
    ensures
        r == (texts(a@) == texts(b@)),
{
    if a.len() != b.len() {
        assert(texts(a@).len() != texts(b@).len());
        return false;
    }
    let mut i: usize = 0;
    while i < a.len()
        invariant
            a@.len() == b@.len(),
            i <= a@.len(),
            forall|j: int| 0 <= j < i ==> a@[j]@ == b@[j]@,
        decreases a@.len() - i,
    {
        if a[i] != b[i] {
            assert(texts(a@)[i as int] != texts(b@)[i as int]);
            return false;
        }
        i = i + 1;
    }
    assert(texts(a@) =~= texts(b@));
    true
}

fn destination_in(plan: &Vec<ExtractionTarget>, names: &Vec<String>) -> (r: bool)
    ensures
        r == destination_taken(plan@.map_values(|t: ExtractionTarget| target_view(t)), texts(names@)),
{
    let ghost views = plan@.map_values(|t: ExtractionTarget| target_view(t));
    let mut k: usize = 0;
    while k < plan.len()
        invariant
            k <= plan@.len(),
            views == plan@.map_values(|t: ExtractionTarget| target_view(t)),
            forall|j: int| 0 <= j < k ==> (#[trigger] views[j]).1 != texts(names@),
        decreases plan@.len() - k,
    {
        if same_names(&plan[k].names, names) {
            assert(views[k as int].1 == texts(names@));
            return true;
        }
        k = k + 1;
    }
    false
}

/// The entries of the archive to extract for download `id`, each with its
/// sanitised destination under the directory of `id`: exactly the plan that
/// `plan_of` gives for the archive's entries.
pub fn plan_extraction(id: u64, archive: &Archive) -> (r: Vec<ExtractionTarget>)
    ensures
        r@.map_values(|t: ExtractionTarget| target_view(t)) == plan_of(
            zip_names_of(*archive),
        ),
        is_safe_plan(r@, id),
        forall|k: int|
            0 <= k < r@.len() ==> (#[trigger] r@[k]).index < zip_names_of(*archive).len(),
        zip_contents_of(*archive).len() == zip_names_of(*archive).len(),
{
    let ghost entries = zip_names_of(*archive);
    let n = zip_len(archive);
    let mut r: Vec<ExtractionTarget> = Vec::new();
    let mut i: usize = 0;
    while i < n
        invariant
            n == entries.len(),
            entries == zip_names_of(*archive),
            i <= n,
            is_safe_plan(r@, id),
            forall|k: int| 0 <= k < r@.len() ==> #[trigger] r@[k].index < i,
            r@.map_values(|t: ExtractionTarget| target_view(t)) == plan_of(entries.take(i as int)),
        decreases n - i,
    {
        let ghost before = r@;
        proof {
            assert(entries.take(i + 1).drop_last() =~= entries.take(i as int));
            assert(entries.take(i + 1).last() == entries[i as int]);
            assert(entries.take(i + 1).len() - 1 == i);
        }
        if let Ok(name) = zip_entry_name(archive, i) {
            if let Some(names) = target_names(name.as_str()) {
                if !destination_in(&r, &names) {
                    proof {
                        lemma_plain_names_plain(segments(name@));
                    }
                    let t = ExtractionTarget { index: i, directory: id, names };
                    assert(is_safe_target(t, id));
                    r.push(t);
                    proof {
                        let vb = before.map_values(|t: ExtractionTarget| target_view(t));
                        assert(r@.map_values(|t: ExtractionTarget| target_view(t)) =~= vb.push(
                            target_view(t),
                        ));
                        assert forall|a: int, b: int| 0 <= a < b < r@.len() implies texts(
                            (#[trigger] r@[a]).names@,
                        ) != texts((#[trigger] r@[b]).names@) by {
                            if b == r@.len() - 1 {
                                assert(vb[a].1 == texts(r@[a].names@));
                            }
                        }
                    }
                }
            }
        }
        i = i + 1;
    }
    assert(entries.take(n as int) =~= entries);
    r
}

/// A planned entry and its decompressed content, or why it could not be read.
#[derive(Debug)]
pub struct Extracted {
    /// Which entry, and where it goes.
    pub target: ExtractionTarget,
    /// The decompressed bytes of the entry.
    pub contents: Result<Vec<u8>, ArchiveError>,
}

/// The content read for a target is the entry's decompressed content, and an
/// entry that cannot be read is reported as such.
pub open spec fn read_as_stored(x: Extracted, contents: Seq<Option<Seq<u8>>>) -> bool {
    match x.contents {
        Ok(c) => contents[x.target.index as int] == Some(c@),
        Err(e) => e == ArchiveError::Entry && contents[x.target.index as int] is None,
    }
}

/// Opens the downloaded bytes as an archive and reads each entry that is to
/// be extracted for download `id`. It fails exactly when the bytes are not a
/// ZIP archive; an entry that cannot be read is reported on its own and does
/// not stop the others.
pub fn extract_game_archives(id: u64, bytes: Vec<u8>) -> (r: Result<Vec<Extracted>, ArchiveError>)
    ensures
        r is Err <==> !zip_accepts(bytes@),
        r matches Err(e) ==> e == ArchiveError::Malformed,
        r matches Ok(v) ==> v@.map_values(|x: Extracted| target_view(x.target)) == plan_of(
            zip_entry_names(bytes@),
        ),
        r matches Ok(v) ==> is_safe_plan(v@.map_values(|x: Extracted| x.target), id),
        r matches Ok(v) ==> forall|k: int|
            0 <= k < v@.len() ==> read_as_stored(#[trigger] v@[k], zip_entry_contents(bytes@)),
{
    let ghost input = bytes@;
    let mut archive = open_archive(bytes)?;
    let mut plan = plan_extraction(id, &archive);
    let ghost full = plan@;
    let ghost contents = zip_entry_contents(input);
    let mut r: Vec<Extracted> = Vec::new();
    while plan.len() > 0
        invariant
            zip_names_of(archive) == zip_entry_names(input),
            zip_contents_of(archive) == contents,
            contents == zip_entry_contents(input),
            contents.len() == zip_entry_names(input).len(),
            is_safe_plan(full, id),
            full.map_values(|t: ExtractionTarget| target_view(t)) == plan_of(zip_entry_names(input)),
            forall|k: int| 0 <= k < full.len() ==> (#[trigger] full[k]).index < contents.len(),
            r@.map_values(|x: Extracted| x.target) + plan@ == full,
            forall|k: int| 0 <= k < r@.len() ==> read_as_stored(#[trigger] r@[k], contents),
        decreases plan@.len(),
    {
        let ghost done = r@.map_values(|x: Extracted| x.target);
        let target = plan.remove(0);
        assert(full[done.len() as int] == target) by {
            assert((done + plan@.insert(0, target))[done.len() as int] == target);
        }
        let contents_read = match zip_read_entry(&mut archive, target.index) {
            Ok(b) => Ok(b),
            Err(_) => Err(ArchiveError::Entry),
        };
        let x = Extracted { target, contents: contents_read };
        assert(read_as_stored(x, contents));
        r.push(x);
        proof {
            assert(r@.map_values(|x: Extracted| x.target) =~= done.push(target));
            assert(done.push(target) + plan@ =~= full);
        }
    }
    assert(r@.map_values(|x: Extracted| x.target) =~= full);
    assert(r@.map_values(|x: Extracted| target_view(x.target)) =~= full.map_values(
        |t: ExtractionTarget| target_view(t),
    ));
    Ok(r)
}

} // verus!
