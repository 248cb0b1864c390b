//! Discovery: from the files of a directory to the ordered list of migrations.

use vstd::prelude::*;
use crate::filename::{
    parse, parse_spec, Direction, FilenameError, MigrationIdView, Parsed, ParsedView,
};
use crate::reserved::BackendKind;

verus! {

/// One file of the migration directory, as the caller read it.
#[derive(Clone, Debug, PartialEq, Eq)]
pub struct SourceFile {
    pub name: String,
    pub content: Vec<u8>,
}

/// The "down" counterpart of a migration.
#[derive(Clone, Debug, PartialEq, Eq)]
pub struct Reversal {
    pub path: String,
    pub content: Vec<u8>,
    pub checksum: u64,
}

/// Mathematical content of a [`Reversal`].
pub struct ReversalView {
    pub path: Seq<char>,
    pub content: Seq<u8>,
    pub checksum: u64,
}

impl View for Reversal {
    type V = ReversalView;

    open spec fn view(&self) -> ReversalView {
        ReversalView { path: self.path@, content: self.content@, checksum: self.checksum }
    }
}

/// One discovered unit of change: an "up" file and, where the directory has
/// one, the "down" file paired with it.
#[derive(Clone, Debug, PartialEq, Eq)]
pub struct Migration {
    pub parsed: Parsed,
    pub path: String,
    pub content: Vec<u8>,
    pub checksum: u64,
    pub down: Option<Reversal>,
}

/// Mathematical content of a [`Migration`].
pub struct MigrationView {
    pub parsed: ParsedView,
    pub path: Seq<char>,
    pub content: Seq<u8>,
    pub checksum: u64,
    pub down: Option<ReversalView>,
}

impl View for Migration {
    type V = MigrationView;

    open spec fn view(&self) -> MigrationView {
        MigrationView {
            parsed: self.parsed@,
            path: self.path@,
            content: self.content@,
            checksum: self.checksum,
            down: match self.down {
                Some(r) => Some(r@),
                None => None,
            },
        }
    }
}

impl Migration {
    /// The version that orders this migration among the others.
    pub open spec fn spec_version(&self) -> u64 {
        self.parsed.id.version
    }

    /// The version that orders this migration among the others.
    #[verifier::when_used_as_spec(spec_version)]
    pub fn version(&self) -> (v: u64)
        ensures
            v == self.spec_version(),
    {
        self.parsed.id.version
    }
}

/// Why a directory does not yield a list of migrations.
#[derive(Clone, Copy, Debug, PartialEq, Eq, Structural)]
pub enum DiscoveryError {
    /// A well-shaped name holds a word the backend reserves.
    ReservedWordInFilename,
    /// An "up" file has no content.
    EmptyMigration,
    /// Two files of the same direction share a version.
    DuplicateVersion,
    /// A "down" file has no "up" file with its version and slug.
    OrphanDownMigration,
}

/// FNV-1a offset basis for 64-bit hashes.
pub const CHECKSUM_BASIS: u64 = 0xcbf29ce484222325;

/// FNV-1a prime for 64-bit hashes.
pub const CHECKSUM_PRIME: u64 = 0x100000001b3;

/// The 64-bit FNV-1a hash of a byte string.
pub open spec fn checksum_spec(bytes: Seq<u8>) -> u64
    decreases bytes.len(),
{
    if bytes.len() == 0 {
        CHECKSUM_BASIS
    } else {
        (checksum_spec(bytes.drop_last()) ^ (bytes.last() as u64)).wrapping_mul(CHECKSUM_PRIME)
    }
}

/// Computes the checksum that detects a change of content.
pub fn checksum(bytes: &Vec<u8>) -> (r: u64)
    ensures
        r == checksum_spec(bytes@),
{
    let mut h: u64 = CHECKSUM_BASIS;
    let mut i: usize = 0;
    while i < bytes.len()
        invariant
            i <= bytes.len(),
            h == checksum_spec(bytes@.subrange(0, i as int)),
        decreases bytes.len() - i,
    {
        assert(bytes@.subrange(0, i + 1).drop_last() == bytes@.subrange(0, i as int));
        h = (h ^ (bytes[i] as u64)).wrapping_mul(CHECKSUM_PRIME);
        i = i + 1;
    }
    assert(bytes@.subrange(0, bytes.len() as int) == bytes@);
    h
}

/// The identity that entry `k` stands for, or `None` when its name does not parse.
pub open spec fn id_at(entries: Seq<SourceFile>, kind: BackendKind, k: int) -> Option<
    MigrationIdView,
> {
    if 0 <= k < entries.len() {
        match parse_spec(entries[k].name@, kind) {
            Ok(p) => Some(p.id),
            Err(_) => None,
        }
    } else {
        None
    }
}

/// Entry `k` is an "up" migration.
pub open spec fn is_up(entries: Seq<SourceFile>, kind: BackendKind, k: int) -> bool {
    id_at(entries, kind, k) matches Some(id) && id.direction == Direction::Up
}

/// Entry `k` is a "down" migration.
pub open spec fn is_down(entries: Seq<SourceFile>, kind: BackendKind, k: int) -> bool {
    id_at(entries, kind, k) matches Some(id) && id.direction == Direction::Down
}

/// Some entry's name is well-shaped but holds a reserved word.
pub open spec fn has_reserved_name(entries: Seq<SourceFile>, kind: BackendKind) -> bool {
    exists|k: int|
        0 <= k < entries.len() && parse_spec(#[trigger] entries[k].name@, kind) == Err::<
            ParsedView,
            FilenameError,
        >(FilenameError::ReservedWordInFilename)
}

/// Some "up" entry has no content.
pub open spec fn has_empty_up(entries: Seq<SourceFile>, kind: BackendKind) -> bool {
    exists|k: int| #[trigger] is_up(entries, kind, k) && entries[k].content@.len() == 0
}

/// Entries `j` and `k` are distinct, point the same way and share a version.
pub open spec fn clash(entries: Seq<SourceFile>, kind: BackendKind, j: int, k: int) -> bool {
    &&& j != k
    &&& id_at(entries, kind, j) matches Some(a)
    &&& id_at(entries, kind, k) matches Some(b)
    &&& a.direction == b.direction
    &&& a.version == b.version
}

/// Two distinct entries of one direction share a version.
pub open spec fn has_duplicate(entries: Seq<SourceFile>, kind: BackendKind) -> bool {
    exists|j: int, k: int| #[trigger] clash(entries, kind, j, k)
}

/// Entry `j` is the "up" that the "down" entry `k` reverses.
pub open spec fn pairs_with(entries: Seq<SourceFile>, kind: BackendKind, j: int, k: int) -> bool {
    &&& id_at(entries, kind, j) matches Some(a)
    &&& id_at(entries, kind, k) matches Some(b)
    &&& a.direction == Direction::Up
    &&& b.direction == Direction::Down
    &&& a.version == b.version
    &&& a.slug == b.slug
}

/// Entry `k` is a "down" with no "up" of its version and slug.
pub open spec fn is_orphan(entries: Seq<SourceFile>, kind: BackendKind, k: int) -> bool {
    is_down(entries, kind, k) && forall|j: int| !#[trigger] pairs_with(entries, kind, j, k)
}

/// Some "down" entry is an orphan.
pub open spec fn has_orphan(entries: Seq<SourceFile>, kind: BackendKind) -> bool {
    exists|k: int| #[trigger] is_orphan(entries, kind, k)
}

/// The error discovery reports for a directory, if any. Where several faults
/// are present the first of this order is reported: reserved word, empty
/// "up", duplicate version, orphan "down".
pub open spec fn discovery_error(entries: Seq<SourceFile>, kind: BackendKind) -> Option<
    DiscoveryError,
> {
    if has_reserved_name(entries, kind) {
        Some(DiscoveryError::ReservedWordInFilename)
    } else if has_empty_up(entries, kind) {
        Some(DiscoveryError::EmptyMigration)
    } else if has_duplicate(entries, kind) {
        Some(DiscoveryError::DuplicateVersion)
    } else if has_orphan(entries, kind) {
        Some(DiscoveryError::OrphanDownMigration)
    } else {
        None
    }
}

/// Index of the first "down" entry at or after `from` that reverses the given
/// version and slug, or `entries.len()` when there is none.
pub open spec fn first_reversal(
    entries: Seq<SourceFile>,
    kind: BackendKind,
    version: u64,
    slug: Seq<char>,
    from: int,
) -> int
    decreases entries.len() - from,
{
    if from < 0 || from >= entries.len() {
        entries.len() as int
    } else if id_at(entries, kind, from) == Some(
        MigrationIdView { version, slug, direction: Direction::Down },
    ) {
        from
    } else {
        first_reversal(entries, kind, version, slug, from + 1)
    }
}

/// The migration that the "up" entry `k` gives rise to.
pub open spec fn migration_at(entries: Seq<SourceFile>, kind: BackendKind, k: int) -> MigrationView {
    let p = parse_spec(entries[k].name@, kind).unwrap();
    let j = first_reversal(entries, kind, p.id.version, p.id.slug, 0);
    MigrationView {
        parsed: p,
        path: entries[k].name@,
        content: entries[k].content@,
        checksum: checksum_spec(entries[k].content@),
        down: if j < entries.len() {
            Some(
                ReversalView {
                    path: entries[j].name@,
                    content: entries[j].content@,
                    checksum: checksum_spec(entries[j].content@),
                },
            )
        } else {
            None
        },
    }
}

/// Number of "up" entries among the first `n`.
pub open spec fn up_count(entries: Seq<SourceFile>, kind: BackendKind, n: int) -> nat
    decreases n,
{
    if n <= 0 {
        0
    } else {
        up_count(entries, kind, n - 1) + if is_up(entries, kind, n - 1) {
            1nat
        } else {
            0nat
        }
    }
}

/// Strictly ascending by version.
pub open spec fn strictly_ascending(list: Seq<Migration>) -> bool {
    forall|i: int, j: int|
        0 <= i < j < list.len() ==> (#[trigger] list[i]).spec_version() < (
        #[trigger] list[j]).spec_version()
}

/// The contents of the migrations, in order.
pub open spec fn migration_views(list: Seq<Migration>) -> Seq<MigrationView> {
    Seq::new(list.len(), |i: int| list[i]@)
}

/// Strictly ascending by version.
pub open spec fn ascending(list: Seq<MigrationView>) -> bool {
    forall|i: int, j: int|
        0 <= i < j < list.len() ==> (#[trigger] list[i]).parsed.id.version < (
        #[trigger] list[j]).parsed.id.version
}

/// The migration stems from some "up" entry of the directory.
#[verifier::opaque]
pub open spec fn stems_from(m: Migration, entries: Seq<SourceFile>, kind: BackendKind) -> bool {
    exists|k: int| #[trigger] is_up(entries, kind, k) && m@ == migration_at(entries, kind, k)
}

/// The list holds the migration of the "up" entry `k`.
#[verifier::opaque]
pub open spec fn is_listed(
    list: Seq<Migration>,
    entries: Seq<SourceFile>,
    kind: BackendKind,
    k: int,
) -> bool {
    exists|i: int| 0 <= i < list.len() && (#[trigger] list[i])@ == migration_at(entries, kind, k)
}

/// `list` is what discovery yields for a fault-free directory: one migration
/// for each "up" entry and no other, strictly ascending by version.
pub open spec fn is_discovery_of(
    list: Seq<Migration>,
    entries: Seq<SourceFile>,
    kind: BackendKind,
) -> bool {
    &&& list.len() == up_count(entries, kind, entries.len() as int)
    &&& strictly_ascending(list)
    &&& forall|i: int| 0 <= i < list.len() ==> stems_from(#[trigger] list[i], entries, kind)
    &&& forall|k: int| #[trigger] is_up(entries, kind, k) ==> is_listed(list, entries, kind, k)
}

/// `parsed[k]` holds what the name of entry `k` parses to, `None` standing
/// for a name without the required shape; no name holds a reserved word.
spec fn parsed_matches(
    parsed: Seq<Option<Parsed>>,
    entries: Seq<SourceFile>,
    kind: BackendKind,
) -> bool {
    &&& parsed.len() == entries.len()
    &&& forall|k: int|
        0 <= k < parsed.len() ==> match #[trigger] parsed[k] {
            Some(p) => parse_spec(entries[k].name@, kind) == Ok::<ParsedView, FilenameError>(p@),
            None => parse_spec(entries[k].name@, kind) == Err::<ParsedView, FilenameError>(
                FilenameError::InvalidFilename,
            ),
        }
}

proof fn lemma_parsed_id(
    parsed: Seq<Option<Parsed>>,
    entries: Seq<SourceFile>,
    kind: BackendKind,
    k: int,
)
    requires
        parsed_matches(parsed, entries, kind),
        0 <= k < parsed.len(),
    ensures
        id_at(entries, kind, k) == match parsed[k] {
            Some(p) => Some(p.id@),
            None => None,
        },
{
}

/// Parses every name, skipping those without the required shape.
fn parse_all(entries: &Vec<SourceFile>, kind: BackendKind) -> (r: Option<Vec<Option<Parsed>>>)
    ensures
        match r {
            Some(parsed) => !has_reserved_name(entries@, kind) && parsed_matches(
                parsed@,
                entries@,
                kind,
            ),
            None => has_reserved_name(entries@, kind),
        },
{
    let mut parsed: Vec<Option<Parsed>> = Vec::new();
    let mut k: usize = 0;
    while k < entries.len()
        invariant
            k <= entries.len(),
            parsed.len() == k,
            forall|j: int|
                0 <= j < k ==> match #[trigger] parsed@[j] {
                    Some(p) => parse_spec(entries@[j].name@, kind) == Ok::<
                        ParsedView,
                        FilenameError,
                    >(p@),
                    None => parse_spec(entries@[j].name@, kind) == Err::<ParsedView, FilenameError>(
                        FilenameError::InvalidFilename,
                    ),
                },
        decreases entries.len() - k,
    {
        match parse(entries[k].name.as_str(), kind) {
            Ok(p) => {
                parsed.push(Some(p));
            },
            Err(FilenameError::InvalidFilename) => {
                parsed.push(None);
            },
            Err(FilenameError::ReservedWordInFilename) => {
                return None;
            },
        }
        k = k + 1;
    }
    assert(!has_reserved_name(entries@, kind)) by {
        if has_reserved_name(entries@, kind) {
            let j = choose|j: int|
                0 <= j < entries@.len() && parse_spec(#[trigger] entries@[j].name@, kind) == Err::<
                    ParsedView,
                    FilenameError,
                >(FilenameError::ReservedWordInFilename);
            assert(parsed@[j] is Some || parsed@[j] is None);
        }
    }
    Some(parsed)
}

/// Looks for an "up" entry without content.
fn find_empty_up(entries: &Vec<SourceFile>, parsed: &Vec<Option<Parsed>>, kind: BackendKind) -> (r:
    bool)
    requires
        parsed_matches(parsed@, entries@, kind),
    ensures
        r == has_empty_up(entries@, kind),
{
    let mut k: usize = 0;
    while k < entries.len()
        invariant
            k <= entries.len(),
            parsed_matches(parsed@, entries@, kind),
            forall|j: int|
                0 <= j < k ==> !(#[trigger] is_up(entries@, kind, j) && entries@[j].content@.len()
                    == 0),
        decreases entries.len() - k,
    {
        proof {
            lemma_parsed_id(parsed@, entries@, kind, k as int);
        }
        let up = match &parsed[k] {
            Some(p) => match p.id.direction {
                Direction::Up => true,
                Direction::Down => false,
            },
            None => false,
        };
        if up && entries[k].content.len() == 0 {
            assert(is_up(entries@, kind, k as int) && entries@[k as int].content@.len() == 0);
            return true;
        }
        k = k + 1;
    }
    false
}

/// Looks for two entries of one direction that share a version.
fn find_duplicate(entries: &Vec<SourceFile>, parsed: &Vec<Option<Parsed>>, kind: BackendKind) -> (r:
    bool)
    requires
        parsed_matches(parsed@, entries@, kind),
    ensures
        r == has_duplicate(entries@, kind),
{
    let n = parsed.len();
    let mut k: usize = 0;
    while k < n
        invariant
            k <= n,
            n == parsed.len(),
            parsed_matches(parsed@, entries@, kind),
            forall|a: int, b: int| 0 <= a < b < k ==> !#[trigger] clash(entries@, kind, a, b),
        decreases n - k,
    {
        proof {
            lemma_parsed_id(parsed@, entries@, kind, k as int);
        }
        if let Some(p) = &parsed[k] {
            let mut j: usize = 0;
            while j < k
                invariant
                    j <= k < n,
                    n == parsed.len(),
                    parsed_matches(parsed@, entries@, kind),
                    parsed@[k as int] == Some(*p),
                    forall|a: int| 0 <= a < j ==> !#[trigger] clash(entries@, kind, a, k as int),
                decreases k - j,
            {
                proof {
                    lemma_parsed_id(parsed@, entries@, kind, j as int);
                    lemma_parsed_id(parsed@, entries@, kind, k as int);
                }
                if let Some(q) = &parsed[j] {
                    if q.id.version == p.id.version && q.id.direction == p.id.direction {
                        assert(clash(entries@, kind, j as int, k as int));
                        return true;
                    }
                }
                j = j + 1;
            }
        }
        k = k + 1;
    }
    assert forall|a: int, b: int| !#[trigger] clash(entries@, kind, a, b) by {
        if clash(entries@, kind, a, b) {
            if a < b {
                assert(!clash(entries@, kind, a, b));
            } else {
                assert(clash(entries@, kind, b, a));
                assert(!clash(entries@, kind, b, a));
            }
        }
    }
    false
}

/// Looks for a "down" entry without its "up".
fn find_orphan(entries: &Vec<SourceFile>, parsed: &Vec<Option<Parsed>>, kind: BackendKind) -> (r:
    bool)
    requires
        parsed_matches(parsed@, entries@, kind),
    ensures
        r == has_orphan(entries@, kind),
{
    let n = parsed.len();
    let mut k: usize = 0;
    while k < n
        invariant
            k <= n,
            n == parsed.len(),
            parsed_matches(parsed@, entries@, kind),
            forall|a: int| 0 <= a < k ==> !#[trigger] is_orphan(entries@, kind, a),
        decreases n - k,
    {
        proof {
            lemma_parsed_id(parsed@, entries@, kind, k as int);
        }
        if let Some(p) = &parsed[k] {
            if p.id.direction == Direction::Down {
                let mut paired = false;
                let mut j: usize = 0;
                while j < n && !paired
                    invariant
                        j <= n,
                        k < n,
                        n == parsed.len(),
                        parsed_matches(parsed@, entries@, kind),
                        parsed@[k as int] == Some(*p),
                        p.id.direction == Direction::Down,
                        paired ==> exists|a: int| pairs_with(entries@, kind, a, k as int),
                        !paired ==> forall|a: int|
                            0 <= a < j ==> !#[trigger] pairs_with(entries@, kind, a, k as int),
                    decreases n - j + if paired { 0int } else { 1int },
                {
                    proof {
                        lemma_parsed_id(parsed@, entries@, kind, j as int);
                        lemma_parsed_id(parsed@, entries@, kind, k as int);
                    }
                    if let Some(q) = &parsed[j] {
                        if q.id.direction == Direction::Up && q.id.version == p.id.version
                            && q.id.slug == p.id.slug {
                            assert(pairs_with(entries@, kind, j as int, k as int));
                            paired = true;
                        }
                    }
                    if !paired {
                        j = j + 1;
                    }
                }
                if !paired {
                    assert(is_orphan(entries@, kind, k as int));
                    return true;
                }
            }
        }
        k = k + 1;
    }
    false
}

/// An independent copy of a byte string.
pub fn copy_bytes(v: &Vec<u8>) -> (r: Vec<u8>)
    ensures
        r@ == v@,
{
    let mut r: Vec<u8> = Vec::new();
    let mut i: usize = 0;
    while i < v.len()
        invariant
            i <= v.len(),
            r@ == v@.subrange(0, i as int),
        decreases v.len() - i,
    {
        r.push(v[i]);
        i = i + 1;
    }
    assert(v@.subrange(0, v.len() as int) == v@);
    r
}

impl Migration {
    /// An independent copy with the same content.
    pub fn duplicate(&self) -> (r: Migration)
        ensures
            r@ == self@,
    {
        Migration {
            parsed: self.parsed.duplicate(),
            path: self.path.clone(),
            content: copy_bytes(&self.content),
            checksum: self.checksum,
            down: match &self.down {
                Some(d) => Some(
                    Reversal {
                        path: d.path.clone(),
                        content: copy_bytes(&d.content),
                        checksum: d.checksum,
                    },
                ),
                None => None,
            },
        }
    }
}

/// Finds the first "down" entry that reverses the given version and slug.
fn find_reversal(
    entries: &Vec<SourceFile>,
    parsed: &Vec<Option<Parsed>>,
    kind: BackendKind,
    version: u64,
    slug: &String,
) -> (j: usize)
    requires
        parsed_matches(parsed@, entries@, kind),
    ensures
        j == first_reversal(entries@, kind, version, slug@, 0),
        j <= entries.len(),
{
    let n = parsed.len();
    let mut j: usize = 0;
    while j < n
        invariant
            j <= n,
            n == parsed.len(),
            parsed_matches(parsed@, entries@, kind),
            first_reversal(entries@, kind, version, slug@, 0) == first_reversal(
                entries@,
                kind,
                version,
                slug@,
                j as int,
            ),
        decreases n - j,
    {
        proof {
            lemma_parsed_id(parsed@, entries@, kind, j as int);
        }
        if let Some(q) = &parsed[j] {
            if q.id.direction == Direction::Down && q.id.version == version && q.id.slug == *slug {
                return j;
            }
        }
        j = j + 1;
    }
    j
}

/// Builds the migration of the "up" entry `k`, whose name parsed to `p`.
fn make_migration(
    entries: &Vec<SourceFile>,
    parsed: &Vec<Option<Parsed>>,
    kind: BackendKind,
    k: usize,
    p: &Parsed,
) -> (m: Migration)
    requires
        parsed_matches(parsed@, entries@, kind),
        k < entries.len(),
        parsed@[k as int] == Some(*p),
    ensures
        m@ == migration_at(entries@, kind, k as int),
{
    let j = find_reversal(entries, parsed, kind, p.id.version, &p.id.slug);
    let down = if j < entries.len() {
        Some(
            Reversal {
                path: entries[j].name.clone(),
                content: copy_bytes(&entries[j].content),
                checksum: checksum(&entries[j].content),
            },
        )
    } else {
        None
    };
    Migration {
        parsed: p.duplicate(),
        path: entries[k].name.clone(),
        content: copy_bytes(&entries[k].content),
        checksum: checksum(&entries[k].content),
        down,
    }
}

/// Puts a migration at its place in a list that ascends by version.
fn insert_sorted(list: &mut Vec<Migration>, m: Migration) -> (at: usize)
    requires
        strictly_ascending(old(list)@),
        forall|i: int|
            0 <= i < old(list)@.len() ==> (#[trigger] old(list)@[i]).spec_version()
                != m.spec_version(),
    ensures
        at <= old(list)@.len(),
        final(list)@ == old(list)@.insert(at as int, m),
        strictly_ascending(final(list)@),
{
    let mut at: usize = 0;
    while at < list.len() && list[at].version() < m.version()
        invariant
            at <= list.len(),
            *list == *old(list),
            forall|i: int| 0 <= i < at ==> (#[trigger] list@[i]).spec_version() < m.spec_version(),
        decreases list.len() - at,
    {
        at = at + 1;
    }
    let ghost before = list@;
    list.insert(at, m);
    assert forall|i: int, j: int| 0 <= i < j < list@.len() implies (#[trigger] list@[i]).spec_version()
        < (#[trigger] list@[j]).spec_version() by {
        let a = if i < at { before[i] } else if i == at { m } else { before[i - 1] };
        let b = if j < at { before[j] } else if j == at { m } else { before[j - 1] };
        assert(list@[i] == a && list@[j] == b);
        if j > at {
            assert(before[at as int].spec_version() != m.spec_version());
            if j - 1 > at {
                assert(before[at as int].spec_version() < before[j - 1].spec_version());
            }
        }
    }
    at
}

/// What putting the migration of entry `k` into the list does to the way
/// the list stands for the entries before `k`.
proof fn lemma_inserted(
    before: Seq<Migration>,
    origin: Seq<int>,
    at: int,
    m: Migration,
    entries: Seq<SourceFile>,
    kind: BackendKind,
    k: int,
)
    requires
        0 <= at <= before.len(),
        origin.len() == before.len(),
        is_up(entries, kind, k),
        m@ == migration_at(entries, kind, k),
        forall|i: int|
            0 <= i < before.len() ==> 0 <= #[trigger] origin[i] < k && is_up(
                entries,
                kind,
                origin[i],
            ) && before[i]@ == migration_at(entries, kind, origin[i]),
        forall|j: int|
            0 <= j < k && #[trigger] is_up(entries, kind, j) ==> is_listed(before, entries, kind, j),
    ensures
        forall|i: int|
            0 <= i < before.len() + 1 ==> 0 <= #[trigger] origin.insert(at, k)[i] < k + 1 && is_up(
                entries,
                kind,
                origin.insert(at, k)[i],
            ) && before.insert(at, m)[i]@ == migration_at(entries, kind, origin.insert(at, k)[i]),
        forall|j: int|
            0 <= j < k + 1 && #[trigger] is_up(entries, kind, j) ==> is_listed(
                before.insert(at, m),
                entries,
                kind,
                j,
            ),
{
    reveal(is_listed);
    let after = before.insert(at, m);
    let source = origin.insert(at, k);
    assert forall|j: int| 0 <= j < k + 1 && #[trigger] is_up(entries, kind, j) implies is_listed(
        after,
        entries,
        kind,
        j,
    ) by {
        if j < k {
            assert(is_listed(before, entries, kind, j));
            let i = choose|i: int|
                0 <= i < before.len() && (#[trigger] before[i])@ == migration_at(entries, kind, j);
            let moved = if i < at {
                i
            } else {
                i + 1
            };
            assert(after[moved] == before[i]);
        } else {
            assert(after[at] == m);
        }
    }
    assert forall|i: int| 0 <= i < before.len() + 1 implies 0 <= #[trigger] source[i] < k + 1
        && is_up(entries, kind, source[i]) && after[i]@ == migration_at(
        entries,
        kind,
        source[i],
    ) by {
        if i < at {
            assert(source[i] == origin[i] && after[i] == before[i]);
        } else if i > at {
            assert(source[i] == origin[i - 1] && after[i] == before[i - 1]);
        }
    }
}

/// Builds the ascending list of migrations of a fault-free directory.
fn build(entries: &Vec<SourceFile>, parsed: &Vec<Option<Parsed>>, kind: BackendKind) -> (list: Vec<
    Migration,
>)
    requires
        parsed_matches(parsed@, entries@, kind),
        !has_duplicate(entries@, kind),
    ensures
        is_discovery_of(list@, entries@, kind),
{
    let n = entries.len();
    let mut list: Vec<Migration> = Vec::new();
    let ghost mut origin: Seq<int> = Seq::empty();
    let mut k: usize = 0;
    while k < n
        invariant
            k <= n,
            n == entries.len(),
            parsed_matches(parsed@, entries@, kind),
            !has_duplicate(entries@, kind),
            list@.len() == up_count(entries@, kind, k as int),
            strictly_ascending(list@),
            origin.len() == list@.len(),
            forall|i: int|
                0 <= i < list@.len() ==> 0 <= #[trigger] origin[i] < k && is_up(
                    entries@,
                    kind,
                    origin[i],
                ) && list@[i]@ == migration_at(entries@, kind, origin[i]),
            forall|j: int|
                0 <= j < k && #[trigger] is_up(entries@, kind, j) ==> is_listed(
                    list@,
                    entries@,
                    kind,
                    j,
                ),
        decreases n - k,
    {
        proof {
            lemma_parsed_id(parsed@, entries@, kind, k as int);
        }
        let mut added = false;
        if let Some(p) = &parsed[k] {
            if p.id.direction == Direction::Up {
                let m = make_migration(entries, parsed, kind, k, p);
                let ghost before = list@;
                let ghost new = m;
                assert forall|i: int| 0 <= i < list@.len() implies (
                #[trigger] list@[i]).spec_version() != m.spec_version() by {
                    if list@[i].spec_version() == m.spec_version() {
                        assert(clash(entries@, kind, origin[i], k as int));
                    }
                }
                let at = insert_sorted(&mut list, m);
                proof {
                    lemma_inserted(before, origin, at as int, new, entries@, kind, k as int);
                    origin = origin.insert(at as int, k as int);
                }
                added = true;
            }
        }
        assert(added == is_up(entries@, kind, k as int));
        k = k + 1;
    }
    proof {
        assert forall|i: int| 0 <= i < list@.len() implies stems_from(
            #[trigger] list@[i],
            entries@,
            kind,
        ) by {
            reveal(stems_from);
            assert(is_up(entries@, kind, origin[i]));
        }
    }
    list
}

/// The "up" entry that a listed migration stems from.
proof fn lemma_origin(list: Seq<Migration>, entries: Seq<SourceFile>, kind: BackendKind, i: int) -> (k:
    int)
    requires
        is_discovery_of(list, entries, kind),
        0 <= i < list.len(),
    ensures
        is_up(entries, kind, k),
        list[i]@ == migration_at(entries, kind, k),
{
    reveal(stems_from);
    assert(stems_from(list[i], entries, kind));
    choose|k: int| #[trigger] is_up(entries, kind, k) && list[i]@ == migration_at(entries, kind, k)
}

/// The position at which a list holds the migration of an "up" entry.
proof fn lemma_position(list: Seq<Migration>, entries: Seq<SourceFile>, kind: BackendKind, k: int) -> (i:
    int)
    requires
        is_discovery_of(list, entries, kind),
        is_up(entries, kind, k),
    ensures
        0 <= i < list.len(),
        list[i]@ == migration_at(entries, kind, k),
{
    reveal(is_listed);
    assert(is_listed(list, entries, kind, k));
    choose|i: int| 0 <= i < list.len() && (#[trigger] list[i])@ == migration_at(entries, kind, k)
}

/// In two lists that discovery may yield for one directory, the migrations at
/// one position have the same version.
proof fn lemma_same_versions(
    a: Seq<Migration>,
    b: Seq<Migration>,
    entries: Seq<SourceFile>,
    kind: BackendKind,
    i: int,
)
    requires
        is_discovery_of(a, entries, kind),
        is_discovery_of(b, entries, kind),
        0 <= i < a.len(),
    ensures
        a[i].spec_version() == b[i].spec_version(),
    decreases i,
{
    assert forall|j: int| 0 <= j < i implies a[j].spec_version() == b[j].spec_version() by {
        lemma_same_versions(a, b, entries, kind, j);
    }
    let ka = lemma_origin(a, entries, kind, i);
    let ib = lemma_position(b, entries, kind, ka);
    assert(b[ib].spec_version() == a[i].spec_version());
    if ib < i {
        assert(a[ib].spec_version() < a[i].spec_version());
    }
    let kb = lemma_origin(b, entries, kind, i);
    let ia = lemma_position(a, entries, kind, kb);
    assert(a[ia].spec_version() == b[i].spec_version());
    if ia < i {
        assert(b[ia].spec_version() < b[i].spec_version());
    }
    if ib > i {
        assert(b[i].spec_version() < b[ib].spec_version());
    }
    if ia > i {
        assert(a[i].spec_version() < a[ia].spec_version());
    }
}

/// Discovery is a function of the directory: two lists that it may yield for
/// the same files hold, position by position, the same migrations. Running
/// it again on an unchanged directory therefore changes nothing.
pub proof fn lemma_discovery_unique(
    a: Seq<Migration>,
    b: Seq<Migration>,
    entries: Seq<SourceFile>,
    kind: BackendKind,
)
    requires
        is_discovery_of(a, entries, kind),
        is_discovery_of(b, entries, kind),
    ensures
        a.len() == b.len(),
        forall|i: int| 0 <= i < a.len() ==> (#[trigger] a[i])@ == b[i]@,
{
    assert forall|i: int| 0 <= i < a.len() implies (#[trigger] a[i])@ == b[i]@ by {
        lemma_same_versions(a, b, entries, kind, i);
        let ka = lemma_origin(a, entries, kind, i);
        let ib = lemma_position(b, entries, kind, ka);
        assert(b[ib].spec_version() == b[i].spec_version());
        if ib < i {
            assert(b[ib].spec_version() < b[i].spec_version());
        }
        if ib > i {
            assert(b[i].spec_version() < b[ib].spec_version());
        }
    }
}

/// The contents of the list that discovery yields for a fault-free directory.
pub open spec fn discovery_of(entries: Seq<SourceFile>, kind: BackendKind) -> Seq<MigrationView> {
    migration_views(choose|list: Seq<Migration>| is_discovery_of(list, entries, kind))
}

/// Whatever list discovery yields for a directory has the contents
/// `discovery_of` names, and they ascend strictly by version.
pub proof fn lemma_discovery_of(list: Seq<Migration>, entries: Seq<SourceFile>, kind: BackendKind)
    requires
        is_discovery_of(list, entries, kind),
    ensures
        migration_views(list) == discovery_of(entries, kind),
        ascending(discovery_of(entries, kind)),
        discovery_of(entries, kind).len() == up_count(entries, kind, entries.len() as int),
{
    let chosen = choose|list: Seq<Migration>| is_discovery_of(list, entries, kind);
    lemma_discovery_unique(list, chosen, entries, kind);
    assert(migration_views(list) =~= migration_views(chosen));
    assert forall|i: int, j: int| 0 <= i < j < list.len() implies (#[trigger] migration_views(
        list,
    )[i]).parsed.id.version < (#[trigger] migration_views(list)[j]).parsed.id.version by {
        assert(list[i].spec_version() < list[j].spec_version());
    }
}

/// Every migration of a discovered list is an "up" migration that carries
/// the checksum of its content, and that content is not empty.
pub proof fn lemma_discovered_content(
    list: Seq<Migration>,
    entries: Seq<SourceFile>,
    kind: BackendKind,
    i: int,
)
    requires
        !has_empty_up(entries, kind),
        is_discovery_of(list, entries, kind),
        0 <= i < list.len(),
    ensures
        list[i].checksum == checksum_spec(list[i].content@),
        list[i].content@.len() > 0,
        list[i].parsed.id.direction == Direction::Up,
{
    let k = lemma_origin(list, entries, kind, i);
}

/// Turns the files of a migration directory into the ordered list of
/// migrations. Files whose names lack the required shape are passed over.
/// Each "up" file becomes one migration, joined with the "down" file of its
/// version and slug where there is one; the list ascends strictly by version.
/// An empty directory gives an empty list.
pub fn discover(entries: &Vec<SourceFile>, kind: BackendKind) -> (r: Result<
    Vec<Migration>,
    DiscoveryError,
>)
    ensures
        match r {
            Ok(list) => discovery_error(entries@, kind) is None && is_discovery_of(
                list@,
                entries@,
                kind,
            ) && migration_views(list@) == discovery_of(entries@, kind),
            Err(e) => discovery_error(entries@, kind) == Some(e),
        },
{
    let parsed = match parse_all(entries, kind) {
        Some(parsed) => parsed,
        None => { return Err(DiscoveryError::ReservedWordInFilename); },
    };
    if find_empty_up(entries, &parsed, kind) {
        return Err(DiscoveryError::EmptyMigration);
    }
    if find_duplicate(entries, &parsed, kind) {
        return Err(DiscoveryError::DuplicateVersion);
    }
    if find_orphan(entries, &parsed, kind) {
        return Err(DiscoveryError::OrphanDownMigration);
    }
    let list = build(entries, &parsed, kind);
    proof {
        lemma_discovery_of(list@, entries@, kind);
    }
    Ok(list)
}

} // verus!
