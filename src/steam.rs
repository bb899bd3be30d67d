//! The platform's libraries: the index of installed apps that a scan yields,
//! and how ready the game is given that index.

use linked_hash_map::LinkedHashMap;
use crate::utils::{decimal, push_decimal};
use vstd::prelude::*;

verus! {

#[verifier::external_type_specification]
#[verifier::external_body]
#[verifier::reject_recursive_types(K)]
#[verifier::reject_recursive_types(V)]
#[verifier::reject_recursive_types(S)]
pub struct ExLinkedHashMap<K, V, S>(LinkedHashMap<K, V, S>);

/// A map from app ids to positions in a scan.
pub type PositionMap = LinkedHashMap<u32, usize>;

/// What a map from app ids to positions in a scan holds.
pub uninterp spec fn positions_of(m: PositionMap) -> Map<u32, usize>;

/// Relies on `LinkedHashMap::new`: a new map holds no entry.
#[verifier::external_body]
fn positions_new() -> (r: PositionMap)
    ensures
        positions_of(r).dom() == Set::<u32>::empty(),
{
    LinkedHashMap::new()
}

/// Relies on `LinkedHashMap::insert`: the key maps to the new value afterwards,
/// replacing any earlier value; the other keys keep theirs.
#[verifier::external_body]
fn positions_insert(m: &mut PositionMap, k: u32, v: usize)
    ensures
        positions_of(*final(m)) == positions_of(*old(m)).insert(k, v),
{
    m.insert(k, v);
}

/// Relies on `LinkedHashMap::get`: the value stored under the key, if any.
#[verifier::external_body]
fn positions_get(m: &PositionMap, k: u32) -> (r: Option<usize>)
    ensures
        r == (if positions_of(*m).contains_key(k) {
            Some(positions_of(*m)[k])
        } else {
            None::<usize>
        }),
{
    m.get(&k).copied()
}

/// One app that a scan found in a library.
#[derive(Clone, Debug)]
pub struct AppRecord {
    pub app_id: u32,
    pub name: Option<String>,
    /// The absolute install directory.
    pub install_dir: String,
}

/// Ids strictly ascending, hence unique.
pub open spec fn ids_ascending(s: Seq<AppRecord>) -> bool {
    forall|i: int, j: int| 0 <= i < j < s.len() ==> s[i].app_id < s[j].app_id
}

/// Record `j` of a scan is the last one met with its id: it is the one kept.
pub open spec fn is_latest(recs: Seq<AppRecord>, j: int) -> bool {
    &&& 0 <= j < recs.len()
    &&& forall|l: int| j < l < recs.len() ==> recs[l].app_id != recs[j].app_id
}

/// `e` is a record of `recs` that is the last with its id.
pub open spec fn kept_from(recs: Seq<AppRecord>, e: AppRecord) -> bool {
    exists|j: int| #[trigger] is_latest(recs, j) && e == recs[j]
}

/// `x` occurs in `s`.
pub open spec fn occurs_in(s: Seq<AppRecord>, x: AppRecord) -> bool {
    exists|i: int| 0 <= i < s.len() && #[trigger] s[i] == x
}

/// `entries` holds each record of `recs` that is the last with its id, and
/// nothing else, in ascending order of id.
pub open spec fn is_index_of(entries: Seq<AppRecord>, recs: Seq<AppRecord>) -> bool {
    &&& ids_ascending(entries)
    &&& forall|i: int| 0 <= i < entries.len() ==> #[trigger] kept_from(recs, entries[i])
    &&& forall|j: int| #[trigger] is_latest(recs, j) ==> occurs_in(entries, recs[j])
}

/// Each element of `a` occurs in `b`.
pub open spec fn members_within(a: Seq<AppRecord>, b: Seq<AppRecord>) -> bool {
    forall|i: int| 0 <= i < a.len() ==> #[trigger] occurs_in(b, a[i])
}

/// The index of installed apps, ascending by id.
pub struct LibraryIndex {
    entries: Vec<AppRecord>,
}

impl View for LibraryIndex {
    type V = Seq<AppRecord>;

    closed spec fn view(&self) -> Seq<AppRecord> {
        self.entries@
    }
}

impl LibraryIndex {
    #[verifier::type_invariant]
    spec fn inv(&self) -> bool {
        ids_ascending(self.entries@)
    }
}

/// Inserts `rec` into `out` where its id keeps the ids ascending.
fn insert_by_id(out: &mut Vec<AppRecord>, rec: AppRecord)
    requires
        ids_ascending(old(out)@),
        forall|i: int| 0 <= i < old(out)@.len() ==> old(out)@[i].app_id != rec.app_id,
    ensures
        ids_ascending(final(out)@),
        exists|p: int| 0 <= p <= old(out)@.len() && final(out)@ == old(out)@.insert(p, rec),
{
    let mut p: usize = 0;
    while p < out.len() && out[p].app_id < rec.app_id
        invariant
            p <= out@.len(),
            forall|i: int| 0 <= i < p ==> out@[i].app_id < rec.app_id,
        decreases out@.len() - p,
    {
        p += 1;
    }
    let ghost before = out@;
    out.insert(p, rec);
    assert(p < before.len() ==> before[p as int].app_id > rec.app_id);
    assert(ids_ascending(out@)) by {
        assert forall|i: int, j: int| 0 <= i < j < out@.len() implies out@[i].app_id < out@[j].app_id by {
            if j < p {
            } else if j == p {
            } else if i < p {
            } else if i == p {
                assert(before[p as int].app_id <= before[j - 1].app_id);
            } else {
            }
        }
    }
}

/// `e` is a record of `recs`, at `from` or after, that is the last with its id.
pub open spec fn kept_from_tail(recs: Seq<AppRecord>, from: int, e: AppRecord) -> bool {
    exists|j: int| from <= j && #[trigger] is_latest(recs, j) && e == recs[j]
}

impl LibraryIndex {
    /// Builds the index from the records of a scan, in the order the scan met
    /// them: of several records with one id the last one is kept, and the
    /// index lists the kept records in ascending order of id.
    pub fn from_records(mut records: Vec<AppRecord>) -> (r: LibraryIndex)
        ensures
            is_index_of(r@, records@),
    {
        let ghost recs = records@;
        let n = records.len();
        let mut latest = positions_new();
        let mut j: usize = 0;
        while j < n
            invariant
                n == recs.len(),
                records@ == recs,
                j <= n,
                forall|k: u32| #[trigger]
                    positions_of(latest).contains_key(k) ==> {
                        let p = positions_of(latest)[k] as int;
                        &&& p < j
                        &&& recs[p].app_id == k
                        &&& forall|l: int| p < l < j ==> recs[l].app_id != k
                    },
                forall|l: int|
                    0 <= l < j ==> positions_of(latest).contains_key(#[trigger] recs[l].app_id),
            decreases n - j,
        {
            positions_insert(&mut latest, records[j].app_id, j);
            j += 1;
        }
        assert forall|l: int| 0 <= l < n implies #[trigger] is_latest(recs, l) <==> positions_of(
            latest,
        )[recs[l].app_id] as int == l by {
            let k = recs[l].app_id;
            assert(positions_of(latest).contains_key(k));
            let p = positions_of(latest)[k] as int;
            if is_latest(recs, l) {
                if p > l {
                    assert(recs[p].app_id == k);
                }
            }
        }
        let ghost pos = positions_of(latest);
        let mut out: Vec<AppRecord> = Vec::new();
        let mut i: usize = n;
        while i > 0
            invariant
                n == recs.len(),
                i <= n,
                records@ == recs.take(i as int),
                pos == positions_of(latest),
                forall|l: int| 0 <= l < n ==> pos.contains_key(#[trigger] recs[l].app_id),
                forall|l: int|
                    0 <= l < n ==> (#[trigger] is_latest(recs, l) <==> pos[recs[l].app_id] as int
                        == l),
                ids_ascending(out@),
                forall|q: int| 0 <= q < out@.len() ==> #[trigger] kept_from_tail(recs, i as int, out@[q]),
                forall|l: int| i <= l && #[trigger] is_latest(recs, l) ==> occurs_in(out@, recs[l]),
            decreases i,
        {
            i -= 1;
            assert(records@.last() == recs[i as int]);
            match records.pop() {
                Some(rec) => {
                    assert(rec == recs[i as int]);
                    assert(pos.contains_key(recs[i as int].app_id));
                    match positions_get(&latest, rec.app_id) {
                        Some(p) => {
                            if p == i {
                                assert(is_latest(recs, i as int));
                                let ghost before = out@;
                                assert forall|q: int| 0 <= q < before.len() implies before[q].app_id
                                    != rec.app_id by {
                                    assert(kept_from_tail(recs, i + 1, before[q]));
                                    let l = choose|l: int| i + 1 <= l && #[trigger] is_latest(recs, l) && before[q] == recs[l];
                                }
                                insert_by_id(&mut out, rec);
                                let ghost pp = choose|pp: int| 0 <= pp <= before.len() && out@ == before.insert(pp, recs[i as int]);
                                assert forall|q: int| 0 <= q < out@.len() implies #[trigger] kept_from_tail(recs, i as int, out@[q]) by {
                                    if q < pp {
                                        assert(kept_from_tail(recs, i + 1, before[q]));
                                        let l = choose|l: int| i + 1 <= l && #[trigger] is_latest(recs, l) && before[q] == recs[l];
                                        assert(is_latest(recs, l) && out@[q] == recs[l]);
                                    } else if q == pp {
                                        assert(is_latest(recs, i as int) && out@[q] == recs[i as int]);
                                    } else {
                                        assert(kept_from_tail(recs, i + 1, before[q - 1]));
                                        let l = choose|l: int| i + 1 <= l && #[trigger] is_latest(recs, l) && before[q - 1] == recs[l];
                                        assert(is_latest(recs, l) && out@[q] == recs[l]);
                                    }
                                }
                                assert forall|l: int| i <= l && #[trigger] is_latest(recs, l) implies occurs_in(out@, recs[l]) by {
                                    if l == i {
                                        assert(out@[pp] == recs[l]);
                                    } else {
                                        assert(occurs_in(before, recs[l]));
                                        let k = choose|k: int| 0 <= k < before.len() && #[trigger] before[k] == recs[l];
                                        if k < pp {
                                            assert(out@[k] == recs[l]);
                                        } else {
                                            assert(out@[k + 1] == recs[l]);
                                        }
                                    }
                                }
                            } else {
                                assert(!is_latest(recs, i as int));
                                assert forall|q: int| 0 <= q < out@.len() implies #[trigger] kept_from_tail(recs, i as int, out@[q]) by {
                                    assert(kept_from_tail(recs, i + 1, out@[q]));
                                    let l = choose|l: int| i + 1 <= l && #[trigger] is_latest(recs, l) && out@[q] == recs[l];
                                    assert(is_latest(recs, l));
                                }
                            }
                        },
                        None => {},
                    }
                },
                None => {},
            }
            assert(records@ =~= recs.take(i as int));
        }
        assert forall|q: int| 0 <= q < out@.len() implies #[trigger] kept_from(recs, out@[q]) by {
            assert(kept_from_tail(recs, 0, out@[q]));
            let l = choose|l: int| 0 <= l && #[trigger] is_latest(recs, l) && out@[q] == recs[l];
            assert(is_latest(recs, l));
        }
        LibraryIndex { entries: out }
    }
}

proof fn lemma_ascending_prefix(a: Seq<AppRecord>, b: Seq<AppRecord>, n: int)
    requires
        ids_ascending(a),
        ids_ascending(b),
        members_within(a, b),
        members_within(b, a),
        0 <= n,
    ensures
        forall|k: int| 0 <= k < n && k < a.len() && k < b.len() ==> #[trigger] a[k] == b[k],
        a.len() < n || b.len() < n ==> a.len() == b.len(),
    decreases n,
{
    if n > 0 {
        lemma_ascending_prefix(a, b, n - 1);
        let k = n - 1;
        if k < a.len() && k < b.len() {
            assert(occurs_in(b, a[k]));
            let q = choose|q: int| 0 <= q < b.len() && #[trigger] b[q] == a[k];
            if q < k {
                assert(a[q] == b[q]);
                assert(a[q].app_id < a[k].app_id);
            } else if q > k {
                assert(b[k].app_id < b[q].app_id);
                assert(occurs_in(a, b[k]));
                let r = choose|r: int| 0 <= r < a.len() && #[trigger] a[r] == b[k];
                if r >= k {
                    assert(a[r].app_id >= a[k].app_id);
                } else {
                    assert(a[r] == b[r]);
                    assert(b[r].app_id < b[k].app_id);
                }
            }
            assert(q == k);
        } else if k == a.len() && k < b.len() {
            assert(occurs_in(a, b[k]));
            let r = choose|r: int| 0 <= r < a.len() && #[trigger] a[r] == b[k];
            assert(a[r] == b[r]);
            assert(b[r].app_id < b[k].app_id);
        } else if k == b.len() && k < a.len() {
            assert(occurs_in(b, a[k]));
            let r = choose|r: int| 0 <= r < b.len() && #[trigger] b[r] == a[k];
            assert(a[r] == b[r]);
            assert(a[r].app_id < a[k].app_id);
        }
    }
}

/// Two ascending sequences of records with the same members are equal.
pub proof fn lemma_ascending_same_members(a: Seq<AppRecord>, b: Seq<AppRecord>)
    requires
        ids_ascending(a),
        ids_ascending(b),
        members_within(a, b),
        members_within(b, a),
    ensures
        a == b,
{
    lemma_ascending_prefix(a, b, (a.len() + b.len() + 1) as int);
    assert(a =~= b);
}

/// The index of a scan is determined by the scan: two indices of the same
/// records are equal.
pub proof fn lemma_index_unique(recs: Seq<AppRecord>, e1: Seq<AppRecord>, e2: Seq<AppRecord>)
    requires
        is_index_of(e1, recs),
        is_index_of(e2, recs),
    ensures
        e1 == e2,
{
    assert forall|i: int| 0 <= i < e1.len() implies #[trigger] occurs_in(e2, e1[i]) by {
        assert(kept_from(recs, e1[i]));
        let j = choose|j: int| #[trigger] is_latest(recs, j) && e1[i] == recs[j];
        assert(occurs_in(e2, recs[j]));
    }
    assert forall|i: int| 0 <= i < e2.len() implies #[trigger] occurs_in(e1, e2[i]) by {
        assert(kept_from(recs, e2[i]));
        let j = choose|j: int| #[trigger] is_latest(recs, j) && e2[i] == recs[j];
        assert(occurs_in(e1, recs[j]));
    }
    lemma_ascending_same_members(e1, e2);
}

/// No two records of `recs` share an id.
pub open spec fn unique_ids(recs: Seq<AppRecord>) -> bool {
    forall|i: int, j: int| 0 <= i < j < recs.len() ==> recs[i].app_id != recs[j].app_id
}

/// Scanning libraries whose apps each have their own id yields the same index
/// whatever order the scan meets the apps in: two scans that found the same
/// records give equal indices.
pub proof fn lemma_scan_order_irrelevant(
    r1: Seq<AppRecord>,
    r2: Seq<AppRecord>,
    e1: Seq<AppRecord>,
    e2: Seq<AppRecord>,
)
    requires
        unique_ids(r1),
        unique_ids(r2),
        r1.to_set() == r2.to_set(),
        is_index_of(e1, r1),
        is_index_of(e2, r2),
    ensures
        e1 == e2,
{
    assert forall|i: int| 0 <= i < e1.len() implies #[trigger] occurs_in(e2, e1[i]) by {
        assert(kept_from(r1, e1[i]));
        let j = choose|j: int| #[trigger] is_latest(r1, j) && e1[i] == r1[j];
        assert(r1.to_set().contains(r1[j]));
        assert(r2.to_set().contains(e1[i]));
        let k = choose|k: int| 0 <= k < r2.len() && r2[k] == e1[i];
        assert(is_latest(r2, k));
        assert(occurs_in(e2, r2[k]));
    }
    assert forall|i: int| 0 <= i < e2.len() implies #[trigger] occurs_in(e1, e2[i]) by {
        assert(kept_from(r2, e2[i]));
        let j = choose|j: int| #[trigger] is_latest(r2, j) && e2[i] == r2[j];
        assert(r2.to_set().contains(r2[j]));
        assert(r1.to_set().contains(e2[i]));
        let k = choose|k: int| 0 <= k < r1.len() && r1[k] == e2[i];
        assert(is_latest(r1, k));
        assert(occurs_in(e1, r1[k]));
    }
    lemma_ascending_same_members(e1, e2);
}

/// Some record of `s` has the id.
pub open spec fn has_app(s: Seq<AppRecord>, id: u32) -> bool {
    exists|i: int| 0 <= i < s.len() && #[trigger] s[i].app_id == id
}

/// The install directory recorded for the id (meaningful where `has_app`).
pub open spec fn install_dir_of(s: Seq<AppRecord>, id: u32) -> Seq<char> {
    s[choose|i: int| 0 <= i < s.len() && #[trigger] s[i].app_id == id].install_dir@
}

impl LibraryIndex {
    /// The index of no app.
    pub fn empty() -> (r: LibraryIndex)
        ensures
            r@ == Seq::<AppRecord>::empty(),
    {
        LibraryIndex { entries: Vec::new() }
    }

    /// The number of apps in the index.
    pub fn len(&self) -> (r: usize)
        ensures
            r == self@.len(),
            ids_ascending(self@),
    {
        proof {
            use_type_invariant(self);
        }
        self.entries.len()
    }

    /// The `i`-th app, counting in ascending order of id.
    pub fn entry(&self, i: usize) -> (r: &AppRecord)
        requires
            i < self@.len(),
        ensures
            *r == self@[i as int],
    {
        &self.entries[i]
    }

    /// The record of the app with the id, if the index holds one.
    pub fn find(&self, app_id: u32) -> (r: Option<&AppRecord>)
        ensures
            r is None <==> !has_app(self@, app_id),
            r matches Some(e) ==> e.app_id == app_id && occurs_in(self@, *e)
                && e.install_dir@ == install_dir_of(self@, app_id),
    {
        proof {
            use_type_invariant(self);
        }
        let mut i: usize = 0;
        while i < self.entries.len()
            invariant
                i <= self.entries@.len(),
                ids_ascending(self.entries@),
                forall|k: int| 0 <= k < i ==> self.entries@[k].app_id != app_id,
            decreases self.entries@.len() - i,
        {
            if self.entries[i].app_id == app_id {
                let ghost c = choose|c: int| 0 <= c < self@.len() && #[trigger] self@[c].app_id == app_id;
                assert(self@[i as int].app_id == app_id);
                assert(c == i) by {
                    if c < i {
                    } else if c > i {
                        assert(self.entries@[i as int].app_id < self.entries@[c].app_id);
                    }
                }
                return Some(&self.entries[i]);
            }
            i += 1;
        }
        None
    }
}

/// How ready the game is to be launched.
#[derive(Debug, Clone, Copy, PartialEq, Eq, Structural)]
pub enum ReadyState {
    /// The platform itself could not be found.
    NoSteam,
    /// The platform was found, the game is in none of its libraries.
    NoGame,
    /// The game was found.
    Ready,
}

/// Why the server could not be started.
#[derive(Debug, Clone, Copy, PartialEq, Eq, Structural)]
pub enum ServerCreationError {
    /// The install directory holds no server binary.
    NoExecutableFound,
    /// The host is not the one system the server runs on.
    UnsupportedOS,
    /// The system refused to start the process.
    SpawnFailed,
}

/// Why a scan of the libraries failed, or what it lacked.
#[derive(Debug, Clone)]
pub enum DiscoveryError {
    /// The platform could not be located.
    PlatformNotFound,
    /// A library root was found but its layout is not valid.
    InvalidRoot,
    /// The platform holds no app with this id.
    MissingTarget { app_id: u32 },
    /// Any other failure, with its description.
    Unknown { message: String },
}

/// Merges the records that a scan of the libraries met, in the order met,
/// into the index; a failed scan stays failed.
pub fn get_available_apps(scanned: Result<Vec<AppRecord>, DiscoveryError>) -> (r: Result<
    LibraryIndex,
    DiscoveryError,
>)
    ensures
        match scanned {
            Ok(recs) => r matches Ok(index) && is_index_of(index@, recs@),
            Err(e) => r matches Err(e2) && e2 == e,
        },
{
    match scanned {
        Ok(recs) => Ok(LibraryIndex::from_records(recs)),
        Err(e) => Err(e),
    }
}

/// The (id, install directory) pairs of the index, in ascending order of id.
pub fn get_steam_apps_id_with_paths(apps: &LibraryIndex) -> (r: Vec<(u32, String)>)
    ensures
        r@.len() == apps@.len(),
        forall|i: int|
            0 <= i < r@.len() ==> (#[trigger] r@[i]).0 == apps@[i].app_id && r@[i].1@
                == apps@[i].install_dir@,
{
    let mut r: Vec<(u32, String)> = Vec::new();
    let mut i: usize = 0;
    while i < apps.len()
        invariant
            i <= apps@.len(),
            r@.len() == i,
            forall|k: int|
                0 <= k < i ==> (#[trigger] r@[k]).0 == apps@[k].app_id && r@[k].1@
                    == apps@[k].install_dir@,
        decreases apps@.len() - i,
    {
        let e = apps.entry(i);
        r.push((e.app_id, e.install_dir.clone()));
        i += 1;
    }
    r
}

/// The install directory of the app with the id, or `MissingTarget` with
/// that id when the index holds no such app.
pub fn get_steam_dir_for_app(target_app_id: &u32, apps: &LibraryIndex) -> (r: Result<
    String,
    DiscoveryError,
>)
    ensures
        match r {
            Ok(path) => has_app(apps@, *target_app_id) && path@ == install_dir_of(
                apps@,
                *target_app_id,
            ),
            Err(e) => !has_app(apps@, *target_app_id) && e == (DiscoveryError::MissingTarget {
                app_id: *target_app_id,
            }),
        },
{
    match apps.find(*target_app_id) {
        Some(e) => Ok(e.install_dir.clone()),
        None => Err(DiscoveryError::MissingTarget { app_id: *target_app_id }),
    }
}

/// The outcome of resolving how ready the game is, with what to show the user.
pub struct Resolution {
    pub state: ReadyState,
    pub error_title: String,
    pub error_msg: String,
    /// The game's install directory; empty unless `Ready`.
    pub game_path: String,
    /// Every app found, to pick another from; empty unless the scan succeeded
    /// without the game.
    pub available_apps: LibraryIndex,
}

pub open spec fn steam_missing_title() -> Seq<char> {
    "Steam not found"@
}

pub open spec fn steam_missing_message() -> Seq<char> {
    "Unable to find SteamLibrary directory. Are you sure you have Steam installed?"@
}

pub open spec fn game_missing_title() -> Seq<char> {
    "Game not found"@
}

/// The message for an app id that no library holds.
pub open spec fn game_missing_message(app_id: u32) -> Seq<char> {
    "Unable to find app with id "@ + decimal(app_id as nat) + ". \nAre you sure it is installed?"@
}

pub open spec fn unknown_error_title() -> Seq<char> {
    "Unknown error"@
}

/// The message that reports an unclassified failure verbatim.
pub open spec fn unknown_error_message(message: Seq<char>) -> Seq<char> {
    "Unknown error occurred: "@ + message
}

/// The scan's outcome, with the index seen as its entries.
pub open spec fn scan_view(scan: Result<LibraryIndex, DiscoveryError>) -> Result<
    Seq<AppRecord>,
    DiscoveryError,
> {
    match scan {
        Ok(index) => Ok(index@),
        Err(e) => Err(e),
    }
}

/// `r` holds these values.
pub open spec fn shows(
    r: Resolution,
    state: ReadyState,
    title: Seq<char>,
    message: Seq<char>,
    path: Seq<char>,
    apps: Seq<AppRecord>,
) -> bool {
    &&& r.state == state
    &&& r.error_title@ == title
    &&& r.error_msg@ == message
    &&& r.game_path@ == path
    &&& r.available_apps@ == apps
}

/// What resolving `target` against the outcome of a scan gives.
pub open spec fn resolves_to(
    target: u32,
    scan: Result<Seq<AppRecord>, DiscoveryError>,
    r: Resolution,
) -> bool {
    let none = Seq::<char>::empty();
    let no_apps = Seq::<AppRecord>::empty();
    match scan {
        Ok(entries) => if has_app(entries, target) {
            shows(r, ReadyState::Ready, none, none, install_dir_of(entries, target), no_apps)
        } else {
            shows(
                r,
                ReadyState::NoGame,
                game_missing_title(),
                game_missing_message(target),
                none,
                entries,
            )
        },
        Err(DiscoveryError::PlatformNotFound) | Err(DiscoveryError::InvalidRoot) => shows(
            r,
            ReadyState::NoSteam,
            steam_missing_title(),
            steam_missing_message(),
            none,
            no_apps,
        ),
        Err(DiscoveryError::MissingTarget { app_id }) => shows(
            r,
            ReadyState::NoGame,
            game_missing_title(),
            game_missing_message(app_id),
            none,
            no_apps,
        ),
        Err(DiscoveryError::Unknown { message }) => shows(
            r,
            ReadyState::NoSteam,
            unknown_error_title(),
            unknown_error_message(message@),
            none,
            no_apps,
        ),
    }
}

fn missing_game_message(app_id: u32) -> (r: String)
    ensures
        r@ == game_missing_message(app_id),
{
    let mut r = String::from_str("Unable to find app with id ");
    push_decimal(&mut r, app_id as u64);
    r.append(". \nAre you sure it is installed?");
    r
}

fn resolution(
    state: ReadyState,
    title: &str,
    message: String,
    apps: LibraryIndex,
) -> (r: Resolution)
    ensures
        shows(r, state, title@, message@, Seq::empty(), apps@),
{
    Resolution {
        state,
        error_title: String::from_str(title),
        error_msg: message,
        game_path: String::new(),
        available_apps: apps,
    }
}

/// Resolves how ready the game with id `target` is from the outcome of a
/// scan of the libraries: `Ready` with its install directory when the index
/// holds it; `NoGame` with every app found when it does not; `NoSteam` when
/// the platform could not be found or the scan failed otherwise.
pub fn resolve(target: u32, scan: Result<LibraryIndex, DiscoveryError>) -> (r: Resolution)
    ensures
        resolves_to(target, scan_view(scan), r),
{
    match scan {
        Ok(apps) => match get_steam_dir_for_app(&target, &apps) {
            Ok(path) => Resolution {
                state: ReadyState::Ready,
                error_title: String::new(),
                error_msg: String::new(),
                game_path: path,
                available_apps: LibraryIndex::empty(),
            },
            Err(_) => resolution(
                ReadyState::NoGame,
                "Game not found",
                missing_game_message(target),
                apps,
            ),
        },
        Err(DiscoveryError::PlatformNotFound) | Err(DiscoveryError::InvalidRoot) => resolution(
            ReadyState::NoSteam,
            "Steam not found",
            String::from_str(
                "Unable to find SteamLibrary directory. Are you sure you have Steam installed?",
            ),
            LibraryIndex::empty(),
        ),
        Err(DiscoveryError::MissingTarget { app_id }) => resolution(
            ReadyState::NoGame,
            "Game not found",
            missing_game_message(app_id),
            LibraryIndex::empty(),
        ),
        Err(DiscoveryError::Unknown { message }) => {
            let text = String::from_str("Unknown error occurred: ").concat(message.as_str());
            resolution(ReadyState::NoSteam, "Unknown error", text, LibraryIndex::empty())
        },
    }
}

/// Against a successful scan the game is `Ready` exactly when the index holds
/// its id, and the install directory then is the one recorded for that id.
pub proof fn lemma_ready_iff_present(target: u32, entries: Seq<AppRecord>, r: Resolution)
    requires
        ids_ascending(entries),
        resolves_to(target, Ok(entries), r),
    ensures
        r.state == ReadyState::Ready <==> has_app(entries, target),
        r.state == ReadyState::Ready ==> exists|i: int|
            0 <= i < entries.len() && entries[i].app_id == target && r.game_path@
                == #[trigger] entries[i].install_dir@,
{
    if has_app(entries, target) {
        let i = choose|i: int| 0 <= i < entries.len() && #[trigger] entries[i].app_id == target;
        assert(r.game_path@ == entries[i].install_dir@);
    }
}

/// Resolving twice against the same scan gives the same state, messages,
/// install directory and listing.
pub proof fn lemma_resolve_repeatable(
    target: u32,
    scan: Result<Seq<AppRecord>, DiscoveryError>,
    r1: Resolution,
    r2: Resolution,
)
    requires
        resolves_to(target, scan, r1),
        resolves_to(target, scan, r2),
    ensures
        r1.state == r2.state,
        r1.error_title@ == r2.error_title@,
        r1.error_msg@ == r2.error_msg@,
        r1.game_path@ == r2.game_path@,
        r1.available_apps@ == r2.available_apps@,
{
}

} // verus!
