//! The convergence ledger and the snapshot it is persisted as.
use crate::clock::now;
use crate::digest::fingerprint;
use crate::error::CoreError;
use crate::table::Table;
use std::hash::Hash;
use std::time::SystemTime;
use vstd::prelude::*;

verus! {

/// A fingerprint and the time it was taken.
#[derive(Debug, PartialEq, Eq)]
pub struct Hashed {
    /// The last calculated hash.
    pub hash: u64,
    /// When it was last updated.
    pub updated: SystemTime,
}

/// The three maps of a ledger, as a snapshot holds them.
pub struct Snapshot {
    pub last_update: Map<Seq<char>, SystemTime>,
    pub once: Map<Seq<char>, SystemTime>,
    pub hashes: Map<Seq<char>, Hashed>,
}

/// A ledger as a mathematical value: the three maps and the dirty flag.
pub struct Ledger {
    pub dirty: bool,
    pub last_update: Map<Seq<char>, SystemTime>,
    pub once: Map<Seq<char>, SystemTime>,
    pub hashes: Map<Seq<char>, Hashed>,
}

/// The ledger that a snapshot is loaded as: the same maps, clean.
pub open spec fn loaded(snapshot: Snapshot) -> Ledger {
    Ledger {
        dirty: false,
        last_update: snapshot.last_update,
        once: snapshot.once,
        hashes: snapshot.hashes,
    }
}

/// The ledger after `name` was touched at `when`.
pub open spec fn touched(ledger: Ledger, name: Seq<char>, when: SystemTime) -> Ledger {
    Ledger { dirty: true, last_update: ledger.last_update.insert(name, when), ..ledger }
}

/// The ledger after `id` was marked as done once, at `when`.
pub open spec fn touched_once(ledger: Ledger, id: Seq<char>, when: SystemTime) -> Ledger {
    Ledger { dirty: true, once: ledger.once.insert(id, when), ..ledger }
}

/// The ledger after `digest` was recorded for `id` at `when`.
pub open spec fn stamped(ledger: Ledger, id: Seq<char>, digest: u64, when: SystemTime) -> Ledger {
    Ledger {
        dirty: true,
        hashes: ledger.hashes.insert(id, Hashed { hash: digest, updated: when }),
        ..ledger
    }
}

/// Whether `digest` is the one on record for `id`. An id without a record
/// is never fresh.
pub open spec fn fresh(ledger: Ledger, id: Seq<char>, digest: u64) -> bool {
    ledger.hashes.contains_key(id) && ledger.hashes[id].hash == digest
}

/// The ledger after `other` was merged into it. A clean `other` changes
/// nothing. A dirty one overrides the update times and the once markers
/// key by key; fingerprint records belong to the ledger that took them and
/// are never merged.
pub open spec fn merged(ledger: Ledger, other: Ledger) -> Ledger {
    if other.dirty {
        Ledger {
            dirty: true,
            last_update: ledger.last_update.union_prefer_right(other.last_update),
            once: ledger.once.union_prefer_right(other.once),
            hashes: ledger.hashes,
        }
    } else {
        ledger
    }
}

/// What a ledger is persisted as: nothing while it is clean.
pub open spec fn flushed(ledger: Ledger) -> Option<Snapshot> {
    if ledger.dirty {
        Some(
            Snapshot {
                last_update: ledger.last_update,
                once: ledger.once,
                hashes: ledger.hashes,
            },
        )
    } else {
        None
    }
}

/// The way the state is serialized.
#[derive(Debug)]
pub struct DiskState {
    /// Last time each thing was updated.
    pub last_update: Table<SystemTime>,
    /// Things that should only happen once.
    pub once: Table<SystemTime>,
    /// Things that have been tested against a hash.
    pub hashes: Table<Hashed>,
}

impl View for DiskState {
    type V = Snapshot;

    open spec fn view(&self) -> Snapshot {
        Snapshot { last_update: self.last_update@, once: self.once@, hashes: self.hashes@ }
    }
}

impl Default for DiskState {
    fn default() -> (snapshot: DiskState)
        ensures
            snapshot@.last_update == Map::<Seq<char>, SystemTime>::empty(),
            snapshot@.once == Map::<Seq<char>, SystemTime>::empty(),
            snapshot@.hashes == Map::<Seq<char>, Hashed>::empty(),
    {
        DiskState { last_update: Table::new(), once: Table::new(), hashes: Table::new() }
    }
}

impl DiskState {
    /// Convert into a state. The state starts clean.
    pub fn to_state(self) -> (state: State)
        ensures
            state@ == loaded(self@),
    {
        State {
            dirty: false,
            last_update: self.last_update,
            once: self.once,
            hashes: self.hashes,
        }
    }
}

/// State model.
/// This keeps track of any changes with the dirty flag, which is an indication whether it should
/// be serialized or not.
#[derive(Debug)]
pub struct State {
    pub dirty: bool,
    /// Last time each thing was updated.
    pub last_update: Table<SystemTime>,
    /// Things that should only happen once.
    pub once: Table<SystemTime>,
    /// Things that have been tested against a hash.
    pub hashes: Table<Hashed>,
}

impl View for State {
    type V = Ledger;

    open spec fn view(&self) -> Ledger {
        Ledger {
            dirty: self.dirty,
            last_update: self.last_update@,
            once: self.once@,
            hashes: self.hashes@,
        }
    }
}

impl Default for State {
    fn default() -> (state: State)
        ensures
            !state@.dirty,
            state@.last_update == Map::<Seq<char>, SystemTime>::empty(),
            state@.once == Map::<Seq<char>, SystemTime>::empty(),
            state@.hashes == Map::<Seq<char>, Hashed>::empty(),
    {
        State { dirty: false, last_update: Table::new(), once: Table::new(), hashes: Table::new() }
    }
}

impl State {
    /// Get the last update timestamp for the given thing named `name`.
    pub fn last_update<'a>(&'a self, name: &str) -> (found: Option<&'a SystemTime>)
        ensures
            match found {
                Some(when) => self@.last_update.contains_key(name@) && self@.last_update[name@]
                    == *when,
                None => !self@.last_update.contains_key(name@),
            },
    {
        self.last_update.get(name)
    }

    /// Record `when` as the last update of the thing named `name`.
    pub fn touch_at(&mut self, name: &str, when: SystemTime)
        ensures
            final(self)@ == touched(old(self)@, name@, when),
    {
        self.dirty = true;
        self.last_update.insert(name.to_owned(), when);
    }

    /// Touch the thing with the given name: its last update is now.
    pub fn touch(&mut self, name: &str)
        ensures
            exists|when: SystemTime| final(self)@ == touched(old(self)@, name@, when),
    {
        let when = now();
        self.touch_at(name, when);
    }

    /// Check if the given ID has run once.
    pub fn has_run_once(&self, id: &str) -> (done: bool)
        ensures
            done == self@.once.contains_key(id@),
    {
        self.once.contains_key(id)
    }

    /// Mark at `when` that something has happened once.
    pub fn touch_once_at(&mut self, id: &str, when: SystemTime)
        ensures
            final(self)@ == touched_once(old(self)@, id@, when),
    {
        self.dirty = true;
        self.once.insert(id.to_owned(), when);
    }

    /// Mark that something has happened once.
    pub fn touch_once(&mut self, id: &str)
        ensures
            exists|when: SystemTime| final(self)@ == touched_once(old(self)@, id@, when),
    {
        let when = now();
        self.touch_once_at(id, when);
    }

    /// Whether `digest` is the fingerprint on record for `id`.
    pub fn is_digest_fresh(&self, id: &str, digest: u64) -> (is_fresh: bool)
        ensures
            is_fresh == fresh(self@, id@, digest),
    {
        match self.hashes.get(id) {
            Some(hashed) => hashed.hash == digest,
            None => false,
        }
    }

    /// Whether the fingerprint of `hash` is the one on record for `id`.
    pub fn is_hash_fresh<H: Hash>(&self, id: &str, hash: H) -> (outcome: Result<bool, CoreError>)
        ensures
            outcome is Ok,
            !self@.hashes.contains_key(id@) ==> outcome->Ok_0 == false,
    {
        if !self.hashes.contains_key(id) {
            return Ok(false);
        }
        let digest = fingerprint(&hash);
        Ok(self.is_digest_fresh(id, digest))
    }

    /// Record `digest`, taken at `when`, as the fingerprint of `id`.
    pub fn touch_digest_at(&mut self, id: &str, digest: u64, when: SystemTime)
        ensures
            final(self)@ == stamped(old(self)@, id@, digest, when),
    {
        self.dirty = true;
        self.hashes.insert(id.to_owned(), Hashed { hash: digest, updated: when });
    }

    /// Touch the hashed item: record the fingerprint of `hash` for `id`, taken now.
    pub fn touch_hash<H: Hash>(&mut self, id: &str, hash: H) -> (outcome: Result<(), CoreError>)
        ensures
            outcome is Ok,
            exists|digest: u64, when: SystemTime|
                final(self)@ == stamped(old(self)@, id@, digest, when),
    {
        let digest = fingerprint(&hash);
        let when = now();
        self.touch_digest_at(id, digest, when);
        Ok(())
    }

    /// Extend this state with another.
    pub fn extend(&mut self, other: State)
        ensures
            final(self)@ == merged(old(self)@, other@),
    {
        // nothing to extend.
        if !other.dirty {
            return;
        }
        self.dirty = true;
        self.last_update.absorb(other.last_update);
        self.once.absorb(other.once);
    }

    /// Serialize the state, returning `None` unless it is dirty.
    pub fn serialize(self) -> (snapshot: Option<DiskState>)
        ensures
            match snapshot {
                Some(disk) => flushed(self@) == Some(disk@),
                None => flushed(self@) is None,
            },
    {
        if !self.dirty {
            return None;
        }
        Some(DiskState { last_update: self.last_update, once: self.once, hashes: self.hashes })
    }
}

/// A marker set by `touch_once` is seen by `has_run_once`, and setting it
/// changes the answer for no other id.
pub proof fn law_once_marker_is_seen(ledger: Ledger, id: Seq<char>, other: Seq<char>, when: SystemTime)
    ensures
        touched_once(ledger, id, when).once.contains_key(id),
        other != id ==> (touched_once(ledger, id, when).once.contains_key(other)
            <==> ledger.once.contains_key(other)),
{
}

/// A once marker stays set whatever is done to the ledger afterwards.
pub proof fn law_once_marker_stays(
    ledger: Ledger,
    marked: Seq<char>,
    key: Seq<char>,
    digest: u64,
    when: SystemTime,
    other: Ledger,
)
    requires
        ledger.once.contains_key(marked),
    ensures
        touched(ledger, key, when).once.contains_key(marked),
        touched_once(ledger, key, when).once.contains_key(marked),
        stamped(ledger, key, digest, when).once.contains_key(marked),
        merged(ledger, other).once.contains_key(marked),
        flushed(ledger) is Some ==> flushed(ledger)->Some_0.once.contains_key(marked),
{
}

/// After a digest was recorded for an id, that digest and no other is fresh
/// for it; an id that has no record is not fresh for any digest.
pub proof fn law_recorded_digest_is_fresh(
    ledger: Ledger,
    id: Seq<char>,
    recorded: u64,
    asked: u64,
    when: SystemTime,
)
    ensures
        fresh(stamped(ledger, id, recorded, when), id, asked) <==> asked == recorded,
        !ledger.hashes.contains_key(id) ==> !fresh(ledger, id, asked),
{
}

/// A ledger is flushed exactly when it is dirty, and the snapshot then holds
/// all three maps as they are. A ledger that was just loaded is clean, and
/// every mutating call leaves it dirty.
pub proof fn law_flush_follows_dirty(
    ledger: Ledger,
    snapshot: Snapshot,
    key: Seq<char>,
    digest: u64,
    when: SystemTime,
)
    ensures
        flushed(ledger) is Some <==> ledger.dirty,
        ledger.dirty ==> flushed(ledger) == Some(
            (Snapshot {
                last_update: ledger.last_update,
                once: ledger.once,
                hashes: ledger.hashes,
            }),
        ),
        flushed(loaded(snapshot)) is None,
        flushed(touched(ledger, key, when)) is Some,
        flushed(touched_once(ledger, key, when)) is Some,
        flushed(stamped(ledger, key, digest, when)) is Some,
{
}

/// Once dirty, a ledger stays dirty under every operation; a merge makes a
/// clean ledger dirty exactly when the other one is.
pub proof fn law_dirty_is_terminal(
    ledger: Ledger,
    other: Ledger,
    key: Seq<char>,
    digest: u64,
    when: SystemTime,
)
    ensures
        touched(ledger, key, when).dirty,
        touched_once(ledger, key, when).dirty,
        stamped(ledger, key, digest, when).dirty,
        merged(ledger, other).dirty <==> ledger.dirty || other.dirty,
{
}

/// Merging a clean ledger changes nothing, the dirty flag included.
pub proof fn law_merge_of_clean_is_noop(ledger: Ledger, other: Ledger)
    requires
        !other.dirty,
    ensures
        merged(ledger, other) == ledger,
{
}

/// Merging a dirty ledger takes its update times and once markers, keeps
/// those of the receiver under every key the other does not hold, and
/// leaves the fingerprint records alone.
pub proof fn law_merge_last_writer_wins(ledger: Ledger, other: Ledger, key: Seq<char>)
    requires
        other.dirty,
    ensures
        merged(ledger, other).hashes == ledger.hashes,
        other.last_update.contains_key(key) ==> merged(ledger, other).last_update[key]
            == other.last_update[key],
        !other.last_update.contains_key(key) && ledger.last_update.contains_key(key) ==> merged(
            ledger,
            other,
        ).last_update[key] == ledger.last_update[key],
        merged(ledger, other).last_update.contains_key(key) <==> ledger.last_update.contains_key(
            key,
        ) || other.last_update.contains_key(key),
        other.once.contains_key(key) ==> merged(ledger, other).once[key] == other.once[key],
        !other.once.contains_key(key) && ledger.once.contains_key(key) ==> merged(
            ledger,
            other,
        ).once[key] == ledger.once[key],
        merged(ledger, other).once.contains_key(key) <==> ledger.once.contains_key(key)
            || other.once.contains_key(key),
{
}

/// Round trip: a snapshot that is loaded, touched under one name and
/// flushed again holds the touched name with its new time, every other
/// update time as it was, and the other two maps unchanged.
pub proof fn law_round_trip_touch(snapshot: Snapshot, name: Seq<char>, when: SystemTime, key: Seq<char>)
    ensures
        flushed(touched(loaded(snapshot), name, when)) is Some,
        ({
            let after = flushed(touched(loaded(snapshot), name, when))->Some_0;
            &&& after.last_update.contains_key(name)
            &&& after.last_update[name] == when
            &&& key != name ==> (after.last_update.contains_key(key)
                <==> snapshot.last_update.contains_key(key))
            &&& key != name && snapshot.last_update.contains_key(key) ==> after.last_update[key]
                == snapshot.last_update[key]
            &&& after.once == snapshot.once
            &&& after.hashes == snapshot.hashes
        }),
{
}

/// Round trip for the other two mutations: a once marker or a fingerprint
/// recorded after loading is in the flushed snapshot, and nothing else moved.
pub proof fn law_round_trip_marks(
    snapshot: Snapshot,
    id: Seq<char>,
    digest: u64,
    when: SystemTime,
)
    ensures
        flushed(touched_once(loaded(snapshot), id, when)) == Some(
            (Snapshot { once: snapshot.once.insert(id, when), ..snapshot }),
        ),
        flushed(stamped(loaded(snapshot), id, digest, when)) == Some(
            (Snapshot {
                hashes: snapshot.hashes.insert(id, (Hashed { hash: digest, updated: when })),
                ..snapshot
            }),
        ),
{
}

} // verus!
