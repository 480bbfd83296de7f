//! Versioned snapshots of a listing, and their import entry by entry.

use vstd::prelude::*;

use crate::store::{is_listing, EnvironmentVariable, Scope};

verus! {

/// A listing as exported: format version, time of export, the variables in order.
#[derive(Debug)]
pub struct Snapshot {
    pub version: String,
    pub exported_at: String,
    pub variables: Vec<EnvironmentVariable>,
}

/// The snapshot of `variables`, exported at `exported_at`, in format version `1.0`.
pub fn export_environment_variables(variables: Vec<EnvironmentVariable>, exported_at: String) -> (r:
    Snapshot)
    ensures
        r.version@ == "1.0"@,
        r.exported_at == exported_at,
        r.variables@ == variables@,
{
    Snapshot { version: String::from_str("1.0"), exported_at, variables }
}

/// The file name of an export made at `stamp`: `env-export-<stamp>.json`.
pub fn export_file_name(stamp: &str) -> (r: String)
    ensures
        r@ == "env-export-"@ + stamp@ + ".json"@,
{
    let mut r = String::from_str("env-export-");
    r.append(stamp);
    r.append(".json");
    r
}

/// The RFC 3339 text of the UTC time `secs` seconds after the epoch, as chrono writes it.
pub uninterp spec fn rfc3339_of(secs: i64) -> Seq<char>;

/// The UTC time `secs` seconds after the epoch as chrono formats it with
/// `%Y%m%d-%H%M%S`.
pub uninterp spec fn file_stamp_of(secs: i64) -> Seq<char>;

/// The last second of the year 9999, UTC, in seconds after the epoch.
pub const LAST_SECOND_OF_9999: i64 = 253402300799;

/// Relies on chrono's `DateTime::<Utc>::from_timestamp`, `None` only for a time
/// outside chrono's dates (years beyond ±262142), then `DateTime::to_rfc3339` and
/// `DateTime::format` with `%Y%m%d-%H%M%S` on the same time; neither fails.
#[verifier::external_body]
fn utc_texts(secs: i64) -> (r: Option<(String, String)>)
    ensures
        0 <= secs <= LAST_SECOND_OF_9999 ==> r is Some,
        r matches Some((rfc3339, stamp)) ==> rfc3339@ == rfc3339_of(secs) && stamp@
            == file_stamp_of(secs),
{
    match chrono::DateTime::from_timestamp(secs, 0) {
        Some(d) => Some((d.to_rfc3339(), d.format("%Y%m%d-%H%M%S").to_string())),
        None => None,
    }
}

/// The snapshot of `variables` exported at `secs` seconds after the epoch (UTC),
/// with the name of the file it is written to; always there from the epoch to the
/// end of the year 9999, none where chrono has no date for `secs`.
pub fn export_at(variables: Vec<EnvironmentVariable>, secs: i64) -> (r: Option<(Snapshot, String)>)
    ensures
        0 <= secs <= LAST_SECOND_OF_9999 ==> r is Some,
        r matches Some((snapshot, file)) ==> {
            &&& snapshot.version@ == "1.0"@
            &&& snapshot.exported_at@ == rfc3339_of(secs)
            &&& snapshot.variables@ == variables@
            &&& file@ == "env-export-"@ + file_stamp_of(secs) + ".json"@
        },
{
    let (exported_at, stamp) = utc_texts(secs)?;
    let file = export_file_name(stamp.as_str());
    Some((export_environment_variables(variables, exported_at), file))
}

/// The entries whose write succeeded, in order; `written[i]` tells of `entries[i]`.
pub open spec fn applied_entries(entries: Seq<EnvironmentVariable>, written: Seq<bool>) -> Seq<
    EnvironmentVariable,
>
    decreases entries.len(),
{
    if entries.len() == 0 {
        seq![]
    } else {
        let prev = applied_entries(entries.drop_last(), written.drop_last());
        if written.last() {
            prev.push(entries.last())
        } else {
            prev
        }
    }
}

/// The backend's key of a variable: its scope and name.
pub open spec fn key_of(e: EnvironmentVariable) -> (Scope, Seq<char>) {
    (e.var_type, e.name@)
}

/// The backend's contents after the entries are created in order, each one whose
/// write succeeded setting its scope and name to its value.
pub open spec fn store_after(
    state: Map<(Scope, Seq<char>), Seq<char>>,
    entries: Seq<EnvironmentVariable>,
    written: Seq<bool>,
) -> Map<(Scope, Seq<char>), Seq<char>>
    decreases entries.len(),
{
    if entries.len() == 0 {
        state
    } else {
        let prev = store_after(state, entries.drop_last(), written.drop_last());
        if written.last() {
            prev.insert(key_of(entries.last()), entries.last().value@)
        } else {
            prev
        }
    }
}

/// An import in progress: the entries are created one after the other, and the
/// ones whose write succeeded are kept; a failed one is skipped.
pub struct ImportRun {
    entries: Vec<EnvironmentVariable>,
    next: usize,
    applied: Vec<EnvironmentVariable>,
    written: Ghost<Seq<bool>>,
}

impl ImportRun {
    /// The entries to import.
    pub closed spec fn entries(&self) -> Seq<EnvironmentVariable> {
        self.entries@
    }

    /// Whether each entry handled so far was written.
    pub closed spec fn outcomes(&self) -> Seq<bool> {
        self.written@
    }

    pub closed spec fn wf(&self) -> bool {
        &&& self.next <= self.entries.len()
        &&& self.written@.len() == self.next
        &&& self.applied@ == applied_entries(self.entries@.subrange(0, self.next as int), self.written@)
    }

    /// An import of the snapshot's variables, none handled yet.
    pub fn new(snapshot: Snapshot) -> (r: ImportRun)
        ensures
            r.wf(),
            r.entries() == snapshot.variables@,
            r.outcomes() == Seq::<bool>::empty(),
    {
        let r = ImportRun {
            entries: snapshot.variables,
            next: 0,
            applied: Vec::new(),
            written: Ghost(Seq::empty()),
        };
        assert(r.entries@.subrange(0, 0) =~= Seq::<EnvironmentVariable>::empty());
        r
    }

    /// The entry to create next, if any is left.
    pub fn pending(&self) -> (r: Option<&EnvironmentVariable>)
        requires
            self.wf(),
        ensures
            self.outcomes().len() < self.entries().len() ==> r == Some(
                &self.entries()[self.outcomes().len() as int],
            ),
            self.outcomes().len() == self.entries().len() ==> r is None,
    {
        if self.next < self.entries.len() {
            Some(&self.entries[self.next])
        } else {
            None
        }
    }

    /// Records whether the pending entry was written.
    pub fn record(&mut self, written: bool)
        requires
            old(self).wf(),
            old(self).outcomes().len() < old(self).entries().len(),
        ensures
            final(self).wf(),
            final(self).entries() == old(self).entries(),
            final(self).outcomes() == old(self).outcomes().push(written),
    {
        let ghost pre = self.entries@.subrange(0, self.next as int);
        assert(self.entries@.subrange(0, self.next + 1).drop_last() =~= pre);
        if written {
            let e = self.entries[self.next].clone();
            self.applied.push(e);
        }
        self.next = self.next + 1;
        self.written = Ghost(self.written@.push(written));
        assert(self.written@.drop_last() =~= old(self).written@);
    }

    /// The entries applied so far, in order.
    pub fn finish(self) -> (r: Vec<EnvironmentVariable>)
        requires
            self.wf(),
        ensures
            r@ == applied_entries(
                self.entries().subrange(0, self.outcomes().len() as int),
                self.outcomes(),
            ),
    {
        self.applied
    }
}

proof fn lemma_all_written(entries: Seq<EnvironmentVariable>, written: Seq<bool>)
    requires
        written.len() == entries.len(),
        forall|i: int| 0 <= i < written.len() ==> written[i],
    ensures
        applied_entries(entries, written) == entries,
    decreases entries.len(),
{
    if entries.len() > 0 {
        lemma_all_written(entries.drop_last(), written.drop_last());
        assert(entries.drop_last().push(entries.last()) =~= entries);
    }
}

/// An import in which the write of one entry fails still applies every other
/// entry, in order.
pub proof fn lemma_import_skips_failed(
    entries: Seq<EnvironmentVariable>,
    written: Seq<bool>,
    failed: int,
)
    requires
        written.len() == entries.len(),
        0 <= failed < entries.len(),
        !written[failed],
        forall|i: int| 0 <= i < entries.len() && i != failed ==> written[i],
    ensures
        applied_entries(entries, written) == entries.remove(failed),
    decreases entries.len(),
{
    let n = entries.len() - 1;
    if failed == n {
        lemma_all_written(entries.drop_last(), written.drop_last());
        assert(entries.drop_last() =~= entries.remove(failed));
    } else {
        lemma_import_skips_failed(entries.drop_last(), written.drop_last(), failed);
        assert(entries.drop_last().remove(failed).push(entries.last()) =~= entries.remove(failed));
    }
}

/// A key that no written entry has keeps what the backend held under it.
proof fn lemma_untouched_key(
    state: Map<(Scope, Seq<char>), Seq<char>>,
    entries: Seq<EnvironmentVariable>,
    written: Seq<bool>,
    k: (Scope, Seq<char>),
)
    requires
        written.len() == entries.len(),
        forall|i: int| 0 <= i < entries.len() && #[trigger] written[i] ==> key_of(entries[i]) != k,
    ensures
        store_after(state, entries, written).contains_key(k) == state.contains_key(k),
        store_after(state, entries, written)[k] == state[k],
    decreases entries.len(),
{
    if entries.len() > 0 {
        let n = entries.len() - 1;
        assert forall|i: int|
            0 <= i < entries.drop_last().len() && #[trigger] written.drop_last()[i] implies key_of(
            entries.drop_last()[i],
        ) != k by {
            assert(written[i]);
        }
        lemma_untouched_key(state, entries.drop_last(), written.drop_last(), k);
        if written[n] {
            assert(key_of(entries[n]) != k);
        }
    }
}

/// After an import of entries with distinct keys, each entry that was written, or
/// whose value the backend already held, is what the backend holds under its key.
proof fn lemma_entry_stored(
    state: Map<(Scope, Seq<char>), Seq<char>>,
    entries: Seq<EnvironmentVariable>,
    written: Seq<bool>,
    i: int,
)
    requires
        written.len() == entries.len(),
        0 <= i < entries.len(),
        written[i] || (state.contains_key(key_of(entries[i])) && state[key_of(entries[i])]
            == entries[i].value@),
        forall|a: int, b: int|
            0 <= a < b < entries.len() ==> key_of(#[trigger] entries[a]) != key_of(
                #[trigger] entries[b],
            ),
    ensures
        store_after(state, entries, written).contains_key(key_of(entries[i])),
        store_after(state, entries, written)[key_of(entries[i])] == entries[i].value@,
    decreases entries.len(),
{
    let n = entries.len() - 1;
    if i < n {
        lemma_entry_stored(state, entries.drop_last(), written.drop_last(), i);
        assert(key_of(entries[i]) != key_of(entries[n]));
    } else if !written[i] {
        assert forall|j: int| 0 <= j < entries.len() && #[trigger] written[j] implies key_of(
            entries[j],
        ) != key_of(entries[i]) by {
            assert(j != i);
        }
        lemma_untouched_key(state, entries, written, key_of(entries[i]));
    }
}

/// After an import of entries with distinct keys, each entry that was written is
/// what the backend holds under its key.
proof fn lemma_written_entries_stored(
    state: Map<(Scope, Seq<char>), Seq<char>>,
    entries: Seq<EnvironmentVariable>,
    written: Seq<bool>,
    i: int,
)
    requires
        written.len() == entries.len(),
        0 <= i < entries.len(),
        written[i],
        forall|a: int, b: int|
            0 <= a < b < entries.len() ==> key_of(#[trigger] entries[a]) != key_of(
                #[trigger] entries[b],
            ),
    ensures
        store_after(state, entries, written).contains_key(key_of(entries[i])),
        store_after(state, entries, written)[key_of(entries[i])] == entries[i].value@,
    decreases entries.len(),
{
    let n = entries.len() - 1;
    if i < n {
        lemma_written_entries_stored(state, entries.drop_last(), written.drop_last(), i);
        assert(key_of(entries[i]) != key_of(entries[n]));
    }
}

/// The entries of a listing have distinct keys when each scope's names are distinct.
proof fn lemma_listing_keys_distinct(
    user: Seq<(String, String)>,
    system: Seq<(String, String)>,
    now: u64,
    listing: Seq<EnvironmentVariable>,
)
    requires
        is_listing(listing, user, system, now),
        forall|a: int, b: int| 0 <= a < b < user.len() ==> (#[trigger] user[a]).0@ != (#[trigger] user[b]).0@,
        forall|a: int, b: int|
            0 <= a < b < system.len() ==> (#[trigger] system[a]).0@ != (#[trigger] system[b]).0@,
    ensures
        forall|a: int, b: int|
            0 <= a < b < listing.len() ==> key_of(#[trigger] listing[a]) != key_of(
                #[trigger] listing[b],
            ),
{
    let u = user.len() as int;
    assert forall|a: int, b: int|
        0 <= a < b < listing.len() implies key_of(#[trigger] listing[a]) != key_of(
        #[trigger] listing[b],
    ) by {
        if b < u {
            assert(user[a].0@ != user[b].0@);
        } else if a >= u {
            assert(system[a - u].0@ != system[b - u].0@);
            assert(listing[a] == listing[u + (a - u)]);
            assert(listing[b] == listing[u + (b - u)]);
        } else {
            assert(listing[b] == listing[u + (b - u)]);
        }
    }
}

/// Round trip: importing the export of a listing writes back, under each scope and
/// name, the value that the backend held when it was listed, for every entry whose
/// write succeeded. A scope's names are distinct in a backend.
pub proof fn lemma_export_import_round_trip(
    user: Seq<(String, String)>,
    system: Seq<(String, String)>,
    now: u64,
    listing: Seq<EnvironmentVariable>,
    state: Map<(Scope, Seq<char>), Seq<char>>,
    written: Seq<bool>,
)
    requires
        is_listing(listing, user, system, now),
        forall|a: int, b: int| 0 <= a < b < user.len() ==> (#[trigger] user[a]).0@ != (#[trigger] user[b]).0@,
        forall|a: int, b: int|
            0 <= a < b < system.len() ==> (#[trigger] system[a]).0@ != (#[trigger] system[b]).0@,
        written.len() == listing.len(),
    ensures
        forall|i: int|
            0 <= i < user.len() && #[trigger] written[i] ==> store_after(state, listing, written)[(
            Scope::User,
            user[i].0@,
            )] == user[i].1@,
        forall|i: int|
            0 <= i < system.len() && #[trigger] written[user.len() + i] ==> store_after(
                state,
                listing,
                written,
            )[(Scope::System, system[i].0@)] == system[i].1@,
{
    let u = user.len() as int;
    lemma_listing_keys_distinct(user, system, now, listing);
    assert forall|i: int| 0 <= i < user.len() && #[trigger] written[i] implies store_after(
        state,
        listing,
        written,
    )[(Scope::User, user[i].0@)] == user[i].1@ by {
        lemma_written_entries_stored(state, listing, written, i);
    }
    assert forall|i: int| 0 <= i < system.len() && #[trigger] written[user.len() + i] implies store_after(
        state,
        listing,
        written,
    )[(Scope::System, system[i].0@)] == system[i].1@ by {
        lemma_written_entries_stored(state, listing, written, u + i);
    }
}

/// An import in which the write of one entry fails, entries having distinct keys:
/// the backend afterwards holds every other entry's value under its key, and under
/// the failed entry's key what it held before.
pub proof fn lemma_import_skips_failed_in_backend(
    state: Map<(Scope, Seq<char>), Seq<char>>,
    entries: Seq<EnvironmentVariable>,
    written: Seq<bool>,
    failed: int,
)
    requires
        written.len() == entries.len(),
        0 <= failed < entries.len(),
        !written[failed],
        forall|i: int| 0 <= i < entries.len() && i != failed ==> written[i],
        forall|a: int, b: int|
            0 <= a < b < entries.len() ==> key_of(#[trigger] entries[a]) != key_of(
                #[trigger] entries[b],
            ),
    ensures
        forall|j: int|
            0 <= j < entries.len() && j != failed ==> store_after(state, entries, written)[key_of(
                #[trigger] entries[j],
            )] == entries[j].value@,
        store_after(state, entries, written).contains_key(key_of(entries[failed]))
            == state.contains_key(key_of(entries[failed])),
        store_after(state, entries, written)[key_of(entries[failed])] == state[key_of(
            entries[failed],
        )],
{
    assert forall|j: int| 0 <= j < entries.len() && j != failed implies store_after(
        state,
        entries,
        written,
    )[key_of(#[trigger] entries[j])] == entries[j].value@ by {
        lemma_written_entries_stored(state, entries, written, j);
    }
    assert forall|j: int| 0 <= j < entries.len() && #[trigger] written[j] implies key_of(
        entries[j],
    ) != key_of(entries[failed]) by {
        if j < failed {
            assert(key_of(entries[j]) != key_of(entries[failed]));
        } else {
            assert(j != failed);
        }
    }
    lemma_untouched_key(state, entries, written, key_of(entries[failed]));
}

/// Round trip into the backend that was listed: importing the export of its
/// listing leaves every listed variable, written or not, with the value it was
/// listed with. A scope's names are distinct in a backend.
pub proof fn lemma_round_trip_into_listed_backend(
    user: Seq<(String, String)>,
    system: Seq<(String, String)>,
    now: u64,
    listing: Seq<EnvironmentVariable>,
    state: Map<(Scope, Seq<char>), Seq<char>>,
    written: Seq<bool>,
)
    requires
        is_listing(listing, user, system, now),
        forall|a: int, b: int| 0 <= a < b < user.len() ==> (#[trigger] user[a]).0@ != (#[trigger] user[b]).0@,
        forall|a: int, b: int|
            0 <= a < b < system.len() ==> (#[trigger] system[a]).0@ != (#[trigger] system[b]).0@,
        forall|i: int|
            0 <= i < user.len() ==> state.contains_key((Scope::User, (#[trigger] user[i]).0@))
                && state[(Scope::User, user[i].0@)] == user[i].1@,
        forall|i: int|
            0 <= i < system.len() ==> state.contains_key((Scope::System, (#[trigger] system[i]).0@))
                && state[(Scope::System, system[i].0@)] == system[i].1@,
        written.len() == listing.len(),
    ensures
        forall|i: int|
            0 <= i < user.len() ==> store_after(state, listing, written)[(
            Scope::User,
            (#[trigger] user[i]).0@,
            )] == user[i].1@,
        forall|i: int|
            0 <= i < system.len() ==> store_after(state, listing, written)[(
            Scope::System,
            (#[trigger] system[i]).0@,
            )] == system[i].1@,
{
    let u = user.len() as int;
    lemma_listing_keys_distinct(user, system, now, listing);
    assert forall|i: int| 0 <= i < user.len() implies store_after(state, listing, written)[(
    Scope::User,
    (#[trigger] user[i]).0@,
    )] == user[i].1@ by {
        assert(key_of(listing[i]) == (Scope::User, user[i].0@));
        lemma_entry_stored(state, listing, written, i);
    }
    assert forall|i: int| 0 <= i < system.len() implies store_after(state, listing, written)[(
    Scope::System,
    (#[trigger] system[i]).0@,
    )] == system[i].1@ by {
        assert(key_of(listing[u + i]) == (Scope::System, system[i].0@));
        lemma_entry_stored(state, listing, written, u + i);
    }
}

} // verus!
