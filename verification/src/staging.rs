//! The staged entries of one host: records in their binary form, by
//! identifier, as they wait for delivery.
//!
//! This is the content of the store and the rules by which it changes.
//! Keeping it on disk is the caller's part.

use crate::codec::{decode_record, decoded, encode_record, lemma_decode_encode, put_record};
use crate::delivery::{after_delivery, action_for, DeliveryOutcome, StoreAction};
use crate::record::Record;
use vstd::prelude::*;

verus! {

/// What a staged entry is.
pub struct EntryView {
    pub id: Seq<char>,
    pub bytes: Seq<u8>,
    pub flagged: bool,
}

/// One staged entry: the key it is stored under, the binary form of its
/// record, and whether the central service has refused it.
#[derive(Debug)]
pub struct StagedEntry {
    pub id: String,
    pub bytes: Vec<u8>,
    pub flagged: bool,
}

impl View for StagedEntry {
    type V = EntryView;

    open spec fn view(&self) -> EntryView {
        EntryView { id: self.id@, bytes: self.bytes@, flagged: self.flagged }
    }
}

/// The views of a list of entries, in the same order.
pub open spec fn entry_views(entries: Seq<StagedEntry>) -> Seq<EntryView> {
    entries.map_values(|e: StagedEntry| e@)
}

/// Whether an entry is stored under `id`.
pub open spec fn staged(entries: Seq<EntryView>, id: Seq<char>) -> bool {
    exists|i: int| 0 <= i < entries.len() && (#[trigger] entries[i]).id == id
}

/// Whether no two entries share an identifier.
pub open spec fn distinct_ids(entries: Seq<EntryView>) -> bool {
    forall|i: int, j: int|
        0 <= i < j < entries.len() ==> (#[trigger] entries[i]).id != (#[trigger] entries[j]).id
}

/// The predicate that keeps the entries stored under another key than
/// `id`.
pub open spec fn other_than(id: Seq<char>) -> spec_fn(EntryView) -> bool {
    |e: EntryView| e.id != id
}

/// The entries without the one stored under `id`.
pub open spec fn without(entries: Seq<EntryView>, id: Seq<char>) -> Seq<EntryView> {
    entries.filter(other_than(id))
}

/// The entries with the one stored under `id` marked as refused.
pub open spec fn with_flag(entries: Seq<EntryView>, id: Seq<char>) -> Seq<EntryView> {
    entries.map_values(
        |e: EntryView|
            if e.id == id {
                EntryView { flagged: true, ..e }
            } else {
                e
            },
    )
}

/// The predicate that keeps the entries that the service has not refused.
pub open spec fn unflagged() -> spec_fn(EntryView) -> bool {
    |e: EntryView| !e.flagged
}

/// The identifiers of the entries that wait for a delivery attempt: those
/// that are not flagged, in the order in which the entries are held.
pub open spec fn waiting(entries: Seq<EntryView>) -> Seq<Seq<char>> {
    entries.filter(unflagged()).map_values(|e: EntryView| e.id)
}

/// The views of a list of strings, in the same order.
pub open spec fn string_views(strings: Seq<String>) -> Seq<Seq<char>> {
    strings.map_values(|s: String| s@)
}

/// Why the store could not do what was asked.
#[derive(Debug)]
pub enum StoreError {
    /// An entry is already stored under this identifier.
    AlreadyStaged { id: String },
    /// The entry stored under this identifier is not the binary form of a
    /// record.
    Corrupt { id: String },
}

/// Where nothing is stored under `id`, nothing is taken away.
proof fn lemma_without_absent(entries: Seq<EntryView>, id: Seq<char>)
    requires
        !staged(entries, id),
    ensures
        without(entries, id) == entries,
    decreases entries.len(),
{
    reveal(Seq::filter);
    if entries.len() > 0 {
        let front = entries.drop_last();
        assert(!staged(front, id)) by {
            if staged(front, id) {
                let i = choose|i: int| 0 <= i < front.len() && (#[trigger] front[i]).id == id;
                assert(entries[i].id == id);
            }
        }
        lemma_without_absent(front, id);
        assert(entries[entries.len() - 1].id != id);
        assert(front.push(entries.last()) == entries);
    }
}

/// Where identifiers are distinct, taking away what is stored under the
/// identifier of the entry at `at` takes away that entry and no other.
proof fn lemma_without_present(entries: Seq<EntryView>, id: Seq<char>, at: int)
    requires
        distinct_ids(entries),
        0 <= at < entries.len(),
        entries[at].id == id,
    ensures
        without(entries, id) == entries.remove(at),
    decreases entries.len(),
{
    reveal(Seq::filter);
    let front = entries.drop_last();
    if at == entries.len() - 1 {
        assert(!staged(front, id)) by {
            if staged(front, id) {
                let i = choose|i: int| 0 <= i < front.len() && (#[trigger] front[i]).id == id;
                assert(entries[i].id == id);
            }
        }
        lemma_without_absent(front, id);
        assert(entries.remove(at) == front);
    } else {
        assert(distinct_ids(front)) by {
            assert forall|i: int, j: int| 0 <= i < j < front.len() implies (#[trigger] front[i]).id
                != (#[trigger] front[j]).id by {
                assert(front[i] == entries[i] && front[j] == entries[j]);
            }
        }
        assert(front[at] == entries[at]);
        lemma_without_present(front, id, at);
        assert(entries.last().id != entries[at].id);
        assert(front.remove(at).push(entries.last()) == entries.remove(at));
    }
}

/// The staged entries of one host.
#[derive(Debug)]
pub struct Staging {
    entries: Vec<StagedEntry>,
}

impl View for Staging {
    type V = Seq<EntryView>;

    closed spec fn view(&self) -> Seq<EntryView> {
        entry_views(self.entries@)
    }
}

impl Staging {
    /// The store is well formed: no two of its entries share an
    /// identifier. Every store that this module hands out is, and every
    /// method keeps it so.
    pub open spec fn wf(&self) -> bool {
        distinct_ids(self@)
    }

    /// A store without entries.
    pub fn new() -> (r: Staging)
        ensures
            r.wf(),
            r@ == Seq::<EntryView>::empty(),
    {
        let r = Staging { entries: Vec::new() };
        assert(entry_views(r.entries@) == Seq::<EntryView>::empty());
        r
    }

    /// The store that the entries found in a backing file make up, in
    /// their order. Entries that share an identifier are refused: one of
    /// the identifiers that come twice is the error.
    pub fn reopen(rows: Vec<StagedEntry>) -> (r: Result<Staging, StoreError>)
        ensures
            match r {
                Ok(store) => store.wf() && store@ == entry_views(rows@),
                Err(StoreError::AlreadyStaged { id }) => !distinct_ids(entry_views(rows@))
                    && staged(entry_views(rows@), id@),
                Err(StoreError::Corrupt { .. }) => false,
            },
    {
        let ghost all = entry_views(rows@);
        let mut j: usize = 0;
        while j < rows.len()
            invariant
                j <= rows.len(),
                all == entry_views(rows@),
                forall|a: int, b: int|
                    0 <= a < b < j ==> (#[trigger] all[a]).id != (#[trigger] all[b]).id,
            decreases rows.len() - j,
        {
            let mut i: usize = 0;
            while i < j
                invariant
                    i <= j < rows.len(),
                    all == entry_views(rows@),
                    forall|a: int| 0 <= a < i ==> (#[trigger] all[a]).id != all[j as int].id,
                decreases j - i,
            {
                if rows[i].id == rows[j].id {
                    assert(all[i as int].id == all[j as int].id);
                    return Err(StoreError::AlreadyStaged { id: rows[j].id.clone() });
                }
                i += 1;
            }
            j += 1;
        }
        Ok(Staging { entries: rows })
    }

    /// The entries as they are to be kept in the backing file, in the
    /// order in which they are held.
    pub fn entries(&self) -> (rows: &Vec<StagedEntry>)
        ensures
            entry_views(rows@) == self@,
    {
        &self.entries
    }

    /// How many entries are staged.
    pub fn len(&self) -> (n: usize)
        ensures
            n == self@.len(),
    {
        self.entries.len()
    }

    /// Where the entry stored under `id` stands, if there is one.
    fn find(&self, id: &str) -> (r: Option<usize>)
        ensures
            match r {
                Some(at) => at < self@.len() && self@[at as int].id == id@,
                None => !staged(self@, id@),
            },
    {
        let wanted = id.to_owned();
        let mut i: usize = 0;
        while i < self.entries.len()
            invariant
                i <= self.entries.len(),
                wanted@ == id@,
                forall|j: int| 0 <= j < i ==> (#[trigger] self@[j]).id != id@,
            decreases self.entries.len() - i,
        {
            if self.entries[i].id == wanted {
                return Some(i);
            }
            i += 1;
        }
        None
    }

    /// Whether an entry is stored under `id`.
    pub fn contains(&self, id: &str) -> (b: bool)
        ensures
            b == staged(self@, id@),
    {
        self.find(id).is_some()
    }

    /// Whether the entry stored under `id` is marked as refused; nothing
    /// where no entry is stored under `id`.
    pub fn is_flagged(&self, id: &str) -> (r: Option<bool>)
        ensures
            r is Some <==> staged(self@, id@),
            r matches Some(flagged) ==> exists|i: int|
                0 <= i < self@.len() && (#[trigger] self@[i]).id == id@ && self@[i].flagged
                    == flagged,
    {
        match self.find(id) {
            None => None,
            Some(at) => {
                assert(self.entries@[at as int]@ == self@[at as int]);
                Some(self.entries[at].flagged)
            },
        }
    }

    /// Takes in an entry as it was found in the backing file. An
    /// identifier that is already there is refused, and nothing changes.
    pub fn restore(&mut self, entry: StagedEntry) -> (r: Result<(), StoreError>)
        requires
            old(self).wf(),
        ensures
            final(self).wf(),
            match r {
                Ok(()) => !staged(old(self)@, entry@.id) && final(self)@ == old(self)@.push(
                    entry@,
                ),
                Err(StoreError::AlreadyStaged { id }) => staged(old(self)@, entry@.id) && final(self)@ == old(self)@ && id@ == entry@.id,
                Err(StoreError::Corrupt { .. }) => false,
            },
    {
        match self.find(entry.id.as_str()) {
            Some(_) => Err(StoreError::AlreadyStaged { id: entry.id }),
            None => {
                let ghost before = entry_views(self.entries@);
                self.entries.push(entry);
                proof {
                    let after = entry_views(self.entries@);
                    assert(after == before.push(entry@));
                    assert forall|i: int, j: int| 0 <= i < j < after.len() implies (
                    #[trigger] after[i]).id != (#[trigger] after[j]).id by {
                        if j < before.len() {
                            assert(after[i] == before[i] && after[j] == before[j]);
                        } else {
                            assert(after[i] == before[i]);
                        }
                    }
                }
                Ok(())
            },
        }
    }

    /// Stages `record` under `id`, in its binary form and not flagged. An
    /// identifier that is already staged is refused, and nothing
    /// changes.
    pub fn put(&mut self, id: String, record: &Record) -> (r: Result<(), StoreError>)
        requires
            old(self).wf(),
        ensures
            final(self).wf(),
            match r {
                Ok(()) => !staged(old(self)@, id@) && final(self)@ == old(self)@.push(
                    EntryView { id: id@, bytes: put_record(record@), flagged: false },
                ),
                Err(StoreError::AlreadyStaged { id: refused }) => staged(old(self)@, id@) && final(self)@ == old(self)@ && refused@ == id@,
                Err(StoreError::Corrupt { .. }) => false,
            },
            decoded(put_record(record@)) == Some(record@),
    {
        let bytes = encode_record(record);
        proof {
            lemma_decode_encode(record@);
        }
        self.restore(StagedEntry { id, bytes, flagged: false })
    }

    /// Every staged entry, with its record read back from the binary
    /// form, in the order in which the entries are held. The first entry
    /// that cannot be read is the error.
    pub fn list(&self) -> (r: Result<Vec<(String, Record)>, StoreError>)
        ensures
            match r {
                Ok(found) => found.len() == self@.len() && forall|i: int|
                    0 <= i < found.len() ==> (#[trigger] found[i]).0@ == self@[i].id && decoded(
                        self@[i].bytes,
                    ) == Some(found[i].1@),
                Err(StoreError::Corrupt { id }) => exists|i: int|
                    0 <= i < self@.len() && (#[trigger] self@[i]).id == id@ && decoded(
                        self@[i].bytes,
                    ) is None,
                Err(StoreError::AlreadyStaged { .. }) => false,
            },
    {
        let mut found: Vec<(String, Record)> = Vec::new();
        let mut i: usize = 0;
        while i < self.entries.len()
            invariant
                i <= self.entries.len(),
                found.len() == i,
                forall|j: int|
                    0 <= j < i ==> (#[trigger] found[j]).0@ == self@[j].id && decoded(
                        self@[j].bytes,
                    ) == Some(found[j].1@),
            decreases self.entries.len() - i,
        {
            let entry = &self.entries[i];
            assert(entry@ == self@[i as int]);
            match decode_record(entry.bytes.as_slice()) {
                Ok(record) => {
                    found.push((entry.id.clone(), record));
                },
                Err(_) => {
                    return Err(StoreError::Corrupt { id: entry.id.clone() });
                },
            }
            i += 1;
        }
        Ok(found)
    }

    /// The record stored under `id`, read back from its binary form;
    /// nothing where no entry is stored under `id`. An entry that cannot
    /// be read is an error of that entry alone.
    pub fn get(&self, id: &str) -> (r: Result<Option<Record>, StoreError>)
        ensures
            match r {
                Ok(Some(record)) => exists|i: int|
                    0 <= i < self@.len() && (#[trigger] self@[i]).id == id@ && decoded(
                        self@[i].bytes,
                    ) == Some(record@),
                Ok(None) => !staged(self@, id@),
                Err(StoreError::Corrupt { id: damaged }) => damaged@ == id@ && exists|i: int|
                    0 <= i < self@.len() && (#[trigger] self@[i]).id == id@ && decoded(
                        self@[i].bytes,
                    ) is None,
                Err(StoreError::AlreadyStaged { .. }) => false,
            },
    {
        match self.find(id) {
            None => Ok(None),
            Some(at) => {
                let entry = &self.entries[at];
                assert(entry@ == self@[at as int]);
                match decode_record(entry.bytes.as_slice()) {
                    Ok(record) => Ok(Some(record)),
                    Err(_) => Err(StoreError::Corrupt { id: entry.id.clone() }),
                }
            },
        }
    }

    /// The identifiers of the entries that wait for a delivery attempt.
    /// A flagged entry is not among them: it is not tried again by
    /// itself.
    pub fn pending(&self) -> (ids: Vec<String>)
        ensures
            string_views(ids@) == waiting(self@),
    {
        let mut ids: Vec<String> = Vec::new();
        let mut i: usize = 0;
        proof {
            reveal(Seq::filter);
        }
        assert(string_views(ids@) == waiting(self@.take(0)));
        while i < self.entries.len()
            invariant
                i <= self.entries.len(),
                string_views(ids@) == waiting(self@.take(i as int)),
            decreases self.entries.len() - i,
        {
            let entry = &self.entries[i];
            let ghost before = ids@;
            proof {
                assert(entry@ == self@[i as int]);
                assert(self@.take(i + 1) == self@.take(i as int).push(entry@));
                self@.take(i as int).lemma_filter_push(entry@, unflagged());
            }
            if !entry.flagged {
                ids.push(entry.id.clone());
                assert(string_views(ids@) == string_views(before).push(entry.id@));
            }
            i += 1;
        }
        assert(self@.take(i as int) == self@);
        ids
    }

    /// Removes the entry stored under `id`. Where there is none, nothing
    /// changes, and that is no failure. Says whether an entry was
    /// removed.
    pub fn delete(&mut self, id: &str) -> (removed: bool)
        requires
            old(self).wf(),
        ensures
            final(self).wf(),
            removed == staged(old(self)@, id@),
            final(self)@ == without(old(self)@, id@),
            !staged(final(self)@, id@),
    {
        let ghost before = entry_views(self.entries@);
        match self.find(id) {
            None => {
                proof {
                    lemma_without_absent(before, id@);
                }
                false
            },
            Some(at) => {
                self.entries.remove(at);
                proof {
                    let after = entry_views(self.entries@);
                    assert(after == before.remove(at as int));
                    lemma_without_present(before, id@, at as int);
                    assert forall|i: int, j: int| 0 <= i < j < after.len() implies (
                    #[trigger] after[i]).id != (#[trigger] after[j]).id by {
                        let bi = if i < at { i } else { i + 1 };
                        let bj = if j < at { j } else { j + 1 };
                        assert(after[i] == before[bi] && after[j] == before[bj]);
                    }
                    assert(!staged(after, id@)) by {
                        if staged(after, id@) {
                            let i = choose|i: int|
                                0 <= i < after.len() && (#[trigger] after[i]).id == id@;
                            let bi = if i < at { i } else { i + 1 };
                            assert(after[i] == before[bi]);
                            assert(before[bi].id == before[at as int].id);
                        }
                    }
                }
                true
            },
        }
    }

    /// Marks the entry stored under `id` as refused by the service. Where
    /// there is none, nothing changes. Says whether an entry was marked.
    pub fn flag(&mut self, id: &str) -> (marked: bool)
        requires
            old(self).wf(),
        ensures
            final(self).wf(),
            marked == staged(old(self)@, id@),
            final(self)@ == with_flag(old(self)@, id@),
    {
        let ghost before = entry_views(self.entries@);
        match self.find(id) {
            None => {
                assert(with_flag(before, id@) == before) by {
                    assert forall|i: int| 0 <= i < before.len() implies with_flag(before, id@)[i]
                        == before[i] by {
                        assert(before[i].id != id@);
                    }
                }
                false
            },
            Some(at) => {
                let mut entry = self.entries.remove(at);
                entry.flagged = true;
                self.entries.insert(at, entry);
                proof {
                    let after = entry_views(self.entries@);
                    assert(after == with_flag(before, id@)) by {
                        assert(after.len() == before.len());
                        assert forall|i: int| 0 <= i < before.len() implies after[i] == with_flag(
                            before,
                            id@,
                        )[i] by {
                            if i != at {
                                if i < at {
                                    assert(before[i].id != before[at as int].id);
                                } else {
                                    assert(before[at as int].id != before[i].id);
                                }
                            }
                        }
                    }
                    assert forall|i: int, j: int| 0 <= i < j < after.len() implies (
                    #[trigger] after[i]).id != (#[trigger] after[j]).id by {
                        assert(after[i].id == before[i].id && after[j].id == before[j].id);
                    }
                }
                true
            },
        }
    }

    /// Does to the entry stored under `id` what the outcome of a delivery
    /// attempt calls for, and says what that was: an acknowledged entry
    /// is removed, a rejected one is flagged, and one that could not be
    /// sent stays as it is.
    pub fn settle(&mut self, id: &str, outcome: &DeliveryOutcome) -> (action: StoreAction)
        requires
            old(self).wf(),
        ensures
            final(self).wf(),
            action == action_for(*outcome),
            final(self)@ == match action {
                StoreAction::Delete => without(old(self)@, id@),
                StoreAction::Flag => with_flag(old(self)@, id@),
                StoreAction::Keep => old(self)@,
            },
    {
        let action = after_delivery(outcome);
        match action {
            StoreAction::Delete => {
                self.delete(id);
            },
            StoreAction::Flag => {
                self.flag(id);
            },
            StoreAction::Keep => {},
        }
        action
    }
}

/// Staging a record under a new identifier and deleting it again leaves
/// the store as it was; in a store that was empty, nothing is left.
pub proof fn lemma_put_then_delete(entries: Seq<EntryView>, entry: EntryView)
    requires
        !staged(entries, entry.id),
    ensures
        without(entries.push(entry), entry.id) == entries,
        entries.len() == 0 ==> without(entries.push(entry), entry.id).len() == 0,
{
    reveal(Seq::filter);
    let after = entries.push(entry);
    assert(after.drop_last() == entries);
    lemma_without_absent(entries, entry.id);
}

/// Deleting twice is deleting once: the second time nothing is stored
/// under the identifier, and nothing changes.
pub proof fn lemma_delete_twice(entries: Seq<EntryView>, id: Seq<char>)
    ensures
        !staged(without(entries, id), id),
        without(without(entries, id), id) == without(entries, id),
{
    let once = without(entries, id);
    assert(!staged(once, id)) by {
        if staged(once, id) {
            let i = choose|i: int| 0 <= i < once.len() && (#[trigger] once[i]).id == id;
            entries.lemma_filter_pred(other_than(id), i);
        }
    }
    lemma_without_absent(once, id);
}

/// An entry is lost to nothing but its own deletion: deleting or
/// flagging under another identifier leaves it staged, with the bytes it
/// had.
pub proof fn lemma_entry_survives(entries: Seq<EntryView>, at: int, other: Seq<char>)
    requires
        0 <= at < entries.len(),
        entries[at].id != other,
    ensures
        without(entries, other).contains(entries[at]),
        with_flag(entries, other)[at] == entries[at],
{
    entries.lemma_filter_contains(other_than(other), at);
}

} // verus!
