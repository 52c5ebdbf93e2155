//! The registry of the articles seen in one generation: for each identity,
//! the channel that first published it, the content it had there, and when it
//! was registered. An entry, once made, stays as it is until the registry is
//! cleared.
use vstd::prelude::*;
use crate::xml::{copy_nodes, nodes_view, NodeV, XmlNode};

verus! {

/// The value of one registry entry.
pub struct EntryV {
    pub key: (Seq<char>, Seq<char>),
    pub channel: Seq<char>,
    pub payload: Seq<NodeV>,
    pub inserted_at: int,
}

/// The position of the first entry at or after `i` registered for `key`.
pub open spec fn entry_index_from(reg: Seq<EntryV>, key: (Seq<char>, Seq<char>), i: int) -> Option<int>
    decreases reg.len() - i,
{
    if i < 0 || i >= reg.len() {
        None
    } else if reg[i].key == key {
        Some(i)
    } else {
        entry_index_from(reg, key, i + 1)
    }
}

/// The entry registered for `key`.
pub open spec fn lookup(reg: Seq<EntryV>, key: (Seq<char>, Seq<char>)) -> Option<EntryV> {
    match entry_index_from(reg, key, 0) {
        Some(i) => Some(reg[i]),
        None => None,
    }
}

/// No identity has two entries.
pub open spec fn keys_unique(reg: Seq<EntryV>) -> bool {
    forall|i: int, j: int| 0 <= i < j < reg.len() ==> #[trigger] reg[i].key != #[trigger] reg[j].key
}

/// One entry: the identity `(id, host)`, the owning channel, the canonical
/// content and the instant of registration.
pub struct DedupEntry {
    pub id: String,
    pub host: String,
    pub channel: String,
    pub payload: Vec<XmlNode>,
    pub inserted_at: i64,
}

pub open spec fn entry_view(e: DedupEntry) -> EntryV {
    EntryV {
        key: (e.id@, e.host@),
        channel: e.channel@,
        payload: nodes_view(e.payload@),
        inserted_at: e.inserted_at as int,
    }
}

/// The registry shared by the passes of one generation. Exactly one pass may
/// use it at a time: a pass takes it by `&mut`.
pub struct DedupRegistry {
    entries: Vec<DedupEntry>,
}

impl DedupRegistry {
    /// No identity has two entries.
    pub open spec fn wf(&self) -> bool {
        keys_unique(self@)
    }
}

impl View for DedupRegistry {
    type V = Seq<EntryV>;

    closed spec fn view(&self) -> Seq<EntryV> {
        Seq::new(self.entries@.len(), |i: int| entry_view(self.entries@[i]))
    }
}

/// Where `entry_index_from` finds nothing from `i`, no entry from `i` has the
/// key; where it finds `j`, the entry at `j` has it and none before.
pub proof fn lemma_entry_index_from(reg: Seq<EntryV>, key: (Seq<char>, Seq<char>), i: int)
    requires
        0 <= i,
    ensures
        entry_index_from(reg, key, i) is None ==> forall|k: int| i <= k < reg.len() ==> reg[k].key != key,
        entry_index_from(reg, key, i) matches Some(j) ==> i <= j < reg.len() && reg[j].key == key
            && forall|k: int| i <= k < j ==> reg[k].key != key,
    decreases reg.len() - i,
{
    if i < reg.len() && reg[i].key != key {
        lemma_entry_index_from(reg, key, i + 1);
    }
}

/// Entries appended after `reg` leave every lookup that `reg` answers as it
/// was.
pub proof fn lemma_lookup_prefix(reg: Seq<EntryV>, more: Seq<EntryV>, key: (Seq<char>, Seq<char>))
    requires
        lookup(reg, key) is Some,
    ensures
        lookup(more, key) == lookup(reg, key) || !reg.is_prefix_of(more),
{
    if reg.is_prefix_of(more) {
        lemma_entry_index_from(reg, key, 0);
        lemma_entry_index_from(more, key, 0);
        let j = entry_index_from(reg, key, 0)->0;
        assert(more[j] == reg[j]);
        if entry_index_from(more, key, 0) is None {
            assert(more[j].key != key);
        } else {
            let k = entry_index_from(more, key, 0)->0;
            if k < j {
                assert(more[k] == reg[k]);
            }
            if j < k {
                assert(more[j].key != key);
            }
        }
    }
}

/// A key absent from `reg` is found, after one entry for it is appended, in
/// that entry.
pub proof fn lemma_lookup_push(reg: Seq<EntryV>, e: EntryV)
    requires
        lookup(reg, e.key) is None,
    ensures
        lookup(reg.push(e), e.key) == Some(e),
        forall|k: (Seq<char>, Seq<char>)| k != e.key ==> #[trigger] lookup(reg.push(e), k) == lookup(reg, k),
{
    lemma_entry_index_from(reg, e.key, 0);
    lemma_entry_index_from(reg.push(e), e.key, 0);
    let s = reg.push(e);
    assert(s[reg.len() as int] == e);
    if let Some(j) = entry_index_from(s, e.key, 0) {
        if j < reg.len() {
            assert(s[j] == reg[j]);
        }
    }
    assert forall|k: (Seq<char>, Seq<char>)| k != e.key implies #[trigger] lookup(reg.push(e), k) == lookup(reg, k) by {
        lemma_entry_index_from(reg, k, 0);
        lemma_entry_index_from(s, k, 0);
        if let Some(j) = entry_index_from(s, k, 0) {
            assert(s[j] == reg[j]);
            if let Some(m) = entry_index_from(reg, k, 0) {
                assert(s[m] == reg[m]);
            }
        } else {
            if let Some(m) = entry_index_from(reg, k, 0) {
                assert(s[m] == reg[m]);
            }
        }
    }
}

impl DedupRegistry {
    /// The registry of a new generation, with no entry.
    pub fn new() -> (r: DedupRegistry)
        ensures
            r@ == Seq::<EntryV>::empty(),
            r.wf(),
    {
        let r = DedupRegistry { entries: Vec::new() };
        assert(r@ =~= Seq::<EntryV>::empty());
        r
    }

    /// The number of entries.
    pub fn len(&self) -> (r: usize)
        ensures
            r == self@.len(),
    {
        self.entries.len()
    }

    /// The entry registered for the identity `(id, host)`.
    pub fn lookup(&self, id: &String, host: &String) -> (r: Option<&DedupEntry>)
        ensures
            r matches Some(e) ==> lookup(self@, (id@, host@)) == Some(entry_view(*e)),
            r is None ==> lookup(self@, (id@, host@)) is None,
    {
        let ghost key = (id@, host@);
        let mut i: usize = 0;
        while i < self.entries.len()
            invariant
                i <= self.entries@.len(),
                self@.len() == self.entries@.len(),
                key == (id@, host@),
                entry_index_from(self@, key, 0) == entry_index_from(self@, key, i as int),
            decreases self.entries@.len() - i,
        {
            let e = &self.entries[i];
            assert(self@[i as int] == entry_view(self.entries@[i as int]));
            let same_id = e.id == *id;
            let same_host = e.host == *host;
            if same_id && same_host {
                assert(self@[i as int].key == key);
                return Some(e);
            }
            assert(self@[i as int].key != key);
            i = i + 1;
        }
        None
    }

    /// Registers `(channel, payload, now)` for the identity `(id, host)`
    /// unless it already has an entry, in which case nothing changes. Returns
    /// whether it registered.
    pub fn register_if_absent(
        &mut self,
        id: String,
        host: String,
        channel: String,
        payload: Vec<XmlNode>,
        now: i64,
    ) -> (r: bool)
        requires
            old(self).wf(),
        ensures
            final(self).wf(),
            r == (lookup(old(self)@, (id@, host@)) is None),
            r ==> final(self)@ == old(self)@.push(
                EntryV { key: (id@, host@), channel: channel@, payload: nodes_view(payload@), inserted_at: now as int },
            ),
            !r ==> final(self)@ == old(self)@,
    {
        if self.lookup(&id, &host).is_some() {
            return false;
        }
        let ghost old_view = self@;
        proof {
            lemma_entry_index_from(old_view, (id@, host@), 0);
        }
        self.entries.push(DedupEntry { id, host, channel, payload, inserted_at: now });
        assert(self@ =~= old_view.push(entry_view(self.entries@[self.entries@.len() - 1])));
        true
    }

    /// Empties the registry, ending the generation.
    pub fn clear(&mut self)
        ensures
            final(self)@ == Seq::<EntryV>::empty(),
            final(self).wf(),
    {
        self.entries.clear();
        assert(self@ =~= Seq::<EntryV>::empty());
    }

    /// Drops the entries made after the first `n`.
    pub fn truncate(&mut self, n: usize)
        requires
            n <= old(self)@.len(),
            old(self).wf(),
        ensures
            final(self)@ == old(self)@.subrange(0, n as int),
            final(self).wf(),
    {
        self.entries.truncate(n);
        assert(self@ =~= old(self)@.subrange(0, n as int));
    }

    /// A copy of the canonical content registered for `(id, host)`, if any.
    pub fn payload_of(&self, id: &String, host: &String) -> (r: Option<Vec<XmlNode>>)
        ensures
            r matches Some(p) ==> lookup(self@, (id@, host@)) matches Some(e) && nodes_view(p@) == e.payload,
            r is None ==> lookup(self@, (id@, host@)) is None,
    {
        match self.lookup(id, host) {
            Some(e) => Some(copy_nodes(&e.payload)),
            None => None,
        }
    }
}

} // verus!
