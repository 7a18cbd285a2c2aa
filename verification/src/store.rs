use vstd::prelude::*;
use vstd::pervasive::VecAdditionalExecFns;

use crate::error::ContractError;
use crate::sort::{sort_u64s, sorted_asc};
use crate::state::{distinct_addrs, State, StateView};

verus! {

// ---------------------------------------------------------------------------
// Composite-key table representation: an association list keyed by (k1, k2).
// ---------------------------------------------------------------------------

struct CompositeEntry {
    k1: u64,
    k2: u64,
    value: u128,
}

spec fn composite_key(e: CompositeEntry) -> (u64, u64) {
    (e.k1, e.k2)
}

spec fn composite_map_of(s: Seq<CompositeEntry>) -> Map<(u64, u64), u128>
    decreases s.len(),
{
    if s.len() == 0 {
        Map::empty()
    } else {
        composite_map_of(s.drop_last()).insert(composite_key(s.last()), s.last().value)
    }
}

spec fn composite_keys_unique(s: Seq<CompositeEntry>) -> bool {
    forall|i: int, j: int| 0 <= i < j < s.len() ==> composite_key(s[i]) != composite_key(s[j])
}

proof fn lemma_composite_unique_prefix(s: Seq<CompositeEntry>)
    requires
        s.len() > 0,
        composite_keys_unique(s),
    ensures
        composite_keys_unique(s.drop_last()),
{
    assert forall|a: int, b: int|
        0 <= a < b < s.drop_last().len() implies composite_key(s.drop_last()[a])
        != composite_key(s.drop_last()[b]) by {
        assert(s.drop_last()[a] == s[a]);
        assert(s.drop_last()[b] == s[b]);
    }
}

proof fn lemma_composite_contains(s: Seq<CompositeEntry>, k: (u64, u64))
    ensures
        composite_map_of(s).contains_key(k) <==> exists|i: int|
            0 <= i < s.len() && composite_key(s[i]) == k,
    decreases s.len(),
{
    if s.len() == 0 {
    } else {
        let prefix = s.drop_last();
        lemma_composite_contains(prefix, k);
        if composite_key(s.last()) == k {
            assert(composite_key(s[s.len() - 1]) == k);
        } else {
            if composite_map_of(s).contains_key(k) {
                let i = choose|i: int| 0 <= i < prefix.len() && composite_key(prefix[i]) == k;
                assert(composite_key(s[i]) == k);
            }
            if exists|i: int| 0 <= i < s.len() && composite_key(s[i]) == k {
                let i = choose|i: int| 0 <= i < s.len() && composite_key(s[i]) == k;
                assert(prefix[i] == s[i]);
            }
        }
    }
}

proof fn lemma_composite_index(s: Seq<CompositeEntry>, i: int)
    requires
        composite_keys_unique(s),
        0 <= i < s.len(),
    ensures
        composite_map_of(s).contains_key(composite_key(s[i])),
        composite_map_of(s)[composite_key(s[i])] == s[i].value,
    decreases s.len(),
{
    if i == s.len() - 1 {
    } else {
        lemma_composite_unique_prefix(s);
        lemma_composite_index(s.drop_last(), i);
        assert(s.drop_last()[i] == s[i]);
        assert(composite_key(s.last()) != composite_key(s[i]));
    }
}

proof fn lemma_composite_update(s: Seq<CompositeEntry>, i: int, e: CompositeEntry)
    requires
        composite_keys_unique(s),
        0 <= i < s.len(),
        composite_key(e) == composite_key(s[i]),
    ensures
        composite_map_of(s.update(i, e)) == composite_map_of(s).insert(composite_key(e), e.value),
    decreases s.len(),
{
    let s2 = s.update(i, e);
    if i == s.len() - 1 {
        assert(s2.drop_last() =~= s.drop_last());
        assert(s2.last() == e);
        assert(composite_map_of(s2) =~= composite_map_of(s).insert(composite_key(e), e.value));
    } else {
        lemma_composite_unique_prefix(s);
        assert(s2.drop_last() =~= s.drop_last().update(i, e));
        assert(s2.last() == s.last());
        lemma_composite_update(s.drop_last(), i, e);
        assert(composite_key(s.last()) != composite_key(s[i]));
        assert(composite_map_of(s2) =~= composite_map_of(s).insert(composite_key(e), e.value));
    }
}

// ---------------------------------------------------------------------------
// Keyed-sequence table representation: an association list keyed by u64,
// holding an ordered list of (tag, amount) pairs per key.
// ---------------------------------------------------------------------------

struct KeyedEntry {
    key: u64,
    items: Vec<(u64, u128)>,
}

spec fn keyed_map_of(s: Seq<KeyedEntry>) -> Map<u64, Seq<(u64, u128)>>
    decreases s.len(),
{
    if s.len() == 0 {
        Map::empty()
    } else {
        keyed_map_of(s.drop_last()).insert(s.last().key, s.last().items@)
    }
}

spec fn keyed_keys_unique(s: Seq<KeyedEntry>) -> bool {
    forall|i: int, j: int| 0 <= i < j < s.len() ==> s[i].key != s[j].key
}

proof fn lemma_keyed_unique_prefix(s: Seq<KeyedEntry>)
    requires
        s.len() > 0,
        keyed_keys_unique(s),
    ensures
        keyed_keys_unique(s.drop_last()),
{
    assert forall|a: int, b: int|
        0 <= a < b < s.drop_last().len() implies s.drop_last()[a].key != s.drop_last()[b].key by {
        assert(s.drop_last()[a] == s[a]);
        assert(s.drop_last()[b] == s[b]);
    }
}

proof fn lemma_keyed_contains(s: Seq<KeyedEntry>, k: u64)
    ensures
        keyed_map_of(s).contains_key(k) <==> exists|i: int| 0 <= i < s.len() && s[i].key == k,
    decreases s.len(),
{
    if s.len() == 0 {
    } else {
        let prefix = s.drop_last();
        lemma_keyed_contains(prefix, k);
        if s.last().key == k {
            assert(s[s.len() - 1].key == k);
        } else {
            if keyed_map_of(s).contains_key(k) {
                let i = choose|i: int| 0 <= i < prefix.len() && prefix[i].key == k;
                assert(s[i].key == k);
            }
            if exists|i: int| 0 <= i < s.len() && s[i].key == k {
                let i = choose|i: int| 0 <= i < s.len() && s[i].key == k;
                assert(prefix[i] == s[i]);
            }
        }
    }
}

proof fn lemma_keyed_index(s: Seq<KeyedEntry>, i: int)
    requires
        keyed_keys_unique(s),
        0 <= i < s.len(),
    ensures
        keyed_map_of(s).contains_key(s[i].key),
        keyed_map_of(s)[s[i].key] == s[i].items@,
    decreases s.len(),
{
    if i == s.len() - 1 {
    } else {
        lemma_keyed_unique_prefix(s);
        lemma_keyed_index(s.drop_last(), i);
        assert(s.drop_last()[i] == s[i]);
        assert(s.last().key != s[i].key);
    }
}

proof fn lemma_keyed_update(s: Seq<KeyedEntry>, i: int, e: KeyedEntry)
    requires
        keyed_keys_unique(s),
        0 <= i < s.len(),
        e.key == s[i].key,
    ensures
        keyed_map_of(s.update(i, e)) == keyed_map_of(s).insert(e.key, e.items@),
    decreases s.len(),
{
    let s2 = s.update(i, e);
    if i == s.len() - 1 {
        assert(s2.drop_last() =~= s.drop_last());
        assert(s2.last() == e);
        assert(keyed_map_of(s2) =~= keyed_map_of(s).insert(e.key, e.items@));
    } else {
        lemma_keyed_unique_prefix(s);
        assert(s2.drop_last() =~= s.drop_last().update(i, e));
        assert(s2.last() == s.last());
        lemma_keyed_update(s.drop_last(), i, e);
        assert(s.last().key != s[i].key);
        assert(keyed_map_of(s2) =~= keyed_map_of(s).insert(e.key, e.items@));
    }
}

// ---------------------------------------------------------------------------
// Copy helpers.
// ---------------------------------------------------------------------------

fn copy_u64s(v: &Vec<u64>) -> (r: Vec<u64>)
    ensures
        r@ == v@,
{
    let mut r: Vec<u64> = Vec::new();
    let mut i: usize = 0;
    while i < v.len()
        invariant
            i <= v.len(),
            r@ =~= v@.take(i as int),
        decreases v.len() - i,
    {
        r.push(v[i]);
        proof {
            assert(r@ =~= v@.take(i as int + 1));
        }
        i += 1;
    }
    proof {
        assert(v@.take(v@.len() as int) =~= v@);
    }
    r
}

fn copy_pairs(v: &Vec<(u64, u128)>) -> (r: Vec<(u64, u128)>)
    ensures
        r@ == v@,
{
    let mut r: Vec<(u64, u128)> = Vec::new();
    let mut i: usize = 0;
    while i < v.len()
        invariant
            i <= v.len(),
            r@ =~= v@.take(i as int),
        decreases v.len() - i,
    {
        r.push(v[i]);
        proof {
            assert(r@ =~= v@.take(i as int + 1));
        }
        i += 1;
    }
    proof {
        assert(v@.take(v@.len() as int) =~= v@);
    }
    r
}

pub(crate) fn copy_addrs(v: &Vec<String>) -> (r: Vec<String>)
    ensures
        r@ == v@,
{
    let mut r: Vec<String> = Vec::new();
    let mut i: usize = 0;
    while i < v.len()
        invariant
            i <= v.len(),
            r@ =~= v@.take(i as int),
        decreases v.len() - i,
    {
        let a = v[i].clone();
        r.push(a);
        proof {
            assert(r@ =~= v@.take(i as int + 1));
        }
        i += 1;
    }
    proof {
        assert(v@.take(v@.len() as int) =~= v@);
    }
    r
}

// ---------------------------------------------------------------------------
// The store.
// ---------------------------------------------------------------------------

/// Mathematical image of the whole persistent store: the singleton state
/// record, the composite-key table, and the keyed-sequence table, each in its
/// own namespace.
#[verifier::ext_equal]
pub ghost struct StoreView {
    pub state: Option<StateView>,
    pub composite: Map<(u64, u64), u128>,
    pub keyed: Map<u64, Seq<(u64, u128)>>,
}

/// The persistent store: a capability-scoped key/value interface supporting
/// point save, point load (fails if absent), and read-modify-write. One
/// instance per deployed contract; all durable state lives here.
pub struct Store {
    state: Option<State>,
    composite: Vec<CompositeEntry>,
    keyed: Vec<KeyedEntry>,
}

impl View for Store {
    type V = StoreView;

    closed spec fn view(&self) -> StoreView {
        StoreView {
            state: match self.state {
                Some(st) => Some(st@),
                None => None,
            },
            composite: composite_map_of(self.composite@),
            keyed: keyed_map_of(self.keyed@),
        }
    }
}

// ---------------------------------------------------------------------------
// Operation postconditions, stated over store views so that the dispatch
// layer can restate them verbatim.
// ---------------------------------------------------------------------------

/// A point write of the scalar counter: fails with NotFound when the state
/// record was never created, otherwise overwrites the counter and nothing else.
pub open spec fn scalar_write_post(
    pre: StoreView,
    post: StoreView,
    r: Result<(), ContractError>,
    n: u64,
) -> bool {
    match pre.state {
        Some(st) => r == Ok::<(), ContractError>(()) && post == (StoreView {
            state: Some(StateView { counter: n, ..st }),
            ..pre
        }),
        None => r == Err::<(), ContractError>(ContractError::NotFound) && post == pre,
    }
}

/// A point append to the numeric sequence: fails with NotFound when the state
/// record was never created, otherwise pushes `n` and changes nothing else.
pub open spec fn sequence_append_post(
    pre: StoreView,
    post: StoreView,
    r: Result<(), ContractError>,
    n: u64,
) -> bool {
    match pre.state {
        Some(st) => r == Ok::<(), ContractError>(()) && post == (StoreView {
            state: Some(StateView { sequence: st.sequence.push(n), ..st }),
            ..pre
        }),
        None => r == Err::<(), ContractError>(ContractError::NotFound) && post == pre,
    }
}

impl Store {
    /// Representation invariant: each table keys every entry at most once.
    pub closed spec fn rep_inv(self) -> bool {
        composite_keys_unique(self.composite@) && keyed_keys_unique(self.keyed@)
    }

    /// The roster of the stored state record holds no duplicate address.
    pub open spec fn view_ok(self) -> bool {
        match self@.state {
            Some(st) => distinct_addrs(st.roster),
            None => true,
        }
    }

    /// Well-formedness of the store: established by `new` and preserved by
    /// every operation.
    pub open spec fn inv(self) -> bool {
        self.rep_inv() && self.view_ok()
    }

    /// A fresh store: no state record, both tables empty.
    pub fn new() -> (s: Store)
        ensures
            s.inv(),
            s@.state is None,
            s@.composite == Map::<(u64, u64), u128>::empty(),
            s@.keyed == Map::<u64, Seq<(u64, u128)>>::empty(),
    {
        Store { state: None, composite: Vec::new(), keyed: Vec::new() }
    }

    /// Whether the singleton state record has been created.
    pub(crate) fn has_state(&self) -> (b: bool)
        ensures
            b == (self@.state is Some),
    {
        self.state.is_some()
    }

    /// Unconditional overwrite of the singleton state record.
    pub(crate) fn state_save(&mut self, record: State)
        requires
            old(self).inv(),
            record.wf(),
        ensures
            final(self).inv(),
            final(self)@ == (StoreView { state: Some(record@), ..old(self)@ }),
    {
        self.state = Some(record);
    }

    /// Overwrites the scalar counter with `n`.
    pub fn save_scalar(&mut self, n: u64) -> (r: Result<(), ContractError>)
        requires
            old(self).inv(),
        ensures
            final(self).inv(),
            scalar_write_post(old(self)@, final(self)@, r, n),
    {
        match &mut self.state {
            Some(st) => {
                st.state_num = n;
                Ok(())
            },
            None => Err(ContractError::NotFound),
        }
    }

    /// Overwrites the scalar counter with `n` through the atomic update path.
    /// With single-threaded, strictly sequential execution the atomic
    /// load-transform-store cycle has the same net effect as a point save.
    pub fn update_scalar(&mut self, n: u64) -> (r: Result<(), ContractError>)
        requires
            old(self).inv(),
        ensures
            final(self).inv(),
            scalar_write_post(old(self)@, final(self)@, r, n),
    {
        match &mut self.state {
            Some(st) => {
                st.state_num = n;
                Ok(())
            },
            None => Err(ContractError::NotFound),
        }
    }

    /// Appends `n` to the numeric sequence.
    pub fn save_sequence_value(&mut self, n: u64) -> (r: Result<(), ContractError>)
        requires
            old(self).inv(),
        ensures
            final(self).inv(),
            sequence_append_post(old(self)@, final(self)@, r, n),
    {
        match &mut self.state {
            Some(st) => {
                st.state_vector.push(n);
                Ok(())
            },
            None => Err(ContractError::NotFound),
        }
    }

    /// Appends `n` to the numeric sequence through the atomic update path;
    /// the updater simply replaces the sequence with the appended copy, so the
    /// net effect mirrors the save path.
    pub fn update_sequence_value(&mut self, n: u64) -> (r: Result<(), ContractError>)
        requires
            old(self).inv(),
        ensures
            final(self).inv(),
            sequence_append_post(old(self)@, final(self)@, r, n),
    {
        match &mut self.state {
            Some(st) => {
                st.state_vector.push(n);
                Ok(())
            },
            None => Err(ContractError::NotFound),
        }
    }

    /// Pure read of the scalar counter.
    pub fn load_scalar(&self) -> (r: Result<u64, ContractError>)
        ensures
            match self@.state {
                Some(st) => r == Ok::<u64, ContractError>(st.counter),
                None => r == Err::<u64, ContractError>(ContractError::NotFound),
            },
    {
        match &self.state {
            Some(st) => Ok(st.state_num),
            None => Err(ContractError::NotFound),
        }
    }

    /// Pure read of the numeric sequence, in stored (insertion) order.
    pub fn load_sequence(&self) -> (r: Result<Vec<u64>, ContractError>)
        ensures
            match self@.state {
                Some(st) => r matches Ok(v) && v@ == st.sequence,
                None => r is Err && r->Err_0 == ContractError::NotFound,
            },
    {
        match &self.state {
            Some(st) => Ok(copy_u64s(&st.state_vector)),
            None => Err(ContractError::NotFound),
        }
    }

    /// Pure read returning a copy of the numeric sequence in ascending order;
    /// the stored sequence is left untouched.
    pub fn load_sequence_sorted(&self) -> (r: Result<Vec<u64>, ContractError>)
        ensures
            match self@.state {
                Some(st) => r matches Ok(v) && sorted_asc(v@) && v@.to_multiset()
                    == st.sequence.to_multiset(),
                None => r is Err && r->Err_0 == ContractError::NotFound,
            },
    {
        match &self.state {
            Some(st) => Ok(sort_u64s(&st.state_vector)),
            None => Err(ContractError::NotFound),
        }
    }

    /// Mutating sibling of the sorted read: replaces the stored sequence with
    /// its ascending sort; counter and roster are untouched.
    pub fn save_sequence_sorted(&mut self) -> (r: Result<(), ContractError>)
        requires
            old(self).inv(),
        ensures
            final(self).inv(),
            match old(self)@.state {
                Some(st) => {
                    &&& r == Ok::<(), ContractError>(())
                    &&& final(self)@.state matches Some(st2) && st2.counter == st.counter
                        && st2.roster == st.roster && sorted_asc(st2.sequence)
                        && st2.sequence.to_multiset() == st.sequence.to_multiset()
                    &&& final(self)@.composite == old(self)@.composite
                    &&& final(self)@.keyed == old(self)@.keyed
                },
                None => r == Err::<(), ContractError>(ContractError::NotFound) && final(self)@
                    == old(self)@,
            },
    {
        match &mut self.state {
            Some(st) => {
                let sorted = sort_u64s(&st.state_vector);
                st.state_vector = sorted;
                Ok(())
            },
            None => Err(ContractError::NotFound),
        }
    }

    /// A copy of the validator roster, in registration order.
    pub fn load_roster(&self) -> (r: Result<Vec<String>, ContractError>)
        ensures
            match self@.state {
                Some(st) => r matches Ok(v) && v@ == st.roster,
                None => r is Err && r->Err_0 == ContractError::NotFound,
            },
    {
        match &self.state {
            Some(st) => Ok(copy_addrs(&st.validator_added)),
            None => Err(ContractError::NotFound),
        }
    }

    /// Appends a fresh address to the roster; the caller must have checked
    /// that the address is not registered yet.
    pub(crate) fn roster_push(&mut self, addr: String) -> (r: Result<(), ContractError>)
        requires
            old(self).inv(),
            old(self)@.state matches Some(st) ==> !crate::state::addr_in(st.roster, addr@),
        ensures
            final(self).inv(),
            match old(self)@.state {
                Some(st) => r == Ok::<(), ContractError>(()) && final(self)@ == (StoreView {
                    state: Some(StateView { roster: st.roster.push(addr), ..st }),
                    ..old(self)@
                }),
                None => r == Err::<(), ContractError>(ContractError::NotFound) && final(self)@
                    == old(self)@,
            },
    {
        match &mut self.state {
            Some(st) => {
                st.validator_added.push(addr);
                proof {
                    let roster = st.validator_added@;
                    assert forall|i: int, j: int| 0 <= i < j < roster.len() implies roster[i]@
                        != roster[j]@ by {
                        if j < roster.len() - 1 {
                            assert(roster[i] == old(self)@.state->Some_0.roster[i]);
                        }
                    }
                }
                Ok(())
            },
            None => Err(ContractError::NotFound),
        }
    }

    /// Looks up the composite-key table entry for `(k1, k2)`, if any.
    fn composite_find(&self, k1: u64, k2: u64) -> (r: Option<usize>)
        ensures
            match r {
                Some(i) => i < self.composite@.len() && self.composite@[i as int].k1 == k1
                    && self.composite@[i as int].k2 == k2,
                None => forall|t: int|
                    0 <= t < self.composite@.len() ==> composite_key(self.composite@[t]) != (
                    k1,
                    k2,
                ),
            },
    {
        let mut i: usize = 0;
        while i < self.composite.len()
            invariant
                i <= self.composite@.len(),
                forall|t: int| 0 <= t < i ==> composite_key(self.composite@[t]) != (k1, k2),
            decreases self.composite@.len() - i,
        {
            let e = &self.composite[i];
            if e.k1 == k1 && e.k2 == k2 {
                return Some(i);
            }
            i += 1;
        }
        None
    }

    /// Point save into the composite-key table: creates the entry on first use
    /// and overwrites it afterwards.
    pub fn save_composite_entry(&mut self, k1: u64, k2: u64, value: u128)
        requires
            old(self).inv(),
        ensures
            final(self).inv(),
            final(self)@ == (StoreView {
                composite: old(self)@.composite.insert((k1, k2), value),
                ..old(self)@
            }),
    {
        let entry = CompositeEntry { k1, k2, value };
        match self.composite_find(k1, k2) {
            Some(i) => {
                proof {
                    lemma_composite_update(self.composite@, i as int, entry);
                }
                self.composite.set(i, entry);
                proof {
                    let s = self.composite@;
                    let prev = old(self).composite@;
                    assert forall|a: int, b: int| 0 <= a < b < s.len() implies composite_key(s[a])
                        != composite_key(s[b]) by {
                        assert(composite_key(s[a]) == composite_key(prev[a]));
                        assert(composite_key(s[b]) == composite_key(prev[b]));
                    }
                }
            },
            None => {
                self.composite.push(entry);
                proof {
                    let s = self.composite@;
                    let prev = old(self).composite@;
                    assert(s.drop_last() =~= prev);
                    lemma_composite_contains(prev, (k1, k2));
                    assert forall|a: int, b: int| 0 <= a < b < s.len() implies composite_key(s[a])
                        != composite_key(s[b]) by {
                        if b < s.len() - 1 {
                            assert(s[a] == prev[a] && s[b] == prev[b]);
                        } else {
                            assert(s[a] == prev[a]);
                            assert(composite_key(prev[a]) != (k1, k2));
                        }
                    }
                }
            },
        }
    }

    /// Pure read from the composite-key table; fails with NotFound when the
    /// pair was never saved.
    pub fn load_composite(&self, first_key: u64, second_key: u64) -> (r: Result<
        u128,
        ContractError,
    >)
        requires
            self.inv(),
        ensures
            self@.composite.contains_key((first_key, second_key)) ==> r == Ok::<
                u128,
                ContractError,
            >(self@.composite[(first_key, second_key)]),
            !self@.composite.contains_key((first_key, second_key)) ==> r == Err::<
                u128,
                ContractError,
            >(ContractError::NotFound),
    {
        proof {
            lemma_composite_contains(self.composite@, (first_key, second_key));
        }
        match self.composite_find(first_key, second_key) {
            Some(i) => {
                proof {
                    lemma_composite_index(self.composite@, i as int);
                }
                Ok(self.composite[i].value)
            },
            None => Err(ContractError::NotFound),
        }
    }

    /// Looks up the keyed-sequence table entry for `key`, if any.
    fn keyed_find(&self, key: u64) -> (r: Option<usize>)
        ensures
            match r {
                Some(i) => i < self.keyed@.len() && self.keyed@[i as int].key == key,
                None => forall|t: int| 0 <= t < self.keyed@.len() ==> self.keyed@[t].key != key,
            },
    {
        let mut i: usize = 0;
        while i < self.keyed.len()
            invariant
                i <= self.keyed@.len(),
                forall|t: int| 0 <= t < i ==> self.keyed@[t].key != key,
            decreases self.keyed@.len() - i,
        {
            let e = &self.keyed[i];
            if e.key == key {
                return Some(i);
            }
            i += 1;
        }
        None
    }

    /// Point save into the keyed-sequence table: creates the entry on first
    /// use and overwrites it afterwards. Loading a key that was never saved
    /// fails, so callers seed a key with this save before walking it with the
    /// load-append-save operations (a caller-enforced invariant).
    pub fn save_keyed_entry(&mut self, key: u64, items: Vec<(u64, u128)>)
        requires
            old(self).inv(),
        ensures
            final(self).inv(),
            final(self)@ == (StoreView {
                keyed: old(self)@.keyed.insert(key, items@),
                ..old(self)@
            }),
    {
        let entry = KeyedEntry { key, items };
        match self.keyed_find(key) {
            Some(i) => {
                proof {
                    lemma_keyed_update(self.keyed@, i as int, entry);
                }
                self.keyed.set(i, entry);
                proof {
                    let s = self.keyed@;
                    let prev = old(self).keyed@;
                    assert forall|a: int, b: int| 0 <= a < b < s.len() implies s[a].key
                        != s[b].key by {
                        assert(s[a].key == prev[a].key);
                        assert(s[b].key == prev[b].key);
                    }
                }
            },
            None => {
                self.keyed.push(entry);
                proof {
                    let s = self.keyed@;
                    let prev = old(self).keyed@;
                    assert(s.drop_last() =~= prev);
                    lemma_keyed_contains(prev, key);
                    assert forall|a: int, b: int| 0 <= a < b < s.len() implies s[a].key
                        != s[b].key by {
                        if b < s.len() - 1 {
                            assert(s[a] == prev[a] && s[b] == prev[b]);
                        } else {
                            assert(s[a] == prev[a]);
                            assert(prev[a].key != key);
                        }
                    }
                }
            },
        }
    }

    /// Pure read from the keyed-sequence table; fails with NotFound when the
    /// key was never saved.
    pub fn load_keyed_sequence(&self, key_to_find: u64) -> (r: Result<
        Vec<(u64, u128)>,
        ContractError,
    >)
        requires
            self.inv(),
        ensures
            self@.keyed.contains_key(key_to_find) ==> (r matches Ok(v) && v@ == self@.keyed[key_to_find]),
            !self@.keyed.contains_key(key_to_find) ==> (r is Err && r->Err_0
                == ContractError::NotFound),
    {
        proof {
            lemma_keyed_contains(self.keyed@, key_to_find);
        }
        match self.keyed_find(key_to_find) {
            Some(i) => {
                proof {
                    lemma_keyed_index(self.keyed@, i as int);
                }
                Ok(copy_pairs(&self.keyed[i].items))
            },
            None => Err(ContractError::NotFound),
        }
    }

    /// Every entry of the composite-key table as a plain pair. The keys are
    /// pairwise distinct and together carry exactly the table's contents;
    /// order beyond that is not specified.
    pub fn composite_entries(&self) -> (r: Vec<((u64, u64), u128)>)
        requires
            self.inv(),
        ensures
            forall|i: int|
                0 <= i < r@.len() ==> self@.composite.contains_key(#[trigger] r@[i].0)
                    && self@.composite[r@[i].0] == r@[i].1,
            forall|i: int, j: int| 0 <= i < j < r@.len() ==> r@[i].0 != r@[j].0,
            forall|k: (u64, u64)|
                #[trigger] self@.composite.contains_key(k) ==> exists|i: int|
                    0 <= i < r@.len() && r@[i].0 == k,
    {
        let mut r: Vec<((u64, u64), u128)> = Vec::new();
        let mut i: usize = 0;
        while i < self.composite.len()
            invariant
                i <= self.composite@.len(),
                r@.len() == i,
                forall|t: int|
                    0 <= t < i ==> r@[t] == (
                        composite_key(self.composite@[t]),
                        self.composite@[t].value,
                    ),
            decreases self.composite@.len() - i,
        {
            let e = &self.composite[i];
            r.push(((e.k1, e.k2), e.value));
            i += 1;
        }
        proof {
            assert forall|t: int|
                0 <= t < r@.len() implies self@.composite.contains_key(#[trigger] r@[t].0)
                && self@.composite[r@[t].0] == r@[t].1 by {
                lemma_composite_index(self.composite@, t);
            }
            assert forall|k: (u64, u64)| #[trigger]
                self@.composite.contains_key(k) implies exists|t: int|
                0 <= t < r@.len() && r@[t].0 == k by {
                lemma_composite_contains(self.composite@, k);
                let t = choose|t: int|
                    0 <= t < self.composite@.len() && composite_key(self.composite@[t]) == k;
                assert(r@[t].0 == k);
            }
        }
        r
    }

    /// Every entry of the keyed-sequence table, each with a copy of its list.
    /// The keys are pairwise distinct and together carry exactly the table's
    /// contents; order beyond that is not specified.
    pub fn keyed_entries(&self) -> (r: Vec<(u64, Vec<(u64, u128)>)>)
        requires
            self.inv(),
        ensures
            forall|i: int|
                0 <= i < r@.len() ==> self@.keyed.contains_key(#[trigger] r@[i].0) && self@.keyed[
                    r@[i].0] == r@[i].1@,
            forall|i: int, j: int| 0 <= i < j < r@.len() ==> r@[i].0 != r@[j].0,
            forall|k: u64|
                #[trigger] self@.keyed.contains_key(k) ==> exists|i: int|
                    0 <= i < r@.len() && r@[i].0 == k,
    {
        let mut r: Vec<(u64, Vec<(u64, u128)>)> = Vec::new();
        let mut i: usize = 0;
        while i < self.keyed.len()
            invariant
                i <= self.keyed@.len(),
                r@.len() == i,
                forall|t: int|
                    0 <= t < i ==> (#[trigger] r@[t]).0 == self.keyed@[t].key && r@[t].1@
                        == self.keyed@[t].items@,
            decreases self.keyed@.len() - i,
        {
            let e = &self.keyed[i];
            let items = copy_pairs(&e.items);
            r.push((e.key, items));
            i += 1;
        }
        proof {
            assert forall|t: int|
                0 <= t < r@.len() implies self@.keyed.contains_key(#[trigger] r@[t].0)
                && self@.keyed[r@[t].0] == r@[t].1@ by {
                lemma_keyed_index(self.keyed@, t);
            }
            assert forall|k: u64| #[trigger] self@.keyed.contains_key(k) implies exists|t: int|
                0 <= t < r@.len() && r@[t].0 == k by {
                lemma_keyed_contains(self.keyed@, k);
                let t = choose|t: int| 0 <= t < self.keyed@.len() && self.keyed@[t].key == k;
                assert(r@[t].0 == k);
            }
        }
        r
    }
}

} // verus!
