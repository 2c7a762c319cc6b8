//! A generational arena: values live in numbered slots, a freed slot is
//! reused for later values, and a handle names a slot together with the
//! generation of the value it was given for, so that a handle to a removed
//! value is never taken for a handle to the value that replaced it.

use std::collections::VecDeque;
use vstd::prelude::*;

verus! {

/// Something that names a slot of an [`IndexVec`] and decides whether the
/// entry found there is the one it means.
pub trait Index<T> {
    /// The slot this index names.
    spec fn slot(&self) -> usize;

    /// Whether this index accepts the entry found in its slot.
    spec fn accepts(&self, entry: &OccupiedEntry<T>) -> bool;

    /// The slot this index names.
    fn index(&self) -> (r: usize)
        ensures
            r == self.slot(),
    ;

    /// Whether this index accepts the entry found in its slot.
    fn valid(&self, entry: &OccupiedEntry<T>) -> (r: bool)
        ensures
            r == self.accepts(entry),
    ;
}

/// A handle: a slot and the generation of the value it was issued for.
#[derive(Copy, Clone, Debug, Eq, PartialEq, Structural, Hash)]
pub struct GIndex {
    pub index: usize,
    pub generation: usize,
}

impl GIndex {
    /// The handle for the given slot and generation.
    pub fn new(index: usize, generation: usize) -> (r: GIndex)
        ensures
            r == (GIndex { index, generation }),
    {
        GIndex { index, generation }
    }
}

impl<T> Index<T> for GIndex {
    open spec fn slot(&self) -> usize {
        self.index
    }

    open spec fn accepts(&self, entry: &OccupiedEntry<T>) -> bool {
        self.generation == entry.generation
    }

    fn index(&self) -> usize {
        self.index
    }

    fn valid(&self, entry: &OccupiedEntry<T>) -> bool {
        self.generation == entry.generation
    }
}

impl<T> Index<T> for &GIndex {
    open spec fn slot(&self) -> usize {
        self.index
    }

    open spec fn accepts(&self, entry: &OccupiedEntry<T>) -> bool {
        self.generation == entry.generation
    }

    fn index(&self) -> usize {
        self.index
    }

    fn valid(&self, entry: &OccupiedEntry<T>) -> bool {
        self.generation == entry.generation
    }
}

/// A bare slot number accepts whatever occupies the slot.
impl<T> Index<T> for usize {
    open spec fn slot(&self) -> usize {
        *self
    }

    open spec fn accepts(&self, entry: &OccupiedEntry<T>) -> bool {
        true
    }

    fn index(&self) -> usize {
        *self
    }

    fn valid(&self, _entry: &OccupiedEntry<T>) -> bool {
        true
    }
}

enum Entry<T> {
    Occupied(OccupiedEntry<T>),
    Vacant(VacantEntry),
}

impl<T> Entry<T> {
    /// What the entry stands for in the model.
    spec fn slot(self) -> Slot<T> {
        match self {
            Entry::Occupied(entry) => Slot { generation: entry.generation, value: Some(entry.value) },
            Entry::Vacant(entry) => Slot { generation: entry.generation, value: None },
        }
    }

    /// The entry as an occupied one, for changing it, if it is occupied.
    fn occupied_entry_mut(&mut self) -> (r: Option<&mut OccupiedEntry<T>>)
        ensures
            match r {
                Some(entry) => *old(self) == Entry::Occupied(*entry) && *final(self)
                    == Entry::Occupied(*final(entry)),
                None => *old(self) is Vacant && *final(self) == *old(self),
            },
    {
        match self {
            Entry::Occupied(entry) => Some(entry),
            _ => None,
        }
    }
}

/// A slot that holds a value, with the generation of that value.
pub struct OccupiedEntry<T> {
    pub generation: usize,
    pub value: T,
}

struct VacantEntry {
    pub generation: usize,
}

/// One slot of the model: its generation, and its value if it holds one.
pub struct Slot<T> {
    pub generation: usize,
    pub value: Option<T>,
}

/// The model of an [`IndexVec`]: its slots in order, and the queue of the
/// slots that wait for reuse, oldest first.
pub struct Arena<T> {
    pub slots: Seq<Slot<T>>,
    pub free: Seq<usize>,
}

impl<T> Arena<T> {
    /// The arena without slots.
    pub open spec fn empty() -> Arena<T> {
        Arena { slots: Seq::empty(), free: Seq::empty() }
    }

    /// Whether slot `i` exists and holds a value.
    pub open spec fn holds(self, i: int) -> bool {
        0 <= i < self.slots.len() && self.slots[i].value is Some
    }

    /// Whether slot `i` exists, is vacant and can be used again.
    pub open spec fn reusable(self, i: int) -> bool {
        0 <= i < self.slots.len() && self.slots[i].value is None && self.slots[i].generation
            < usize::MAX
    }

    /// The queue of free slots lists every reusable slot once and nothing
    /// else.
    pub open spec fn wf(self) -> bool {
        &&& forall|k: int| 0 <= k < self.free.len() ==> self.reusable(#[trigger] self.free[k] as int)
        &&& forall|j: int, k: int|
            0 <= j < k < self.free.len() ==> self.free[j] != self.free[k]
        &&& forall|i: usize| self.reusable(i as int) ==> #[trigger] self.free.contains(i)
    }

    /// The occupied entry in slot `i`, which must hold a value.
    pub open spec fn entry(self, i: int) -> OccupiedEntry<T> {
        OccupiedEntry { generation: self.slots[i].generation, value: self.slots[i].value.unwrap() }
    }

    /// Whether `index` finds a value: its slot holds one that it accepts.
    pub open spec fn has<I: Index<T>>(self, index: I) -> bool {
        self.holds(index.slot() as int) && index.accepts(&self.entry(index.slot() as int))
    }

    /// The value that `index` finds, if any.
    pub open spec fn lookup<I: Index<T>>(self, index: I) -> Option<T> {
        if self.has(index) {
            self.slots[index.slot() as int].value
        } else {
            None
        }
    }

    /// Whether the handle `h` is live: its slot holds a value of the
    /// handle's generation.
    pub open spec fn live(self, h: GIndex) -> bool {
        self.holds(h.index as int) && self.slots[h.index as int].generation == h.generation
    }

    /// The arena with the value in slot `i` replaced by `value`.
    pub open spec fn with_value(self, i: int, value: T) -> Arena<T> {
        Arena {
            slots: self.slots.update(
                i,
                Slot { generation: self.slots[i].generation, value: Some(value) },
            ),
            free: self.free,
        }
    }

    /// The arena with the value in slot `i` replaced, if a new value is
    /// given.
    pub open spec fn patched(self, i: int, value: Option<T>) -> Arena<T> {
        match value {
            Some(v) => self.with_value(i, v),
            None => self,
        }
    }

    /// The handle that the next insertion returns: the oldest free slot
    /// with its generation raised by one, or else a new slot of generation
    /// zero.
    pub open spec fn next_handle(self) -> GIndex {
        if self.free.len() > 0 {
            GIndex {
                index: self.free[0],
                generation: (self.slots[self.free[0] as int].generation + 1) as usize,
            }
        } else {
            GIndex { index: self.slots.len() as usize, generation: 0 }
        }
    }

    /// The arena after `value` was inserted.
    pub open spec fn inserted(self, value: T) -> Arena<T> {
        let h = self.next_handle();
        let slot = Slot { generation: h.generation, value: Some(value) };
        if self.free.len() > 0 {
            Arena { slots: self.slots.update(h.index as int, slot), free: self.free.drop_first() }
        } else {
            Arena { slots: self.slots.push(slot), free: self.free }
        }
    }

    /// The arena after the values were inserted one after the other.
    pub open spec fn extended(self, values: Seq<T>) -> Arena<T>
        decreases values.len(),
    {
        if values.len() == 0 {
            self
        } else {
            self.extended(values.drop_last()).inserted(values.last())
        }
    }

    /// The arena after the value in slot `i` was taken out: the slot keeps
    /// its generation and joins the end of the queue of free slots, unless
    /// its generation can rise no further.
    pub open spec fn vacated(self, i: int) -> Arena<T> {
        let generation = self.slots[i].generation;
        Arena {
            slots: self.slots.update(i, Slot { generation, value: None }),
            free: if generation < usize::MAX {
                self.free.push(i as usize)
            } else {
                self.free
            },
        }
    }

    /// The arena after `index` was removed: unchanged if it finds nothing.
    pub open spec fn removed<I: Index<T>>(self, index: I) -> Arena<T> {
        if self.has(index) {
            self.vacated(index.slot() as int)
        } else {
            self
        }
    }

    /// The arena after every value in the first `n` slots was taken out, in
    /// the order of the slots.
    pub open spec fn cleared_to(self, n: int) -> Arena<T>
        decreases n,
    {
        if n <= 0 {
            self
        } else {
            let before = self.cleared_to(n - 1);
            if before.holds(n - 1) {
                before.vacated(n - 1)
            } else {
                before
            }
        }
    }

    /// The arena after every value was taken out.
    pub open spec fn cleared(self) -> Arena<T> {
        self.cleared_to(self.slots.len() as int)
    }

    /// The first slot at or after `from` that holds a value; `from` itself
    /// or the number of slots, whichever is larger, if there is none.
    pub open spec fn next_held(self, from: int) -> int
        decreases self.slots.len() - from,
    {
        if from >= self.slots.len() {
            from
        } else if self.holds(from) {
            from
        } else {
            self.next_held(from + 1)
        }
    }

    /// The first pair of slots `(i, j)` with `i < j` that both hold a value,
    /// at or after the pair given, in the order in which pairs are walked:
    /// by `i`, then by `j`.
    pub open spec fn next_pair(self, i: int, j: int) -> Option<(int, int)>
        decreases self.slots.len() - i, self.slots.len() - j,
    {
        if i >= self.slots.len() {
            None
        } else if !self.holds(i) || j >= self.slots.len() {
            self.next_pair(i + 1, i + 2)
        } else if j <= i {
            self.next_pair(i, i + 1)
        } else if self.holds(j) {
            Some((i, j))
        } else {
            self.next_pair(i, j + 1)
        }
    }

    /// The handle of the value that slot `i` holds.
    pub open spec fn handle(self, i: int) -> GIndex {
        GIndex { index: i as usize, generation: self.slots[i].generation }
    }
}

/// A generational arena of values of type `T`.
pub struct IndexVec<T> {
    entries: Vec<Entry<T>>,
    free: VecDeque<usize>,
}

impl<T> View for IndexVec<T> {
    type V = Arena<T>;

    closed spec fn view(&self) -> Arena<T> {
        model(self.entries@, self.free@)
    }
}

/// The model of the given entries and queue.
spec fn model<T>(entries: Seq<Entry<T>>, free: Seq<usize>) -> Arena<T> {
    Arena { slots: entries.map_values(|e: Entry<T>| e.slot()), free }
}

/// Replacing one entry replaces one slot of the model.
proof fn lemma_model_update<T>(entries: Seq<Entry<T>>, free: Seq<usize>, i: int, e: Entry<T>)
    requires
        0 <= i < entries.len(),
    ensures
        model(entries.update(i, e), free).slots == model(entries, free).slots.update(i, e.slot()),
        model(entries.update(i, e), free).free == free,
{
    assert(model(entries.update(i, e), free).slots =~= model(entries, free).slots.update(
        i,
        e.slot(),
    ));
}

/// A new entry at the end is a new slot at the end of the model.
proof fn lemma_model_push<T>(entries: Seq<Entry<T>>, free: Seq<usize>, e: Entry<T>)
    ensures
        model(entries.push(e), free).slots == model(entries, free).slots.push(e.slot()),
        model(entries.push(e), free).free == free,
{
    assert(model(entries.push(e), free).slots =~= model(entries, free).slots.push(e.slot()));
}

impl<T> Default for IndexVec<T> {
    fn default() -> (r: Self)
        ensures
            r@ == Arena::<T>::empty(),
            r@.wf(),
    {
        IndexVec::new()
    }
}

impl<T> IndexVec<T> {
    /// The arena without slots.
    pub fn new() -> (r: IndexVec<T>)
        ensures
            r@ == Arena::<T>::empty(),
            r@.wf(),
    {
        let r = IndexVec { entries: Vec::new(), free: VecDeque::new() };
        assert(r@.slots =~= Seq::empty());
        r
    }

    /// The slots are no more than can be counted.
    pub proof fn lemma_len_fits(&self)
        ensures
            self@.slots.len() <= usize::MAX,
    {
        assert(self.entries.len() == self.entries@.len());
    }

    /// The number of slots, vacant ones included.
    pub fn len(&self) -> (r: usize)
        ensures
            r == self@.slots.len(),
    {
        self.entries.len()
    }

    /// The value that `index` finds, if any.
    pub fn get<I: Index<T>>(&self, index: I) -> (r: Option<&T>)
        ensures
            match r {
                Some(value) => self@.lookup(index) == Some(*value),
                None => self@.lookup(index) is None,
            },
    {
        let i = index.index();
        if i < self.entries.len() {
            if let Entry::Occupied(entry) = &self.entries[i] {
                if index.valid(entry) {
                    return Some(&entry.value);
                }
            }
        }
        None
    }

    /// The value that `index` finds, if any, for changing it.
    pub fn get_mut<I: Index<T>>(&mut self, index: I) -> (r: Option<&mut T>)
        ensures
            match r {
                Some(value) => {
                    &&& old(self)@.lookup(index) == Some(*value)
                    &&& final(self)@ == old(self)@.with_value(index.slot() as int, *final(value))
                },
                None => old(self)@.lookup(index) is None && final(self)@ == old(self)@,
            },
            old(self)@.wf() ==> final(self)@.wf(),
    {
        proof {
            lemma_with_value_wf(self@, index.slot() as int);
        }
        let i = index.index();
        if i < self.entries.len() {
            let found = match &self.entries[i] {
                Entry::Occupied(entry) => index.valid(entry),
                Entry::Vacant(_) => false,
            };
            if found {
                proof {
                    let entries = self.entries@;
                    let free = self.free@;
                    let generation = entries[i as int]->Occupied_0.generation;
                    assert forall|value: T|
                        model(
                            entries.update(
                                i as int,
                                Entry::Occupied(OccupiedEntry { generation, value }),
                            ),
                            free,
                        ) == #[trigger] model(entries, free).with_value(i as int, value) by {
                        lemma_model_update(
                            entries,
                            free,
                            i as int,
                            Entry::Occupied(OccupiedEntry { generation, value }),
                        );
                    }
                }
                if let Entry::Occupied(entry) = &mut self.entries[i] {
                    return Some(&mut entry.value);
                }
            }
        }
        None
    }

    /// Looks up two indices at once, so that the two values can be changed
    /// together. The second lookup finds nothing if both indices name the
    /// same slot.
    pub fn get_two_mut<I1: Index<T>, I2: Index<T>>(&mut self, index_a: I1, index_b: I2) -> (r: (
        Option<&mut T>,
        Option<&mut T>,
    ))
        ensures
            match r.0 {
                Some(a) => old(self)@.lookup(index_a) == Some(*a),
                None => old(self)@.lookup(index_a) is None,
            },
            match r.1 {
                Some(b) => index_b.slot() != index_a.slot() && old(self)@.lookup(index_b) == Some(
                    *b,
                ),
                None => index_b.slot() == index_a.slot() || old(self)@.lookup(index_b) is None,
            },
            final(self)@ == old(self)@.patched(
                index_a.slot() as int,
                match r.0 {
                    Some(a) => Some(*final(a)),
                    None => None,
                },
            ).patched(
                index_b.slot() as int,
                match r.1 {
                    Some(b) => Some(*final(b)),
                    None => None,
                },
            ),
            old(self)@.wf() ==> final(self)@.wf(),
    {
        proof {
            lemma_with_value_wf(self@, index_a.slot() as int);
            lemma_with_value_wf(self@, index_b.slot() as int);
            assert forall|x: T| #![trigger self@.with_value(index_a.slot() as int, x)]
                self@.holds(index_a.slot() as int) implies forall|y: T|
                #![trigger self@.with_value(index_a.slot() as int, x).with_value(index_b.slot() as int, y)]
                self@.wf() && self@.holds(index_b.slot() as int) ==> self@.with_value(
                    index_a.slot() as int,
                    x,
                ).with_value(index_b.slot() as int, y).wf() by {
                lemma_with_value_wf(self@.with_value(index_a.slot() as int, x), index_b.slot() as int);
            }
        }
        let ia = index_a.index();
        let ib = index_b.index();
        let found_a = ia < self.entries.len() && match &self.entries[ia] {
            Entry::Occupied(entry) => index_a.valid(entry),
            Entry::Vacant(_) => false,
        };
        let found_b = ib != ia && ib < self.entries.len() && match &self.entries[ib] {
            Entry::Occupied(entry) => index_b.valid(entry),
            Entry::Vacant(_) => false,
        };
        proof {
            lemma_model_values(self.entries@, self.free@, ia as int, ib as int);
            lemma_model_values(self.entries@, self.free@, ib as int, ia as int);
        }
        if found_a && found_b {
            let (a, b) = two_entries(&mut self.entries, ia, ib);
            (value_mut(a), value_mut(b))
        } else if found_a {
            (value_mut(&mut self.entries[ia]), None)
        } else if found_b {
            (None, value_mut(&mut self.entries[ib]))
        } else {
            (None, None)
        }
    }

    /// Inserts a value and returns its handle. The value goes into the slot
    /// that has been free for the longest time, whose generation rises by
    /// one, or into a new slot of generation zero if no slot is free.
    pub fn insert(&mut self, value: T) -> (r: GIndex)
        requires
            old(self)@.wf(),
        ensures
            r == old(self)@.next_handle(),
            final(self)@ == old(self)@.inserted(value),
            final(self)@.wf(),
    {
        proof {
            lemma_inserted_wf(self@, value);
        }
        if let Some(index) = self.free.pop_front() {
            assert(self@.reusable(index as int));
            let generation = match &self.entries[index] {
                Entry::Vacant(entry) => entry.generation + 1,
                Entry::Occupied(entry) => entry.generation,
            };
            proof {
                lemma_model_update(
                    self.entries@,
                    self.free@,
                    index as int,
                    Entry::Occupied(OccupiedEntry { generation, value }),
                );
            }
            self.entries[index] = Entry::Occupied(OccupiedEntry { generation, value });
            GIndex::new(index, generation)
        } else {
            proof {
                lemma_model_push(
                    self.entries@,
                    self.free@,
                    Entry::Occupied(OccupiedEntry { generation: 0, value }),
                );
            }
            self.entries.push(Entry::Occupied(OccupiedEntry { generation: 0, value }));
            GIndex::new(self.entries.len() - 1, 0)
        }
    }

    /// Takes out the value that `index` finds and returns it. The slot keeps
    /// its generation and waits for reuse. If `index` finds nothing, nothing
    /// changes.
    pub fn remove<I: Index<T>>(&mut self, index: I) -> (r: Option<T>)
        requires
            old(self)@.wf(),
        ensures
            r == old(self)@.lookup(index),
            final(self)@ == old(self)@.removed(index),
            final(self)@.wf(),
    {
        let i = index.index();
        if i < self.entries.len() {
            let found = match &self.entries[i] {
                Entry::Occupied(entry) => if index.valid(entry) {
                    Some(entry.generation)
                } else {
                    None
                },
                Entry::Vacant(_) => None,
            };
            if let Some(generation) = found {
                proof {
                    lemma_vacated_wf(self@, i as int);
                    lemma_model_update(
                        self.entries@,
                        self.free@,
                        i as int,
                        Entry::Vacant(VacantEntry { generation }),
                    );
                }
                let mut new_entry = Entry::Vacant(VacantEntry { generation });
                std::mem::swap(&mut self.entries[i], &mut new_entry);
                if generation < usize::MAX {
                    self.free.push_back(i);
                }
                return match new_entry {
                    Entry::Occupied(entry) => Some(entry.value),
                    Entry::Vacant(_) => None,
                };
            }
        }
        None
    }

    /// Walks the values in the order of their slots.
    pub fn iter(&self) -> (r: Iter<'_, T>)
        ensures
            r.arena() == self@,
            r.position() == 0,
    {
        Iter { index_vec: self, i: 0 }
    }

    /// Walks the values in the order of their slots, each for changing.
    pub fn iter_mut(&mut self) -> (r: IterMut<'_, T>)
        ensures
            r.arena() == old(self)@,
            r.position() == 0,
            final(self)@ == final(r.index_vec)@,
    {
        IterMut { index_vec: self, i: 0 }
    }

    /// Walks the pairs of values, lower slot first, both for changing.
    pub fn iter_two_mut(&mut self) -> (r: IterTwoMut<'_, T>)
        ensures
            r.arena() == old(self)@,
            r.position() == (0usize, 1usize),
            final(self)@ == final(r.index_vec)@,
    {
        IterTwoMut { index_vec: self, i: 0, j: 1 }
    }

    /// Takes out every value, so that every handle becomes stale.
    pub fn clear(&mut self)
        requires
            old(self)@.wf(),
        ensures
            final(self)@ == old(self)@.cleared(),
            final(self)@.wf(),
    {
        let n = self.entries.len();
        let mut i: usize = 0;
        while i < n
            invariant
                i <= n,
                n == old(self)@.slots.len(),
                self@ == old(self)@.cleared_to(i as int),
                self@.slots.len() == n,
                self@.wf(),
            decreases n - i,
        {
            self.remove(i);
            i += 1;
        }
    }
}

/// The value of an entry, for changing it, if the entry is occupied.
fn value_mut<T>(entry: &mut Entry<T>) -> (r: Option<&mut T>)
    ensures
        match r {
            Some(value) => {
                &&& *old(entry) is Occupied
                &&& *value == old(entry)->Occupied_0.value
                &&& *final(entry) == refilled(*old(entry), *final(value))
            },
            None => *old(entry) is Vacant && *final(entry) == *old(entry),
        },
{
    match entry.occupied_entry_mut() {
        Some(occupied) => Some(&mut occupied.value),
        None => None,
    }
}

/// Two different entries of a vector, both for changing.
fn two_entries<T>(entries: &mut Vec<Entry<T>>, i: usize, j: usize) -> (r: (
    &mut Entry<T>,
    &mut Entry<T>,
))
    requires
        i != j,
        i < old(entries).len(),
        j < old(entries).len(),
    ensures
        *r.0 == old(entries)@[i as int],
        *r.1 == old(entries)@[j as int],
        final(entries)@ == old(entries)@.update(i as int, *final(r.0)).update(
            j as int,
            *final(r.1),
        ),
{
    let slice = entries.as_mut_slice();
    if i < j {
        let (low, high) = slice.split_at_mut(j);
        let a = &mut low[i];
        let b = &mut high[0];
        proof {
            assert forall|x: Entry<T>, y: Entry<T>|
                #![trigger old(entries)@.update(i as int, x).update(j as int, y)]
                old(entries)@.subrange(0, j as int).update(i as int, x) + old(entries)@.subrange(
                    j as int,
                    old(entries)@.len() as int,
                ).update(0, y) == old(entries)@.update(i as int, x).update(j as int, y) by {
                assert(old(entries)@.subrange(0, j as int).update(i as int, x) + old(
                    entries,
                )@.subrange(j as int, old(entries)@.len() as int).update(0, y) =~= old(
                    entries,
                )@.update(i as int, x).update(j as int, y));
            }
        }
        (a, b)
    } else {
        let (low, high) = slice.split_at_mut(i);
        let b = &mut low[j];
        let a = &mut high[0];
        proof {
            assert forall|x: Entry<T>, y: Entry<T>|
                #![trigger old(entries)@.update(i as int, x).update(j as int, y)]
                old(entries)@.subrange(0, i as int).update(j as int, y) + old(entries)@.subrange(
                    i as int,
                    old(entries)@.len() as int,
                ).update(0, x) == old(entries)@.update(i as int, x).update(j as int, y) by {
                assert(old(entries)@.subrange(0, i as int).update(j as int, y) + old(
                    entries,
                )@.subrange(i as int, old(entries)@.len() as int).update(0, x) =~= old(
                    entries,
                )@.update(i as int, x).update(j as int, y));
            }
        }
        (a, b)
    }
}

/// The entry that holds `value` with the generation of `entry`.
spec fn refilled<T>(entry: Entry<T>, value: T) -> Entry<T> {
    Entry::Occupied(OccupiedEntry { generation: entry->Occupied_0.generation, value })
}

/// How changes to the values of two entries show in the model.
proof fn lemma_model_values<T>(entries: Seq<Entry<T>>, free: Seq<usize>, i: int, j: int)
    ensures
        forall|x: T|
            #![trigger model(entries.update(i, refilled(entries[i], x)), free)]
            #![trigger model(entries, free).with_value(i, x)]
            0 <= i < entries.len() && entries[i] is Occupied ==> model(
                entries.update(i, refilled(entries[i], x)),
                free,
            ) == model(entries, free).with_value(i, x),
        forall|x: T, y: T|
            #![trigger model(entries.update(i, refilled(entries[i], x)).update(j, refilled(entries[j], y)), free)]
            #![trigger model(entries, free).with_value(i, x).with_value(j, y)]
            0 <= i < entries.len() && 0 <= j < entries.len() && i != j && entries[i] is Occupied
                && entries[j] is Occupied ==> model(
                entries.update(i, refilled(entries[i], x)).update(j, refilled(entries[j], y)),
                free,
            ) == model(entries, free).with_value(i, x).with_value(j, y),
{
    assert forall|x: T|
        #![trigger model(entries.update(i, refilled(entries[i], x)), free)]
        #![trigger model(entries, free).with_value(i, x)]
        0 <= i < entries.len() && entries[i] is Occupied implies model(
            entries.update(i, refilled(entries[i], x)),
            free,
        ) == model(entries, free).with_value(i, x) by {
        lemma_model_update(entries, free, i, refilled(entries[i], x));
    }
    assert forall|x: T, y: T|
        #![trigger model(entries.update(i, refilled(entries[i], x)).update(j, refilled(entries[j], y)), free)]
        #![trigger model(entries, free).with_value(i, x).with_value(j, y)]
        0 <= i < entries.len() && 0 <= j < entries.len() && i != j && entries[i] is Occupied
            && entries[j] is Occupied implies model(
            entries.update(i, refilled(entries[i], x)).update(j, refilled(entries[j], y)),
            free,
        ) == model(entries, free).with_value(i, x).with_value(j, y) by {
        lemma_model_update(entries, free, i, refilled(entries[i], x));
        lemma_model_update(entries.update(i, refilled(entries[i], x)), free, j, refilled(entries[j], y));
    }
}

/// Where the search for the next value ends: at a slot that holds one, or
/// past the last slot, and at no slot before that.
pub proof fn lemma_next_held<T>(arena: Arena<T>, from: int)
    requires
        0 <= from,
    ensures
        from <= arena.next_held(from),
        from <= arena.slots.len() ==> arena.next_held(from) <= arena.slots.len(),
        arena.next_held(from) < arena.slots.len() ==> arena.holds(arena.next_held(from)),
        forall|j: int| from <= j < arena.next_held(from) ==> !arena.holds(j),
    decreases arena.slots.len() - from,
{
    if from < arena.slots.len() && !arena.holds(from) {
        lemma_next_held(arena, from + 1);
    }
}

/// Putting back the value that a slot holds changes nothing.
pub proof fn lemma_with_same_value<T>(arena: Arena<T>, i: int)
    requires
        arena.holds(i),
    ensures
        arena.with_value(i, arena.slots[i].value.unwrap()) == arena,
{
    assert(arena.with_value(i, arena.slots[i].value.unwrap()).slots =~= arena.slots);
}

/// Inserting one more value after some others.
pub proof fn lemma_extended_push<T>(arena: Arena<T>, values: Seq<T>, value: T)
    ensures
        arena.extended(values.push(value)) == arena.extended(values).inserted(value),
        arena.extended(Seq::empty()) == arena,
{
    assert(values.push(value).drop_last() =~= values);
}

/// A new value in a slot that holds one keeps the queue of free slots in
/// order.
pub proof fn lemma_with_value_wf<T>(arena: Arena<T>, i: int)
    ensures
        forall|value: T|
            arena.wf() && arena.holds(i) ==> (#[trigger] arena.with_value(i, value)).wf(),
{
    assert forall|value: T| arena.wf() && arena.holds(i) implies (#[trigger] arena.with_value(
        i,
        value,
    )).wf() by {
        let after = arena.with_value(i, value);
        assert forall|k: int| 0 <= k < after.free.len() implies after.reusable(
            #[trigger] after.free[k] as int,
        ) by {
            assert(arena.reusable(arena.free[k] as int));
        }
        assert forall|x: usize| after.reusable(x as int) implies #[trigger] after.free.contains(
            x,
        ) by {
            assert(arena.reusable(x as int));
        }
    }
}

/// Insertion keeps the queue of free slots in order.
pub proof fn lemma_inserted_wf<T>(arena: Arena<T>, value: T)
    requires
        arena.wf(),
    ensures
        arena.inserted(value).wf(),
        arena.free.len() > 0 ==> arena.reusable(arena.free[0] as int),
{
    let after = arena.inserted(value);
    if arena.free.len() > 0 {
        let first = arena.free[0];
        assert(arena.reusable(first as int));
        assert forall|k: int| 0 <= k < after.free.len() implies after.reusable(
            #[trigger] after.free[k] as int,
        ) by {
            assert(after.free[k] == arena.free[k + 1]);
            assert(arena.reusable(arena.free[k + 1] as int));
        }
        assert forall|j: int, k: int| 0 <= j < k < after.free.len() implies after.free[j]
            != after.free[k] by {
            assert(after.free[j] == arena.free[j + 1]);
            assert(after.free[k] == arena.free[k + 1]);
        }
        assert forall|i: usize| after.reusable(i as int) implies #[trigger] after.free.contains(
            i,
        ) by {
            assert(arena.reusable(i as int));
            assert(arena.free.contains(i));
            let k = choose|k: int| 0 <= k < arena.free.len() && arena.free[k] == i;
            assert(k != 0);
            assert(after.free[k - 1] == i);
        }
    } else {
        assert forall|i: usize| after.reusable(i as int) implies #[trigger] after.free.contains(
            i,
        ) by {
            assert(arena.reusable(i as int));
        }
    }
}

/// Taking a value out keeps the queue of free slots in order.
pub proof fn lemma_vacated_wf<T>(arena: Arena<T>, i: int)
    requires
        arena.wf(),
        arena.holds(i),
        i <= usize::MAX,
    ensures
        arena.vacated(i).wf(),
{
    let after = arena.vacated(i);
    assert(!arena.reusable(i));
    assert forall|k: int| 0 <= k < arena.free.len() implies arena.free[k] != i as usize by {
        assert(arena.reusable(arena.free[k] as int));
    }
    assert forall|k: int| 0 <= k < after.free.len() implies after.reusable(
        #[trigger] after.free[k] as int,
    ) by {
        if k < arena.free.len() {
            assert(arena.reusable(arena.free[k] as int));
        }
    }
    assert forall|x: usize| after.reusable(x as int) implies #[trigger] after.free.contains(
        x,
    ) by {
        if x == i {
            assert(after.free[after.free.len() - 1] == x);
        } else {
            assert(arena.reusable(x as int));
            assert(arena.free.contains(x));
            let k = choose|k: int| 0 <= k < arena.free.len() && arena.free[k] == x;
            assert(after.free[k] == x);
        }
    }
}

/// Walks the values of an [`IndexVec`] in the order of their slots.
pub struct Iter<'a, T> {
    index_vec: &'a IndexVec<T>,
    i: usize,
}

impl<'a, T> Iter<'a, T> {
    /// The arena that is walked.
    pub closed spec fn arena(&self) -> Arena<T> {
        self.index_vec@
    }

    /// The slot at which the search for the next value starts.
    pub closed spec fn position(&self) -> usize {
        self.i
    }

    /// The same walk, with each value's handle beside it.
    pub fn with_index(self) -> (r: IterWithIndex<'a, T>)
        ensures
            r.arena() == self.arena(),
            r.position() == self.position(),
    {
        IterWithIndex { index_vec: self.index_vec, i: self.i }
    }

    /// The next value, if any is left.
    pub fn next(&mut self) -> (r: Option<&'a T>)
        ensures
            final(self).arena() == old(self).arena(),
            ({
                let arena = old(self).arena();
                let k = arena.next_held(old(self).position() as int);
                match r {
                    Some(value) => arena.holds(k) && arena.slots[k].value == Some(*value)
                        && final(self).position() == k + 1,
                    None => !arena.holds(k) && final(self).position() == k,
                }
            }),
    {
        while self.i < self.index_vec.entries.len()
            invariant
                self.index_vec == old(self).index_vec,
                old(self).i <= self.i,
                self.arena().next_held(old(self).i as int) == self.arena().next_held(self.i as int),
            decreases self.index_vec.entries.len() - self.i,
        {
            let index = self.i;
            self.i += 1;
            if let Entry::Occupied(entry) = &self.index_vec.entries[index] {
                return Some(&entry.value);
            }
        }

        None
    }
}

/// Walks the values of an [`IndexVec`] together with their handles.
pub struct IterWithIndex<'a, T> {
    index_vec: &'a IndexVec<T>,
    i: usize,
}

impl<'a, T> IterWithIndex<'a, T> {
    /// The arena that is walked.
    pub closed spec fn arena(&self) -> Arena<T> {
        self.index_vec@
    }

    /// The slot at which the search for the next value starts.
    pub closed spec fn position(&self) -> usize {
        self.i
    }

    /// The next value and its handle, if any is left.
    pub fn next(&mut self) -> (r: Option<(GIndex, &'a T)>)
        ensures
            final(self).arena() == old(self).arena(),
            ({
                let arena = old(self).arena();
                let k = arena.next_held(old(self).position() as int);
                match r {
                    Some((handle, value)) => arena.holds(k) && arena.slots[k].value == Some(*value)
                        && handle == arena.handle(k) && final(self).position() == k + 1,
                    None => !arena.holds(k) && final(self).position() == k,
                }
            }),
    {
        while self.i < self.index_vec.entries.len()
            invariant
                self.index_vec == old(self).index_vec,
                old(self).i <= self.i,
                self.arena().next_held(old(self).i as int) == self.arena().next_held(self.i as int),
            decreases self.index_vec.entries.len() - self.i,
        {
            let index = self.i;
            self.i += 1;
            if let Entry::Occupied(entry) = &self.index_vec.entries[index] {
                return Some((GIndex::new(index, entry.generation), &entry.value));
            }
        }

        None
    }
}

/// Walks the values of an [`IndexVec`], each for changing.
pub struct IterMut<'a, T> {
    pub index_vec: &'a mut IndexVec<T>,
    pub i: usize,
}

impl<'a, T> IterMut<'a, T> {
    /// The arena that is walked, as it is now.
    pub open spec fn arena(&self) -> Arena<T> {
        self.index_vec@
    }

    /// The slot at which the search for the next value starts.
    pub open spec fn position(&self) -> usize {
        self.i
    }

    /// The next value, if any is left.
    pub fn next(&mut self) -> (r: Option<&mut T>)
        ensures
            ({
                let arena = old(self).arena();
                let k = arena.next_held(old(self).position() as int);
                match r {
                    Some(value) => arena.holds(k) && arena.slots[k].value == Some(*value)
                        && final(self).position() == k + 1 && final(self).arena()
                        == arena.with_value(k, *final(value)),
                    None => !arena.holds(k) && final(self).position() == k && final(self).arena()
                        == arena,
                }
            }),
            *final(final(self).index_vec) == *final(old(self).index_vec),
    {
        while self.i < self.index_vec.entries.len()
            invariant
                self.index_vec == old(self).index_vec,
                old(self).i <= self.i,
                self.arena().next_held(old(self).i as int) == self.arena().next_held(self.i as int),
            decreases self.index_vec.entries.len() - self.i,
        {
            let index = self.i;
            self.i += 1;
            let occupied = match &self.index_vec.entries[index] {
                Entry::Occupied(_) => true,
                Entry::Vacant(_) => false,
            };
            if occupied {
                return self.index_vec.get_mut(index);
            }
        }

        None
    }
}

/// Walks the pairs of values of an [`IndexVec`], both for changing: every
/// pair of different slots once, the lower slot first.
pub struct IterTwoMut<'a, T> {
    pub index_vec: &'a mut IndexVec<T>,
    pub i: usize,
    pub j: usize,
}

impl<'a, T> IterTwoMut<'a, T> {
    /// The arena that is walked, as it is now.
    pub open spec fn arena(&self) -> Arena<T> {
        self.index_vec@
    }

    /// The pair of slots at which the search for the next pair starts.
    pub open spec fn position(&self) -> (usize, usize) {
        (self.i, self.j)
    }

    /// The next pair of values, if any is left.
    pub fn next(&mut self) -> (r: Option<(&mut T, &mut T)>)
        ensures
            ({
                let arena = old(self).arena();
                let found = arena.next_pair(old(self).i as int, old(self).j as int);
                match r {
                    Some((a, b)) => {
                        &&& found matches Some((i, j))
                        &&& arena.holds(i) && arena.holds(j) && i < j
                        &&& arena.slots[i].value == Some(*a)
                        &&& arena.slots[j].value == Some(*b)
                        &&& final(self).position() == (i as usize, (j + 1) as usize)
                        &&& final(self).arena() == arena.with_value(i, *final(a)).with_value(
                            j,
                            *final(b),
                        )
                    },
                    None => found is None && final(self).arena() == arena,
                }
            }),
            *final(final(self).index_vec) == *final(old(self).index_vec),
    {
        let n = self.index_vec.entries.len();
        while self.i < n
            invariant
                n == self.index_vec.entries.len(),
                self.index_vec == old(self).index_vec,
                self.arena().next_pair(old(self).i as int, old(self).j as int)
                    == self.arena().next_pair(self.i as int, self.j as int),
            decreases n - self.i, n - self.j,
        {
            let i = self.i;
            let j = self.j;
            let first = match &self.index_vec.entries[i] {
                Entry::Occupied(_) => true,
                Entry::Vacant(_) => false,
            };
            if !first || j >= n {
                self.i = i + 1;
                self.j = if i + 1 < n {
                    i + 2
                } else {
                    i + 1
                };
                proof {
                    reveal_with_fuel(Arena::next_pair, 2);
                }
            } else if j <= i {
                self.j = i + 1;
            } else {
                self.j = j + 1;
                let second = match &self.index_vec.entries[j] {
                    Entry::Occupied(_) => true,
                    Entry::Vacant(_) => false,
                };
                if second {
                    return match self.index_vec.get_two_mut(i, j) {
                        (Some(a), Some(b)) => Some((a, b)),
                        _ => None,
                    };
                }
            }
        }

        None
    }
}

} // verus!
