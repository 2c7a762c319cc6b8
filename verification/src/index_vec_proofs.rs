//! What holds of a generational arena however it is used: a handle to a
//! value that was removed never finds anything again, and the generation of
//! a slot only rises, by one with each reuse.

use crate::index_vec::lemma_inserted_wf;
use crate::index_vec::lemma_vacated_wf;
use crate::index_vec::lemma_with_value_wf;
use crate::index_vec::Arena;
use crate::index_vec::GIndex;
use vstd::multiset::Multiset;
use vstd::prelude::*;

verus! {

/// One change to an arena.
pub enum Step<T> {
    /// A value is inserted.
    Insert(T),
    /// The value that a handle finds, if any, is removed.
    Remove(GIndex),
    /// The value in a slot, if any, is removed.
    RemoveAt(usize),
    /// The value in a slot, if any, is replaced.
    Replace(usize, T),
    /// Every value is removed.
    Clear,
}

impl<T> Arena<T> {
    /// Whether the handle `h` is stale: its slot has moved on to a later
    /// generation, or has lost the value of the handle's generation.
    pub open spec fn stale(self, h: GIndex) -> bool {
        &&& h.index < self.slots.len()
        &&& {
            ||| self.slots[h.index as int].generation > h.generation
            ||| self.slots[h.index as int].generation == h.generation
                && self.slots[h.index as int].value is None
        }
    }

    /// The arena after one change.
    pub open spec fn after(self, step: Step<T>) -> Arena<T> {
        match step {
            Step::Insert(value) => self.inserted(value),
            Step::Remove(h) => self.removed(h),
            Step::RemoveAt(i) => self.removed(i),
            Step::Replace(i, value) => if self.holds(i as int) {
                self.with_value(i as int, value)
            } else {
                self
            },
            Step::Clear => self.cleared(),
        }
    }

    /// The arena after a series of changes.
    pub open spec fn after_all(self, steps: Seq<Step<T>>) -> Arena<T>
        decreases steps.len(),
    {
        if steps.len() == 0 {
            self
        } else {
            self.after_all(steps.drop_last()).after(steps.last())
        }
    }
}

/// Emptying the first `n` slots keeps the arena in order, keeps every slot's
/// generation, and leaves none of those slots with a value.
pub proof fn lemma_cleared_to<T>(arena: Arena<T>, n: int)
    requires
        arena.wf(),
        0 <= n <= arena.slots.len() <= usize::MAX,
    ensures
        arena.cleared_to(n).wf(),
        arena.cleared_to(n).slots.len() == arena.slots.len(),
        forall|i: int|
            0 <= i < arena.slots.len() ==> (#[trigger] arena.cleared_to(n).slots[i]).generation
                == arena.slots[i].generation,
        forall|i: int| 0 <= i < n ==> !#[trigger] arena.cleared_to(n).holds(i),
        forall|i: int|
            n <= i < arena.slots.len() ==> (#[trigger] arena.cleared_to(n).slots[i])
                == arena.slots[i],
    decreases n,
{
    if n > 0 {
        lemma_cleared_to(arena, n - 1);
        let before = arena.cleared_to(n - 1);
        if before.holds(n - 1) {
            lemma_vacated_wf(before, n - 1);
        }
        assert forall|i: int| 0 <= i < n implies !#[trigger] arena.cleared_to(n).holds(i) by {
            if i < n - 1 {
                assert(!before.holds(i));
            }
        }
    }
}

/// Emptying an arena keeps it in order, keeps every slot's generation, and
/// leaves no slot with a value.
pub proof fn lemma_cleared<T>(arena: Arena<T>)
    requires
        arena.wf(),
        arena.slots.len() <= usize::MAX,
    ensures
        arena.cleared().wf(),
        arena.cleared().slots.len() == arena.slots.len(),
        forall|i: int|
            0 <= i < arena.slots.len() ==> (#[trigger] arena.cleared().slots[i]).generation
                == arena.slots[i].generation,
        forall|i: int| !#[trigger] arena.cleared().holds(i),
{
    lemma_cleared_to(arena, arena.slots.len() as int);
}

/// No change takes a slot away, lowers the generation of a slot, or puts the
/// arena out of order.
pub proof fn lemma_generations_never_fall<T>(arena: Arena<T>, step: Step<T>)
    requires
        arena.wf(),
        arena.slots.len() <= usize::MAX,
    ensures
        arena.after(step).wf(),
        arena.after(step).slots.len() >= arena.slots.len(),
        forall|i: int|
            0 <= i < arena.slots.len() ==> (#[trigger] arena.after(step).slots[i]).generation
                >= arena.slots[i].generation,
{
    match step {
        Step::Insert(value) => {
            lemma_inserted_wf(arena, value);
        },
        Step::Remove(h) => {
            if arena.has(h) {
                lemma_vacated_wf(arena, h.index as int);
            }
        },
        Step::RemoveAt(i) => {
            if arena.has(i) {
                lemma_vacated_wf(arena, i as int);
            }
        },
        Step::Replace(i, value) => {
            lemma_with_value_wf(arena, i as int);
        },
        Step::Clear => {
            lemma_cleared(arena);
        },
    }
}

/// A stale handle finds nothing.
pub proof fn lemma_stale_finds_nothing<T>(arena: Arena<T>, h: GIndex)
    requires
        arena.stale(h),
    ensures
        !arena.live(h),
        arena.lookup(h) is None,
{
}

/// Removing the value of a live handle makes the handle stale.
pub proof fn lemma_removed_is_stale<T>(arena: Arena<T>, h: GIndex)
    requires
        arena.live(h),
    ensures
        arena.removed(h).stale(h),
        arena.removed(h).lookup(h) is None,
{
}

/// A stale handle stays stale through any change.
pub proof fn lemma_stale_after<T>(arena: Arena<T>, h: GIndex, step: Step<T>)
    requires
        arena.wf(),
        arena.slots.len() <= usize::MAX,
        arena.stale(h),
    ensures
        arena.after(step).stale(h),
{
    lemma_generations_never_fall(arena, step);
    let after = arena.after(step);
    assert(after.slots[h.index as int].generation >= arena.slots[h.index as int].generation);
    match step {
        Step::Insert(value) => {
            lemma_inserted_wf(arena, value);
        },
        Step::Remove(g) => {},
        Step::RemoveAt(i) => {},
        Step::Replace(i, value) => {},
        Step::Clear => {
            lemma_cleared(arena);
            assert(!arena.cleared().holds(h.index as int));
        },
    }
}

/// The number of slots stays within what a handle can name as long as the
/// arena can be built at all.
pub open spec fn within_reach<T>(arena: Arena<T>, steps: Seq<Step<T>>) -> bool {
    forall|n: int| 0 <= n <= steps.len() ==> (#[trigger] arena.after_all(steps.take(n))).slots.len()
        <= usize::MAX
}

/// A stale handle stays stale through any series of changes.
pub proof fn lemma_stale_forever<T>(arena: Arena<T>, h: GIndex, steps: Seq<Step<T>>)
    requires
        arena.wf(),
        within_reach(arena, steps),
        arena.stale(h),
    ensures
        arena.after_all(steps).wf(),
        arena.after_all(steps).stale(h),
        arena.after_all(steps).lookup(h) is None,
    decreases steps.len(),
{
    assert(steps.take(steps.len() as int) =~= steps);
    if steps.len() > 0 {
        let earlier = steps.drop_last();
        assert forall|n: int| 0 <= n <= earlier.len() implies (#[trigger] arena.after_all(
            earlier.take(n),
        )).slots.len() <= usize::MAX by {
            assert(earlier.take(n) =~= steps.take(n));
        }
        lemma_stale_forever(arena, h, earlier);
        assert(earlier =~= steps.take(steps.len() - 1));
        lemma_generations_never_fall(arena.after_all(earlier), steps.last());
        lemma_stale_after(arena.after_all(earlier), h, steps.last());
    } else {
        assert(steps.take(0) =~= steps);
    }
}

/// The handle that an insertion returns finds the inserted value.
pub proof fn lemma_inserted_is_found<T>(arena: Arena<T>, value: T)
    requires
        arena.wf(),
        arena.slots.len() <= usize::MAX,
    ensures
        arena.inserted(value).live(arena.next_handle()),
        arena.inserted(value).lookup(arena.next_handle()) == Some(value),
{
    lemma_inserted_wf(arena, value);
}

/// Handle staleness: the handle of a value that was inserted and then
/// removed finds nothing, whatever is done to the arena afterwards, also when
/// a new value has taken the slot.
pub proof fn lemma_handle_staleness<T>(arena: Arena<T>, value: T, steps: Seq<Step<T>>)
    requires
        arena.wf(),
        arena.slots.len() <= usize::MAX,
        within_reach(arena.inserted(value).removed(arena.next_handle()), steps),
    ensures
        arena.inserted(value).lookup(arena.next_handle()) == Some(value),
        arena.inserted(value).removed(arena.next_handle()).after_all(steps).lookup(
            arena.next_handle(),
        ) is None,
{
    let h = arena.next_handle();
    let filled = arena.inserted(value);
    lemma_inserted_is_found(arena, value);
    lemma_inserted_wf(arena, value);
    lemma_vacated_wf(filled, h.index as int);
    lemma_removed_is_stale(filled, h);
    lemma_stale_forever(filled.removed(h), h, steps);
}

/// A slot that is reused gets a generation one above the one it had.
pub proof fn lemma_reuse_raises_generation<T>(arena: Arena<T>, value: T)
    requires
        arena.wf(),
        arena.free.len() > 0,
    ensures
        arena.next_handle().index < arena.slots.len(),
        arena.next_handle().generation == arena.slots[arena.next_handle().index as int].generation
            + 1,
        arena.inserted(value).slots[arena.next_handle().index as int].generation
            == arena.next_handle().generation,
{
    assert(arena.reusable(arena.free[0] as int));
}

/// No series of changes lowers the generation of a slot.
pub proof fn lemma_generations_only_rise<T>(arena: Arena<T>, steps: Seq<Step<T>>, i: int)
    requires
        arena.wf(),
        within_reach(arena, steps),
        0 <= i < arena.slots.len(),
    ensures
        arena.after_all(steps).wf(),
        i < arena.after_all(steps).slots.len(),
        arena.after_all(steps).slots[i].generation >= arena.slots[i].generation,
    decreases steps.len(),
{
    assert(steps.take(steps.len() as int) =~= steps);
    if steps.len() > 0 {
        let earlier = steps.drop_last();
        assert forall|n: int| 0 <= n <= earlier.len() implies (#[trigger] arena.after_all(
            earlier.take(n),
        )).slots.len() <= usize::MAX by {
            assert(earlier.take(n) =~= steps.take(n));
        }
        lemma_generations_only_rise(arena, earlier, i);
        assert(earlier =~= steps.take(steps.len() - 1));
        lemma_generations_never_fall(arena.after_all(earlier), steps.last());
    }
}

/// Generation monotonicity: when a slot that a handle was once issued for
/// is reused, after whatever happened in between, the new handle has a
/// generation strictly above that of the old one.
pub proof fn lemma_each_reuse_raises_generation<T>(
    arena: Arena<T>,
    h: GIndex,
    steps: Seq<Step<T>>,
    value: T,
)
    requires
        arena.wf(),
        within_reach(arena, steps),
        arena.live(h),
        arena.after_all(steps).free.len() > 0,
        arena.after_all(steps).next_handle().index == h.index,
    ensures
        arena.after_all(steps).next_handle().generation > h.generation,
        arena.after_all(steps).inserted(value).slots[h.index as int].generation > h.generation,
{
    lemma_generations_only_rise(arena, steps, h.index as int);
    lemma_reuse_raises_generation(arena.after_all(steps), value);
}

/// Whatever is written into a slot that holds a value, as through a mutable
/// walk or lookup, the arena keeps its slots, their generations, which of
/// them hold a value, the queue of free slots, and its order.
pub proof fn lemma_written_keeps_shape<T>(arena: Arena<T>, i: int, value: T)
    requires
        arena.holds(i),
    ensures
        arena.with_value(i, value).slots.len() == arena.slots.len(),
        arena.with_value(i, value).free == arena.free,
        arena.with_value(i, value).slots[i].value == Some(value),
        forall|k: int|
            0 <= k < arena.slots.len() ==> (#[trigger] arena.with_value(i, value).slots[k]).generation
                == arena.slots[k].generation,
        forall|k: int| #[trigger] arena.with_value(i, value).holds(k) == arena.holds(k),
        forall|k: int|
            0 <= k < arena.slots.len() && k != i ==> #[trigger] arena.with_value(i, value).slots[k]
                == arena.slots[k],
        forall|h: GIndex| #[trigger] arena.with_value(i, value).live(h) == arena.live(h),
        arena.wf() ==> arena.with_value(i, value).wf(),
{
    lemma_with_value_wf(arena, i);
}

impl<T> Arena<T> {
    /// The values in the first `n` slots, each as often as it occurs.
    pub open spec fn values_to(self, n: int) -> Multiset<T>
        decreases n,
    {
        if n <= 0 {
            Multiset::empty()
        } else if self.holds(n - 1) {
            self.values_to(n - 1).insert(self.slots[n - 1].value.unwrap())
        } else {
            self.values_to(n - 1)
        }
    }

    /// The values in the arena, each as often as it occurs.
    pub open spec fn values(self) -> Multiset<T> {
        self.values_to(self.slots.len() as int)
    }
}

/// The values in the first slots depend on those slots only.
pub proof fn lemma_values_to_same<T>(a: Arena<T>, b: Arena<T>, n: int)
    requires
        0 <= n <= a.slots.len(),
        n <= b.slots.len(),
        forall|i: int| 0 <= i < n ==> a.slots[i].value == b.slots[i].value,
    ensures
        a.values_to(n) == b.values_to(n),
    decreases n,
{
    if n > 0 {
        lemma_values_to_same(a, b, n - 1);
    }
}

/// A slot that changes what it holds changes the values by just that.
pub proof fn lemma_values_to_update<T>(a: Arena<T>, b: Arena<T>, i: int, n: int)
    requires
        0 <= i < a.slots.len(),
        a.slots.len() == b.slots.len(),
        0 <= n <= a.slots.len(),
        forall|k: int| 0 <= k < a.slots.len() && k != i ==> a.slots[k].value == b.slots[k].value,
    ensures
        a.values_to(n).add(
            if i < n && b.holds(i) {
                Multiset::singleton(b.slots[i].value.unwrap())
            } else {
                Multiset::empty()
            },
        ) =~= b.values_to(n).add(
            if i < n && a.holds(i) {
                Multiset::singleton(a.slots[i].value.unwrap())
            } else {
                Multiset::empty()
            },
        ),
    decreases n,
{
    broadcast use vstd::multiset::group_multiset_axioms;

    if n > 0 {
        lemma_values_to_update(a, b, i, n - 1);
        let left_before = a.values_to(n - 1).add(
            if i < n - 1 && b.holds(i) {
                Multiset::singleton(b.slots[i].value.unwrap())
            } else {
                Multiset::empty()
            },
        );
        let right_before = b.values_to(n - 1).add(
            if i < n - 1 && a.holds(i) {
                Multiset::singleton(a.slots[i].value.unwrap())
            } else {
                Multiset::empty()
            },
        );
        assert(left_before =~= right_before);
        let left = a.values_to(n).add(
            if i < n && b.holds(i) {
                Multiset::singleton(b.slots[i].value.unwrap())
            } else {
                Multiset::empty()
            },
        );
        let right = b.values_to(n).add(
            if i < n && a.holds(i) {
                Multiset::singleton(a.slots[i].value.unwrap())
            } else {
                Multiset::empty()
            },
        );
        assert forall|v: T| left.count(v) == right.count(v) by {
            assert(left_before.count(v) == right_before.count(v));
            if i == n - 1 {
                lemma_values_to_same(a, b, n - 1);
            } else {
                assert(a.slots[n - 1].value == b.slots[n - 1].value);
            }
        }
    }
}

/// A value is among the values of an arena exactly if some slot holds it.
pub proof fn lemma_values_to_held<T>(arena: Arena<T>, n: int, value: T)
    requires
        0 <= n <= arena.slots.len(),
    ensures
        arena.values_to(n).count(value) > 0 <==> exists|i: int|
            0 <= i < n && arena.holds(i) && (#[trigger] arena.slots[i]).value == Some(value),
    decreases n,
{
    if n > 0 {
        lemma_values_to_held(arena, n - 1, value);
        if arena.values_to(n).count(value) > 0 {
            if arena.holds(n - 1) && arena.slots[n - 1].value == Some(value) {
            } else {
                assert(arena.values_to(n - 1).count(value) > 0);
                let i = choose|i: int|
                    0 <= i < n - 1 && arena.holds(i) && (#[trigger] arena.slots[i]).value == Some(
                        value,
                    );
                assert(0 <= i < n && arena.holds(i) && arena.slots[i].value == Some(value));
            }
        }
        if exists|i: int|
            0 <= i < n && arena.holds(i) && (#[trigger] arena.slots[i]).value == Some(value) {
            let i = choose|i: int|
                0 <= i < n && arena.holds(i) && (#[trigger] arena.slots[i]).value == Some(value);
            if i < n - 1 {
                assert(arena.values_to(n - 1).count(value) > 0);
            }
        }
    }
}

/// An emptied arena has no values.
pub proof fn lemma_cleared_values<T>(arena: Arena<T>)
    requires
        arena.wf(),
        arena.slots.len() <= usize::MAX,
    ensures
        arena.cleared().values() =~= Multiset::empty(),
{
    lemma_cleared(arena);
    lemma_no_values(arena.cleared(), arena.slots.len() as int);
}

/// Slots that hold nothing contribute no values.
proof fn lemma_no_values<T>(arena: Arena<T>, n: int)
    requires
        0 <= n <= arena.slots.len(),
        forall|i: int| 0 <= i < n ==> !#[trigger] arena.holds(i),
    ensures
        arena.values_to(n) =~= Multiset::empty(),
    decreases n,
{
    if n > 0 {
        lemma_no_values(arena, n - 1);
        assert(!arena.holds(n - 1));
    }
}

/// Insertion adds the inserted value to the values and changes nothing
/// else.
pub proof fn lemma_inserted_values<T>(arena: Arena<T>, value: T)
    requires
        arena.wf(),
    ensures
        arena.inserted(value).values() =~= arena.values().insert(value),
{
    let after = arena.inserted(value);
    let n = arena.slots.len() as int;
    if arena.free.len() > 0 {
        let i = arena.free[0] as int;
        assert(arena.reusable(i));
        lemma_values_to_update(arena, after, i, n);
    } else {
        lemma_values_to_same(arena, after, n);
    }
}

/// Inserting a series of values adds just these to the values, and keeps
/// the arena in order.
pub proof fn lemma_extended_values<T>(arena: Arena<T>, values: Seq<T>)
    requires
        arena.wf(),
    ensures
        arena.extended(values).wf(),
        arena.extended(values).values() =~= arena.values().add(values.to_multiset()),
    decreases values.len(),
{
    broadcast use vstd::seq_lib::group_to_multiset_ensures;

    if values.len() > 0 {
        let earlier = values.drop_last();
        lemma_extended_values(arena, earlier);
        lemma_inserted_wf(arena.extended(earlier), values.last());
        lemma_inserted_values(arena.extended(earlier), values.last());
        assert(earlier.push(values.last()) =~= values);
    }
}

/// Insertion leaves every slot that holds a value as it is.
pub proof fn lemma_inserted_keeps<T>(arena: Arena<T>, value: T, i: int)
    requires
        arena.wf(),
        arena.holds(i),
    ensures
        arena.inserted(value).slots[i] == arena.slots[i],
        arena.inserted(value).holds(i),
{
    if arena.free.len() > 0 {
        assert(arena.reusable(arena.free[0] as int));
    }
}

/// Inserting a series of values leaves every slot that held a value before
/// as it is.
pub proof fn lemma_extended_keeps<T>(arena: Arena<T>, values: Seq<T>, i: int)
    requires
        arena.wf(),
        arena.holds(i),
    ensures
        arena.extended(values).wf(),
        arena.extended(values).slots[i] == arena.slots[i],
        arena.extended(values).holds(i),
    decreases values.len(),
{
    if values.len() > 0 {
        lemma_extended_keeps(arena, values.drop_last(), i);
        lemma_inserted_wf(arena.extended(values.drop_last()), values.last());
        lemma_inserted_keeps(arena.extended(values.drop_last()), values.last(), i);
    }
}

/// A stale handle stays stale through an insertion.
pub proof fn lemma_stale_inserted<T>(arena: Arena<T>, h: GIndex, value: T)
    requires
        arena.wf(),
        arena.stale(h),
    ensures
        arena.inserted(value).wf(),
        arena.inserted(value).stale(h),
{
    lemma_inserted_wf(arena, value);
    if arena.free.len() > 0 {
        assert(arena.reusable(arena.free[0] as int));
    }
}

/// A stale handle stays stale through a series of insertions.
pub proof fn lemma_stale_extended<T>(arena: Arena<T>, h: GIndex, values: Seq<T>)
    requires
        arena.wf(),
        arena.stale(h),
    ensures
        arena.extended(values).wf(),
        arena.extended(values).stale(h),
        arena.extended(values).lookup(h) is None,
    decreases values.len(),
{
    if values.len() > 0 {
        lemma_stale_extended(arena, h, values.drop_last());
        lemma_stale_inserted(arena.extended(values.drop_last()), h, values.last());
    }
}

/// Emptying an arena makes stale every handle that was ever issued for one
/// of its slots: every handle whose generation is not above that of its
/// slot.
pub proof fn lemma_cleared_stale<T>(arena: Arena<T>, h: GIndex)
    requires
        arena.wf(),
        arena.slots.len() <= usize::MAX,
        h.index < arena.slots.len(),
        h.generation <= arena.slots[h.index as int].generation,
    ensures
        arena.cleared().stale(h),
{
    lemma_cleared(arena);
    assert(!arena.cleared().holds(h.index as int));
}

/// Inserting a series of values adds as many values as the series has.
pub proof fn lemma_extended_count<T>(arena: Arena<T>, values: Seq<T>)
    requires
        arena.wf(),
    ensures
        arena.extended(values).values().len() == arena.values().len() + values.len(),
{
    broadcast use vstd::seq_lib::group_to_multiset_ensures;
    broadcast use vstd::multiset::group_multiset_axioms;

    lemma_extended_values(arena, values);
    values.to_multiset_ensures();
}

/// Inserting a series of values adds no more slots than the series has
/// values, and takes none away.
pub proof fn lemma_extended_len<T>(arena: Arena<T>, values: Seq<T>)
    requires
        arena.wf(),
    ensures
        arena.slots.len() <= arena.extended(values).slots.len() <= arena.slots.len()
            + values.len(),
    decreases values.len(),
{
    if values.len() > 0 {
        let before = arena.extended(values.drop_last());
        lemma_extended_len(arena, values.drop_last());
        lemma_extended_values(arena, values.drop_last());
        if before.free.len() > 0 {
            assert(before.reusable(before.free[0] as int));
        }
    }
}

} // verus!
