//! What holds of the simulation for all states: a block that a ball uses up
//! is gone after pruning, a rising ball never hits the paddle, and a level
//! without balls is loaded afresh.

use crate::fixed::Fixed;
use crate::game::ball_in;
use crate::game::collided;
use crate::game::contact;
use crate::game::fenced;
use crate::game::field_spec;
use crate::game::first_contact;
use crate::game::masked_to;
use crate::game::paddle_spec;
use crate::game::pruned_to;
use crate::game::resolved;
use crate::game::contacts;
use crate::game::settled;
use crate::math::in_unit;
use crate::game::walls_spec;
use crate::game::Entity;
use crate::game::GameView;
use crate::game::Tag;
use crate::index_vec::lemma_inserted_wf;
use crate::index_vec::lemma_vacated_wf;
use crate::index_vec::lemma_with_value_wf;
use crate::index_vec::Arena;
use crate::index_vec::GIndex;
use crate::index_vec::Slot;
use crate::index_vec_proofs::lemma_cleared;
use crate::index_vec_proofs::lemma_cleared_values;
use crate::index_vec_proofs::lemma_extended_values;
use crate::index_vec_proofs::lemma_inserted_values;
use crate::index_vec_proofs::lemma_values_to_held;
use crate::input::Input;
use crate::math::Collision2;
use crate::math::Vec2;
use vstd::prelude::*;

verus! {

/// Pruning the first `n` slots empties those that hold something spent and
/// leaves every other slot as it is.
pub proof fn lemma_pruned_to(arena: Arena<Entity>, n: int)
    requires
        arena.wf(),
        0 <= n <= arena.slots.len() <= usize::MAX,
    ensures
        pruned_to(arena, n).wf(),
        pruned_to(arena, n).slots.len() == arena.slots.len(),
        forall|i: int|
            0 <= i < arena.slots.len() ==> #[trigger] pruned_to(arena, n).slots[i] == if i < n
                && arena.holds(i) && arena.entry(i).value.spent() {
                Slot { generation: arena.slots[i].generation, value: None }
            } else {
                arena.slots[i]
            },
    decreases n,
{
    if n > 0 {
        lemma_pruned_to(arena, n - 1);
        let before = pruned_to(arena, n - 1);
        assert(before.slots[n - 1] == arena.slots[n - 1]);
        if before.holds(n - 1) && before.entry(n - 1).value.spent() {
            lemma_vacated_wf(before, n - 1);
        }
    }
}

/// Nothing spent is left after pruning, and what is not spent stays.
pub proof fn lemma_pruned(arena: Arena<Entity>, h: GIndex)
    requires
        arena.wf(),
        arena.slots.len() <= usize::MAX,
    ensures
        pruned_to(arena, arena.slots.len() as int).lookup(h) == match arena.lookup(h) {
            Some(entity) => if entity.spent() {
                None
            } else {
                Some(entity)
            },
            None => None,
        },
{
    lemma_pruned_to(arena, arena.slots.len() as int);
}

/// Block removal: when a ball runs into a block with one life left, the
/// collision leaves the block without life, and the pruning that follows
/// removes it.
pub proof fn lemma_block_removed(
    arena: Arena<Entity>,
    mover: GIndex,
    target: GIndex,
    collision: Collision2,
    dt: Fixed,
)
    requires
        arena.wf(),
        arena.slots.len() <= usize::MAX,
        mover.index != target.index,
        arena.lookup(mover) is Some,
        arena.lookup(target) is Some,
        arena.lookup(mover).unwrap().tags.ball,
        arena.lookup(target).unwrap().tags.block,
        arena.lookup(target).unwrap().life == 1,
    ensures
        ({
            let after = settled(arena, (mover, Some((target, collision))), dt);
            &&& after.lookup(target) is Some
            &&& after.lookup(target).unwrap().life == 0
            &&& pruned_to(after, after.slots.len() as int).lookup(target) is None
        }),
{
    let after = settled(arena, (mover, Some((target, collision))), dt);
    let a = arena.lookup(mover).unwrap();
    let b = arena.lookup(target).unwrap();
    let pair = collided(a, b, collision, dt);
    assert(after == arena.with_value(mover.index as int, pair.0).with_value(
        target.index as int,
        pair.1,
    ));
    crate::index_vec::lemma_with_value_wf(arena, mover.index as int);
    crate::index_vec::lemma_with_value_wf(
        arena.with_value(mover.index as int, pair.0),
        target.index as int,
    );
    lemma_pruned(after, target);
}

/// A ball that does not move downward does not collide with the paddle
/// once it is masked, and so has no contact with anything that it could
/// only meet as the paddle.
pub proof fn lemma_rising_ball_ignores_paddle(ball: Entity, other: Entity, dt: Fixed)
    requires
        ball.tags.ball,
        ball.velocity.y@ >= 0,
        forall|tag: Tag| tag != Tag::Player ==> !(ball.collide_with.has(tag) && other.tags.has(tag)),
    ensures
        !ball.masked().collide_with.has(Tag::Player),
        contact(ball.masked(), other, dt) is None,
{
    reveal(contact);
    let masked = ball.masked();
    assert forall|tag: Tag| !(masked.collide_with.has(tag) && other.tags.has(tag)) by {
        if tag != Tag::Player {
            assert(masked.collide_with.has(tag) == ball.collide_with.has(tag));
        }
    }
}

/// A contact happens within the movement: its parameter lies between zero
/// and one, both included.
pub proof fn lemma_contact_in_frame(a: Entity, b: Entity, dt: Fixed)
    ensures
        contact(a, b, dt) matches Some(collision) ==> in_unit(collision.t),
{
    reveal(contact);
    crate::math_proofs::lemma_sweep_is_earliest(
        crate::game::movement_of(a, b, dt),
        a.half_size,
        b.position,
        b.half_size,
    );
}

/// Masking the first `n` slots masks the value in each of them and leaves
/// everything else as it is.
pub proof fn lemma_masked_to(arena: Arena<Entity>, n: int)
    requires
        0 <= n <= arena.slots.len(),
    ensures
        masked_to(arena, n).free == arena.free,
        masked_to(arena, n).slots.len() == arena.slots.len(),
        forall|i: int|
            0 <= i < arena.slots.len() ==> #[trigger] masked_to(arena, n).slots[i] == if i < n
                && arena.holds(i) {
                Slot {
                    generation: arena.slots[i].generation,
                    value: Some(arena.entry(i).value.masked()),
                }
            } else {
                arena.slots[i]
            },
    decreases n,
{
    if n > 0 {
        lemma_masked_to(arena, n - 1);
    }
}

/// What a mover is found to hit first is another value of the arena, with
/// which the mover has a contact; no other value is met earlier, and none
/// in a lower slot at the same time. Nothing is found exactly if the mover
/// has no contact with any other value.
pub proof fn lemma_first_contact(arena: Arena<Entity>, mover: int, dt: Fixed, n: int)
    requires
        0 <= n <= arena.slots.len() <= usize::MAX,
    ensures
        match first_contact(arena, mover, dt, n) {
            Some((target, collision)) => {
                &&& 0 <= target.index < n
                &&& target.index != mover
                &&& arena.holds(target.index as int)
                &&& target == arena.handle(target.index as int)
                &&& contact(
                    arena.entry(mover).value,
                    arena.entry(target.index as int).value,
                    dt,
                ) == Some(collision)
                &&& forall|k: int|
                    0 <= k < n && k != mover && arena.holds(k) ==> match #[trigger] contact(
                        arena.entry(mover).value,
                        arena.entry(k).value,
                        dt,
                    ) {
                        Some(other) => collision.t@ < other.t@ || (collision.t@ == other.t@
                            && target.index <= k),
                        None => true,
                    }
            },
            None => forall|k: int|
                0 <= k < n && k != mover && arena.holds(k) ==> (#[trigger] contact(
                    arena.entry(mover).value,
                    arena.entry(k).value,
                    dt,
                )) is None,
        },
    decreases n,
{
    if n > 0 {
        lemma_first_contact(arena, mover, dt, n - 1);
    }
}

/// The movers of a frame are the values that move, each once and in the
/// order of the slots, each with its handle and its first contact.
pub proof fn lemma_contacts(arena: Arena<Entity>, dt: Fixed, n: int)
    requires
        0 <= n <= arena.slots.len() <= usize::MAX,
    ensures
        forall|k: int|
            0 <= k < contacts(arena, dt, n).len() ==> {
                let hit = #[trigger] contacts(arena, dt, n)[k];
                &&& hit.0.index < n
                &&& arena.holds(hit.0.index as int)
                &&& arena.entry(hit.0.index as int).value.moving()
                &&& hit.0 == arena.handle(hit.0.index as int)
                &&& hit.1 == first_contact(
                    arena,
                    hit.0.index as int,
                    dt,
                    arena.slots.len() as int,
                )
            },
        forall|j: int, k: int|
            0 <= j < k < contacts(arena, dt, n).len() ==> (#[trigger] contacts(
                arena,
                dt,
                n,
            )[j]).0.index < (#[trigger] contacts(arena, dt, n)[k]).0.index,
        forall|i: int|
            0 <= i < n && arena.holds(i) && (#[trigger] arena.entry(i)).value.moving()
                ==> exists|k: int|
                0 <= k < contacts(arena, dt, n).len() && (#[trigger] contacts(
                    arena,
                    dt,
                    n,
                )[k]).0.index == i,
    decreases n,
{
    if n > 0 {
        lemma_contacts(arena, dt, n - 1);
        let before = contacts(arena, dt, n - 1);
        let all = contacts(arena, dt, n);
        assert forall|i: int|
            0 <= i < n && arena.holds(i) && (#[trigger] arena.entry(i)).value.moving() implies exists|
            k: int,
        |
            0 <= k < all.len() && (#[trigger] all[k]).0.index == i by {
            if i < n - 1 {
                let k = choose|k: int| 0 <= k < before.len() && (#[trigger] before[k]).0.index == i;
                assert(all[k].0.index == i);
            } else {
                assert(all[all.len() - 1].0.index == i);
            }
        }
    }
}

/// Paddle exclusion while ascending: in a frame, a ball that does not move
/// downward is never found to hit something that it could only meet as the
/// paddle, wherever the two are.
pub proof fn lemma_rising_ball_misses_paddle(arena: Arena<Entity>, mover: int, dt: Fixed)
    requires
        arena.slots.len() <= usize::MAX,
        arena.holds(mover),
        arena.entry(mover).value.tags.ball,
        arena.entry(mover).value.velocity.y@ >= 0,
    ensures
        ({
            let n = arena.slots.len() as int;
            let masked = masked_to(arena, n);
            match first_contact(masked, mover, dt, n) {
                Some((target, _)) => exists|tag: Tag|
                    tag != Tag::Player && arena.entry(mover).value.collide_with.has(tag)
                        && #[trigger] arena.entry(target.index as int).value.tags.has(tag),
                None => true,
            }
        }),
{
    let n = arena.slots.len() as int;
    let masked = masked_to(arena, n);
    lemma_masked_to(arena, n);
    lemma_first_contact(masked, mover, dt, n);
    match first_contact(masked, mover, dt, n) {
        Some((target, collision)) => {
            let ball = arena.entry(mover).value;
            let other = arena.entry(target.index as int).value;
            assert(masked.slots[mover].value == Some(ball.masked()));
            assert(masked.slots[target.index as int].value == Some(other.masked()));
            assert(other.masked().tags == other.tags);
            if forall|tag: Tag|
                tag != Tag::Player ==> !(ball.collide_with.has(tag) && other.tags.has(tag)) {
                lemma_rising_ball_ignores_paddle(ball, other.masked(), dt);
                assert(false);
            }
        },
        None => {},
    }
}

/// A level that is loaded leaves in the arena the walls, the paddle and
/// what the level starts with, and nothing else.
pub proof fn lemma_loaded(game: GameView, level_index: int)
    requires
        game.wf(),
        0 <= level_index < game.levels.len(),
    ensures
        game.loaded(level_index).entities.wf(),
        game.loaded(level_index).current_level == level_index,
        game.loaded(level_index).levels == game.levels,
        game.loaded(level_index).entities.values() =~= walls_spec(
            field_spec(),
        ).to_multiset().insert(paddle_spec()).add(game.levels[level_index].to_multiset()),
{
    let emptied = game.entities.cleared();
    let walls = walls_spec(field_spec());
    lemma_cleared(game.entities);
    lemma_cleared_values(game.entities);
    lemma_extended_values(emptied, walls);
    lemma_inserted_wf(emptied.extended(walls), paddle_spec());
    lemma_inserted_values(emptied.extended(walls), paddle_spec());
    lemma_extended_values(fenced(game.entities), game.levels[level_index]);
}

/// Whether a ball is among what a level starts with.
pub open spec fn has_ball(spawns: Seq<Entity>) -> bool {
    exists|k: int| 0 <= k < spawns.len() && (#[trigger] spawns[k]).tags.ball
}

/// A level with a ball in it has a ball in the arena once it is loaded.
pub proof fn lemma_loaded_has_ball(game: GameView, level_index: int)
    requires
        game.wf(),
        0 <= level_index < game.levels.len(),
        has_ball(game.levels[level_index]),
    ensures
        ball_in(
            game.loaded(level_index).entities,
            game.loaded(level_index).entities.slots.len() as int,
        ),
{
    broadcast use vstd::seq_lib::group_to_multiset_ensures;

    let spawns = game.levels[level_index];
    let k = choose|k: int| 0 <= k < spawns.len() && (#[trigger] spawns[k]).tags.ball;
    let arena = game.loaded(level_index).entities;
    lemma_loaded(game, level_index);
    assert(spawns.contains(spawns[k]));
    assert(spawns.to_multiset().count(spawns[k]) > 0);
    assert(arena.values().count(spawns[k]) > 0);
    lemma_values_to_held(arena, arena.slots.len() as int, spawns[k]);
    let i = choose|i: int|
        0 <= i < arena.slots.len() && arena.holds(i) && (#[trigger] arena.slots[i]).value == Some(
            spawns[k],
        );
    assert(arena.holds(i) && arena.slots[i].value.unwrap().tags.ball);
}

/// Level reload on ball exhaustion: when no ball is left and no button
/// asks for another level, looking after the levels loads the current
/// level again: the arena then holds the walls, the paddle and all that
/// the level starts with, and nothing else.
pub proof fn lemma_reload_on_exhaustion(game: GameView, input: Input)
    requires
        game.wf(),
        game.initialized,
        !ball_in(game.entities, game.entities.slots.len() as int),
        !input.mouse.buttons[0].went_down(),
        !input.mouse.buttons[1].went_down(),
    ensures
        game.switched(input) == game.loaded(game.current_level as int),
        game.switched(input).current_level == game.current_level,
        game.switched(input).entities.values() =~= walls_spec(
            field_spec(),
        ).to_multiset().insert(paddle_spec()).add(
            game.levels[game.current_level as int].to_multiset(),
        ),
        has_ball(game.levels[game.current_level as int]) ==> ball_in(
            game.switched(input).entities,
            game.switched(input).entities.slots.len() as int,
        ),
{
    lemma_loaded(game, game.current_level as int);
    if has_ball(game.levels[game.current_level as int]) {
        lemma_loaded_has_ball(game, game.current_level as int);
    }
}

/// While balls are left and no button asks for another level, looking
/// after the levels changes nothing.
pub proof fn lemma_level_kept(game: GameView, input: Input)
    requires
        ball_in(game.entities, game.entities.slots.len() as int),
        !input.mouse.buttons[0].went_down(),
        !input.mouse.buttons[1].went_down(),
    ensures
        game.switched(input) == game,
{
}

/// A press of the left button takes the game to the level before the
/// current one, a press of the right button alone to the level after it,
/// round the ends.
pub proof fn lemma_level_switch(game: GameView, input: Input)
    requires
        game.wf(),
        game.initialized,
        ball_in(game.entities, game.entities.slots.len() as int),
    ensures
        input.mouse.buttons[0].went_down() ==> game.switched(input).current_level == if game.current_level
            == 0 {
            game.levels.len() - 1
        } else {
            game.current_level - 1
        },
        !input.mouse.buttons[0].went_down() && input.mouse.buttons[1].went_down()
            ==> game.switched(input).current_level == if game.current_level + 1
            == game.levels.len() {
            0
        } else {
            game.current_level + 1
        },
{
    crate::game::lemma_wrap(game.current_level as int, game.levels.len() as int);
}

/// Dealing with a mover changes values only: the slots stay as many, the
/// free slots the same, and the arena in order.
pub proof fn lemma_settled(
    arena: Arena<Entity>,
    hit: (GIndex, Option<(GIndex, Collision2)>),
    dt: Fixed,
)
    requires
        arena.wf(),
    ensures
        settled(arena, hit, dt).wf(),
        settled(arena, hit, dt).slots.len() == arena.slots.len(),
        settled(arena, hit, dt).free == arena.free,
        forall|i: int|
            0 <= i < arena.slots.len() ==> (#[trigger] settled(arena, hit, dt).slots[i]).generation
                == arena.slots[i].generation && settled(arena, hit, dt).holds(i) == arena.holds(i),
{
    let mover = hit.0;
    lemma_with_value_wf(arena, mover.index as int);
    match hit.1 {
        Some((target, collision)) => {
            if target.index != mover.index && arena.lookup(mover) is Some && arena.lookup(
                target,
            ) is Some {
                let pair = collided(
                    arena.lookup(mover).unwrap(),
                    arena.lookup(target).unwrap(),
                    collision,
                    dt,
                );
                lemma_with_value_wf(
                    arena.with_value(mover.index as int, pair.0),
                    target.index as int,
                );
            }
        },
        None => {},
    }
}

/// Dealing with all movers changes values only.
pub proof fn lemma_resolved(
    arena: Arena<Entity>,
    hits: Seq<(GIndex, Option<(GIndex, Collision2)>)>,
    dt: Fixed,
    n: int,
)
    requires
        arena.wf(),
        0 <= n <= hits.len(),
    ensures
        resolved(arena, hits, dt, n).wf(),
        resolved(arena, hits, dt, n).slots.len() == arena.slots.len(),
        resolved(arena, hits, dt, n).free == arena.free,
        forall|i: int|
            0 <= i < arena.slots.len() ==> (#[trigger] resolved(
                arena,
                hits,
                dt,
                n,
            ).slots[i]).generation == arena.slots[i].generation && resolved(
                arena,
                hits,
                dt,
                n,
            ).holds(i) == arena.holds(i),
    decreases n,
{
    if n > 0 {
        lemma_resolved(arena, hits, dt, n - 1);
        lemma_settled(resolved(arena, hits, dt, n - 1), hits[n - 1], dt);
    }
}

/// Masking keeps the arena in order.
pub proof fn lemma_masked_wf(arena: Arena<Entity>)
    requires
        arena.wf(),
    ensures
        masked_to(arena, arena.slots.len() as int).wf(),
{
    let masked = masked_to(arena, arena.slots.len() as int);
    lemma_masked_to(arena, arena.slots.len() as int);
    assert forall|k: int| 0 <= k < masked.free.len() implies masked.reusable(
        #[trigger] masked.free[k] as int,
    ) by {
        assert(arena.reusable(arena.free[k] as int));
    }
    assert forall|i: usize| masked.reusable(i as int) implies #[trigger] masked.free.contains(
        i,
    ) by {
        assert(arena.reusable(i as int));
    }
}

/// Steering and moving keep the game in order; they change neither the
/// levels nor the number of the current one, and add no slots.
pub proof fn lemma_motion_keeps_order(game: GameView, pointer: Vec2, dt: Fixed)
    requires
        game.wf(),
    ensures
        game.steered(pointer, dt).wf(),
        game.steered(pointer, dt).moved(dt).wf(),
        game.steered(pointer, dt).moved(dt).levels == game.levels,
        game.steered(pointer, dt).moved(dt).current_level == game.current_level,
        game.steered(pointer, dt).moved(dt).initialized == game.initialized,
        game.steered(pointer, dt).moved(dt).entities.slots.len() == game.entities.slots.len(),
{
    let steered = game.steered(pointer, dt);
    match game.player {
        Some(player) => {
            lemma_with_value_wf(game.entities, player.index as int);
        },
        None => {},
    }
    let n = steered.entities.slots.len() as int;
    let masked = masked_to(steered.entities, n);
    lemma_masked_to(steered.entities, n);
    lemma_masked_wf(steered.entities);
    let hits = contacts(masked, dt, n);
    lemma_resolved(masked, hits, dt, hits.len() as int);
    let settled = resolved(masked, hits, dt, hits.len() as int);
    lemma_pruned_to(settled, n);
}

/// Level reload on ball exhaustion, for a whole frame: when the last ball
/// is gone after the movement of a frame and no button asks for another
/// level, the frame ends with the same level loaded afresh: the arena
/// holds the walls, the paddle and all that the level starts with, and
/// nothing else.
pub proof fn lemma_frame_reloads(game: GameView, pointer: Vec2, input: Input, dt: Fixed)
    requires
        game.wf(),
        game.initialized,
        !ball_in(
            game.steered(pointer, dt).moved(dt).entities,
            game.entities.slots.len() as int,
        ),
        !input.mouse.buttons[0].went_down(),
        !input.mouse.buttons[1].went_down(),
    ensures
        game.ticked(pointer, input, dt).current_level == game.current_level,
        game.ticked(pointer, input, dt).entities.values() =~= walls_spec(
            field_spec(),
        ).to_multiset().insert(paddle_spec()).add(
            game.levels[game.current_level as int].to_multiset(),
        ),
        has_ball(game.levels[game.current_level as int]) ==> ball_in(
            game.ticked(pointer, input, dt).entities,
            game.ticked(pointer, input, dt).entities.slots.len() as int,
        ),
{
    lemma_motion_keeps_order(game, pointer, dt);
    lemma_reload_on_exhaustion(game.steered(pointer, dt).moved(dt), input);
}

} // verus!
