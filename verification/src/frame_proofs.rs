//! What holds of a whole frame, from the state at its entry: what a
//! collision in it leaves of the two that met, that a rising ball flies on
//! past the paddle, what the masks are at its end, and what a frame without
//! balls loads.

use crate::fixed::Fixed;
use crate::game::ball_in;
use crate::game::ball_spec;
use crate::game::block_spec;
use crate::game::field_spec;
use crate::game::level0_spec;
use crate::game::level1_spec;
use crate::game::paddle_spec;
use crate::game::walls_spec;
use crate::game::TagSet;
use crate::game_proofs::has_ball;
use crate::fixed::whole;
use crate::game::collided;
use crate::game::contact;
use crate::game::contacts;
use crate::game::first_contact;
use crate::game::lowered;
use crate::game::masked_to;
use crate::game::pruned_to;
use crate::game::resolved;
use crate::game::settled;
use crate::game::Entity;
use crate::game::GameView;
use crate::game::Tag;
use crate::game_proofs::lemma_contacts;
use crate::game_proofs::lemma_first_contact;
use crate::game_proofs::lemma_masked_to;
use crate::game_proofs::lemma_masked_wf;
use crate::game_proofs::lemma_pruned_to;
use crate::game_proofs::lemma_resolved;
use crate::game_proofs::lemma_rising_ball_ignores_paddle;
use crate::index_vec::Arena;
use crate::index_vec::GIndex;
use crate::index_vec::Slot;
use crate::input::Input;
use crate::math::Collision2;
use crate::math::Vec2;
use vstd::prelude::*;

verus! {

/// A collision changes where the two are and how they move and live, not
/// what they are: tags, what they collide with, size and colour stay, and
/// what was hit stays where it was.
pub proof fn lemma_collided_keeps(a: Entity, b: Entity, collision: Collision2, dt: Fixed)
    ensures
        collided(a, b, collision, dt).0.tags == a.tags,
        collided(a, b, collision, dt).0.collide_with == a.collide_with,
        collided(a, b, collision, dt).0.half_size == a.half_size,
        collided(a, b, collision, dt).0.color == a.color,
        collided(a, b, collision, dt).1.tags == b.tags,
        collided(a, b, collision, dt).1.collide_with == b.collide_with,
        collided(a, b, collision, dt).1.half_size == b.half_size,
        collided(a, b, collision, dt).1.color == b.color,
        collided(a, b, collision, dt).1.position == b.position,
        collided(a, b, collision, dt).1.velocity == b.velocity,
{
}

/// A ball that runs into a block is carried to the point of impact and
/// mirrored there, and keeps its life; the block loses one life and is
/// otherwise as it was.
pub proof fn lemma_ball_meets_block(a: Entity, b: Entity, collision: Collision2, dt: Fixed)
    requires
        a.tags.ball,
        b.tags.block,
    ensures
        collided(a, b, collision, dt).0 == (Entity {
            position: a.position.plus(a.velocity.scaled(dt).scaled(collision.t)),
            velocity: a.velocity.reflected(collision.normal),
            ..a
        }),
        collided(a, b, collision, dt).1 == (Entity { life: lowered(b.life), ..b }),
{
}

/// Whether a hit has to do with slot `i`, as the mover or as what was hit.
pub open spec fn involves(hit: (GIndex, Option<(GIndex, Collision2)>), i: int) -> bool {
    ||| hit.0.index == i
    ||| hit.1 matches Some((target, _)) && target.index == i
}

/// Dealing with a mover leaves every slot as it is that the hit has nothing
/// to do with, and leaves to every value its tags and what it collides
/// with.
pub proof fn lemma_settled_slot(
    arena: Arena<Entity>,
    hit: (GIndex, Option<(GIndex, Collision2)>),
    dt: Fixed,
    i: int,
)
    requires
        0 <= i < arena.slots.len(),
    ensures
        settled(arena, hit, dt).slots.len() == arena.slots.len(),
        settled(arena, hit, dt).slots[i].generation == arena.slots[i].generation,
        settled(arena, hit, dt).holds(i) == arena.holds(i),
        !involves(hit, i) ==> settled(arena, hit, dt).slots[i] == arena.slots[i],
        arena.holds(i) ==> settled(arena, hit, dt).entry(i).value.tags == arena.entry(i).value.tags
            && settled(arena, hit, dt).entry(i).value.collide_with == arena.entry(
            i,
        ).value.collide_with,
{
    let mover = hit.0;
    match hit.1 {
        Some((target, collision)) => {
            if target.index != mover.index && arena.lookup(mover) is Some && arena.lookup(
                target,
            ) is Some {
                lemma_collided_keeps(
                    arena.lookup(mover).unwrap(),
                    arena.lookup(target).unwrap(),
                    collision,
                    dt,
                );
            }
        },
        None => {},
    }
}

/// Dealing with all movers leaves every slot as it is that no hit has to do
/// with, and leaves to every value its tags and what it collides with.
pub proof fn lemma_resolved_slot(
    arena: Arena<Entity>,
    hits: Seq<(GIndex, Option<(GIndex, Collision2)>)>,
    dt: Fixed,
    n: int,
    i: int,
)
    requires
        0 <= n <= hits.len(),
        0 <= i < arena.slots.len(),
    ensures
        resolved(arena, hits, dt, n).slots.len() == arena.slots.len(),
        resolved(arena, hits, dt, n).slots[i].generation == arena.slots[i].generation,
        resolved(arena, hits, dt, n).holds(i) == arena.holds(i),
        (forall|k: int| 0 <= k < n ==> !involves(#[trigger] hits[k], i)) ==> resolved(
            arena,
            hits,
            dt,
            n,
        ).slots[i] == arena.slots[i],
        arena.holds(i) ==> resolved(arena, hits, dt, n).entry(i).value.tags == arena.entry(
            i,
        ).value.tags && resolved(arena, hits, dt, n).entry(i).value.collide_with == arena.entry(
            i,
        ).value.collide_with,
    decreases n,
{
    if n > 0 {
        lemma_resolved_slot(arena, hits, dt, n - 1, i);
        lemma_settled_slot(resolved(arena, hits, dt, n - 1), hits[n - 1], dt, i);
    }
}

/// When one hit alone has to do with a mover and with what it hit, the two
/// are after all hits what that one collision makes of them.
pub proof fn lemma_resolved_pair(
    arena: Arena<Entity>,
    hits: Seq<(GIndex, Option<(GIndex, Collision2)>)>,
    dt: Fixed,
    n: int,
    at: int,
    mover: int,
    target: int,
    collision: Collision2,
)
    requires
        0 <= at < n <= hits.len(),
        arena.slots.len() <= usize::MAX,
        mover != target,
        arena.holds(mover),
        arena.holds(target),
        hits[at] == (arena.handle(mover), Some((arena.handle(target), collision))),
        forall|k: int|
            0 <= k < n && k != at ==> !involves(#[trigger] hits[k], mover) && !involves(
                hits[k],
                target,
            ),
    ensures
        resolved(arena, hits, dt, n).slots[mover] == (Slot {
            generation: arena.slots[mover].generation,
            value: Some(
                collided(arena.entry(mover).value, arena.entry(target).value, collision, dt).0,
            ),
        }),
        resolved(arena, hits, dt, n).slots[target] == (Slot {
            generation: arena.slots[target].generation,
            value: Some(
                collided(arena.entry(mover).value, arena.entry(target).value, collision, dt).1,
            ),
        }),
    decreases n,
{
    let before = resolved(arena, hits, dt, n - 1);
    if n - 1 > at {
        lemma_resolved_pair(arena, hits, dt, n - 1, at, mover, target, collision);
        lemma_resolved_slot(arena, hits, dt, n - 1, mover);
        lemma_settled_slot(before, hits[n - 1], dt, mover);
        lemma_settled_slot(before, hits[n - 1], dt, target);
    } else {
        lemma_resolved_slot(arena, hits, dt, at, mover);
        lemma_resolved_slot(arena, hits, dt, at, target);
        assert(before.lookup(arena.handle(mover)) == Some(arena.entry(mover).value));
        assert(before.lookup(arena.handle(target)) == Some(arena.entry(target).value));
    }
}

/// When one hit alone has to do with a mover, and the mover met nothing,
/// the mover is after all hits where its velocity took it in the frame.
pub proof fn lemma_resolved_alone(
    arena: Arena<Entity>,
    hits: Seq<(GIndex, Option<(GIndex, Collision2)>)>,
    dt: Fixed,
    n: int,
    at: int,
    mover: int,
)
    requires
        0 <= at < n <= hits.len(),
        arena.slots.len() <= usize::MAX,
        arena.holds(mover),
        hits[at] == (arena.handle(mover), None::<(GIndex, Collision2)>),
        forall|k: int| 0 <= k < n && k != at ==> !involves(#[trigger] hits[k], mover),
    ensures
        resolved(arena, hits, dt, n).slots[mover] == (Slot {
            generation: arena.slots[mover].generation,
            value: Some(arena.entry(mover).value.advanced(dt)),
        }),
    decreases n,
{
    let before = resolved(arena, hits, dt, n - 1);
    if n - 1 > at {
        lemma_resolved_alone(arena, hits, dt, n - 1, at, mover);
        lemma_resolved_slot(arena, hits, dt, n - 1, mover);
        lemma_settled_slot(before, hits[n - 1], dt, mover);
    } else {
        lemma_resolved_slot(arena, hits, dt, at, mover);
        assert(before.lookup(arena.handle(mover)) == Some(arena.entry(mover).value));
    }
}

/// The arena as the collision search of a frame sees it: after the paddle
/// was steered and the balls were masked.
pub open spec fn seen(game: GameView, pointer: Vec2, dt: Fixed) -> Arena<Entity> {
    let steered = game.steered(pointer, dt);
    masked_to(steered.entities, steered.entities.slots.len() as int)
}

/// The arena after the movement of a frame: after steering, masking, the
/// collisions and pruning.
pub open spec fn moved_arena(game: GameView, pointer: Vec2, dt: Fixed) -> Arena<Entity> {
    game.steered(pointer, dt).moved(dt).entities
}

/// Whether, in a frame, no mover but the one in slot `mover` has to do with
/// slot `i`: nothing else that moves is in slot `i`, and no other mover is
/// found to hit what is there.
pub open spec fn left_alone(arena: Arena<Entity>, dt: Fixed, mover: int, i: int) -> bool {
    &&& i != mover ==> !(arena.holds(i) && arena.entry(i).value.moving())
    &&& forall|j: int|
        0 <= j < arena.slots.len() && j != mover && arena.holds(j) && (#[trigger] arena.entry(
            j,
        )).value.moving() ==> match first_contact(arena, j, dt, arena.slots.len() as int) {
            Some((target, _)) => target.index != i,
            None => true,
        }
}

/// The search of a frame runs on an arena in order, with the slots of the
/// game at entry; each value in it is the masked value of the steered game,
/// and the movement of the frame is the collisions and the pruning on it.
pub proof fn lemma_seen(game: GameView, pointer: Vec2, dt: Fixed)
    requires
        game.wf(),
    ensures
        seen(game, pointer, dt).wf(),
        seen(game, pointer, dt).slots.len() == game.entities.slots.len(),
        game.steered(pointer, dt).entities.slots.len() == game.entities.slots.len(),
        forall|i: int|
            0 <= i < game.entities.slots.len() ==> #[trigger] seen(game, pointer, dt).slots[i] == if game.steered(
                pointer,
                dt,
            ).entities.holds(i) {
                Slot {
                    generation: game.entities.slots[i].generation,
                    value: Some(game.steered(pointer, dt).entities.entry(i).value.masked()),
                }
            } else {
                game.entities.slots[i]
            },
        moved_arena(game, pointer, dt) == pruned_to(
            resolved(
                seen(game, pointer, dt),
                contacts(seen(game, pointer, dt), dt, game.entities.slots.len() as int),
                dt,
                contacts(seen(game, pointer, dt), dt, game.entities.slots.len() as int).len() as int,
            ),
            game.entities.slots.len() as int,
        ),
{
    let steered = game.steered(pointer, dt);
    crate::game_proofs::lemma_motion_keeps_order(game, pointer, dt);
    let n = steered.entities.slots.len() as int;
    assert(n == game.entities.slots.len());
    lemma_masked_to(steered.entities, n);
    lemma_masked_wf(steered.entities);
    let m = seen(game, pointer, dt);
    let hits = contacts(m, dt, n);
    lemma_resolved(m, hits, dt, hits.len() as int);
}

/// Steering changes nothing but the velocity of the paddle.
pub proof fn lemma_steered_slot(game: GameView, pointer: Vec2, dt: Fixed, i: int)
    requires
        0 <= i < game.entities.slots.len(),
    ensures
        game.steered(pointer, dt).entities.slots.len() == game.entities.slots.len(),
        game.steered(pointer, dt).entities.holds(i) == game.entities.holds(i),
        game.steered(pointer, dt).entities.slots[i].generation
            == game.entities.slots[i].generation,
        !(game.player matches Some(player) && player.index == i) ==> game.steered(
            pointer,
            dt,
        ).entities.slots[i] == game.entities.slots[i],
        game.entities.holds(i) ==> game.steered(pointer, dt).entities.entry(i).value == (Entity {
            velocity: game.steered(pointer, dt).entities.entry(i).value.velocity,
            ..game.entities.entry(i).value
        }),
{
}

/// The one hit of a mover: among the hits of a frame there is one for each
/// mover, with what the mover is found to hit first; and when the others
/// leave a slot alone, no other hit has to do with that slot.
pub proof fn lemma_only_hit(arena: Arena<Entity>, dt: Fixed, mover: int) -> (at: int)
    requires
        arena.slots.len() <= usize::MAX,
        arena.holds(mover),
        arena.entry(mover).value.moving(),
    ensures
        0 <= at < contacts(arena, dt, arena.slots.len() as int).len(),
        contacts(arena, dt, arena.slots.len() as int)[at] == (
            arena.handle(mover),
            first_contact(arena, mover, dt, arena.slots.len() as int),
        ),
        forall|i: int, k: int|
            #![trigger left_alone(arena, dt, mover, i), contacts(arena, dt, arena.slots.len() as int)[k]]
            left_alone(arena, dt, mover, i) && 0 <= k < contacts(
                arena,
                dt,
                arena.slots.len() as int,
            ).len() && k != at ==> !involves(contacts(arena, dt, arena.slots.len() as int)[k], i),
{
    let n = arena.slots.len() as int;
    let hits = contacts(arena, dt, n);
    lemma_contacts(arena, dt, n);
    assert(arena.entry(mover).value.moving());
    let at = choose|k: int| 0 <= k < hits.len() && (#[trigger] hits[k]).0.index == mover;
    assert forall|i: int, k: int|
        #![trigger left_alone(arena, dt, mover, i), hits[k]]
        left_alone(arena, dt, mover, i) && 0 <= k < hits.len() && k != at implies !involves(
        hits[k],
        i,
    ) by {
        let j = hits[k].0.index as int;
        if k < at {
            assert(hits[k].0.index < hits[at].0.index);
        } else {
            assert(hits[at].0.index < hits[k].0.index);
        }
        assert(j != mover);
        assert(arena.holds(j) && arena.entry(j).value.moving());
        assert(hits[k].1 == first_contact(arena, j, dt, n));
    }
    at
}

/// A collision in a whole frame: when a mover is found to hit something,
/// and no other mover of the frame has to do with either of the two, then
/// at the end of the movement the two are what that one collision makes of
/// them, unless they are spent and so removed.
pub proof fn lemma_frame_collision(
    game: GameView,
    pointer: Vec2,
    dt: Fixed,
    mover: int,
    target: int,
    collision: Collision2,
)
    requires
        game.wf(),
        seen(game, pointer, dt).holds(mover),
        seen(game, pointer, dt).entry(mover).value.moving(),
        first_contact(
            seen(game, pointer, dt),
            mover,
            dt,
            seen(game, pointer, dt).slots.len() as int,
        ) == Some((seen(game, pointer, dt).handle(target), collision)),
        0 <= target < game.entities.slots.len(),
        left_alone(seen(game, pointer, dt), dt, mover, mover),
        left_alone(seen(game, pointer, dt), dt, mover, target),
    ensures
        ({
            let arena = seen(game, pointer, dt);
            let pair = collided(
                arena.entry(mover).value,
                arena.entry(target).value,
                collision,
                dt,
            );
            let after = moved_arena(game, pointer, dt);
            &&& arena.holds(target)
            &&& target != mover
            &&& after.lookup(arena.handle(mover)) == if pair.0.spent() {
                None
            } else {
                Some(pair.0)
            }
            &&& after.lookup(arena.handle(target)) == if pair.1.spent() {
                None
            } else {
                Some(pair.1)
            }
        }),
{
    let arena = seen(game, pointer, dt);
    let n = arena.slots.len() as int;
    lemma_seen(game, pointer, dt);
    lemma_first_contact(arena, mover, dt, n);
    let hits = contacts(arena, dt, n);
    let at = lemma_only_hit(arena, dt, mover);
    assert forall|k: int| 0 <= k < hits.len() && k != at implies !involves(
        #[trigger] hits[k],
        mover,
    ) && !involves(hits[k], target) by {
        assert(left_alone(arena, dt, mover, mover));
        assert(left_alone(arena, dt, mover, target));
    }
    lemma_resolved_pair(arena, hits, dt, hits.len() as int, at, mover, target, collision);
    lemma_resolved(arena, hits, dt, hits.len() as int);
    lemma_pruned_to(resolved(arena, hits, dt, hits.len() as int), n);
}

/// Block removal, for a whole frame: when a ball is found to hit a block,
/// and no other mover of the frame has to do with either of the two, the
/// block loses one life and is otherwise as it was; with its last life it
/// is gone at the end of the frame's movement. The ball is carried to the
/// point of impact and mirrored there, and keeps its life.
pub proof fn lemma_frame_block_hit(
    game: GameView,
    pointer: Vec2,
    dt: Fixed,
    mover: int,
    target: int,
    collision: Collision2,
)
    requires
        game.wf(),
        seen(game, pointer, dt).holds(mover),
        seen(game, pointer, dt).entry(mover).value.moving(),
        seen(game, pointer, dt).entry(mover).value.tags.ball,
        first_contact(
            seen(game, pointer, dt),
            mover,
            dt,
            seen(game, pointer, dt).slots.len() as int,
        ) == Some((seen(game, pointer, dt).handle(target), collision)),
        0 <= target < game.entities.slots.len(),
        seen(game, pointer, dt).holds(target) ==> seen(game, pointer, dt).entry(
            target,
        ).value.tags.block,
        left_alone(seen(game, pointer, dt), dt, mover, mover),
        left_alone(seen(game, pointer, dt), dt, mover, target),
    ensures
        ({
            let arena = seen(game, pointer, dt);
            let a = arena.entry(mover).value;
            let b = arena.entry(target).value;
            let after = moved_arena(game, pointer, dt);
            &&& b.life == 1 ==> after.lookup(arena.handle(target)) is None
            &&& b.life != 1 ==> after.lookup(arena.handle(target)) == Some(
                Entity { life: lowered(b.life), ..b },
            )
            &&& a.life != 0 ==> after.lookup(arena.handle(mover)) == Some(
                Entity {
                    position: a.position.plus(a.velocity.scaled(dt).scaled(collision.t)),
                    velocity: a.velocity.reflected(collision.normal),
                    ..a
                },
            )
        }),
{
    let arena = seen(game, pointer, dt);
    lemma_frame_collision(game, pointer, dt, mover, target, collision);
    lemma_ball_meets_block(arena.entry(mover).value, arena.entry(target).value, collision, dt);
}

/// Paddle exclusion while ascending, for a whole frame: a ball that rises,
/// with nothing in its way that it meets otherwise than as the paddle, and
/// that no other mover hits, is found to hit nothing, wherever the paddle
/// is: at the end of the movement it is where its velocity took it in the
/// whole frame, with the velocity and the life it had, and without the
/// paddle among what it collides with.
pub proof fn lemma_frame_rising_ball(game: GameView, pointer: Vec2, dt: Fixed, mover: int)
    requires
        game.wf(),
        game.steered(pointer, dt).entities.holds(mover),
        game.steered(pointer, dt).entities.entry(mover).value.tags.ball,
        game.steered(pointer, dt).entities.entry(mover).value.velocity.y@ > 0,
        forall|k: int|
            #![trigger seen(game, pointer, dt).entry(k)]
            0 <= k < game.entities.slots.len() && k != mover && seen(game, pointer, dt).holds(k)
                ==> {
                ||| forall|tag: Tag|
                    tag != Tag::Player ==> !(game.steered(pointer, dt).entities.entry(
                        mover,
                    ).value.collide_with.has(tag) && seen(game, pointer, dt).entry(
                        k,
                    ).value.tags.has(tag))
                ||| contact(
                    seen(game, pointer, dt).entry(mover).value,
                    seen(game, pointer, dt).entry(k).value,
                    dt,
                ) is None
            },
        left_alone(seen(game, pointer, dt), dt, mover, mover),
    ensures
        ({
            let ball = game.steered(pointer, dt).entities.entry(mover).value;
            let arena = seen(game, pointer, dt);
            let after = moved_arena(game, pointer, dt);
            &&& first_contact(arena, mover, dt, arena.slots.len() as int) is None
            &&& after.lookup(arena.handle(mover)) == if ball.spent() {
                None
            } else {
                Some(
                    Entity {
                        position: ball.position.plus(ball.velocity.scaled(dt)),
                        collide_with: ball.collide_with.with(Tag::Player, false),
                        ..ball
                    },
                )
            }
        }),
{
    let ball = game.steered(pointer, dt).entities.entry(mover).value;
    let arena = seen(game, pointer, dt);
    let n = arena.slots.len() as int;
    lemma_seen(game, pointer, dt);
    assert(arena.slots[mover].value == Some(ball.masked()));
    lemma_first_contact(arena, mover, dt, n);
    match first_contact(arena, mover, dt, n) {
        Some((target, collision)) => {
            let k = target.index as int;
            let other = arena.entry(k).value;
            assert(arena.holds(k) && k != mover);
            if forall|tag: Tag|
                tag != Tag::Player ==> !(ball.collide_with.has(tag) && other.tags.has(tag)) {
                lemma_rising_ball_ignores_paddle(ball, other, dt);
            }
            assert(false);
        },
        None => {},
    }
    let hits = contacts(arena, dt, n);
    let at = lemma_only_hit(arena, dt, mover);
    assert forall|k: int| 0 <= k < hits.len() && k != at implies !involves(
        #[trigger] hits[k],
        mover,
    ) by {
        assert(left_alone(arena, dt, mover, mover));
    }
    lemma_resolved_alone(arena, hits, dt, hits.len() as int, at, mover);
    lemma_resolved(arena, hits, dt, hits.len() as int);
    lemma_pruned_to(resolved(arena, hits, dt, hits.len() as int), n);
}

/// The masks at the end of a frame's movement: whatever is left has the
/// tags it had at entry, and collides with what it did at entry, but that a
/// ball collides with the paddle exactly if it moved downward when the
/// frame's movement began; nothing else changes what it collides with.
pub proof fn lemma_frame_masks(game: GameView, pointer: Vec2, dt: Fixed, i: int)
    requires
        game.wf(),
        0 <= i < game.entities.slots.len(),
        moved_arena(game, pointer, dt).holds(i),
    ensures
        ({
            let entered = game.entities.entry(i).value;
            let steered = game.steered(pointer, dt).entities.entry(i).value;
            let left = moved_arena(game, pointer, dt).entry(i).value;
            &&& game.entities.holds(i)
            &&& moved_arena(game, pointer, dt).slots[i].generation
                == game.entities.slots[i].generation
            &&& left.tags == entered.tags
            &&& left.collide_with == if entered.tags.ball {
                entered.collide_with.with(Tag::Player, steered.velocity.y@ < 0)
            } else {
                entered.collide_with
            }
            &&& !(game.player matches Some(player) && player.index == i) ==> steered.velocity
                == entered.velocity
        }),
{
    let arena = seen(game, pointer, dt);
    let n = arena.slots.len() as int;
    lemma_seen(game, pointer, dt);
    lemma_steered_slot(game, pointer, dt, i);
    let hits = contacts(arena, dt, n);
    lemma_resolved_slot(arena, hits, dt, hits.len() as int, i);
    lemma_resolved(arena, hits, dt, hits.len() as int);
    lemma_pruned_to(resolved(arena, hits, dt, hits.len() as int), n);
}

/// The movement of a frame makes no balls: without a ball at entry there is
/// none after it.
pub proof fn lemma_frame_makes_no_ball(game: GameView, pointer: Vec2, dt: Fixed)
    requires
        game.wf(),
        !ball_in(game.entities, game.entities.slots.len() as int),
    ensures
        !ball_in(moved_arena(game, pointer, dt), game.entities.slots.len() as int),
        moved_arena(game, pointer, dt).slots.len() == game.entities.slots.len(),
{
    crate::game_proofs::lemma_motion_keeps_order(game, pointer, dt);
    let after = moved_arena(game, pointer, dt);
    assert forall|i: int| 0 <= i < game.entities.slots.len() && after.holds(i) implies !(
    #[trigger] after.slots[i]).value.unwrap().tags.ball by {
        lemma_frame_masks(game, pointer, dt, i);
        assert(game.entities.holds(i));
        assert(!game.entities.slots[i].value.unwrap().tags.ball);
    }
}

/// A frame of a game that has begun, in which a ball is left after the
/// movement and no button asks for another level, ends where its movement
/// ends: it loads nothing.
pub proof fn lemma_frame_without_switch(game: GameView, pointer: Vec2, input: Input, dt: Fixed)
    requires
        game.initialized,
        ball_in(
            moved_arena(game, pointer, dt),
            moved_arena(game, pointer, dt).slots.len() as int,
        ),
        !input.mouse.buttons[0].went_down(),
        !input.mouse.buttons[1].went_down(),
    ensures
        game.ticked(pointer, input, dt) == game.steered(pointer, dt).moved(dt),
        game.ticked(pointer, input, dt).entities == moved_arena(game, pointer, dt),
{
}

/// What a loaded level leaves, beyond its values: the handle of the paddle
/// finds the paddle, the arena holds five values more than the level starts
/// with, and every handle that was ever issued before finds nothing.
pub proof fn lemma_loaded_afresh(game: GameView, level_index: int, h: GIndex)
    requires
        game.wf(),
        0 <= level_index < game.levels.len(),
        game.entities.slots.len() + 5 <= usize::MAX,
    ensures
        game.loaded(level_index).player matches Some(player) && game.loaded(
            level_index,
        ).entities.lookup(player) == Some(paddle_spec()),
        game.loaded(level_index).entities.values().len() == 5 + game.levels[level_index].len(),
        h.index < game.entities.slots.len() && h.generation
            <= game.entities.slots[h.index as int].generation ==> game.loaded(
            level_index,
        ).entities.lookup(h) is None,
{
    broadcast use vstd::multiset::group_multiset_axioms;

    let emptied = game.entities.cleared();
    let walls = walls_spec(field_spec());
    let fence = emptied.extended(walls);
    let level = game.levels[level_index];
    crate::index_vec_proofs::lemma_cleared(game.entities);
    crate::index_vec_proofs::lemma_cleared_values(game.entities);
    crate::index_vec_proofs::lemma_extended_values(emptied, walls);
    crate::index_vec_proofs::lemma_extended_len(emptied, walls);
    crate::index_vec_proofs::lemma_extended_count(emptied, walls);
    crate::index_vec_proofs::lemma_inserted_is_found(fence, paddle_spec());
    crate::index_vec_proofs::lemma_inserted_values(fence, paddle_spec());
    crate::index_vec::lemma_inserted_wf(fence, paddle_spec());
    let with_paddle = fence.inserted(paddle_spec());
    let player = fence.next_handle();
    crate::index_vec_proofs::lemma_extended_keeps(with_paddle, level, player.index as int);
    crate::index_vec_proofs::lemma_extended_count(with_paddle, level);
    assert(walls.len() == 4);
    assert(emptied.values().len() == 0);
    if h.index < game.entities.slots.len() && h.generation
        <= game.entities.slots[h.index as int].generation {
        crate::index_vec_proofs::lemma_cleared_stale(game.entities, h);
        crate::index_vec_proofs::lemma_stale_extended(emptied, h, walls);
        crate::index_vec_proofs::lemma_stale_inserted(fence, h, paddle_spec());
        crate::index_vec_proofs::lemma_stale_extended(with_paddle, h, level);
    }
}

/// Level reload on ball exhaustion, for a whole frame from its entry: a
/// frame that begins without a ball, and in which no button asks for
/// another level, ends with the same level loaded afresh. The arena then
/// holds the walls, the paddle and all that the level starts with, and
/// nothing else; the handle of the paddle finds the paddle; a ball is there
/// if the level has one; and every handle that was issued before the frame
/// finds nothing.
pub proof fn lemma_frame_without_balls(
    game: GameView,
    pointer: Vec2,
    input: Input,
    dt: Fixed,
    h: GIndex,
)
    requires
        game.wf(),
        game.initialized,
        game.entities.slots.len() + 5 <= usize::MAX,
        !ball_in(game.entities, game.entities.slots.len() as int),
        !input.mouse.buttons[0].went_down(),
        !input.mouse.buttons[1].went_down(),
    ensures
        game.ticked(pointer, input, dt).current_level == game.current_level,
        game.ticked(pointer, input, dt).levels == game.levels,
        game.ticked(pointer, input, dt).entities.values() =~= walls_spec(
            field_spec(),
        ).to_multiset().insert(paddle_spec()).add(
            game.levels[game.current_level as int].to_multiset(),
        ),
        game.ticked(pointer, input, dt).entities.values().len() == 5
            + game.levels[game.current_level as int].len(),
        game.ticked(pointer, input, dt).player matches Some(player) && game.ticked(
            pointer,
            input,
            dt,
        ).entities.lookup(player) == Some(paddle_spec()),
        has_ball(game.levels[game.current_level as int]) ==> ball_in(
            game.ticked(pointer, input, dt).entities,
            game.ticked(pointer, input, dt).entities.slots.len() as int,
        ),
        h.index < game.entities.slots.len() && h.generation
            <= game.entities.slots[h.index as int].generation ==> game.ticked(
            pointer,
            input,
            dt,
        ).entities.lookup(h) is None,
{
    let moved = game.steered(pointer, dt).moved(dt);
    crate::game_proofs::lemma_motion_keeps_order(game, pointer, dt);
    lemma_frame_makes_no_ball(game, pointer, dt);
    crate::game_proofs::lemma_frame_reloads(game, pointer, input, dt);
    assert(game.ticked(pointer, input, dt) == moved.loaded(moved.current_level as int));
    crate::game_proofs::lemma_loaded(moved, moved.current_level as int);
    if h.index < game.entities.slots.len() {
        let arena = seen(game, pointer, dt);
        let hits = contacts(arena, dt, arena.slots.len() as int);
        lemma_seen(game, pointer, dt);
        lemma_resolved_slot(arena, hits, dt, hits.len() as int, h.index as int);
        lemma_resolved(arena, hits, dt, hits.len() as int);
        lemma_pruned_to(
            resolved(arena, hits, dt, hits.len() as int),
            arena.slots.len() as int,
        );
        assert(moved.entities.slots[h.index as int].generation
            == game.entities.slots[h.index as int].generation);
    }
    lemma_loaded_afresh(moved, moved.current_level as int, h);
}

/// What the first level starts with: sixty-five entities, first a ball
/// with one life, then the wall of blocks, each with one life.
pub proof fn lemma_first_level()
    ensures
        level0_spec().len() == 65,
        level0_spec()[0] == ball_spec(60, -30),
        ball_spec(60, -30).tags == TagSet::none().with(Tag::Ball, true),
        ball_spec(60, -30).life == 1,
        has_ball(level0_spec()),
        forall|k: int|
            1 <= k < 65 ==> #[trigger] level0_spec()[k] == block_spec((k - 1) % 8, (k - 1) / 8),
        forall|x: int, y: int|
            (#[trigger] block_spec(x, y)).life == 1 && block_spec(x, y).tags == TagSet::none().with(
                Tag::Block,
                true,
            ),
{
    assert(level0_spec()[0].tags.ball);
}

/// What the second level starts with: sixty-six entities, first two balls
/// with one life each, then the wall of blocks.
pub proof fn lemma_second_level()
    ensures
        level1_spec().len() == 66,
        level1_spec()[0] == ball_spec(60, -30),
        level1_spec()[1] == ball_spec(-60, 30),
        ball_spec(-60, 30).life == 1,
        has_ball(level1_spec()),
        forall|k: int|
            2 <= k < 66 ==> #[trigger] level1_spec()[k] == block_spec((k - 2) % 8, (k - 2) / 8),
{
    assert(level1_spec()[0].tags.ball);
}

/// Where the walls and the paddle are put: the walls one unit thick around
/// a field of 85 by 45 units to each side, the bottom one deadly, and the
/// paddle, 10 by 2 units to each side, 40 units below the middle.
pub proof fn lemma_fixtures()
    ensures
        walls_spec(field_spec()).len() == 4,
        walls_spec(field_spec())[0].position == (Vec2 { x: whole(-86), y: whole(0) }),
        walls_spec(field_spec())[1].position == (Vec2 { x: whole(86), y: whole(0) }),
        walls_spec(field_spec())[2].position == (Vec2 { x: whole(0), y: whole(46) }),
        walls_spec(field_spec())[3].position == (Vec2 { x: whole(0), y: whole(-46) }),
        walls_spec(field_spec())[0].half_size == (Vec2 { x: whole(1), y: whole(45) }),
        walls_spec(field_spec())[1].half_size == (Vec2 { x: whole(1), y: whole(45) }),
        walls_spec(field_spec())[2].half_size == (Vec2 { x: whole(85), y: whole(1) }),
        walls_spec(field_spec())[3].half_size == (Vec2 { x: whole(85), y: whole(1) }),
        forall|k: int|
            0 <= k < 4 ==> (#[trigger] walls_spec(field_spec())[k]).tags.wall && !walls_spec(
                field_spec(),
            )[k].tags.ball && !walls_spec(field_spec())[k].tags.block && !walls_spec(
                field_spec(),
            )[k].tags.player && (walls_spec(field_spec())[k].tags.dead_wall <==> k == 3),
        paddle_spec().tags == TagSet::none().with(Tag::Player, true),
        paddle_spec().position == (Vec2 { x: whole(0), y: whole(-40) }),
        paddle_spec().half_size == (Vec2 { x: whole(10), y: whole(2) }),
{
}

} // verus!
