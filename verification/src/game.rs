//! The simulation: entities with tags in a generational arena, moved once per
//! frame with swept collisions, resolved by the tags of the two that met.

use crate::fixed::frac;
use crate::fixed::fx;
use crate::fixed::whole;
use crate::fixed::Fixed;
use crate::index_vec::Arena;
use crate::index_vec::GIndex;
use crate::index_vec::lemma_extended_push;
use crate::index_vec::lemma_next_held;
use crate::index_vec::lemma_with_same_value;
use crate::index_vec::lemma_with_value_wf;
use crate::index_vec::IndexVec;
use crate::input::mouse::Button;
use crate::input::Input;
use crate::math::sweep;
use crate::math::swept_aabb2;
use crate::math::Collision2;
use crate::math::Line2;
use crate::math::Vec2;
use crate::software_rendering::boxed;
use crate::software_rendering::corners;
use crate::software_rendering::framed;
use crate::software_rendering::stroked;
use crate::software_rendering::to_world;
use crate::software_rendering::RenderBuffer;
use core::ops::Neg;
use vstd::prelude::*;

verus! {

/// What an entity can be. An entity may carry any combination of tags.
#[derive(Copy, Clone, Debug, PartialEq, Eq, Structural, Hash)]
pub enum Tag {
    Ball,
    Wall,
    DeadWall,
    Block,
    Player,
}

/// A set of tags.
#[derive(Copy, Clone, Debug, PartialEq, Eq, Structural, Hash)]
pub struct TagSet {
    pub ball: bool,
    pub wall: bool,
    pub dead_wall: bool,
    pub block: bool,
    pub player: bool,
}

impl View for TagSet {
    type V = Set<Tag>;

    open spec fn view(&self) -> Set<Tag> {
        Set::new(|tag: Tag| self.has(tag))
    }
}

impl TagSet {
    /// Whether `tag` is in the set.
    pub open spec fn has(self, tag: Tag) -> bool {
        match tag {
            Tag::Ball => self.ball,
            Tag::Wall => self.wall,
            Tag::DeadWall => self.dead_wall,
            Tag::Block => self.block,
            Tag::Player => self.player,
        }
    }

    /// The set with `tag` in it or not, as `present` says, and otherwise as
    /// this one.
    pub open spec fn with(self, tag: Tag, present: bool) -> TagSet {
        match tag {
            Tag::Ball => TagSet { ball: present, ..self },
            Tag::Wall => TagSet { wall: present, ..self },
            Tag::DeadWall => TagSet { dead_wall: present, ..self },
            Tag::Block => TagSet { block: present, ..self },
            Tag::Player => TagSet { player: present, ..self },
        }
    }

    /// Whether the two sets have a tag in common.
    pub open spec fn meets(self, other: TagSet) -> bool {
        exists|tag: Tag| self.has(tag) && other.has(tag)
    }

    /// The set without tags.
    pub open spec fn none() -> TagSet {
        TagSet { ball: false, wall: false, dead_wall: false, block: false, player: false }
    }

    /// The set without tags.
    pub fn new() -> (r: TagSet)
        ensures
            r == TagSet::none(),
            r@ == Set::<Tag>::empty(),
    {
        let r = TagSet { ball: false, wall: false, dead_wall: false, block: false, player: false };
        assert(r@ =~= Set::<Tag>::empty());
        r
    }

    /// Puts `tag` into the set; says whether it was new.
    pub fn insert(&mut self, tag: Tag) -> (r: bool)
        ensures
            r == !old(self).has(tag),
            *final(self) == old(self).with(tag, true),
            final(self)@ == old(self)@.insert(tag),
    {
        let was = self.contains(tag);
        match tag {
            Tag::Ball => {
                self.ball = true;
            },
            Tag::Wall => {
                self.wall = true;
            },
            Tag::DeadWall => {
                self.dead_wall = true;
            },
            Tag::Block => {
                self.block = true;
            },
            Tag::Player => {
                self.player = true;
            },
        }
        assert(self@ =~= old(self)@.insert(tag));
        !was
    }

    /// Takes `tag` out of the set; says whether it was there.
    pub fn remove(&mut self, tag: Tag) -> (r: bool)
        ensures
            r == old(self).has(tag),
            *final(self) == old(self).with(tag, false),
            final(self)@ == old(self)@.remove(tag),
    {
        let was = self.contains(tag);
        match tag {
            Tag::Ball => {
                self.ball = false;
            },
            Tag::Wall => {
                self.wall = false;
            },
            Tag::DeadWall => {
                self.dead_wall = false;
            },
            Tag::Block => {
                self.block = false;
            },
            Tag::Player => {
                self.player = false;
            },
        }
        assert(self@ =~= old(self)@.remove(tag));
        was
    }

    /// Whether `tag` is in the set.
    pub fn contains(&self, tag: Tag) -> (r: bool)
        ensures
            r == self.has(tag),
            r == self@.contains(tag),
    {
        match tag {
            Tag::Ball => self.ball,
            Tag::Wall => self.wall,
            Tag::DeadWall => self.dead_wall,
            Tag::Block => self.block,
            Tag::Player => self.player,
        }
    }

    /// Whether the two sets have a tag in common.
    pub fn intersects(&self, other: &TagSet) -> (r: bool)
        ensures
            r == self.meets(*other),
            r == !self@.disjoint(other@),
    {
        let r = (self.ball && other.ball) || (self.wall && other.wall) || (self.dead_wall
            && other.dead_wall) || (self.block && other.block) || (self.player && other.player);
        proof {
            if self.ball && other.ball {
                assert(self.has(Tag::Ball) && other.has(Tag::Ball));
                assert(self@.contains(Tag::Ball) && other@.contains(Tag::Ball));
            }
            if self.wall && other.wall {
                assert(self.has(Tag::Wall) && other.has(Tag::Wall));
                assert(self@.contains(Tag::Wall) && other@.contains(Tag::Wall));
            }
            if self.dead_wall && other.dead_wall {
                assert(self.has(Tag::DeadWall) && other.has(Tag::DeadWall));
                assert(self@.contains(Tag::DeadWall) && other@.contains(Tag::DeadWall));
            }
            if self.block && other.block {
                assert(self.has(Tag::Block) && other.has(Tag::Block));
                assert(self@.contains(Tag::Block) && other@.contains(Tag::Block));
            }
            if self.player && other.player {
                assert(self.has(Tag::Player) && other.has(Tag::Player));
                assert(self@.contains(Tag::Player) && other@.contains(Tag::Player));
            }
            if !r {
                assert forall|tag: Tag| !(self.has(tag) && other.has(tag)) by {}
                assert forall|tag: Tag| !(self@.contains(tag) && other@.contains(tag)) by {}
            }
        }
        r
    }
}

impl Default for TagSet {
    fn default() -> (r: TagSet)
        ensures
            r == TagSet::none(),
    {
        TagSet::new()
    }
}

/// One thing of the game: a box that may move, with its tags.
#[derive(Copy, Clone, Debug, PartialEq, Eq)]
pub struct Entity {
    pub tags: TagSet,
    pub position: Vec2,
    pub velocity: Vec2,
    pub half_size: Vec2,
    /// The tags this entity tests for collision against.
    pub collide_with: TagSet,
    pub life: i32,
    pub color: Option<u32>,
}

/// A counter one lower, unless it is as low as it can be.
pub open spec fn lowered(life: i32) -> i32 {
    if life > i32::MIN {
        (life - 1) as i32
    } else {
        life
    }
}

/// The factor between a ball's offset from the middle of the paddle and the
/// horizontal speed it leaves with.
pub open spec fn spin() -> Fixed {
    frac(15, 2)
}

impl Entity {
    /// The entity without tags, at rest at the origin, of no size.
    pub open spec fn blank() -> Entity {
        Entity {
            tags: TagSet::none(),
            position: Vec2::origin(),
            velocity: Vec2::origin(),
            half_size: Vec2::origin(),
            collide_with: TagSet::none(),
            life: 0,
            color: None,
        }
    }

    /// The entity moved along its velocity for the fraction `t` of a frame
    /// of length `dt`.
    pub open spec fn carried(self, dt: Fixed, t: Fixed) -> Entity {
        Entity { position: self.position.plus(self.velocity.scaled(dt).scaled(t)), ..self }
    }

    /// The entity moved along its velocity for a whole frame of length
    /// `dt`.
    pub open spec fn advanced(self, dt: Fixed) -> Entity {
        Entity { position: self.position.plus(self.velocity.scaled(dt)), ..self }
    }

    /// A ball with the tag `Player` among those it collides with exactly
    /// while it moves downward; anything else unchanged.
    pub open spec fn masked(self) -> Entity {
        if self.tags.ball {
            Entity {
                collide_with: self.collide_with.with(Tag::Player, self.velocity.y@ < 0),
                ..self
            }
        } else {
            self
        }
    }

    /// Whether pruning removes the entity: a block or a ball without life.
    pub open spec fn spent(self) -> bool {
        (self.tags.block || self.tags.ball) && self.life == 0
    }

    /// Whether the entity moves.
    pub open spec fn moving(self) -> bool {
        !self.velocity.is_origin()
    }

    /// The entity without tags, at rest at the origin, of no size.
    pub fn new() -> (r: Entity)
        ensures
            r == Entity::blank(),
    {
        Entity {
            tags: TagSet::new(),
            position: Vec2::zero(),
            velocity: Vec2::zero(),
            half_size: Vec2::zero(),
            collide_with: TagSet::new(),
            life: 0,
            color: None,
        }
    }
}

impl Default for Entity {
    fn default() -> (r: Entity)
        ensures
            r == Entity::blank(),
    {
        Entity::new()
    }
}

/// The velocity a ball leaves the paddle with, before the spin is applied:
/// off a side of the paddle the vertical part turns round, and the
/// horizontal part too if the ball would still move into the paddle; off
/// the top or the bottom the velocity is mirrored.
pub open spec fn off_paddle(velocity: Vec2, normal: Vec2) -> Vec2 {
    if normal.x@ != 0 {
        let turned = Vec2 { x: velocity.x, y: velocity.y.negated() };
        if turned.dot(normal)@ <= 0 {
            Vec2 { x: turned.x.negated(), y: turned.y }
        } else {
            turned
        }
    } else {
        velocity.reflected(normal)
    }
}

/// What a collision makes of the mover `a` and of `b`, which it hit: `a`
/// is carried to the point of impact; a ball is then dealt with by what it
/// hit, a block, else a wall, else the paddle.
pub open spec fn collided(a: Entity, b: Entity, collision: Collision2, dt: Fixed) -> (Entity, Entity) {
    let a1 = a.carried(dt, collision.t);
    if !a1.tags.ball {
        (a1, b)
    } else if b.tags.block {
        (
            Entity { velocity: a1.velocity.reflected(collision.normal), ..a1 },
            Entity { life: lowered(b.life), ..b },
        )
    } else if b.tags.wall {
        (
            Entity {
                velocity: a1.velocity.reflected(collision.normal),
                life: if b.tags.dead_wall {
                    lowered(a1.life)
                } else {
                    a1.life
                },
                ..a1
            },
            b,
        )
    } else if b.tags.player {
        let a2 = a1.carried(dt, collision.t);
        let bounced = off_paddle(a2.velocity, collision.normal);
        (
            Entity {
                velocity: Vec2 {
                    x: a2.position.x.minus(b.position.x).times(spin()),
                    y: bounced.y,
                },
                ..a2
            },
            b,
        )
    } else {
        (a1, b)
    }
}

/// Lowers a counter by one, unless it is as low as it can be.
fn lower(life: i32) -> (r: i32)
    ensures
        r == lowered(life),
{
    if life > i32::MIN {
        life - 1
    } else {
        life
    }
}

/// Applies a collision of the mover `a` against `b` to both.
pub fn resolve_collision(a: &mut Entity, b: &mut Entity, collision: &Collision2, dt: Fixed)
    ensures
        (*final(a), *final(b)) == collided(*old(a), *old(b), *collision, dt),
{
    a.position = a.position + a.velocity * dt * collision.t;

    if a.tags.contains(Tag::Ball) {
        if b.tags.contains(Tag::Block) {
            a.velocity = a.velocity.reflect(&collision.normal);
            b.life = lower(b.life);
        } else if b.tags.contains(Tag::Wall) {
            a.velocity = a.velocity.reflect(&collision.normal);
            if b.tags.contains(Tag::DeadWall) {
                a.life = lower(a.life);
            }
        } else if b.tags.contains(Tag::Player) {
            a.position = a.position + a.velocity * dt * collision.t;

            if collision.normal.x.value() != 0 {
                a.velocity.y = a.velocity.y.neg();
                if (a.velocity * collision.normal).value() <= 0 {
                    a.velocity.x = a.velocity.x.neg();
                }
            } else {
                a.velocity = a.velocity.reflect(&collision.normal);
            }
            a.velocity.x = (a.position.x - b.position.x) * Fixed::ratio(15, 2);
        }
    }
}

/// The path of the mover `a` during a frame of length `dt`, as seen from
/// `b`.
pub open spec fn movement_of(a: Entity, b: Entity, dt: Fixed) -> Line2 {
    Line2 { start: a.position, end: a.position.plus(a.velocity.minus(b.velocity).scaled(dt)) }
}

/// The collision of the mover `a` against `b` that counts, if any: `a`
/// must test against one of the tags of `b`, the sweep must find a side, and
/// `a` must not move away from that side.
#[verifier::opaque]
pub open spec fn contact(a: Entity, b: Entity, dt: Fixed) -> Option<Collision2> {
    if a.collide_with.meets(b.tags) {
        let movement = movement_of(a, b, dt);
        match sweep(movement, a.half_size, b.position, b.half_size) {
            Some(collision) => if movement.span().dot(collision.normal)@ <= 0 {
                Some(collision)
            } else {
                None
            },
            None => None,
        }
    } else {
        None
    }
}

/// The earliest collision of the mover in slot `mover` against the values
/// in the first `n` slots: the one with the least `t`, and among equals the
/// one in the lowest slot.
pub open spec fn first_contact(arena: Arena<Entity>, mover: int, dt: Fixed, n: int) -> Option<
    (GIndex, Collision2),
>
    decreases n,
{
    if n <= 0 {
        None
    } else {
        let before = first_contact(arena, mover, dt, n - 1);
        if n - 1 != mover && arena.holds(n - 1) {
            match contact(arena.entry(mover).value, arena.entry(n - 1).value, dt) {
                Some(collision) => if earlier(collision, before) {
                    Some((arena.handle(n - 1), collision))
                } else {
                    before
                },
                None => before,
            }
        } else {
            before
        }
    }
}

/// Whether a collision takes the place of what was found so far: it is the
/// first one found, or it comes strictly earlier.
pub open spec fn earlier(collision: Collision2, found: Option<(GIndex, Collision2)>) -> bool {
    match found {
        Some((_, first)) => collision.t@ < first.t@,
        None => true,
    }
}

/// For each moving value in the first `n` slots, in the order of the slots,
/// its handle and its earliest collision.
pub open spec fn contacts(arena: Arena<Entity>, dt: Fixed, n: int) -> Seq<
    (GIndex, Option<(GIndex, Collision2)>),
>
    decreases n,
{
    if n <= 0 {
        Seq::empty()
    } else {
        let before = contacts(arena, dt, n - 1);
        if arena.holds(n - 1) && arena.entry(n - 1).value.moving() {
            before.push(
                (arena.handle(n - 1), first_contact(arena, n - 1, dt, arena.slots.len() as int)),
            )
        } else {
            before
        }
    }
}

/// The arena after one mover was dealt with: carried on for the whole frame
/// if it met nothing, else put through the collision together with what it
/// met. A mover or a target that is no longer there leaves all as it is.
pub open spec fn settled(
    arena: Arena<Entity>,
    hit: (GIndex, Option<(GIndex, Collision2)>),
    dt: Fixed,
) -> Arena<Entity> {
    let mover = hit.0;
    match hit.1 {
        Some((target, collision)) => {
            if target.index != mover.index && arena.lookup(mover) is Some && arena.lookup(
                target,
            ) is Some {
                let (a, b) = collided(
                    arena.lookup(mover).unwrap(),
                    arena.lookup(target).unwrap(),
                    collision,
                    dt,
                );
                arena.with_value(mover.index as int, a).with_value(target.index as int, b)
            } else {
                arena
            }
        },
        None => match arena.lookup(mover) {
            Some(a) => arena.with_value(mover.index as int, a.advanced(dt)),
            None => arena,
        },
    }
}

/// The arena after the first `n` of `hits` were dealt with, in order.
pub open spec fn resolved(
    arena: Arena<Entity>,
    hits: Seq<(GIndex, Option<(GIndex, Collision2)>)>,
    dt: Fixed,
    n: int,
) -> Arena<Entity>
    decreases n,
{
    if n <= 0 {
        arena
    } else {
        settled(resolved(arena, hits, dt, n - 1), hits[n - 1], dt)
    }
}

/// The arena with the values in the first `n` slots masked.
pub open spec fn masked_to(arena: Arena<Entity>, n: int) -> Arena<Entity>
    decreases n,
{
    if n <= 0 {
        arena
    } else {
        let before = masked_to(arena, n - 1);
        if before.holds(n - 1) {
            before.with_value(n - 1, before.entry(n - 1).value.masked())
        } else {
            before
        }
    }
}

/// The arena after every spent value in the first `n` slots was removed, in
/// the order of the slots.
pub open spec fn pruned_to(arena: Arena<Entity>, n: int) -> Arena<Entity>
    decreases n,
{
    if n <= 0 {
        arena
    } else {
        let before = pruned_to(arena, n - 1);
        if before.holds(n - 1) && before.entry(n - 1).value.spent() {
            before.vacated(n - 1)
        } else {
            before
        }
    }
}

/// Whether a ball is among the values in the first `n` slots.
pub open spec fn ball_in(arena: Arena<Entity>, n: int) -> bool {
    exists|i: int| 0 <= i < n && arena.holds(i) && (#[trigger] arena.slots[i]).value.unwrap().tags.ball
}

/// Slots that hold nothing add no collisions.
proof fn lemma_contacts_skip(arena: Arena<Entity>, dt: Fixed, from: int, to: int)
    requires
        0 <= from <= to,
        forall|j: int| from <= j < to ==> !arena.holds(j),
    ensures
        contacts(arena, dt, to) == contacts(arena, dt, from),
    decreases to - from,
{
    if from < to {
        lemma_contacts_skip(arena, dt, from, to - 1);
    }
}

/// Slots that hold nothing cannot be hit.
proof fn lemma_first_contact_skip(arena: Arena<Entity>, mover: int, dt: Fixed, from: int, to: int)
    requires
        0 <= from <= to,
        forall|j: int| from <= j < to ==> !arena.holds(j),
    ensures
        first_contact(arena, mover, dt, to) == first_contact(arena, mover, dt, from),
    decreases to - from,
{
    if from < to {
        lemma_first_contact_skip(arena, mover, dt, from, to - 1);
    }
}

/// The collision of the mover `a` against `b` that counts, if any.
pub fn find_contact(a: &Entity, b: &Entity, dt: Fixed) -> (r: Option<Collision2>)
    ensures
        r == contact(*a, *b, dt),
{
    reveal(contact);
    if a.collide_with.intersects(&b.tags) {
        let movement = Line2::new(a.position, a.position + (a.velocity - b.velocity) * dt);
        if let Some(collision) = swept_aabb2(&movement, a.half_size, b.position, b.half_size) {
            if (movement.vec() * collision.normal).value() <= 0 {
                return Some(collision);
            }
        }
    }
    None
}

/// The earliest collision of the mover `a`, which has the handle
/// `index_a`, against the other values.
fn first_hit(entities: &IndexVec<Entity>, index_a: GIndex, a: &Entity, dt: Fixed) -> (r: Option<
    (GIndex, Collision2),
>)
    requires
        entities@.holds(index_a.index as int),
        entities@.slots[index_a.index as int].value == Some(*a),
        index_a == entities@.handle(index_a.index as int),
    ensures
        r == first_contact(entities@, index_a.index as int, dt, entities@.slots.len() as int),
{
    let ghost arena = entities@;
    let ghost mover = index_a.index as int;
    let mut c: Option<(GIndex, Collision2)> = None;
    let mut others = entities.iter().with_index();
    proof {
        lemma_next_held(arena, 0);
        lemma_first_contact_skip(arena, mover, dt, 0, arena.next_held(0));
    }
    let mut next = others.next();
    while next.is_some()
        invariant
            arena == entities@,
            others.arena() == arena,
            mover == index_a.index,
            arena.holds(mover),
            arena.slots[mover].value == Some(*a),
            index_a == arena.handle(mover),
            match next {
                Some((index_b, b)) => {
                    &&& arena.holds(index_b.index as int)
                    &&& index_b == arena.handle(index_b.index as int)
                    &&& arena.slots[index_b.index as int].value == Some(*b)
                    &&& others.position() == index_b.index + 1
                    &&& c == first_contact(arena, mover, dt, index_b.index as int)
                },
                None => c == first_contact(arena, mover, dt, arena.slots.len() as int),
            },
        decreases arena.slots.len() - others.position() + if next.is_some() { 1int } else { 0int },
    {
        let (index_b, b) = next.unwrap();
        if index_a != index_b {
            if let Some(collision) = find_contact(a, b, dt) {
                let sooner = match c {
                    Some((_, first)) => collision.t.lt(first.t),
                    None => true,
                };
                if sooner {
                    c = Some((index_b, collision));
                }
            }
        }
        proof {
            let at = others.position() as int;
            lemma_next_held(arena, at);
            lemma_first_contact_skip(arena, mover, dt, at, arena.next_held(at));
        }
        next = others.next();
    }
    c
}

/// Finds, for every moving entity, the first other entity that it runs
/// into during a frame of length `dt`, if any.
pub fn find_collisions(entities: &IndexVec<Entity>, dt: Fixed) -> (r: Vec<
    (GIndex, Option<(GIndex, Collision2)>),
>)
    ensures
        r@ == contacts(entities@, dt, entities@.slots.len() as int),
{
    let ghost arena = entities@;
    let mut collisions: Vec<(GIndex, Option<(GIndex, Collision2)>)> = Vec::new();
    let mut movers = entities.iter().with_index();
    proof {
        lemma_next_held(arena, 0);
        lemma_contacts_skip(arena, dt, 0, arena.next_held(0));
    }
    let mut next = movers.next();
    while next.is_some()
        invariant
            arena == entities@,
            movers.arena() == arena,
            match next {
                Some((index_a, a)) => {
                    &&& arena.holds(index_a.index as int)
                    &&& index_a == arena.handle(index_a.index as int)
                    &&& arena.slots[index_a.index as int].value == Some(*a)
                    &&& movers.position() == index_a.index + 1
                    &&& collisions@ == contacts(arena, dt, index_a.index as int)
                },
                None => collisions@ == contacts(arena, dt, arena.slots.len() as int),
            },
        decreases arena.slots.len() - movers.position() + if next.is_some() { 1int } else { 0int },
    {
        let (index_a, a) = next.unwrap();
        if !a.velocity.is_zero() {
            let c = first_hit(entities, index_a, a, dt);
            collisions.push((index_a, c));
        }
        proof {
            let at = movers.position() as int;
            lemma_next_held(arena, at);
            lemma_contacts_skip(arena, dt, at, arena.next_held(at));
        }
        next = movers.next();
    }
    collisions
}

/// Moves every mover: to its collision and through it, or else on for the
/// whole frame.
pub fn resolve_collisions(
    entities: &mut IndexVec<Entity>,
    collisions: &Vec<(GIndex, Option<(GIndex, Collision2)>)>,
    dt: Fixed,
)
    ensures
        final(entities)@ == resolved(old(entities)@, collisions@, dt, collisions@.len() as int),
        old(entities)@.wf() ==> final(entities)@.wf(),
{
    let mut k: usize = 0;
    while k < collisions.len()
        invariant
            k <= collisions.len(),
            entities@ == resolved(old(entities)@, collisions@, dt, k as int),
            old(entities)@.wf() ==> entities@.wf(),
        decreases collisions.len() - k,
    {
        let (index_a, c) = collisions[k];
        let ghost before = entities@;
        if let Some((index_b, collision)) = c {
            if let (Some(a), Some(b)) = entities.get_two_mut(index_a, index_b) {
                resolve_collision(a, b, &collision, dt);
            } else {
                proof {
                    if before.lookup(index_a) is Some {
                        lemma_with_same_value(before, index_a.index as int);
                    }
                    if before.lookup(index_b) is Some {
                        lemma_with_same_value(before, index_b.index as int);
                    }
                }
            }
        } else if let Some(a) = entities.get_mut(index_a) {
            a.position = a.position + a.velocity * dt;
        }
        k += 1;
    }
}

/// Masking passes over slots that hold nothing.
proof fn lemma_masked_skip(arena: Arena<Entity>, from: int, to: int)
    requires
        0 <= from <= to,
        forall|j: int| from <= j < to ==> !masked_to(arena, from).holds(j),
    ensures
        masked_to(arena, to) == masked_to(arena, from),
    decreases to - from,
{
    if from < to {
        lemma_masked_skip(arena, from, to - 1);
    }
}

/// Lets every ball collide with the paddle exactly while the ball moves
/// downward.
pub fn update_masks(entities: &mut IndexVec<Entity>)
    ensures
        final(entities)@ == masked_to(old(entities)@, old(entities)@.slots.len() as int),
        old(entities)@.wf() ==> final(entities)@.wf(),
{
    let ghost before = entities@;
    let mut walk = entities.iter_mut();
    loop
        invariant
            walk.position() <= before.slots.len(),
            walk.arena().slots.len() == before.slots.len(),
            walk.arena() == masked_to(before, walk.position() as int),
            before.wf() ==> walk.arena().wf(),
            after_borrow(*entities)@ == final(walk.index_vec)@,
        ensures
            walk.arena() == masked_to(before, before.slots.len() as int),
            before.wf() ==> walk.arena().wf(),
            after_borrow(*entities)@ == final(walk.index_vec)@,
        decreases before.slots.len() - walk.position(),
    {
        let ghost current = walk.arena();
        let ghost from = walk.position() as int;
        proof {
            lemma_next_held(current, from);
            lemma_masked_skip(before, from, current.next_held(from));
            lemma_with_value_wf(current, current.next_held(from));
            if current.holds(current.next_held(from)) {
                lemma_with_same_value(current, current.next_held(from));
            }
        }
        match walk.next() {
            Some(entity) => {
                if entity.tags.contains(Tag::Ball) {
                    if entity.velocity.y.value() < 0 {
                        entity.collide_with.insert(Tag::Player);
                    } else {
                        entity.collide_with.remove(Tag::Player);
                    }
                }
            },
            None => {
                break;
            },
        }
    }
}

/// Removes every block and every ball whose life is zero.
pub fn prune(entities: &mut IndexVec<Entity>)
    requires
        old(entities)@.wf(),
    ensures
        final(entities)@ == pruned_to(old(entities)@, old(entities)@.slots.len() as int),
        final(entities)@.wf(),
{
    let n = entities.len();
    let mut i: usize = 0;
    while i < n
        invariant
            i <= n,
            n == entities@.slots.len(),
            n == old(entities)@.slots.len(),
            entities@ == pruned_to(old(entities)@, i as int),
            entities@.wf(),
        decreases n - i,
    {
        let spent = match entities.get(i) {
            Some(entity) => (entity.tags.contains(Tag::Block) || entity.tags.contains(Tag::Ball))
                && entity.life == 0,
            None => false,
        };
        if spent {
            entities.remove(i);
        }
        i += 1;
    }
}

/// Whether any ball is left.
pub fn any_ball(entities: &IndexVec<Entity>) -> (r: bool)
    ensures
        r == ball_in(entities@, entities@.slots.len() as int),
{
    let n = entities.len();
    let mut i: usize = 0;
    while i < n
        invariant
            i <= n,
            n == entities@.slots.len(),
            !ball_in(entities@, i as int),
        decreases n - i,
    {
        if let Some(entity) = entities.get(i) {
            if entity.tags.contains(Tag::Ball) {
                assert(entities@.holds(i as int) && entities@.slots[i as int].value.unwrap().tags.ball);
                return true;
            }
        }
        i += 1;
    }
    false
}

/// A level: the entities it starts with, in the order in which they are put
/// into the arena.
pub struct Level {
    pub spawns: Vec<Entity>,
}

impl View for Level {
    type V = Seq<Entity>;

    open spec fn view(&self) -> Seq<Entity> {
        self.spawns@
    }
}

/// The ball a level starts with: at the height of the origin, `x` whole
/// units to the right of it, falling to the side given by `vx`.
pub open spec fn ball_spec(x: int, vx: int) -> Entity {
    Entity {
        tags: TagSet::none().with(Tag::Ball, true),
        position: Vec2 { x: whole(x), y: fx(0) },
        velocity: Vec2 { x: whole(vx), y: whole(-40) },
        half_size: Vec2 { x: frac(3, 4), y: frac(3, 4) },
        collide_with: TagSet::none().with(Tag::Wall, true).with(Tag::Block, true),
        life: 1,
        color: Some(0x00ffffu32),
    }
}

/// The block in column `x` and row `y` of the wall of blocks.
pub open spec fn block_spec(x: int, y: int) -> Entity {
    Entity {
        tags: TagSet::none().with(Tag::Block, true),
        position: Vec2 { x: whole(x * 12 - 40), y: whole(y * 5) },
        velocity: Vec2::origin(),
        half_size: Vec2 { x: whole(5), y: whole(2) },
        collide_with: TagSet::none(),
        life: 1,
        color: Some(0x000000u32),
    }
}

/// The first `n` blocks of the wall of eight rows of eight blocks, row by
/// row.
pub open spec fn blocks_spec(n: int) -> Seq<Entity> {
    Seq::new(n as nat, |k: int| block_spec(k % 8, k / 8))
}

/// What the first level starts with: one ball and the wall of blocks.
pub open spec fn level0_spec() -> Seq<Entity> {
    seq![ball_spec(60, -30)] + blocks_spec(64)
}

/// What the second level starts with: two balls and the wall of blocks.
pub open spec fn level1_spec() -> Seq<Entity> {
    seq![ball_spec(60, -30), ball_spec(-60, 30)] + blocks_spec(64)
}

/// The ball a level starts with.
fn ball(x: i32, vx: i32) -> (r: Entity)
    ensures
        r == ball_spec(x as int, vx as int),
{
    let mut ball = Entity::new();
    ball.tags.insert(Tag::Ball);
    ball.collide_with.insert(Tag::Wall);
    ball.collide_with.insert(Tag::Block);
    ball.half_size = Vec2::new(Fixed::ratio(3, 4), Fixed::ratio(3, 4));
    ball.position.x = Fixed::from_int(x);
    ball.velocity.y = Fixed::from_int(-40);
    ball.velocity.x = Fixed::from_int(vx);
    ball.color = Some(0x00ffff);
    ball.life = 1;
    ball
}

/// One block of the wall of blocks.
fn block(x: i32, y: i32) -> (r: Entity)
    requires
        0 <= x < 8,
        0 <= y < 8,
    ensures
        r == block_spec(x as int, y as int),
{
    let mut block = Entity::new();
    block.tags.insert(Tag::Block);
    block.position = Vec2::new(Fixed::from_int(x * 12 - 40), Fixed::from_int(y * 5));
    block.half_size = Vec2::new(Fixed::from_int(5), Fixed::from_int(2));
    block.color = Some(0x000000);
    block.life = 1;
    block
}

/// Adds the wall of blocks to what a level starts with.
fn push_blocks(spawns: &mut Vec<Entity>)
    ensures
        final(spawns)@ == old(spawns)@ + blocks_spec(64),
{
    let mut y: i32 = 0;
    while y < 8
        invariant
            0 <= y <= 8,
            spawns@ == old(spawns)@ + blocks_spec(8 * y),
        decreases 8 - y,
    {
        let mut x: i32 = 0;
        while x < 8
            invariant
                0 <= y < 8,
                0 <= x <= 8,
                spawns@ == old(spawns)@ + blocks_spec(8 * y + x),
            decreases 8 - x,
        {
            spawns.push(block(x, y));
            assert(spawns@ =~= old(spawns)@ + blocks_spec(8 * y + x + 1));
            x += 1;
        }
        y += 1;
    }
}

impl Level {
    /// The first level.
    pub fn level0() -> (r: Level)
        ensures
            r@ == level0_spec(),
    {
        let mut spawns: Vec<Entity> = Vec::new();
        spawns.push(ball(60, -30));
        assert(spawns@ =~= seq![ball_spec(60, -30)]);
        push_blocks(&mut spawns);
        Level { spawns }
    }

    /// The second level.
    pub fn level1() -> (r: Level)
        ensures
            r@ == level1_spec(),
    {
        let mut spawns: Vec<Entity> = Vec::new();
        spawns.push(ball(60, -30));
        spawns.push(ball(-60, 30));
        assert(spawns@ =~= seq![ball_spec(60, -30), ball_spec(-60, 30)]);
        push_blocks(&mut spawns);
        Level { spawns }
    }

    /// Puts what the level starts with into the arena.
    pub fn load(&self, entities: &mut IndexVec<Entity>)
        requires
            old(entities)@.wf(),
        ensures
            final(entities)@ == old(entities)@.extended(self@),
            final(entities)@.wf(),
    {
        let mut k: usize = 0;
        while k < self.spawns.len()
            invariant
                k <= self.spawns.len(),
                entities@ == old(entities)@.extended(self@.take(k as int)),
                entities@.wf(),
            decreases self.spawns.len() - k,
        {
            assert(self@.take(k as int + 1).drop_last() =~= self@.take(k as int));
            entities.insert(self.spawns[k]);
            k += 1;
        }
        assert(self@.take(k as int) =~= self@);
    }
}

/// The half extents of the playing field.
pub open spec fn field_spec() -> Vec2 {
    Vec2 { x: whole(85), y: whole(45) }
}

/// The four walls around a playing field with the half extents `half`: left,
/// right, top and bottom, each one unit thick. A ball that touches the
/// bottom one loses a life.
pub open spec fn walls_spec(half: Vec2) -> Seq<Entity> {
    let wall = Entity { tags: TagSet::none().with(Tag::Wall, true), ..Entity::blank() };
    let one = whole(1);
    seq![
        Entity {
            position: Vec2 { x: half.x.negated().minus(one), y: fx(0) },
            half_size: Vec2 { x: one, y: half.y },
            ..wall
        },
        Entity {
            position: Vec2 { x: half.x.plus(one), y: fx(0) },
            half_size: Vec2 { x: one, y: half.y },
            ..wall
        },
        Entity {
            position: Vec2 { x: fx(0), y: half.y.plus(one) },
            half_size: Vec2 { x: half.x, y: one },
            ..wall
        },
        Entity {
            tags: wall.tags.with(Tag::DeadWall, true),
            position: Vec2 { x: fx(0), y: half.y.negated().minus(one) },
            half_size: Vec2 { x: half.x, y: one },
            ..wall
        },
    ]
}

/// The paddle as a level starts with it.
pub open spec fn paddle_spec() -> Entity {
    Entity {
        tags: TagSet::none().with(Tag::Player, true),
        position: Vec2 { x: fx(0), y: whole(-40) },
        half_size: Vec2 { x: whole(10), y: whole(2) },
        color: Some(0x00ff00u32),
        ..Entity::blank()
    }
}

/// The arena emptied and then filled with the walls and the paddle.
pub open spec fn fenced(arena: Arena<Entity>) -> Arena<Entity> {
    arena.cleared().extended(walls_spec(field_spec())).inserted(paddle_spec())
}

/// The colour of the playing field.
pub const FIELD_COLOR: u32 = 0x551100;

/// The colour around the playing field.
pub const BORDER_COLOR: u32 = 0x220500;

/// The colour of the line that shows where a ball is heading.
pub const HEADING_COLOR: u32 = 0xff0000;

/// The pixels after one entity was drawn: its box, if it has a colour, and
/// for a ball on the move a line of two units the way it is heading.
pub open spec fn painted(pixels: Seq<u32>, width: int, height: int, entity: Entity) -> Seq<u32> {
    let body = match entity.color {
        Some(color) => boxed(
            pixels,
            width,
            height,
            corners(width, height, entity.position, entity.half_size),
            color,
        ),
        None => pixels,
    };
    if entity.tags.ball && entity.velocity.length2()@ > 0 && width > 0 && height > 0 {
        stroked(
            body,
            width,
            height,
            entity.position,
            entity.position.plus(entity.velocity.unit().scaled(whole(2))),
            HEADING_COLOR,
        )
    } else {
        body
    }
}

/// The pixels after the values in the first `n` slots were drawn, in the
/// order of the slots.
pub open spec fn painted_to(
    pixels: Seq<u32>,
    width: int,
    height: int,
    arena: Arena<Entity>,
    n: int,
) -> Seq<u32>
    decreases n,
{
    if n <= 0 {
        pixels
    } else {
        let before = painted_to(pixels, width, height, arena, n - 1);
        if arena.holds(n - 1) {
            painted(before, width, height, arena.entry(n - 1).value)
        } else {
            before
        }
    }
}

/// The model of a [`Game`].
pub struct GameView {
    pub initialized: bool,
    pub arena_half_size: Vec2,
    pub levels: Seq<Seq<Entity>>,
    pub current_level: usize,
    pub entities: Arena<Entity>,
    pub player: Option<GIndex>,
}

impl GameView {
    /// The game before its first frame.
    pub open spec fn fresh() -> GameView {
        GameView {
            initialized: false,
            arena_half_size: Vec2::origin(),
            levels: Seq::empty(),
            current_level: 0,
            entities: Arena::empty(),
            player: None,
        }
    }

    /// The arena is in order, slots and levels are no more than can be
    /// counted, and once the game has started there are levels and the
    /// current one is among them.
    pub open spec fn wf(self) -> bool {
        &&& self.entities.wf()
        &&& self.entities.slots.len() <= usize::MAX
        &&& self.levels.len() <= usize::MAX
        &&& self.initialized ==> self.current_level < self.levels.len()
    }

    /// The game with the level of the given number loaded: the arena holds
    /// the walls, the paddle and what the level starts with, and nothing
    /// else. A number that names no level changes nothing.
    pub open spec fn loaded(self, level_index: int) -> GameView {
        if 0 <= level_index < self.levels.len() {
            GameView {
                arena_half_size: field_spec(),
                entities: fenced(self.entities).extended(self.levels[level_index]),
                player: Some(self.entities.cleared().extended(walls_spec(field_spec())).next_handle()),
                current_level: level_index as usize,
                ..self
            }
        } else {
            self
        }
    }

    /// The game after the setup that its first frame begins with: the two
    /// levels are added and the first level is loaded.
    pub open spec fn started(self) -> GameView {
        if self.initialized {
            self
        } else {
            GameView {
                initialized: true,
                levels: self.levels.push(level0_spec()).push(level1_spec()),
                ..self
            }.loaded(0)
        }
    }

    /// The velocity that takes the paddle at `position` to the pointer
    /// within a frame of length `dt`: sideways only, and none if the frame
    /// has no length.
    pub open spec fn pursuit(position: Vec2, pointer: Vec2, dt: Fixed) -> Vec2 {
        if dt@ == 0 {
            Vec2::origin()
        } else {
            Vec2 { x: pointer.x, y: position.y }.minus(position).divided(dt)
        }
    }

    /// The game with the paddle steered toward the pointer, which is given
    /// in world units.
    pub open spec fn steered(self, pointer: Vec2, dt: Fixed) -> GameView {
        match self.player {
            Some(player) => match self.entities.lookup(player) {
                Some(paddle) => GameView {
                    entities: self.entities.with_value(
                        player.index as int,
                        Entity {
                            velocity: GameView::pursuit(paddle.position, pointer, dt),
                            ..paddle
                        },
                    ),
                    ..self
                },
                None => self,
            },
            None => self,
        }
    }

    /// The game after everything in it has moved for a frame of length
    /// `dt`: the balls are masked, every mover is taken to its first
    /// collision and through it, and what is spent is removed.
    pub open spec fn moved(self, dt: Fixed) -> GameView {
        let masked = masked_to(self.entities, self.entities.slots.len() as int);
        let hits = contacts(masked, dt, masked.slots.len() as int);
        let settled = resolved(masked, hits, dt, hits.len() as int);
        GameView { entities: pruned_to(settled, settled.slots.len() as int), ..self }
    }

    /// The number of the level before the current one, the last after the
    /// first.
    pub open spec fn previous_level(self) -> int {
        (self.current_level + self.levels.len() - 1) % (self.levels.len() as int)
    }

    /// The number of the level after the current one, the first after the
    /// last.
    pub open spec fn next_level(self) -> int {
        (self.current_level + 1) % (self.levels.len() as int)
    }

    /// The game after the levels were looked after: when no ball is left,
    /// the current level is loaded again; then a press of the left button
    /// loads the level before, and else a press of the right button the
    /// level after.
    pub open spec fn switched(self, input: Input) -> GameView {
        let again = if ball_in(self.entities, self.entities.slots.len() as int) {
            self
        } else {
            self.loaded(self.current_level as int)
        };
        if input.mouse.buttons[0].went_down() {
            again.loaded(again.previous_level())
        } else if input.mouse.buttons[1].went_down() {
            again.loaded(again.next_level())
        } else {
            again
        }
    }

    /// The pixels after the game was drawn: the playing field and what is
    /// around it, then every entity.
    pub open spec fn drawn(self, pixels: Seq<u32>, width: int, height: int) -> Seq<u32> {
        painted_to(
            framed(
                pixels,
                width,
                height,
                corners(width, height, Vec2::origin(), self.arena_half_size),
                FIELD_COLOR,
                BORDER_COLOR,
            ),
            width,
            height,
            self.entities,
            self.entities.slots.len() as int,
        )
    }

    /// The game after one frame of length `dt` with the pointer at the
    /// given place of the world and the buttons as in `input`.
    pub open spec fn ticked(self, pointer: Vec2, input: Input, dt: Fixed) -> GameView {
        self.started().steered(pointer, dt).moved(dt).switched(input)
    }
}

/// The game: its levels, the entities of the level that is played, and
/// which of them is the paddle.
pub struct Game {
    initialized: bool,
    arena_half_size: Vec2,
    levels: Vec<Level>,
    current_level: usize,
    entities: IndexVec<Entity>,
    player: Option<GIndex>,
}

impl View for Game {
    type V = GameView;

    closed spec fn view(&self) -> GameView {
        GameView {
            initialized: self.initialized,
            arena_half_size: self.arena_half_size,
            levels: self.levels@.map_values(|level: Level| level@),
            current_level: self.current_level,
            entities: self.entities@,
            player: self.player,
        }
    }
}

impl Default for Game {
    fn default() -> (r: Game)
        ensures
            r@ == GameView::fresh(),
            r@.wf(),
    {
        Game::new()
    }
}

impl Game {
    /// The game before its first frame.
    pub fn new() -> (r: Game)
        ensures
            r@ == GameView::fresh(),
            r@.wf(),
    {
        let r = Game {
            initialized: false,
            arena_half_size: Vec2::zero(),
            levels: Vec::new(),
            current_level: 0,
            entities: IndexVec::new(),
            player: None,
        };
        assert(r@.levels =~= Seq::empty());
        r
    }

    /// The entities, for reading.
    pub fn entities(&self) -> (r: &IndexVec<Entity>)
        ensures
            r@ == self@.entities,
    {
        &self.entities
    }

    /// The half extents of the playing field.
    pub fn arena_half_size(&self) -> (r: Vec2)
        ensures
            r == self@.arena_half_size,
    {
        self.arena_half_size
    }

    /// The number of the current level.
    pub fn current_level(&self) -> (r: usize)
        ensures
            r == self@.current_level,
    {
        self.current_level
    }

    /// The handle of the paddle, once a level was loaded.
    pub fn player(&self) -> (r: Option<GIndex>)
        ensures
            r == self@.player,
    {
        self.player
    }

    /// Loads the level of the given number, if there is one: empties the
    /// arena and puts in the walls, the paddle and what the level starts
    /// with.
    fn load_level(&mut self, level_index: usize)
        requires
            old(self)@.entities.wf(),
        ensures
            final(self)@ == old(self)@.loaded(level_index as int),
            final(self)@.entities.wf(),
    {
        if level_index < self.levels.len() {
            self.entities.clear();

            self.arena_half_size = Vec2::new(Fixed::from_int(85), Fixed::from_int(45));
            let one = Fixed::from_int(1);
            let ghost emptied = self.entities@;
            let ghost walls = walls_spec(field_spec());
            let ghost mut done = Seq::<Entity>::empty();
            proof {
                lemma_extended_push(emptied, done, Entity::blank());
            }

            // arena
            {
                let mut left = Entity::new();
                left.tags.insert(Tag::Wall);
                left.position = Vec2::new(self.arena_half_size.x.neg() - one, Fixed::zero());
                left.half_size = Vec2::new(one, self.arena_half_size.y);
                self.entities.insert(left);
                proof {
                    lemma_extended_push(emptied, done, left);
                    done = done.push(left);
                }

                let mut right = Entity::new();
                right.tags.insert(Tag::Wall);
                right.position = Vec2::new(self.arena_half_size.x + one, Fixed::zero());
                right.half_size = Vec2::new(one, self.arena_half_size.y);
                self.entities.insert(right);
                proof {
                    lemma_extended_push(emptied, done, right);
                    done = done.push(right);
                }

                let mut top = Entity::new();
                top.tags.insert(Tag::Wall);
                top.position = Vec2::new(Fixed::zero(), self.arena_half_size.y + one);
                top.half_size = Vec2::new(self.arena_half_size.x, one);
                self.entities.insert(top);
                proof {
                    lemma_extended_push(emptied, done, top);
                    done = done.push(top);
                }

                let mut bottom = Entity::new();
                bottom.tags.insert(Tag::Wall);
                bottom.tags.insert(Tag::DeadWall);
                bottom.position = Vec2::new(Fixed::zero(), self.arena_half_size.y.neg() - one);
                bottom.half_size = Vec2::new(self.arena_half_size.x, one);
                self.entities.insert(bottom);
                proof {
                    lemma_extended_push(emptied, done, bottom);
                    done = done.push(bottom);
                    assert(done =~= walls);
                }
            }

            // player
            {
                let mut player = Entity::new();
                player.tags.insert(Tag::Player);
                player.position.y = Fixed::from_int(-40);
                player.half_size = Vec2::new(Fixed::from_int(10), Fixed::from_int(2));
                player.color = Some(0x00ff00);
                self.player = Some(self.entities.insert(player));
            }

            self.levels[level_index].load(&mut self.entities);

            self.current_level = level_index;
        }
    }

    /// The setup that the first frame begins with.
    fn start(&mut self)
        requires
            old(self)@.wf(),
        ensures
            final(self)@ == old(self)@.started(),
            final(self)@.wf(),
            final(self)@.initialized,
    {
        if !self.initialized {
            self.initialized = true;
            self.levels.push(Level::level0());
            self.levels.push(Level::level1());
            assert(self@.levels =~= old(self)@.levels.push(level0_spec()).push(level1_spec()));

            self.load_level(0);
        }
        proof {
            self.entities.lemma_len_fits();
            assert(self@.levels.len() == self.levels.len());
        }
    }

    /// Steers the paddle toward the pointer.
    fn steer(&mut self, mouse_p: Vec2, dt: Fixed)
        requires
            old(self)@.wf(),
        ensures
            final(self)@ == old(self)@.steered(mouse_p, dt),
            final(self)@.wf(),
    {
        if let Some(player) = self.player {
            if let Some(paddle) = self.entities.get_mut(player) {
                let new_player_p = Vec2::new(mouse_p.x, paddle.position.y);
                paddle.velocity = if dt.value() == 0 {
                    Vec2::zero()
                } else {
                    (new_player_p - paddle.position) / dt
                };
            }
        }
    }

    /// Moves everything for a frame and removes what is spent.
    fn advance(&mut self, dt: Fixed)
        requires
            old(self)@.wf(),
        ensures
            final(self)@ == old(self)@.moved(dt),
            final(self)@.wf(),
    {
        update_masks(&mut self.entities);

        // Common collision and movement
        {
            let collisions = find_collisions(&self.entities, dt);
            resolve_collisions(&mut self.entities, &collisions, dt);
        }

        // Remove block, ball
        prune(&mut self.entities);
        proof {
            self.entities.lemma_len_fits();
        }
    }

    /// Looks after the levels.
    fn switch_level(&mut self, input: &Input)
        requires
            old(self)@.wf(),
            old(self)@.initialized,
        ensures
            final(self)@ == old(self)@.switched(*input),
            final(self)@.wf(),
    {
        if !any_ball(&self.entities) {
            self.load_level(self.current_level);
        }

        let count = self.levels.len();
        if input.mouse.button(Button::Left).pressed() {
            let previous = if self.current_level == 0 {
                count - 1
            } else {
                self.current_level - 1
            };
            assert(previous == self@.previous_level()) by {
                lemma_wrap(self.current_level as int, count as int);
            }
            self.load_level(previous);
        } else if input.mouse.button(Button::Right).pressed() {
            let next = if self.current_level + 1 == count {
                0
            } else {
                self.current_level + 1
            };
            assert(next == self@.next_level()) by {
                lemma_wrap(self.current_level as int, count as int);
            }
            self.load_level(next);
        }
        proof {
            self.entities.lemma_len_fits();
        }
    }

    /// Draws the game into the buffer.
    pub fn render(&self, render_buffer: &mut RenderBuffer)
        requires
            old(render_buffer).wf(),
        ensures
            final(render_buffer).wf(),
            final(render_buffer).width == old(render_buffer).width,
            final(render_buffer).height == old(render_buffer).height,
            final(render_buffer).pixels@ == self@.drawn(
                old(render_buffer).pixels@,
                old(render_buffer).width as int,
                old(render_buffer).height as int,
            ),
    {
        render_buffer.clear_and_draw_rect(
            Vec2::zero(),
            self.arena_half_size,
            FIELD_COLOR,
            BORDER_COLOR,
        );
        let ghost cleared = render_buffer.pixels@;
        let ghost width = render_buffer.width as int;
        let ghost height = render_buffer.height as int;

        let n = self.entities.len();
        let mut i: usize = 0;
        while i < n
            invariant
                i <= n,
                n == self.entities@.slots.len(),
                render_buffer.wf(),
                render_buffer.width == width,
                render_buffer.height == height,
                render_buffer.pixels@ == painted_to(cleared, width, height, self.entities@, i as int),
            decreases n - i,
        {
            if let Some(entity) = self.entities.get(i) {
                if let Some(color) = entity.color {
                    render_buffer.draw_rect(entity.position, entity.half_size, color);
                }

                if entity.tags.contains(Tag::Ball) && entity.velocity.len2().value() > 0
                    && render_buffer.width > 0 && render_buffer.height > 0 {
                    render_buffer.draw_line(
                        entity.position,
                        entity.position + entity.velocity.normalized() * Fixed::from_int(2),
                        HEADING_COLOR,
                    );
                }
            }
            i += 1;
        }
    }

    /// Simulates one frame of length `dt`, with the pointer at the place
    /// `pointer` of the world and the buttons as in `input`, without drawing
    /// anything.
    pub fn step(&mut self, pointer: Vec2, input: &Input, dt: Fixed)
        requires
            old(self)@.wf(),
        ensures
            final(self)@ == old(self)@.ticked(pointer, *input, dt),
            final(self)@.wf(),
    {
        self.start();
        self.steer(pointer, dt);
        self.advance(dt);
        self.switch_level(input);
    }

    /// Simulates one frame of length `dt` and draws the game into the
    /// buffer. The place of the pointer in `input` is given in pixels of the
    /// buffer.
    pub fn simulate(&mut self, render_buffer: &mut RenderBuffer, input: &Input, dt: Fixed)
        requires
            old(self)@.wf(),
            old(render_buffer).wf(),
        ensures
            final(self)@ == old(self)@.ticked(
                to_world(
                    old(render_buffer).width as int,
                    old(render_buffer).height as int,
                    input.mouse.position,
                ),
                *input,
                dt,
            ),
            final(self)@.wf(),
            final(render_buffer).wf(),
            final(render_buffer).width == old(render_buffer).width,
            final(render_buffer).height == old(render_buffer).height,
            final(render_buffer).pixels@ == final(self)@.drawn(
                old(render_buffer).pixels@,
                old(render_buffer).width as int,
                old(render_buffer).height as int,
            ),
    {
        let mouse_p = render_buffer.pixels_to_world(input.mouse.position);
        self.step(mouse_p, input, dt);
        self.render(render_buffer);
    }
}

/// Stepping to the neighbours of a number below `count`, round the end.
pub proof fn lemma_wrap(current: int, count: int)
    requires
        0 <= current < count,
    ensures
        (current + count - 1) % count == if current == 0 {
            count - 1
        } else {
            current - 1
        },
        (current + 1) % count == if current + 1 == count {
            0
        } else {
            current + 1
        },
{
    if current == 0 {
        assert((count - 1) % count == count - 1) by (nonlinear_arith)
            requires
                count > 0,
        ;
    } else {
        assert((current + count - 1) % count == current - 1) by (nonlinear_arith)
            requires
                0 < current < count,
        ;
    }
    if current + 1 == count {
        assert(count % count == 0) by (nonlinear_arith)
            requires
                count > 0,
        ;
    } else {
        assert((current + 1) % count == current + 1) by (nonlinear_arith)
            requires
                0 <= current,
                current + 1 < count,
        ;
    }
}

} // verus!
