use breakout::fixed::Fixed;
use breakout::game::any_ball;
use breakout::game::find_collisions;
use breakout::game::find_contact;
use breakout::game::prune;
use breakout::game::resolve_collision;
use breakout::game::resolve_collisions;
use breakout::game::update_masks;
use breakout::game::Entity;
use breakout::game::Game;
use breakout::game::Level;
use breakout::game::Tag;
use breakout::game::TagSet;
use breakout::index_vec::GIndex;
use breakout::index_vec::IndexVec;
use breakout::input::mouse::Button;
use breakout::input::Input;
use breakout::math::Collision2;
use breakout::math::Vec2;
use breakout::software_rendering::RenderBuffer;

fn n(i: i32) -> Fixed {
    Fixed::from_int(i)
}

fn q(a: i32, b: i32) -> Fixed {
    Fixed::ratio(a, b)
}

fn v(x: i32, y: i32) -> Vec2 {
    Vec2::new(Fixed::from_int(x), Fixed::from_int(y))
}

fn tags(of: &[Tag]) -> TagSet {
    let mut set = TagSet::new();
    for tag in of {
        set.insert(*tag);
    }
    set
}

fn ball(position: Vec2, velocity: Vec2) -> Entity {
    let mut ball = Entity::new();
    ball.tags = tags(&[Tag::Ball]);
    ball.collide_with = tags(&[Tag::Wall, Tag::Block]);
    ball.half_size = Vec2::new(q(3, 4), q(3, 4));
    ball.position = position;
    ball.velocity = velocity;
    ball.life = 1;
    ball
}

fn block(position: Vec2, life: i32) -> Entity {
    let mut block = Entity::new();
    block.tags = tags(&[Tag::Block]);
    block.half_size = v(5, 2);
    block.position = position;
    block.life = life;
    block
}

fn paddle(position: Vec2) -> Entity {
    let mut paddle = Entity::new();
    paddle.tags = tags(&[Tag::Player]);
    paddle.half_size = v(10, 2);
    paddle.position = position;
    paddle
}

fn wall(position: Vec2, half_size: Vec2, dead: bool) -> Entity {
    let mut wall = Entity::new();
    wall.tags = tags(&[Tag::Wall]);
    if dead {
        wall.tags.insert(Tag::DeadWall);
    }
    wall.half_size = half_size;
    wall.position = position;
    wall
}

fn live(entities: &IndexVec<Entity>) -> Vec<Entity> {
    let mut all = Vec::new();
    let mut walk = entities.iter();
    while let Some(entity) = walk.next() {
        all.push(*entity);
    }
    all
}

fn count(entities: &IndexVec<Entity>, tag: Tag) -> usize {
    live(entities).iter().filter(|entity| entity.tags.contains(tag)).count()
}

#[test]
fn tag_sets_hold_any_combination() {
    let mut set = TagSet::new();
    assert!(!set.contains(Tag::Wall));
    assert!(set.insert(Tag::Wall));
    assert!(!set.insert(Tag::Wall));
    assert!(set.insert(Tag::DeadWall));
    assert!(set.contains(Tag::Wall) && set.contains(Tag::DeadWall));
    assert!(!set.contains(Tag::Ball) && !set.contains(Tag::Block) && !set.contains(Tag::Player));
    assert!(set.remove(Tag::Wall));
    assert!(!set.remove(Tag::Wall));
    assert!(!set.contains(Tag::Wall) && set.contains(Tag::DeadWall));
    assert_eq!(TagSet::default(), TagSet::new());
}

#[test]
fn tag_sets_intersect_on_a_common_tag() {
    let a = tags(&[Tag::Wall, Tag::Block]);
    assert!(a.intersects(&tags(&[Tag::Block])));
    assert!(a.intersects(&tags(&[Tag::Player, Tag::Wall])));
    assert!(!a.intersects(&tags(&[Tag::Player, Tag::Ball, Tag::DeadWall])));
    assert!(!a.intersects(&TagSet::new()));
    assert!(!TagSet::new().intersects(&TagSet::new()));
}

#[test]
fn a_new_entity_is_blank() {
    let entity = Entity::new();
    assert_eq!(entity.tags, TagSet::new());
    assert_eq!(entity.collide_with, TagSet::new());
    assert!(entity.position.is_zero() && entity.velocity.is_zero() && entity.half_size.is_zero());
    assert_eq!(entity.life, 0);
    assert_eq!(entity.color, None);
    assert_eq!(Entity::default(), entity);
}

#[test]
fn a_ball_bounces_off_a_block_and_costs_it_a_life() {
    let mut a = ball(v(0, 4), v(3, -40));
    let mut b = block(v(0, 0), 3);
    let collision = Collision2 { t: q(1, 2), normal: v(0, 1) };
    resolve_collision(&mut a, &mut b, &collision, q(1, 16));
    assert_eq!(a.position, Vec2::new(q(3, 32), q(11, 4)));
    assert_eq!(a.velocity, v(3, 40));
    assert_eq!(a.life, 1);
    assert_eq!(b.life, 2);
    assert_eq!(b.position, v(0, 0));
}

#[test]
fn a_ball_bounces_off_a_wall_and_dies_on_the_dead_wall() {
    let collision = Collision2 { t: q(1, 2), normal: v(1, 0) };
    let mut a = ball(v(-80, 0), v(-40, 8));
    let mut side = wall(v(-86, 0), v(1, 45), false);
    resolve_collision(&mut a, &mut side, &collision, q(1, 16));
    assert_eq!(a.position, Vec2::new(q(-325, 4), q(1, 4)));
    assert_eq!(a.velocity, v(40, 8));
    assert_eq!(a.life, 1);
    assert_eq!(side.life, 0);

    let collision = Collision2 { t: q(1, 2), normal: v(0, 1) };
    let mut a = ball(v(0, -43), v(0, -40));
    let mut bottom = wall(v(0, -46), v(85, 1), true);
    resolve_collision(&mut a, &mut bottom, &collision, q(1, 16));
    assert_eq!(a.position, Vec2::new(n(0), q(-177, 4)));
    assert_eq!(a.velocity, v(0, 40));
    assert_eq!(a.life, 0);
}

#[test]
fn a_block_is_dealt_with_before_a_wall_and_a_wall_before_the_paddle() {
    let collision = Collision2 { t: n(0), normal: v(0, 1) };
    let mut a = ball(v(0, 0), v(0, -40));
    let mut both = block(v(0, 0), 3);
    both.tags.insert(Tag::Wall);
    both.tags.insert(Tag::DeadWall);
    both.tags.insert(Tag::Player);
    resolve_collision(&mut a, &mut both, &collision, q(1, 16));
    assert_eq!(both.life, 2);
    assert_eq!(a.life, 1);
    assert_eq!(a.velocity, v(0, 40));

    let mut a = ball(v(6, 0), v(0, -40));
    let mut both = wall(v(0, 0), v(1, 1), true);
    both.tags.insert(Tag::Player);
    resolve_collision(&mut a, &mut both, &collision, q(1, 16));
    assert_eq!(a.life, 0);
    assert_eq!(a.velocity, v(0, 40));
}

#[test]
fn the_paddle_gives_a_ball_spin_by_where_it_is_hit() {
    let collision = Collision2 { t: q(1, 2), normal: v(0, 1) };
    let mut a = ball(v(3, -36), v(0, -40));
    let mut b = paddle(v(0, -40));
    resolve_collision(&mut a, &mut b, &collision, q(1, 16));
    // Carried on twice, mirrored, and sent sideways by 7.5 times the offset.
    assert_eq!(a.position, Vec2::new(n(3), q(-77, 2)));
    assert_eq!(a.velocity, Vec2::new(q(45, 2), n(40)));
    assert_eq!(a.life, 1);
    assert_eq!(b, paddle(v(0, -40)));

    let mut a = ball(v(-4, -36), v(8, -40));
    resolve_collision(&mut a, &mut b, &collision, q(1, 16));
    assert_eq!(a.position, Vec2::new(q(-7, 2), q(-77, 2)));
    assert_eq!(a.velocity, Vec2::new(q(-105, 4), n(40)));
}

#[test]
fn the_side_of_the_paddle_turns_the_ball_round() {
    // Hit on the right side while falling: the fall is turned into a rise,
    // and the spin overrides the sideways speed.
    let collision = Collision2 { t: n(0), normal: v(1, 0) };
    let mut a = ball(v(11, -40), v(-8, -40));
    let mut b = paddle(v(0, -40));
    resolve_collision(&mut a, &mut b, &collision, q(1, 16));
    assert_eq!(a.position, v(11, -40));
    assert_eq!(a.velocity, Vec2::new(q(165, 2), n(40)));
}

#[test]
fn what_is_no_ball_only_stops_at_what_it_hits() {
    let collision = Collision2 { t: q(1, 2), normal: v(0, 1) };
    let mut a = block(v(0, 4), 1);
    a.velocity = v(0, -40);
    let mut b = block(v(0, 0), 1);
    resolve_collision(&mut a, &mut b, &collision, q(1, 16));
    assert_eq!(a.position, Vec2::new(n(0), q(11, 4)));
    assert_eq!(a.velocity, v(0, -40));
    assert_eq!((a.life, b.life), (1, 1));
}

#[test]
fn a_life_that_cannot_fall_further_stays() {
    let collision = Collision2 { t: n(0), normal: v(0, 1) };
    let mut a = ball(v(0, 0), v(0, -40));
    let mut b = block(v(0, 0), i32::MIN);
    resolve_collision(&mut a, &mut b, &collision, q(1, 16));
    assert_eq!(b.life, i32::MIN);
}

#[test]
fn a_contact_needs_a_common_tag_and_an_approach() {
    let a = ball(v(0, 4), v(0, -40));
    let b = block(v(0, 0), 1);
    let contact = find_contact(&a, &b, q(1, 16)).unwrap();
    assert_eq!(contact.t, q(1, 2));
    assert_eq!(contact.normal, v(0, 1));

    // The ball does not test against paddles.
    assert_eq!(find_contact(&a, &paddle(v(0, 0)), q(1, 16)), None);
    // The block tests against nothing.
    assert_eq!(find_contact(&b, &a, q(1, 16)), None);
    // Too far for this frame.
    assert_eq!(find_contact(&a, &b, q(1, 64)), None);
    // What counts is the movement of the one against the other.
    let mut fleeing = b;
    fleeing.velocity = v(0, -40);
    assert_eq!(find_contact(&a, &fleeing, q(1, 16)), None);
    let mut coming = b;
    coming.velocity = v(0, 40);
    assert_eq!(find_contact(&a, &coming, q(1, 16)).unwrap().t, q(1, 4));
}

#[test]
fn a_mover_leaving_through_a_side_from_within_has_no_contact() {
    // From inside the grown block out through its top: the movement goes
    // with the normal of that side.
    let a = ball(v(0, 2), v(0, 40));
    let b = block(v(0, 0), 1);
    assert_eq!(find_contact(&a, &b, q(1, 16)), None);
}

#[test]
fn masks_follow_the_direction_of_each_ball() {
    let mut entities = IndexVec::new();
    let falling = entities.insert(ball(v(0, 0), v(0, -40)));
    let rising = entities.insert(ball(v(0, 0), v(0, 40)));
    let level = entities.insert(ball(v(0, 0), v(5, 0)));
    let mut keen = block(v(0, 0), 1);
    keen.velocity = v(0, -40);
    let other = entities.insert(keen);
    let mut was_set = ball(v(0, 0), v(0, 1));
    was_set.collide_with.insert(Tag::Player);
    let was_set = entities.insert(was_set);
    update_masks(&mut entities);
    assert!(entities.get(falling).unwrap().collide_with.contains(Tag::Player));
    assert!(!entities.get(rising).unwrap().collide_with.contains(Tag::Player));
    assert!(!entities.get(level).unwrap().collide_with.contains(Tag::Player));
    assert!(!entities.get(other).unwrap().collide_with.contains(Tag::Player));
    assert!(!entities.get(was_set).unwrap().collide_with.contains(Tag::Player));
    // Nothing else changes.
    let mut expected = ball(v(0, 0), v(0, -40));
    expected.collide_with.insert(Tag::Player);
    assert_eq!(*entities.get(falling).unwrap(), expected);
    assert_eq!(*entities.get(rising).unwrap(), ball(v(0, 0), v(0, 40)));
}

#[test]
fn a_rising_ball_does_not_collide_with_the_paddle() {
    let mut entities = IndexVec::new();
    entities.insert(paddle(v(0, -40)));
    // Below the paddle, on its way up through it.
    let mut rising = ball(v(0, -44), v(0, 40));
    rising.collide_with.insert(Tag::Player);
    let rising = entities.insert(rising);

    // As long as the ball collides with the paddle, it is found to hit it.
    let found = find_collisions(&entities, q(1, 16));
    assert_eq!(found.len(), 1);
    assert_eq!(found[0].0, rising);
    let (target, collision) = found[0].1.unwrap();
    assert_eq!(target, GIndex::new(0, 0));
    assert_eq!(collision.t, q(1, 2));
    assert_eq!(collision.normal, v(0, -1));

    // The mask of the frame takes that away.
    update_masks(&mut entities);
    let found = find_collisions(&entities, q(1, 16));
    assert_eq!(found, vec![(rising, None)]);

    // Also when the two overlap.
    entities.get_mut(rising).unwrap().position = v(0, -40);
    update_masks(&mut entities);
    assert_eq!(find_collisions(&entities, q(1, 16)), vec![(rising, None)]);
}

#[test]
fn a_falling_ball_collides_with_the_paddle() {
    let mut entities = IndexVec::new();
    let player = entities.insert(paddle(v(0, -40)));
    let falling = entities.insert(ball(v(3, -36), v(0, -40)));
    update_masks(&mut entities);
    let found = find_collisions(&entities, q(1, 16));
    assert_eq!(
        found,
        vec![(falling, Some((player, Collision2 { t: q(1, 2), normal: v(0, 1) })))]
    );
    resolve_collisions(&mut entities, &found, q(1, 16));
    let after = entities.get(falling).unwrap();
    assert_eq!(after.position, Vec2::new(n(3), q(-77, 2)));
    assert_eq!(after.velocity, Vec2::new(q(45, 2), n(40)));
}

#[test]
fn a_ball_uses_up_a_block_which_is_then_pruned() {
    let mut entities = IndexVec::new();
    let target = entities.insert(block(v(0, 0), 1));
    let untouched = entities.insert(block(v(20, 0), 1));
    let mover = entities.insert(ball(v(0, 4), v(0, -40)));

    update_masks(&mut entities);
    let found = find_collisions(&entities, q(1, 16));
    assert_eq!(
        found,
        vec![(mover, Some((target, Collision2 { t: q(1, 2), normal: v(0, 1) })))]
    );
    resolve_collisions(&mut entities, &found, q(1, 16));
    assert_eq!(entities.get(target).unwrap().life, 0);
    assert_eq!(entities.get(untouched).unwrap().life, 1);
    let after = entities.get(mover).unwrap();
    assert_eq!(after.position, Vec2::new(n(0), q(11, 4)));
    assert_eq!(after.velocity, v(0, 40));
    assert_eq!(after.life, 1);

    prune(&mut entities);
    assert_eq!(entities.get(target), None);
    assert!(entities.get(untouched).is_some());
    assert!(entities.get(mover).is_some());
    assert_eq!(entities.len(), 3);
    assert_eq!(live(&entities).len(), 2);
    // The ball fell when the frame began, and so still collides with the
    // paddle, though it rises now; the block collides with nothing.
    assert_eq!(
        entities.get(mover).unwrap().collide_with,
        tags(&[Tag::Wall, Tag::Block, Tag::Player])
    );
    assert_eq!(entities.get(untouched).unwrap().collide_with, TagSet::new());
    assert_eq!(entities.get(untouched).unwrap(), &block(v(20, 0), 1));
}

#[test]
fn a_block_with_lives_to_spare_loses_one_with_each_hit() {
    let mut entities = IndexVec::new();
    let target = entities.insert(block(v(0, 0), 3));
    let mover = entities.insert(ball(v(0, 4), v(0, -40)));
    update_masks(&mut entities);
    let found = find_collisions(&entities, q(1, 16));
    resolve_collisions(&mut entities, &found, q(1, 16));
    prune(&mut entities);
    assert_eq!(entities.get(target), Some(&block(v(0, 0), 2)));
    let mut expected = ball(Vec2::new(n(0), q(11, 4)), v(0, 40));
    expected.collide_with.insert(Tag::Player);
    assert_eq!(entities.get(mover), Some(&expected));
}

#[test]
fn two_balls_on_one_block_take_two_lives() {
    let mut entities = IndexVec::new();
    let target = entities.insert(block(v(0, 0), 1));
    entities.insert(ball(v(-2, 4), v(0, -40)));
    entities.insert(ball(v(2, 4), v(0, -40)));
    update_masks(&mut entities);
    let found = find_collisions(&entities, q(1, 16));
    assert_eq!(found.len(), 2);
    resolve_collisions(&mut entities, &found, q(1, 16));
    prune(&mut entities);
    // Below zero the block is not spent.
    assert_eq!(entities.get(target).unwrap().life, -1);
}

#[test]
fn a_rising_ball_flies_on_through_the_paddle() {
    let mut entities = IndexVec::new();
    let player = entities.insert(paddle(v(0, -40)));
    let mut rising = ball(v(0, -44), v(3, 40));
    rising.collide_with.insert(Tag::Player);
    let rising = entities.insert(rising);
    update_masks(&mut entities);
    let found = find_collisions(&entities, q(1, 16));
    assert_eq!(found, vec![(rising, None)]);
    resolve_collisions(&mut entities, &found, q(1, 16));
    prune(&mut entities);
    assert_eq!(
        entities.get(rising),
        Some(&ball(Vec2::new(q(3, 16), q(-83, 2)), v(3, 40)))
    );
    assert_eq!(entities.get(player), Some(&paddle(v(0, -40))));
}

#[test]
fn pruning_removes_spent_blocks_and_balls_only() {
    let mut entities = IndexVec::new();
    let spent_block = entities.insert(block(v(0, 0), 0));
    let live_block = entities.insert(block(v(0, 0), 2));
    let mut spent_ball = ball(v(0, 0), v(0, 0));
    spent_ball.life = 0;
    let spent_ball = entities.insert(spent_ball);
    let lifeless_wall = entities.insert(wall(v(0, 0), v(1, 1), true));
    let lifeless_paddle = entities.insert(paddle(v(0, 0)));
    let overdrawn = entities.insert(block(v(0, 0), -1));
    prune(&mut entities);
    assert_eq!(entities.get(spent_block), None);
    assert_eq!(entities.get(spent_ball), None);
    assert!(entities.get(live_block).is_some());
    assert!(entities.get(lifeless_wall).is_some());
    assert!(entities.get(lifeless_paddle).is_some());
    assert!(entities.get(overdrawn).is_some());
    // The freed slots are reused in the order of the slots.
    assert_eq!(entities.insert(Entity::new()), GIndex::new(0, 1));
    assert_eq!(entities.insert(Entity::new()), GIndex::new(2, 1));
}

#[test]
fn the_earliest_collision_wins_and_ties_go_to_the_lower_slot() {
    let mut entities = IndexVec::new();
    let far = entities.insert(block(v(0, -10), 1));
    let near = entities.insert(block(v(0, 0), 1));
    let twin = entities.insert(block(v(2, 0), 1));
    let mover = entities.insert(ball(v(0, 4), v(0, -160)));
    let found = find_collisions(&entities, q(1, 8));
    assert_eq!(found.len(), 1);
    assert_eq!(found[0].0, mover);
    let (target, collision) = found[0].1.unwrap();
    assert_eq!(target, near);
    assert_eq!(collision.t, q(1, 16));
    assert_eq!(collision.normal, v(0, 1));
    assert!(target != far && target != twin);
}

#[test]
fn a_collision_at_the_end_of_the_path_counts() {
    let mut entities = IndexVec::new();
    let target = entities.insert(block(v(0, 0), 2));
    let mover = entities.insert(ball(v(0, 4), v(0, -20)));
    // The ball just reaches the block at the end of the frame.
    let found = find_collisions(&entities, q(1, 16));
    assert_eq!(
        found,
        vec![(mover, Some((target, Collision2 { t: n(1), normal: v(0, 1) })))]
    );
    resolve_collisions(&mut entities, &found, q(1, 16));
    let after = entities.get(mover).unwrap();
    assert_eq!(after.position, Vec2::new(n(0), q(11, 4)));
    assert_eq!(after.velocity, v(0, 20));
    assert_eq!(entities.get(target).unwrap().life, 1);
}

#[test]
fn a_frame_takes_a_hit_at_the_very_end_of_a_path() {
    let mut entities = IndexVec::new();
    let mut target = block(v(0, 0), 2);
    target.half_size = v(1, 1);
    let target = entities.insert(target);
    let mut mover = ball(v(0, 10), v(0, -8));
    mover.half_size = v(1, 1);
    let mover = entities.insert(mover);
    update_masks(&mut entities);
    let found = find_collisions(&entities, n(1));
    assert_eq!(
        found,
        vec![(mover, Some((target, Collision2 { t: n(1), normal: v(0, 1) })))]
    );
    resolve_collisions(&mut entities, &found, n(1));
    prune(&mut entities);
    let after = entities.get(mover).unwrap();
    assert_eq!(after.position, v(0, 2));
    assert_eq!(after.velocity, v(0, 8));
    assert_eq!(entities.get(target).unwrap().life, 1);
}

#[test]
fn of_two_hits_at_the_same_time_the_lower_slot_wins_also_at_the_end() {
    let mut entities = IndexVec::new();
    let first = entities.insert(block(v(0, 0), 2));
    entities.insert(block(v(2, 0), 2));
    let mover = entities.insert(ball(v(0, 4), v(0, -20)));
    let found = find_collisions(&entities, q(1, 16));
    assert_eq!(found.len(), 1);
    assert_eq!(found[0].0, mover);
    assert_eq!(found[0].1.unwrap().0, first);
}

#[test]
fn what_does_not_move_is_not_searched_for() {
    let mut entities = IndexVec::new();
    entities.insert(block(v(0, 0), 1));
    entities.insert(ball(v(0, 4), v(0, 0)));
    assert_eq!(find_collisions(&entities, q(1, 16)), vec![]);
    // The slightest movement counts.
    let creeping = entities.insert(ball(v(0, 40), Vec2::new(Fixed::from_raw(1), n(0))));
    assert_eq!(find_collisions(&entities, q(1, 16)), vec![(creeping, None)]);
}

#[test]
fn a_mover_without_collision_is_carried_on_for_the_whole_frame() {
    let mut entities = IndexVec::new();
    let mover = entities.insert(ball(v(0, 40), v(16, -32)));
    let found = find_collisions(&entities, q(1, 16));
    assert_eq!(found, vec![(mover, None)]);
    resolve_collisions(&mut entities, &found, q(1, 16));
    assert_eq!(entities.get(mover).unwrap().position, v(1, 38));
    assert_eq!(entities.get(mover).unwrap().velocity, v(16, -32));
}

#[test]
fn movers_and_targets_that_are_gone_are_passed_over() {
    let mut entities = IndexVec::new();
    let target = entities.insert(block(v(0, 0), 1));
    let mover = entities.insert(ball(v(0, 4), v(0, -40)));
    let loner = entities.insert(ball(v(50, 4), v(0, -40)));
    let found = find_collisions(&entities, q(1, 16));
    assert_eq!(found.len(), 2);
    entities.remove(target);
    entities.remove(loner);
    let before = live(&entities);
    resolve_collisions(&mut entities, &found, q(1, 16));
    assert_eq!(live(&entities), before);
    assert_eq!(entities.get(mover).unwrap().position, v(0, 4));
}

#[test]
fn balls_are_counted_by_their_tag() {
    let mut entities = IndexVec::new();
    assert!(!any_ball(&entities));
    entities.insert(block(v(0, 0), 1));
    entities.insert(paddle(v(0, 0)));
    assert!(!any_ball(&entities));
    let a = entities.insert(ball(v(0, 0), v(0, 0)));
    assert!(any_ball(&entities));
    entities.remove(a);
    assert!(!any_ball(&entities));
}

#[test]
fn the_levels_start_with_balls_and_a_wall_of_blocks() {
    let first = Level::level0();
    assert_eq!(first.spawns.len(), 65);
    assert_eq!(first.spawns[0].tags, tags(&[Tag::Ball]));
    assert_eq!(first.spawns[0].collide_with, tags(&[Tag::Wall, Tag::Block]));
    assert_eq!(first.spawns[0].position, v(60, 0));
    assert_eq!(first.spawns[0].velocity, v(-30, -40));
    assert_eq!(first.spawns[0].half_size, Vec2::new(q(3, 4), q(3, 4)));
    assert_eq!(first.spawns[0].life, 1);
    assert_eq!(first.spawns[0].color, Some(0x00ffff));
    // Row by row from the bottom, each row from the left.
    assert_eq!(first.spawns[1].position, v(-40, 0));
    assert_eq!(first.spawns[2].position, v(-28, 0));
    assert_eq!(first.spawns[8].position, v(44, 0));
    assert_eq!(first.spawns[9].position, v(-40, 5));
    assert_eq!(first.spawns[64].position, v(44, 35));
    for block in &first.spawns[1..] {
        assert_eq!(block.tags, tags(&[Tag::Block]));
        assert_eq!(block.collide_with, TagSet::new());
        assert_eq!(block.half_size, v(5, 2));
        assert_eq!(block.life, 1);
        assert_eq!(block.color, Some(0));
        assert!(block.velocity.is_zero());
    }

    let second = Level::level1();
    assert_eq!(second.spawns.len(), 66);
    assert_eq!(second.spawns[0], first.spawns[0]);
    assert_eq!(second.spawns[1].position, v(-60, 0));
    assert_eq!(second.spawns[1].velocity, v(30, -40));
    assert_eq!(second.spawns[1].tags, tags(&[Tag::Ball]));
    assert_eq!(&second.spawns[2..], &first.spawns[1..]);
}

#[test]
fn a_level_is_loaded_in_its_order() {
    let mut entities = IndexVec::new();
    entities.insert(paddle(v(0, 0)));
    Level::level1().load(&mut entities);
    assert_eq!(entities.len(), 67);
    assert_eq!(entities.get(1usize).unwrap().position, v(60, 0));
    assert_eq!(entities.get(2usize).unwrap().position, v(-60, 0));
    assert_eq!(entities.get(66usize).unwrap().position, v(44, 35));
    assert_eq!(count(&entities, Tag::Ball), 2);
    assert_eq!(count(&entities, Tag::Block), 64);
}

#[test]
fn the_first_frame_sets_up_the_first_level() {
    let mut game = Game::new();
    assert_eq!(game.entities().len(), 0);
    assert_eq!(game.player(), None);
    game.step(Vec2::zero(), &Input::new(), Fixed::zero());
    assert_eq!(game.current_level(), 0);
    assert_eq!(game.arena_half_size(), v(85, 45));
    assert_eq!(game.player(), Some(GIndex::new(4, 0)));
    let entities = game.entities();
    assert_eq!(entities.len(), 70);
    assert_eq!(live(entities).len(), 70);
    assert_eq!(*entities.get(0usize).unwrap(), wall(v(-86, 0), v(1, 45), false));
    assert_eq!(*entities.get(1usize).unwrap(), wall(v(86, 0), v(1, 45), false));
    assert_eq!(*entities.get(2usize).unwrap(), wall(v(0, 46), v(85, 1), false));
    assert_eq!(*entities.get(3usize).unwrap(), wall(v(0, -46), v(85, 1), true));
    let mut player = paddle(v(0, -40));
    player.color = Some(0x00ff00);
    assert_eq!(*entities.get(4usize).unwrap(), player);
    let mut first = Level::level0().spawns[0];
    // The ball falls, so it collides with the paddle too.
    first.collide_with.insert(Tag::Player);
    assert_eq!(*entities.get(5usize).unwrap(), first);
    assert_eq!(count(entities, Tag::Block), 64);
    assert_eq!(count(entities, Tag::Ball), 1);
    assert_eq!(Game::default().entities().len(), 0);
}

#[test]
fn a_frame_without_length_moves_nothing() {
    let mut game = Game::new();
    let mut input = Input::new();
    input.mouse.position = v(20, 7);
    game.step(input.mouse.position, &input, Fixed::zero());
    let before = live(game.entities());
    game.step(input.mouse.position, &input, Fixed::zero());
    assert_eq!(live(game.entities()), before);
    let player = game.entities().get(game.player().unwrap()).unwrap();
    assert!(player.velocity.is_zero());
    assert_eq!(player.position, v(0, -40));
}

#[test]
fn the_paddle_follows_the_pointer_sideways() {
    let mut game = Game::new();
    let mut input = Input::new();
    input.mouse.position = v(20, 7);
    game.step(input.mouse.position, &input, q(1, 64));
    let player = *game.entities().get(game.player().unwrap()).unwrap();
    assert_eq!(player.velocity, v(1280, 0));
    assert_eq!(player.position, v(20, -40));
    // Once it is there, it rests.
    game.step(input.mouse.position, &input, q(1, 64));
    let player = *game.entities().get(game.player().unwrap()).unwrap();
    assert_eq!(player.velocity, v(0, 0));
    assert_eq!(player.position, v(20, -40));
    // The ball has moved on for two frames.
    let first = game.entities().get(5usize).unwrap();
    assert_eq!(first.position, Vec2::new(q(60 * 32 - 30, 32), q(-40, 32)));
}

#[test]
fn the_buttons_switch_the_level_round_the_ends() {
    let mut game = Game::new();
    let mut input = Input::new();
    game.step(input.mouse.position, &input, Fixed::zero());
    assert_eq!(game.current_level(), 0);

    input.mouse.button_mut(Button::Left).is_down = true;
    game.step(input.mouse.position, &input, Fixed::zero());
    assert_eq!(game.current_level(), 1);
    assert_eq!(count(game.entities(), Tag::Ball), 2);
    assert_eq!(count(game.entities(), Tag::Block), 64);
    assert_eq!(live(game.entities()).len(), 71);
    assert_eq!(game.entities().len(), 71);
    assert_eq!(game.player(), Some(GIndex::new(4, 1)));

    // A button that is held is no press.
    input.mouse.button_mut(Button::Left).was_down = true;
    game.step(input.mouse.position, &input, Fixed::zero());
    assert_eq!(game.current_level(), 1);
    assert_eq!(game.player(), Some(GIndex::new(4, 1)));

    // The left button goes before the right one.
    input.mouse.button_mut(Button::Left).was_down = false;
    input.mouse.button_mut(Button::Right).is_down = true;
    game.step(input.mouse.position, &input, Fixed::zero());
    assert_eq!(game.current_level(), 0);

    input.mouse.button_mut(Button::Left).is_down = false;
    game.step(input.mouse.position, &input, Fixed::zero());
    assert_eq!(game.current_level(), 1);
    game.step(input.mouse.position, &input, Fixed::zero());
    assert_eq!(game.current_level(), 0);
    assert_eq!(count(game.entities(), Tag::Ball), 1);
    assert_eq!(live(game.entities()).len(), 70);
    assert_eq!(game.entities().len(), 71);
}

#[test]
fn the_level_is_loaded_again_when_the_last_ball_is_lost() {
    let mut game = Game::new();
    let mut input = Input::new();
    // The paddle waits far from where the ball comes down.
    input.mouse.position = v(-60, 0);
    let dt = q(1, 64);
    game.step(input.mouse.position, &input, dt);
    let first = GIndex::new(5, 0);
    assert!(game.entities().get(first).unwrap().tags.contains(Tag::Ball));

    let mut frames = 1;
    while game.entities().get(first).is_some() {
        assert!(frames < 200);
        game.step(input.mouse.position, &input, dt);
        frames += 1;
    }
    // About 1.1 seconds to the bottom.
    assert!(frames > 60);

    // The frame that lost the ball has loaded the level again.
    assert_eq!(game.current_level(), 0);
    let entities = game.entities();
    assert_eq!(entities.len(), 70);
    assert_eq!(live(entities).len(), 70);
    assert_eq!(count(entities, Tag::Ball), 1);
    assert_eq!(count(entities, Tag::Block), 64);
    // The slot of the lost ball was freed first and is the first to be used
    // again, for the left wall; everything else moves down by one slot.
    assert_eq!(entities.get(GIndex::new(5, 1)).unwrap().tags, tags(&[Tag::Wall]));
    assert_eq!(game.player(), Some(GIndex::new(3, 1)));
    let second = entities.get(GIndex::new(4, 1)).unwrap();
    assert_eq!(*second, Level::level0().spawns[0]);
    let mut walk = entities.iter().with_index();
    while let Some((handle, entity)) = walk.next() {
        assert_eq!(handle.generation, 1);
        if entity.tags.contains(Tag::Block) || entity.tags.contains(Tag::Ball) {
            assert_eq!(entity.life, 1);
        }
    }
    let player = entities.get(game.player().unwrap()).unwrap();
    assert_eq!(player.position, v(0, -40));
    // No handle from before the reload finds anything.
    for slot in 0..70 {
        assert_eq!(entities.get(GIndex::new(slot, 0)), None);
    }
}

#[test]
fn a_ball_breaks_blocks_in_play() {
    let mut game = Game::new();
    let mut input = Input::new();
    let dt = q(1, 64);
    game.step(input.mouse.position, &input, dt);
    // Keep the paddle under the ball, so that the ball stays in play.
    for _ in 0..2000 {
        let at = game.entities().get(5usize).unwrap().position;
        input.mouse.position = at;
        game.step(input.mouse.position, &input, dt);
        if count(game.entities(), Tag::Block) < 64 {
            break;
        }
    }
    assert_eq!(game.current_level(), 0);
    assert_eq!(count(game.entities(), Tag::Ball), 1);
    assert_eq!(count(game.entities(), Tag::Block), 63);
    assert_eq!(game.entities().len(), 70);
    assert!(game.entities().get(GIndex::new(5, 0)).is_some());
}

#[test]
fn the_game_is_drawn_field_first_and_then_every_entity() {
    let mut game = Game::new();
    game.step(Vec2::zero(), &Input::new(), Fixed::zero());
    let mut pixels = vec![1u32; 40 * 30];
    let mut buffer = RenderBuffer { pixels: &mut pixels, width: 40, height: 30 };
    game.render(&mut buffer);
    let at = |x: usize, y: usize| pixels[y * 40 + x];
    // Around the field.
    assert_eq!(at(0, 0), 0x220500);
    assert_eq!(at(20, 3), 0x220500);
    assert_eq!(at(20, 25), 0x220500);
    assert_eq!(at(39, 10), 0x220500);
    // The field.
    assert_eq!(at(0, 4), 0x551100);
    assert_eq!(at(38, 24), 0x551100);
    // The paddle.
    for x in 17..22 {
        assert_eq!(at(x, 5), 0x00ff00);
    }
    assert_eq!(at(16, 5), 0x551100);
    assert_eq!(at(22, 5), 0x551100);
    // The first block.
    for x in 9..12 {
        assert_eq!(at(x, 14), 0);
    }
    // The ball is too small to show, but where it is heading does.
    assert_eq!(at(33, 15), 0xff0000);
    assert_eq!(at(33, 14), 0xff0000);
    let count = |color: u32| pixels.iter().filter(|pixel| **pixel == color).count();
    assert_eq!(count(0x551100), 679);
    assert_eq!(count(0x220500), 381);
    assert_eq!(count(0), 133);
    assert_eq!(count(0x00ff00), 5);
    assert_eq!(count(0xff0000), 2);
    assert_eq!(count(0x00ffff), 0);
    assert_eq!(count(1), 0);
}

#[test]
fn a_game_is_drawn_into_an_empty_buffer_without_harm() {
    let mut game = Game::new();
    game.step(Vec2::zero(), &Input::new(), Fixed::zero());
    let mut pixels: Vec<u32> = Vec::new();
    let mut buffer = RenderBuffer { pixels: &mut pixels, width: 0, height: 0 };
    game.render(&mut buffer);
    assert!(pixels.is_empty());
}

#[test]
fn a_frame_places_the_pointer_in_the_world_and_draws_the_game() {
    let mut game = Game::new();
    let mut input = Input::new();
    // Ten pixels right of the middle of a buffer forty pixels wide.
    input.mouse.position = v(30, 7);
    let mut pixels = vec![1u32; 40 * 30];
    let mut buffer = RenderBuffer { pixels: &mut pixels, width: 40, height: 30 };
    game.simulate(&mut buffer, &input, q(1, 64));
    assert_eq!(buffer.width, 40);
    assert_eq!(buffer.height, 30);

    let player = *game.entities().get(game.player().unwrap()).unwrap();
    assert_eq!(player.position, Vec2::new(Fixed::from_raw(185598012), n(-40)));
    assert_eq!(player.velocity, Vec2::new(Fixed::from_raw(185598012 * 64), n(0)));

    // The same frame, step by step.
    let mut other = Game::new();
    other.step(
        Vec2::new(Fixed::from_raw(185598012), Fixed::from_raw(-148478410)),
        &input,
        q(1, 64),
    );
    assert_eq!(live(other.entities()), live(game.entities()));
    let mut expected = vec![1u32; 40 * 30];
    let mut buffer = RenderBuffer { pixels: &mut expected, width: 40, height: 30 };
    other.render(&mut buffer);
    assert_eq!(pixels, expected);

    // The paddle is drawn where it went.
    let at = |x: usize, y: usize| pixels[y * 40 + x];
    assert_eq!(at(30, 5), 0x00ff00);
    assert_eq!(at(20, 5), 0x551100);
}

#[test]
fn the_paddle_keeps_up_with_the_pointer_in_a_short_frame() {
    let mut game = Game::new();
    let mut input = Input::new();
    game.step(input.mouse.position, &input, Fixed::zero());
    // Half across the field within a thousandth of a second.
    input.mouse.position = v(85, 0);
    let dt = q(1, 1000);
    assert_eq!(dt.raw, 4194);
    game.step(input.mouse.position, &input, dt);
    let player = *game.entities().get(game.player().unwrap()).unwrap();
    assert_eq!(player.velocity, Vec2::new(Fixed::from_raw(356541681872), n(0)));
    assert_eq!(player.position, Vec2::new(Fixed::from_raw(356515839), n(-40)));
    // Less than a hundred-thousandth of a unit short of the pointer.
    assert!(85 * 4194304 - player.position.x.raw < 42);
}
