use pixel_overlay::overlay::OPACITY_FULL;
use pixel_overlay::scene::{
    game_over, integer_sqrt, purge_dead, squared_distance, Action, EnemyType, Object, ObjectName,
};

fn enemy_at(x: i64, y: i64, hp: i64) -> Object {
    Object::new(ObjectName::Enemy(EnemyType::Weak), x, y, 10_000, hp, Action::Projectile(500))
}

fn player_at(x: i64, y: i64) -> Object {
    Object::new(ObjectName::Player, x, y, 10_000, 20_000, Action::Projectile(2_000))
}

#[test]
fn new_object_starts_at_full_hit_points() {
    let object = Object::new(
        ObjectName::Enemy(EnemyType::Strong),
        1,
        2,
        3,
        4,
        Action::Projectile(5),
    );
    assert_eq!(object.name, ObjectName::Enemy(EnemyType::Strong));
    assert_eq!((object.x, object.y, object.size), (1, 2, 3));
    assert_eq!((object.hp, object.max_hp, object.recharge), (4, 4, 0));
    assert_eq!(object.action, Action::Projectile(5));
}

#[test]
fn movement_changes_one_coordinate() {
    let mut player = player_at(250_000, 250_000);
    player.up(5_000);
    assert_eq!((player.x, player.y), (250_000, 245_000));
    player.down(12_000);
    assert_eq!((player.x, player.y), (250_000, 257_000));
    player.left(5_000);
    assert_eq!((player.x, player.y), (245_000, 257_000));
    player.right(1);
    assert_eq!((player.x, player.y), (245_001, 257_000));
    assert_eq!(player.hp, 20_000);
}

#[test]
fn ability_hits_only_the_target_within_reach() {
    let player = player_at(0, 0);
    let mut targets = vec![enemy_at(10_000, 0, 5_000), enemy_at(30_000, 0, 5_000)];
    let mut player = player;
    assert_eq!(player.find_target(&targets), Some(0));
    player.use_ability(&mut targets);
    assert_eq!(player, player_at(0, 0));
    assert_eq!(targets[0].hp, 3_000);
    assert_eq!(targets[1].hp, 5_000);
    assert_eq!(targets[0], Object { hp: 3_000, ..enemy_at(10_000, 0, 5_000) });
    assert_eq!(targets[1], enemy_at(30_000, 0, 5_000));
}

#[test]
fn ability_hits_the_nearest_and_the_first_of_equals() {
    let mut player = player_at(0, 0);
    let mut targets = vec![
        enemy_at(0, 12_000, 5_000),
        enemy_at(6_000, 0, 5_000),
        enemy_at(0, -6_000, 5_000),
        enemy_at(-6_000, 0, 5_000),
    ];
    assert_eq!(player.find_target(&targets), Some(1));
    player.use_ability(&mut targets);
    assert_eq!(
        targets.iter().map(|t| t.hp).collect::<Vec<i64>>(),
        vec![5_000, 3_000, 5_000, 5_000]
    );
}

#[test]
fn ability_reaches_exactly_as_far_as_its_radius() {
    let mut player = player_at(0, 0);
    let mut on_edge = vec![enemy_at(22_500, 0, 5_000)];
    assert_eq!(player.find_target(&on_edge), Some(0));
    player.use_ability(&mut on_edge);
    assert_eq!(on_edge[0].hp, 3_000);
    let mut beyond = vec![enemy_at(22_501, 0, 5_000)];
    assert_eq!(player.find_target(&beyond), None);
    player.use_ability(&mut beyond);
    assert_eq!(beyond[0].hp, 5_000);
    let mut diagonal = vec![enemy_at(13_500, 18_000, 5_000)];
    assert_eq!(player.find_target(&diagonal), Some(0));
    player.use_ability(&mut diagonal);
}

#[test]
fn ability_without_targets_does_nothing() {
    let mut player = player_at(0, 0);
    let mut none: Vec<Object> = Vec::new();
    assert_eq!(player.find_target(&none), None);
    player.use_ability(&mut none);
    let mut far = vec![enemy_at(100_000, 100_000, 5_000)];
    assert_eq!(player.find_target(&far), None);
    player.use_ability(&mut far);
    assert_eq!(far, vec![enemy_at(100_000, 100_000, 5_000)]);
}

#[test]
fn negative_reach_hits_nothing() {
    let mut caster = player_at(0, 0);
    caster.action = Action::Projectile(-20_000);
    let mut targets = vec![enemy_at(0, 0, 5_000)];
    assert_eq!(caster.find_target(&targets), None);
    caster.use_ability(&mut targets);
    assert_eq!(targets[0].hp, 5_000);
}

#[test]
fn collision_is_corner_containment() {
    let player = player_at(100_000, 100_000);
    let mut small = enemy_at(103_000, 103_000, 5_000);
    small.size = 4_000;
    // The player's corner (105, 105) is not inside the small square, which
    // spans 101 to 105, but the small square's corners are inside the
    // player's.
    assert!(small.collides_with(player));
    let mut far = enemy_at(200_000, 200_000, 5_000);
    far.size = 4_000;
    assert!(!player.collides_with(far));
    assert!(!far.collides_with(player));
}

#[test]
fn collision_with_a_square_that_holds_a_corner() {
    let player = player_at(100_000, 100_000);
    let mut enemy = enemy_at(103_000, 103_000, 5_000);
    enemy.size = 4_000;
    // Player corners are at 95 and 105; the enemy spans 101 to 105 openly,
    // so the corner at exactly 105 is not strictly inside.
    assert!(!player.collides_with(enemy));
    enemy.size = 4_002;
    assert!(player.collides_with(enemy));
    let big = enemy_at(104_000, 104_000, 5_000);
    assert!(player.collides_with(big));
}

#[test]
fn game_is_over_when_any_enemy_collides() {
    let player = player_at(100_000, 100_000);
    let clear = vec![enemy_at(200_000, 200_000, 5_000), enemy_at(0, 0, 5_000)];
    assert!(!game_over(&player, &clear));
    let hit = vec![enemy_at(200_000, 200_000, 5_000), enemy_at(104_000, 104_000, 5_000)];
    assert!(game_over(&player, &hit));
    assert!(!game_over(&player, &Vec::new()));
}

#[test]
fn purge_removes_the_dead_and_keeps_the_order() {
    let mut enemies = vec![
        enemy_at(1, 0, 5_000),
        enemy_at(2, 0, 0),
        enemy_at(3, 0, -1),
        enemy_at(4, 0, 1),
        enemy_at(5, 0, i64::MIN),
    ];
    purge_dead(&mut enemies);
    assert_eq!(enemies, vec![enemy_at(1, 0, 5_000), enemy_at(4, 0, 1)]);
    purge_dead(&mut enemies);
    assert_eq!(enemies.len(), 2);
}

#[test]
fn enemy_killed_by_the_ability_is_gone_after_the_purge() {
    let mut player = player_at(0, 0);
    let mut enemies = vec![enemy_at(30_000, 0, 2_000), enemy_at(5_000, 0, 2_000)];
    assert_eq!(player.find_target(&enemies), Some(1));
    player.use_ability(&mut enemies);
    assert_eq!(enemies[1].hp, 0);
    purge_dead(&mut enemies);
    assert_eq!(enemies, vec![enemy_at(30_000, 0, 2_000)]);
    let mut weak = vec![enemy_at(5_000, 0, 1_000)];
    assert_eq!(player.find_target(&weak), Some(0));
    player.use_ability(&mut weak);
    assert_eq!(weak[0].hp, -1_000);
    purge_dead(&mut weak);
    assert!(weak.is_empty());
}

#[test]
fn enemy_steps_towards_the_player() {
    let player = player_at(3_000, 4_000);
    let mut weak = enemy_at(0, 0, 5_000);
    weak.step_enemy_ai(&player);
    assert_eq!((weak.x, weak.y), (333, 444));
    let mut medium = enemy_at(0, 0, 5_000);
    medium.name = ObjectName::Enemy(EnemyType::Medium);
    medium.step_enemy_ai(&player);
    assert_eq!((medium.x, medium.y), (400, 533));
    let mut strong = enemy_at(0, 0, 5_000);
    strong.name = ObjectName::Enemy(EnemyType::Strong);
    strong.step_enemy_ai(&player);
    assert_eq!((strong.x, strong.y), (500, 666));
    assert_eq!(strong.hp, 5_000);
}

#[test]
fn enemy_steps_towards_smaller_coordinates_too() {
    let player = player_at(-3_000, -4_000);
    let mut weak = enemy_at(0, 0, 5_000);
    weak.step_enemy_ai(&player);
    assert_eq!((weak.x, weak.y), (-333, -444));
}

#[test]
fn enemy_on_the_player_stays() {
    let player = player_at(7_000, 7_000);
    let mut enemy = enemy_at(7_000, 7_000, 5_000);
    enemy.step_enemy_ai(&player);
    assert_eq!((enemy.x, enemy.y), (7_000, 7_000));
}

#[test]
fn integer_square_roots() {
    assert_eq!(integer_sqrt(0), 0);
    assert_eq!(integer_sqrt(1), 1);
    assert_eq!(integer_sqrt(3), 1);
    assert_eq!(integer_sqrt(4), 2);
    assert_eq!(integer_sqrt(24), 4);
    assert_eq!(integer_sqrt(25_000_000), 5_000);
    assert_eq!(integer_sqrt(25_000_001), 5_000);
    assert_eq!(integer_sqrt(24_999_999), 4_999);
    let largest: u128 = 8 * 1_099_511_627_776 * 1_099_511_627_776;
    let root = integer_sqrt(largest);
    assert!(root * root <= largest && largest < (root + 1) * (root + 1));
}

#[test]
fn squared_distances() {
    assert_eq!(squared_distance(&player_at(0, 0), &enemy_at(3_000, 4_000, 1)), 25_000_000);
    assert_eq!(squared_distance(&player_at(-1, -1), &enemy_at(1, 1, 1)), 8);
}

#[test]
fn object_is_drawn_as_a_square() {
    let player = player_at(5_000, 4_000);
    let mut small = player;
    small.size = 2_000;
    let overlay = small.as_overlay(8, 6);
    assert_eq!((overlay.width, overlay.height), (8, 6));
    assert_eq!(overlay.opacity, OPACITY_FULL);
    assert_eq!(overlay.blend, None);
    for y in 0..6 {
        for x in 0..8 {
            let expected = if (4..6).contains(&x) && (3..5).contains(&y) {
                Some([0, 0, 0])
            } else {
                None
            };
            assert_eq!(overlay.get_pixel(x, y), expected);
        }
    }
}

#[test]
fn enemy_is_drawn_red_and_cut_at_the_edges() {
    let enemy = enemy_at(0, 7_500, 5_000);
    let overlay = enemy.as_overlay(8, 10);
    for y in 0..10 {
        for x in 0..8 {
            // Columns from 0 (left of the origin counts as 0) to 5, rows
            // from 2 (2.5 rounded down) to 10, where the overlay ends.
            let expected = if x < 5 && y >= 2 {
                Some([255, 30, 30])
            } else {
                None
            };
            assert_eq!(overlay.get_pixel(x, y), expected);
        }
    }
    let away = enemy_at(-50_000, -50_000, 5_000).as_overlay(4, 4);
    assert!(away.pixels.iter().all(|p| p.is_none()));
}
