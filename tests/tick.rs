use std::collections::HashMap;
use spacefort::actions::{Action, ActionType, AttackType, Goal};
use spacefort::entity::{do_actions, init_entities, resolve_dead, Change, Entity};
use spacefort::game::{GameState, NewGoalPoss};
use spacefort::map::{Material, Mode, Tile, TileMap};

fn materials() -> HashMap<u16, Material> {
    let mut m = HashMap::new();
    m.insert(1, Material { name: "rock".to_string(), id: 1, texture: None, diggable: true, passable: false, color: [0; 4], alt: 10 });
    m.insert(10, Material { name: "air".to_string(), id: 10, texture: None, diggable: false, passable: true, color: [0; 4], alt: 10 });
    m
}

fn open_map(xl: i32, yl: i32) -> TileMap {
    let tiles = (0..xl * yl).map(|_| Tile::new(10, Mode::Empty)).collect();
    TileMap::from_tiles(tiles, materials(), (xl, yl, 1)).unwrap()
}

#[test]
fn action_waits_out_its_duration() {
    let mut m = open_map(4, 4);
    let mut e = Entity::new(-1, 1, (0, 0, 0), 1);
    e.actions.push_back(Action::new(ActionType::Move((1, 0, 0)), 2));
    let mut ents = vec![e];
    for _ in 0..2 {
        do_actions(&mut ents, &mut m);
        assert_eq!(ents[0].pos, (0, 0, 0));
    }
    assert_eq!(ents[0].timer, 2);
    do_actions(&mut ents, &mut m);
    assert_eq!(ents[0].pos, (1, 0, 0));
    assert_eq!(ents[0].timer, 0);
    assert!(ents[0].actions.is_empty());
}

#[test]
fn dig_action_changes_material_and_reports_it() {
    let mut m = TileMap::from_tiles(vec![Tile::new(10, Mode::Empty), Tile::new(1, Mode::Block)], materials(), (2, 1, 1)).unwrap();
    let mut e = Entity::new(-1, 1, (0, 0, 0), 1);
    e.actions.push_back(Action::new(ActionType::Dig((1, 0, 0)), 0));
    let mut ents = vec![e];
    let changes = do_actions(&mut ents, &mut m);
    assert_eq!(changes.len(), 1);
    assert!(matches!(changes[0], Change::TileChange((1, 0, 0))));
    assert_eq!(m.get_tile((1, 0, 0)).unwrap().material, 10);
    assert!(m.passable((1, 0, 0)));
}

#[test]
fn attack_hits_only_when_adjacent() {
    let mut m = open_map(5, 5);
    let mut a = Entity::new(-1, 1, (0, 0, 0), 1);
    a.actions.push_back(Action::new(ActionType::Attack(AttackType::Bite, -2), 0));
    a.actions.push_back(Action::new(ActionType::Attack(AttackType::Bite, -3), 0));
    let near = Entity::new(-2, 2, (1, 1, 0), 2);
    let far = Entity::new(-3, 2, (3, 0, 0), 2);
    let mut ents = vec![a, near, far];
    do_actions(&mut ents, &mut m);
    assert_eq!(ents[1].health, 60);
    do_actions(&mut ents, &mut m);
    assert_eq!(ents[2].health, 100);
    assert!(ents[0].actions.is_empty());
}

#[test]
fn attack_method_uses_the_attackers_position() {
    let a = Entity::new(-1, 1, (2, 2, 0), 1);
    let mut ents = vec![Entity::new(-2, 2, (3, 3, 1), 2), Entity::new(-3, 2, (5, 5, 0), 2)];
    a.attack(-2, &mut ents, AttackType::Punch);
    a.attack(-3, &mut ents, AttackType::Punch);
    a.attack(-9, &mut ents, AttackType::Punch);
    assert_eq!(ents[0].health, 60);
    assert_eq!(ents[1].health, 100);
    assert!(a.is_adjacent(&ents[0]));
    assert!(!a.is_adjacent(&ents[1]));
}

#[test]
fn the_dead_are_detached_and_idle() {
    let mut e = Entity::new(-1, 1, (0, 0, 0), 1);
    e.health = -20;
    e.goal = Some(Goal::Attack(AttackType::Bite, -2, (1, 1, 0)));
    e.actions.push_back(Action::new(ActionType::Wait, 5));
    let mut zero = Entity::new(-2, 1, (0, 0, 0), 1);
    zero.health = 0;
    let mut ents = vec![e, zero];
    resolve_dead(&mut ents);
    assert!(!ents[0].alive);
    assert_eq!(ents[0].team_id, None);
    assert_eq!(ents[0].goal, None);
    assert!(ents[0].actions.is_empty());
    assert!(ents[1].alive);
    assert_eq!(ents[1].team_id, Some(1));
}

#[test]
fn snapshot_copies_the_visible_fields() {
    let e = Entity::new(-7, 3, (1, 2, 3), 4);
    let s = e.snap();
    assert_eq!((s.id, s.creature_id, s.pos, s.team_id, s.health, s.alive), (-7, 3, (1, 2, 3), Some(4), 100, true));
}

#[test]
fn roster_has_two_teams() {
    let ents = init_entities();
    assert_eq!(ents.len(), 6);
    assert_eq!(ents[0].pos, (7, 7, 0));
    assert_eq!(ents[0].team_id, Some(1));
    assert_eq!(ents[5].id, -6);
    assert_eq!(ents[5].team_id, Some(2));
}

#[test]
fn revalidation_reaims_at_a_moved_target() {
    let mut g = GameState::new(open_map(10, 10), vec![Entity::new(-1, 1, (0, 0, 0), 1), Entity::new(-2, 2, (5, 5, 0), 2)], HashMap::new());
    g.entities[0].goal = Some(Goal::Attack(AttackType::Bite, -2, (5, 5, 0)));
    g.validate_goals();
    // queue was empty: a path next to the target plus an attack
    let q = &g.entities[0].actions;
    assert_eq!(q.back().unwrap().atype, ActionType::Attack(AttackType::Bite, -2));
    assert_eq!(q.len(), 5);
    g.entities[1].pos = (9, 0, 0);
    g.validate_goals();
    assert_eq!(g.entities[0].goal, Some(Goal::Attack(AttackType::Bite, -2, (9, 0, 0))));
    g.entities[1].alive = false;
    g.validate_goals();
    assert_eq!(g.entities[0].goal, None);
    assert!(g.entities[0].actions.is_empty());
    assert_ne!(NewGoalPoss::NoChange, NewGoalPoss::Delete(-1));
}

#[test]
fn update_counts_ticks_and_gives_ids() {
    let mut g = GameState::new(open_map(3, 3), init_entities(), HashMap::new());
    for _ in 0..25 {
        g.update();
    }
    assert_eq!(g.ticks, 25);
    assert_eq!(g.give_id(), 1);
    assert_eq!(g.give_id(), 2);
}

#[test]
fn move_ents_sets_paths_for_listed_entities() {
    let mut g = GameState::new(open_map(10, 10), vec![Entity::new(-1, 1, (0, 0, 0), 1), Entity::new(-2, 1, (1, 0, 0), 1)], HashMap::new());
    g.move_ents(&[-2], (4, 0, 0));
    assert!(g.entities[0].actions.is_empty());
    assert_eq!(g.entities[1].actions.len(), 3);
    for _ in 0..10 {
        g.update();
    }
    assert_eq!(g.entities[1].pos, (4, 0, 0));
}
