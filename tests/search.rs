use std::collections::HashMap;
use spacefort::actions::{add_dig_tasks, select_bad_entities, select_entities, Action, ActionType, Task};
use spacefort::entity::{schedule_actions, Entity};
use spacefort::geometry::{dist, rotate_selector};
use spacefort::map::{Material, Mode, Tile, TileMap};
use spacefort::pathfind::{path_next_to, path_to, route_to_moves};
use spacefort::template::Creature;

fn materials() -> HashMap<u16, Material> {
    let mut m = HashMap::new();
    m.insert(1, Material { name: "rock".to_string(), id: 1, texture: None, diggable: true, passable: false, color: [0; 4], alt: 10 });
    m.insert(10, Material { name: "air".to_string(), id: 10, texture: None, diggable: false, passable: true, color: [0; 4], alt: 10 });
    m
}

/// A single level drawn row by row: '#' rock block, '.' open air.
fn level(rows: &[&str]) -> TileMap {
    let yl = rows.len() as i32;
    let xl = rows[0].len() as i32;
    let mut tiles = Vec::new();
    for r in rows {
        for c in r.chars() {
            tiles.push(if c == '#' { Tile::new(1, Mode::Block) } else { Tile::new(10, Mode::Empty) });
        }
    }
    TileMap::from_tiles(tiles, materials(), (xl, yl, 1)).unwrap()
}

fn walker(pos: (i32, i32, i32)) -> Entity {
    Entity::new(-1, 1, pos, 1)
}

fn types() -> HashMap<u16, Creature> {
    let mut t = HashMap::new();
    t.insert(1, Creature { name: "dwarf".to_string(), id: 1, texture: None, dig_speed: 7, movement_speed: 3, color: [0; 4], alt: 0 });
    t
}

fn target(a: &Action) -> (i32, i32, i32) {
    match a.atype {
        ActionType::Move(p) => p,
        _ => panic!("not a move"),
    }
}

fn chebyshev(a: (i32, i32, i32), b: (i32, i32, i32)) -> i32 {
    (a.0 - b.0).abs().max((a.1 - b.1).abs()).max((a.2 - b.2).abs())
}

#[test]
fn path_steps_are_adjacent_and_end_on_goal() {
    let m = level(&["......", ".####.", "......"]);
    let e = walker((0, 1, 0));
    let p = path_to(&m, &e, &types(), (5, 1, 0));
    assert!(!p.is_empty());
    let mut at = e.pos;
    for a in &p {
        assert_eq!(a.duration, 3);
        let next = target(a);
        assert_eq!(chebyshev(at, next), 1);
        assert!(m.passable(next));
        at = next;
    }
    assert_eq!(at, (5, 1, 0));
    // around the wall: 5 steps either way
    assert_eq!(p.len(), 5);
}

#[test]
fn path_next_to_stops_beside_the_target() {
    let m = level(&["......", "......", "....#."]);
    let e = walker((0, 0, 0));
    let p = path_next_to(&m, &e, &types(), (4, 2, 0));
    let last = target(p.back().unwrap());
    assert_eq!(chebyshev(last, (4, 2, 0)), 1);
    assert!(m.passable(last));
    assert_eq!(chebyshev(e.pos, target(&p[0])), 1);
}

#[test]
fn path_is_deterministic() {
    let m = level(&["........", "...##...", "........", "........"]);
    let e = walker((0, 0, 0));
    let first = path_to(&m, &e, &types(), (7, 3, 0));
    let second = path_to(&m, &e, &types(), (7, 3, 0));
    assert_eq!(first, second);
    let same = level(&["........", "...##...", "........", "........"]);
    assert_eq!(path_to(&same, &e, &types(), (7, 3, 0)), first);
}

#[test]
fn enclosed_target_gives_empty_path() {
    let m = level(&[".....", ".###.", ".#.#.", ".###.", "....."]);
    let e = walker((0, 0, 0));
    for _ in 0..3 {
        assert!(path_next_to(&m, &e, &types(), (2, 2, 0)).is_empty());
    }
    let walled = level(&["...", ".#.", "..."]);
    assert!(path_to(&walled, &e, &types(), (1, 1, 0)).is_empty());
}

#[test]
fn route_to_moves_drops_the_start() {
    let r = route_to_moves(Some(vec![(0, 0, 0), (1, 0, 0), (2, 1, 0)]), 9);
    assert_eq!(r.len(), 2);
    assert_eq!(r[0], Action::new(ActionType::Move((1, 0, 0)), 9));
    assert_eq!(r[1], Action::new(ActionType::Move((2, 1, 0)), 9));
    assert!(route_to_moves(None, 9).is_empty());
    assert!(route_to_moves(Some(vec![(4, 4, 4)]), 9).is_empty());
}

#[test]
fn distances_round_down() {
    assert_eq!(dist(&(0, 0, 0), &(3, 4, 0)), 5);
    assert_eq!(dist(&(0, 0, 0), &(1, 1, 1)), 1);
    assert_eq!(dist(&(2, 2, 2), &(2, 2, 2)), 0);
    assert_eq!(dist(&(0, 0, 0), &(10, 10, 0)), 14);
}

#[test]
fn selector_is_normalized() {
    assert_eq!(rotate_selector(((5, 1, 3), (2, 4, 0))), ((2, 1, 0), (5, 4, 3)));
}

#[test]
fn selection_by_team() {
    let ents = vec![
        Entity::new(-1, 1, (1, 1, 0), 1),
        Entity::new(-2, 1, (9, 9, 0), 1),
        Entity::new(-3, 2, (2, 2, 0), 2),
    ];
    assert_eq!(select_entities(&ents, 1, ((3, 3, 0), (0, 0, 0))), vec![-1]);
    assert_eq!(select_bad_entities(&ents, 1, ((3, 3, 0), (0, 0, 0))), vec![-3]);
}

#[test]
fn dig_tasks_mark_diggable_tiles_in_order() {
    let mut m = level(&["#.#", "##.", "..."]);
    let mut tasks = Vec::new();
    add_dig_tasks(&mut tasks, &mut m, ((2, 1, 0), (-4, 0, 0)));
    assert_eq!(tasks, vec![Task::dig((0, 0, 0)), Task::dig((0, 1, 0)), Task::dig((1, 1, 0)), Task::dig((2, 0, 0))]);
    assert!(m.get_tile((0, 0, 0)).unwrap().marked);
    assert!(!m.get_tile((1, 0, 0)).unwrap().marked);
    // marked tiles are not scheduled twice
    add_dig_tasks(&mut tasks, &mut m, ((0, 0, 0), (2, 2, 0)));
    assert_eq!(tasks.len(), 4);
}

#[test]
fn simultaneous_claim_has_one_owner() {
    let mut m = level(&[".....", ".....", "....#"]);
    let mut tasks = Vec::new();
    add_dig_tasks(&mut tasks, &mut m, ((4, 2, 0), (4, 2, 0)));
    let mut ents = vec![Entity::new(-1, 1, (0, 0, 0), 1), Entity::new(-2, 1, (0, 1, 0), 1)];
    schedule_actions(&mut ents, &mut tasks, &m, &types(), Some(1));
    assert_eq!(tasks.len(), 1);
    let owner = tasks[0].owner.unwrap();
    assert!(owner == -1 || owner == -2);
    let busy = ents.iter().filter(|e| !e.actions.is_empty()).count();
    assert_eq!(busy, 1);
    let digger = ents.iter().find(|e| e.id == owner).unwrap();
    assert_eq!(digger.actions.back().unwrap().atype, ActionType::Dig((4, 2, 0)));
    assert_eq!(digger.actions.back().unwrap().duration, 7);
    // a second pass does not reassign the task
    let mut again = vec![Entity::new(-3, 1, (0, 2, 0), 1)];
    schedule_actions(&mut again, &mut tasks, &m, &types(), Some(1));
    assert_eq!(tasks[0].owner, Some(owner));
    assert!(again[0].actions.is_empty());
}

#[test]
fn other_teams_and_busy_entities_do_not_claim() {
    let mut m = level(&["...", "..#"]);
    let mut tasks = Vec::new();
    add_dig_tasks(&mut tasks, &mut m, ((2, 1, 0), (2, 1, 0)));
    let mut ents = vec![Entity::new(-5, 2, (0, 0, 0), 2)];
    schedule_actions(&mut ents, &mut tasks, &m, &types(), Some(1));
    assert_eq!(tasks[0].owner, None);
    assert!(ents[0].actions.is_empty());
}

#[test]
fn nearest_task_is_claimed_first() {
    let mut m = level(&["#......#"]);
    let mut tasks = Vec::new();
    add_dig_tasks(&mut tasks, &mut m, ((0, 0, 0), (7, 0, 0)));
    assert_eq!(tasks.len(), 2);
    let mut ents = vec![Entity::new(-1, 1, (5, 0, 0), 1)];
    schedule_actions(&mut ents, &mut tasks, &m, &types(), Some(1));
    assert_eq!(tasks[0].owner, None);
    assert_eq!(tasks[1].owner, Some(-1));
    assert_eq!(tasks[1].priority(&ents[0]), 2);
}

#[test]
fn open_tile_ringed_by_rock_gives_empty_path() {
    let m = level(&[".....", ".###.", ".#.#.", ".###.", "....."]);
    let e = walker((0, 0, 0));
    assert!(path_to(&m, &e, &types(), (2, 2, 0)).is_empty());
    assert!(!path_to(&m, &e, &types(), (4, 4, 0)).is_empty());
}

#[test]
fn stair_to_a_blocked_level_is_no_step() {
    // a stair up at (1, 1, 0) whose upper tile is rock
    let mut tiles = Vec::new();
    for z in 0..2 {
        for y in 0..3 {
            for x in 0..3 {
                let t = if (x, y, z) == (1, 1, 0) {
                    Tile::new(10, Mode::DownStairs)
                } else if z == 1 {
                    Tile::new(1, Mode::Block)
                } else {
                    Tile::new(10, Mode::Empty)
                };
                tiles.push(t);
            }
        }
    }
    let m = TileMap::from_tiles(tiles, materials(), (3, 3, 2)).unwrap();
    let e = walker((0, 0, 0));
    assert!(path_to(&m, &e, &types(), (1, 1, 1)).is_empty());
}
