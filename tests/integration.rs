use spacefort::entity::{init_entities, Entity};
use spacefort::map::{Mode, Tile, TileMap};
use spacefort::net::{ClientMsg, ServerMsg};
use spacefort::server::Server;
use spacefort::template::{init_creatures, init_materials, ProtoCreature, ProtoMaterial};

const AIR: u16 = 10;
const ROCK: u16 = 1;

fn proto_material(name: &str, id: u16, diggable: bool, passable: bool) -> ProtoMaterial {
    ProtoMaterial {
        name: name.to_string(),
        id,
        template: None,
        texture: None,
        diggable: Some(diggable),
        passable: Some(passable),
        color: Some([0, 0, 0, 0x3f80_0000]),
        alt: Some(AIR),
    }
}

fn proto_creature(name: &str, id: u16, template: Option<&str>) -> ProtoCreature {
    ProtoCreature {
        name: name.to_string(),
        id,
        template: template.map(|t| t.to_string()),
        texture: None,
        dig_speed: if template.is_none() { Some(20) } else { None },
        movement_speed: if template.is_none() { Some(4) } else { None },
        color: if template.is_none() { Some([0x3f80_0000; 4]) } else { None },
        alt: if template.is_none() { Some(0) } else { None },
    }
}

/// Two levels of open ground, 100 by 30, with a stair up at (20, 10, 0) and a
/// diggable rock block at (28, 19, 1).
fn world_map() -> TileMap {
    let materials = init_materials(&vec![
        proto_material("air", AIR, false, true),
        proto_material("rock", ROCK, true, false),
    ])
    .unwrap();
    let (xl, yl, zl) = (100i32, 30i32, 2i32);
    let mut tiles = Vec::new();
    for z in 0..zl {
        for y in 0..yl {
            for x in 0..xl {
                let t = if (x, y, z) == (20, 10, 0) {
                    Tile::new(AIR, Mode::DownStairs)
                } else if (x, y, z) == (28, 19, 1) {
                    Tile::new(ROCK, Mode::Block)
                } else {
                    Tile::new(AIR, Mode::Empty)
                };
                tiles.push(t);
            }
        }
    }
    TileMap::from_tiles(tiles, materials, (xl, yl, zl)).unwrap()
}

fn setup() -> Server {
    let creature_types = init_creatures(&vec![
        proto_creature("dwarf", 1, None),
        proto_creature("goblin", 2, Some("dwarf")),
    ])
    .unwrap();
    Server::new(world_map(), init_entities(), creature_types)
}

fn find(server: &Server, id: i64) -> &Entity {
    server.g_state.entities.iter().find(|ent| ent.id == id).unwrap()
}

fn tick(server: &mut Server) {
    server.update(Vec::new(), Vec::new());
}

#[test]
fn test_map_startup() {
    let mut server = setup();
    server.update(Vec::new(), Vec::new());
}

#[test]
fn test_move_one() {
    let mut server = setup();
    assert!(find(&server, -1).pos != (43, 13, 1));
    server.ent_move(-1, (43, 13, 1));
    for _ in 0..6000 {
        tick(&mut server)
    }
    assert_eq!(find(&server, -1).pos, (43, 13, 1));
}

#[test]
fn test_move_multiple() {
    let mut server = setup();
    for i in -3..-1 {
        let pos = find(&server, i).pos;
        assert!(pos != (43, 13, 1));
        server.ent_move(i, (43, 13, 1));
    }
    for _ in 0..6000 {
        tick(&mut server)
    }
    for i in -3..-1 {
        assert_eq!(find(&server, i).pos, (43, 13, 1));
    }
}

#[test]
fn test_dig_single_block() {
    let mut server = setup();
    let pos = (28, 19, 1);
    assert!(!server.g_state.map.passable(pos));
    server.add_player(1);
    server.dig(1, (pos, pos));
    for _ in 0..6000 {
        tick(&mut server)
    }
    assert!(server.g_state.map.passable(pos));
}

#[test]
fn test_attack_stationary_unit() {
    let mut server = setup();
    let team_id = 1;
    let attacker_id = -1;
    let defender_id = -4;
    assert!(find(&server, defender_id).alive);
    server.attack(team_id, attacker_id, defender_id);
    for _ in 0..6000 {
        tick(&mut server)
    }
    assert!(find(&server, defender_id).alive);
}

#[test]
fn test_attack_moving_unit() {
    let mut server = setup();
    let team_id = 1;
    let attacker_id = -1;
    let defender_id = -4;
    assert!(find(&server, defender_id).alive);
    server.attack(team_id, attacker_id, defender_id);
    server.ent_move(-4, (43, 13, 1));
    for _ in 0..6000 {
        tick(&mut server)
    }
    assert!(find(&server, defender_id).alive);
}

#[test]
fn test_attack_unit_then_move() {
    let mut server = setup();
    let team_id = 1;
    let attacker_id = -1;
    let defender_id = -4;
    assert!(find(&server, defender_id).alive);
    server.attack(team_id, attacker_id, defender_id);
    for _ in 0..6000 {
        tick(&mut server)
    }
    server.ent_move(-1, (43, 13, 1));
    for _ in 0..6000 {
        tick(&mut server)
    }
    assert!(find(&server, defender_id).alive);
    assert_eq!(find(&server, attacker_id).pos, (43, 13, 1));
}

#[test]
fn registered_attacker_kills_its_target() {
    let mut server = setup();
    server.add_player(1);
    server.attack(1, -1, -4);
    assert!(find(&server, -1).goal.is_some());
    for _ in 0..3000 {
        tick(&mut server)
    }
    let target = find(&server, -4);
    assert!(!target.alive);
    assert_eq!(target.team_id, None);
    let attacker = find(&server, -1);
    assert!(attacker.goal.is_none());
    assert!(attacker.actions.is_empty());
}

#[test]
fn abandoned_chase_clears_goal_and_queue() {
    let mut server = setup();
    server.add_player(1);
    server.attack(1, -1, -4);
    for _ in 0..25 {
        tick(&mut server)
    }
    assert!(!find(&server, -1).actions.is_empty());
    let idx = server.g_state.entities.iter().position(|e| e.id == -4).unwrap();
    server.g_state.entities[idx].health = -5;
    for _ in 0..10 {
        tick(&mut server)
    }
    assert!(!find(&server, -4).alive);
    let attacker = find(&server, -1);
    assert!(attacker.goal.is_none());
    assert!(attacker.actions.is_empty());
}

#[test]
fn join_then_map_request_streams_chunks() {
    let mut server = setup();
    let out = server.update(vec![3], vec![(ClientMsg::RequestMap(((0, 0, 0), (0, 0, 0))), 3)]);
    match &out[0] {
        (3, ServerMsg::ReplyJoin(join)) => {
            assert_eq!(join.player_id, 3);
            assert_eq!(join.team_id, Some(3));
            assert_eq!(join.map_dim, (100, 30, 2));
        }
        other => panic!("unexpected first message {:?}", other),
    }
    // 13 x 4 x 2 chunks, then one entity list for the one player
    let chunks = out.iter().filter(|m| matches!(m.1, ServerMsg::SendMapChunk(_))).count();
    assert_eq!(chunks, 13 * 4 * 2);
    match out.last().unwrap() {
        (3, ServerMsg::SendEnts(snaps)) => assert_eq!(snaps.len(), 6),
        other => panic!("unexpected last message {:?}", other),
    }
}
