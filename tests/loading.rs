use std::collections::HashMap;
use spacefort::client::ClientState;
use spacefort::entity::{init_entities, EntSnap};
use spacefort::map::{Mode, Tile, TileMap};
use spacefort::mapfile::{load_map, MapLoadError};
use spacefort::net::{ClientMsg, PlayerJoin, ServerMsg};

#[test]
fn map_file_is_read_row_by_row() {
    let text = b"1,3,2,1\n5,6;1,7;3\r\n8;0,,9,4\n";
    let m = load_map(text, HashMap::new()).unwrap();
    assert_eq!(m.size(), (3, 2, 1));
    assert_eq!(m.get_tile((0, 0, 0)), Some(Tile::new(5, Mode::Block)));
    assert_eq!(m.get_tile((1, 0, 0)), Some(Tile::new(6, Mode::Empty)));
    assert_eq!(m.get_tile((2, 0, 0)), Some(Tile::new(7, Mode::DownStairs)));
    assert_eq!(m.get_tile((0, 1, 0)), Some(Tile::new(8, Mode::Block)));
    // the empty cell is skipped
    assert_eq!(m.get_tile((1, 1, 0)), Some(Tile::new(9, Mode::Block)));
    assert_eq!(m.get_tile((2, 1, 0)), Some(Tile::new(4, Mode::Block)));
    assert_eq!(m.get_tile((3, 1, 0)), None);
}

#[test]
fn map_file_errors() {
    assert_eq!(load_map(b"1,2,2", HashMap::new()).err(), Some(MapLoadError::BadHeader));
    assert_eq!(load_map(b"", HashMap::new()).err(), Some(MapLoadError::BadHeader));
    assert_eq!(load_map(b"x,1,1,1\n1", HashMap::new()).err(), Some(MapLoadError::BadHeader));
    assert_eq!(load_map(b"0,1,1,1\n1", HashMap::new()).err(), Some(MapLoadError::BadVersion));
    assert_eq!(load_map(b"1,1,1,1\nrock", HashMap::new()).err(), Some(MapLoadError::BadCell));
    assert_eq!(load_map(b"1,1,1,1\n70000", HashMap::new()).err(), Some(MapLoadError::BadCell));
    assert_eq!(load_map(b"1,1,1,1\n1;9", HashMap::new()).err(), Some(MapLoadError::BadMode));
    assert_eq!(load_map(b"1,2,1,1\n1", HashMap::new()).err(), Some(MapLoadError::WrongTileCount));
}

#[test]
fn client_follows_the_server() {
    let mut c = ClientState::new(HashMap::new(), init_entities());
    let reply = c.dispatch(ServerMsg::ReplyJoin(PlayerJoin::new(2, Some(2), (3, 2, 1))));
    assert_eq!(reply, vec![ClientMsg::RequestMap(((0, 0, 0), (0, 0, 0)))]);
    assert_eq!(c.player_id, Some(2));
    assert_eq!(c.team_id, Some(2));
    assert_eq!(c.map.size(), (3, 2, 1));

    let source = TileMap::from_tiles(
        (0..6).map(|i| Tile::new(i, Mode::Empty)).collect(),
        HashMap::new(),
        (3, 2, 1),
    )
    .unwrap();
    for chunk in source.to_chunks() {
        assert!(c.dispatch(ServerMsg::SendMapChunk(chunk)).is_empty());
    }
    assert_eq!(c.map.tiles(), source.tiles());

    c.dispatch(ServerMsg::UpdateTile(Tile::new(42, Mode::Block), (1, 1, 0)));
    assert_eq!(c.map.get_tile((1, 1, 0)), Some(Tile::new(42, Mode::Empty)));

    let snap = EntSnap { id: -2, creature_id: 1, pos: (9, 9, 0), team_id: Some(1), health: 55, alive: false };
    c.dispatch(ServerMsg::SendEnts(vec![snap]));
    let e = c.entities.iter().find(|e| e.id == -2).unwrap();
    assert_eq!((e.pos, e.health, e.alive), ((9, 9, 0), 55, false));
    assert_eq!(c.entities.iter().find(|e| e.id == -1).unwrap().pos, (7, 7, 0));

    assert!(!c.done);
    c.dispatch(ServerMsg::Boot);
    assert!(c.done);
}
