use spacefort::net::{encode_frame, u8_array_to_usize, usize_to_u8_array, FrameReader, PlayerJoin};

#[test]
fn length_prefix_is_big_endian() {
    assert_eq!(usize_to_u8_array(0), [0, 0, 0, 0]);
    assert_eq!(usize_to_u8_array(1), [0, 0, 0, 1]);
    assert_eq!(usize_to_u8_array(0x0102_0304), [1, 2, 3, 4]);
    assert_eq!(usize_to_u8_array(4096), [0, 0, 0x10, 0]);
}

#[test]
fn length_prefix_reads_back() {
    let buf = [9u8, 0, 0, 0x10, 0, 7];
    assert_eq!(u8_array_to_usize(&buf, 1), 4096);
    assert_eq!(u8_array_to_usize(&[1, 2, 3, 4], 0), 0x0102_0304);
    assert_eq!(u8_array_to_usize(&[0xff, 0xff, 0xff, 0xff], 0), 0xffff_ffff);
}

#[test]
fn frame_holds_prefix_then_payload() {
    let frame = encode_frame(&[7, 8, 9]);
    assert_eq!(frame, vec![0, 0, 0, 3, 7, 8, 9]);
}

#[test]
fn empty_payload_round_trips() {
    let frame = encode_frame(&[]);
    assert_eq!(frame, vec![0, 0, 0, 0]);
    let mut reader = FrameReader::new();
    reader.push(&frame);
    assert_eq!(reader.next_frame(), Some(vec![]));
    assert_eq!(reader.next_frame(), None);
    assert_eq!(reader.buffered(), 0);
}

#[test]
fn large_payload_round_trips_in_pieces() {
    let payload: Vec<u8> = (0..10_000u32).map(|i| (i % 251) as u8).collect();
    let frame = encode_frame(&payload);
    let mut reader = FrameReader::new();
    // header split across reads, payload in uneven pieces
    reader.push(&frame[..2]);
    assert_eq!(reader.next_frame(), None);
    reader.push(&frame[2..4]);
    assert_eq!(reader.next_frame(), None);
    let mut at = 4;
    for piece in [1usize, 4095, 4096, 1000] {
        reader.push(&frame[at..at + piece]);
        at += piece;
        assert_eq!(reader.next_frame(), None);
    }
    reader.push(&frame[at..]);
    assert_eq!(reader.next_frame(), Some(payload));
    assert_eq!(reader.buffered(), 0);
}

#[test]
fn two_frames_in_one_read_come_out_in_order() {
    let mut bytes = encode_frame(&[1, 2]);
    bytes.extend(encode_frame(&[3]));
    bytes.extend([0u8, 0]);
    let mut reader = FrameReader::new();
    reader.push(&bytes);
    assert_eq!(reader.next_frame(), Some(vec![1, 2]));
    assert_eq!(reader.next_frame(), Some(vec![3]));
    assert_eq!(reader.next_frame(), None);
    assert_eq!(reader.buffered(), 2);
}

#[test]
fn player_join_holds_its_fields() {
    let j = PlayerJoin::new(4, Some(4), (10, 20, 3));
    assert_eq!(j.player_id, 4);
    assert_eq!(j.team_id, Some(4));
    assert_eq!(j.map_dim, (10, 20, 3));
}
