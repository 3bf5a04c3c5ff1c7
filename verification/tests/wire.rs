use world_actor::wire::{decode_batch, decode_id, encode_batch, encode_id, EntityRecord};

#[test]
fn id_is_four_bytes_most_significant_first() {
    assert_eq!(encode_id(1), vec![0, 0, 0, 1]);
    assert_eq!(encode_id(0x0102_0304), vec![1, 2, 3, 4]);
    assert_eq!(encode_id(u32::MAX), vec![255, 255, 255, 255]);
}

#[test]
fn id_round_trips() {
    for id in [0u32, 1, 255, 256, 65_536, 0x8000_0000, u32::MAX] {
        assert_eq!(decode_id(&encode_id(id)), Some(id));
    }
}

#[test]
fn id_of_wrong_length_is_refused() {
    assert_eq!(decode_id(&[]), None);
    assert_eq!(decode_id(&[0, 0, 1]), None);
    assert_eq!(decode_id(&[0, 0, 0, 0, 1]), None);
}

#[test]
fn record_layout_is_fixed() {
    let batch = vec![EntityRecord { id: 7, position: (1, -1, 256), rotation: (0, i32::MIN, i32::MAX) }];
    let bytes = encode_batch(&batch);
    assert_eq!(
        bytes,
        vec![
            0, 0, 0, 7, // id
            0, 0, 0, 1, // x
            255, 255, 255, 255, // y
            0, 0, 1, 0, // z
            0, 0, 0, 0, // rotation x
            128, 0, 0, 0, // rotation y
            127, 255, 255, 255, // rotation z
        ]
    );
}

#[test]
fn empty_batch_is_empty_payload() {
    assert_eq!(encode_batch(&Vec::new()), Vec::<u8>::new());
    assert_eq!(decode_batch(&[]), Some(Vec::new()));
}

#[test]
fn batch_round_trips_at_the_extremes() {
    let batch = vec![
        EntityRecord { id: 1, position: (0, 0, 0), rotation: (0, 0, 0) },
        EntityRecord { id: u32::MAX, position: (i32::MIN, i32::MAX, -1), rotation: (1, -2, 3) },
        EntityRecord { id: 0x8000_0000, position: (-65_536, 65_535, 16_777_216), rotation: (-1, -1, -1) },
    ];
    let bytes = encode_batch(&batch);
    assert_eq!(bytes.len(), 84);
    assert_eq!(decode_batch(&bytes), Some(batch));
}

#[test]
fn ragged_payload_is_refused() {
    let batch = vec![EntityRecord { id: 1, position: (0, 0, 0), rotation: (0, 0, 0) }];
    let mut bytes = encode_batch(&batch);
    bytes.push(0);
    assert_eq!(decode_batch(&bytes), None);
    assert_eq!(decode_batch(&bytes[..27]), None);
}
