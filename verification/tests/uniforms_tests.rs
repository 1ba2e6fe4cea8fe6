use glyph_wave::uniforms::{pack_pulses, pack_trail, PULSE_SLOTS, TRAIL_SLOTS};

#[test]
fn pack_pulses_fills_slots_in_order_and_pads_with_zero() {
    let pulses = [(1.0f32, 2.0, 3.0, 4.0), (5.0, 6.0, 7.0, -1.0)];
    let (flat, count) = pack_pulses(&pulses, 0.0f32);
    assert_eq!(count, 2);
    assert_eq!(flat.len(), 4 * PULSE_SLOTS);
    assert_eq!(&flat[0..8], &[1.0, 2.0, 3.0, 4.0, 5.0, 6.0, 7.0, -1.0]);
    assert!(flat[8..].iter().all(|&v| v == 0.0));
}

#[test]
fn pack_pulses_takes_at_most_ten() {
    let pulses: Vec<(f32, f32, f32, f32)> = (0..12).map(|i| (i as f32, 0.0, 0.0, 1.0)).collect();
    let (flat, count) = pack_pulses(&pulses, 0.0f32);
    assert_eq!(count, 10);
    assert_eq!(flat.len(), 40);
    assert_eq!(flat[36], 9.0);
    assert_eq!(flat[39], 1.0);
}

#[test]
fn pack_pulses_of_nothing_is_all_zero() {
    let pulses: [(f32, f32, f32, f32); 0] = [];
    let (flat, count) = pack_pulses(&pulses, 0.0f32);
    assert_eq!(count, 0);
    assert_eq!(flat, vec![0.0f32; 40]);
}

#[test]
fn pack_trail_fills_slots_in_order() {
    let trail = [(1.0f32, 2.0, 0.5), (3.0, 4.0, 0.6), (5.0, 6.0, 0.7)];
    let (flat, count) = pack_trail(&trail, 0.0f32);
    assert_eq!(count, 3);
    assert_eq!(flat.len(), 3 * TRAIL_SLOTS);
    assert_eq!(&flat[0..9], &[1.0, 2.0, 0.5, 3.0, 4.0, 0.6, 5.0, 6.0, 0.7]);
    assert!(flat[9..].iter().all(|&v| v == 0.0));
}

#[test]
fn pack_trail_takes_at_most_sixteen() {
    let trail: Vec<(f32, f32, f32)> = (0..17).map(|i| (i as f32, i as f32 + 0.5, 1.0)).collect();
    let (flat, count) = pack_trail(&trail, 0.0f32);
    assert_eq!(count, 16);
    assert_eq!(flat.len(), 48);
    assert_eq!(flat[45], 15.0);
    assert_eq!(flat[46], 15.5);
}

#[test]
fn pack_uses_the_given_padding_value() {
    let trail = [(7u8, 8u8, 9u8)];
    let (flat, count) = pack_trail(&trail, 255u8);
    assert_eq!(count, 1);
    assert_eq!(&flat[0..4], &[7, 8, 9, 255]);
}
