use glyph_wave::input::{grid_dims, held_after, pulse_sign, viewport_stale, ButtonEvent};

#[test]
fn right_button_pulses_are_void_pulses() {
    assert_eq!(pulse_sign(true), -1);
    assert_eq!(pulse_sign(false), 1);
}

#[test]
fn pressing_holds_and_releasing_or_leaving_stops() {
    assert_eq!(held_after(ButtonEvent::Down { secondary: false }), Some(1));
    assert_eq!(held_after(ButtonEvent::Down { secondary: true }), Some(-1));
    assert_eq!(held_after(ButtonEvent::Up), None);
    assert_eq!(held_after(ButtonEvent::Leave), None);
}

#[test]
fn grid_has_at_least_one_cell_each_way() {
    assert_eq!(grid_dims(0, 0), (1, 1));
    assert_eq!(grid_dims(128, 0), (128, 1));
    assert_eq!(grid_dims(0, 45), (1, 45));
    assert_eq!(grid_dims(128, 45), (128, 45));
}

#[test]
fn viewport_is_stale_only_when_the_grid_changes() {
    let mut last = (0usize, 0usize);
    assert!(viewport_stale(&mut last, (128, 45)));
    assert_eq!(last, (128, 45));
    assert!(!viewport_stale(&mut last, (128, 45)));
    assert!(viewport_stale(&mut last, (128, 46)));
    assert_eq!(last, (128, 46));
}
