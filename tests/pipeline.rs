use keeb::debounce::{Debouncer, KeyEvent, Transition, DEBOUNCE_THRESHOLD};
use keeb::keyboard::Keyboard;
use keeb::keycode::{
    is_modifier, modifier_bit, A, B, C, D, E, F, F2, LCTRL, LSHIFT, MEDIA_PLAY_PAUSE, RGUI, VOL_DOWN,
};
use keeb::keymap::{default_keymap, KeyAction, Keymap, NUM_LAYERS, TABLE_LEN};
use keeb::layout::Layout;
use keeb::leds::{LedState, PinLevel};
use keeb::matrix::{cell_index, empty_snapshot, record_row, set_switch, NUM_COLS, NUM_KEYS};
use keeb::report::{build, REPORT_LEN, REPORT_SLOTS};
use keeb::transport::{same_report, ReportSlot};

fn press(row: usize, col: usize) -> KeyEvent {
    KeyEvent { row, col, transition: Transition::Press }
}

fn release(row: usize, col: usize) -> KeyEvent {
    KeyEvent { row, col, transition: Transition::Release }
}

fn snapshot_with(keys: &[(usize, usize)]) -> [bool; NUM_KEYS] {
    let mut s = empty_snapshot();
    for &(r, c) in keys {
        set_switch(&mut s, r, c, true);
    }
    s
}

#[test]
fn letter_a_reaches_first_slot() {
    let mut kb = Keyboard::new(default_keymap());
    let snap = snapshot_with(&[(3, 1)]);
    for _ in 0..DEBOUNCE_THRESHOLD - 1 {
        assert!(!kb.tick(&snap));
        assert!(kb.keycodes().is_empty());
    }
    assert!(kb.tick(&snap));
    assert_eq!(kb.keycodes(), vec![A]);
    assert_eq!(kb.report(), [0x00, 0, A, 0, 0, 0, 0, 0]);
    assert_eq!(kb.take_report(), Some([0x00, 0, 0x04, 0, 0, 0, 0, 0]));
    assert_eq!(kb.take_report(), None);
}

#[test]
fn layer_hold_resolves_media_key_and_pins_it() {
    let mut layout = Layout::new(default_keymap());
    layout.event(press(5, 10));
    assert!(layout.is_layer_active(1));
    layout.event(press(0, 2));
    assert_eq!(layout.keycodes(), vec![VOL_DOWN]);
    layout.event(release(5, 10));
    assert!(!layout.is_layer_active(1));
    assert_eq!(layout.keycodes(), vec![VOL_DOWN]);
    layout.event(release(0, 2));
    assert!(layout.keycodes().is_empty());
    layout.event(press(0, 2));
    assert_eq!(layout.keycodes(), vec![F2]);
}

#[test]
fn release_after_layer_change_undoes_base_code() {
    let mut layout = Layout::new(default_keymap());
    layout.event(press(0, 5));
    layout.event(press(5, 10));
    layout.event(release(0, 5));
    assert!(layout.keycodes().is_empty());
    layout.event(press(0, 5));
    assert_eq!(layout.keycodes(), vec![MEDIA_PLAY_PAUSE]);
}

#[test]
fn presses_beyond_capacity_are_dropped() {
    let mut layout = Layout::new(default_keymap());
    let keys = [(3, 1), (3, 2), (3, 3), (3, 4), (3, 5), (4, 2), (4, 4)];
    for &(r, c) in &keys {
        layout.event(press(r, c));
    }
    let codes = layout.keycodes();
    assert_eq!(codes.len(), REPORT_SLOTS);
    let report = build(&codes);
    assert_eq!(report, [0, 0, A, 0x16, D, F, 0x0A, 0x1D]);
    layout.event(press(4, 0));
    assert_eq!(build(&layout.keycodes()), [0x02, 0, A, 0x16, D, F, 0x0A, 0x1D]);
    layout.event(release(3, 2));
    assert_eq!(build(&layout.keycodes()), [0x02, 0, A, D, F, 0x0A, 0x1D, 0]);
    layout.event(release(4, 4));
    layout.event(press(4, 4));
    assert_eq!(build(&layout.keycodes()), [0x02, 0, A, D, F, 0x0A, 0x1D, C]);
}

#[test]
fn caps_lock_indicator_drives_pin_high() {
    let mut leds = LedState::new();
    assert!(!leds.is_caps_lock_on());
    assert_eq!(leds.caps_lock_level(), PinLevel::Low);
    assert_eq!(leds.caps_lock(true), PinLevel::High);
    assert!(leds.is_caps_lock_on());
    assert_eq!(leds.caps_lock_level(), PinLevel::High);
    assert_eq!(leds.caps_lock(false), PinLevel::Low);
    assert!(!leds.is_caps_lock_on());
}

#[test]
fn short_bounce_emits_nothing() {
    let open = empty_snapshot();
    let mut d = Debouncer::new(&open, DEBOUNCE_THRESHOLD);
    let closed = snapshot_with(&[(2, 7)]);
    for _ in 0..DEBOUNCE_THRESHOLD - 1 {
        assert!(d.events(&closed).is_empty());
    }
    assert!(d.events(&open).is_empty());
    for _ in 0..DEBOUNCE_THRESHOLD - 1 {
        assert!(d.events(&closed).is_empty());
    }
    assert!(!d.accepted()[cell_index(2, 7)]);
    assert_eq!(d.events(&closed), vec![press(2, 7)]);
    assert!(d.accepted()[cell_index(2, 7)]);
}

#[test]
fn events_alternate_per_switch() {
    let open = empty_snapshot();
    let closed = snapshot_with(&[(1, 13), (5, 0)]);
    let mut d = Debouncer::new(&open, 2);
    let mut seen = Vec::new();
    for round in 0..6 {
        let snap = if round % 2 == 0 { &closed } else { &open };
        for _ in 0..3 {
            seen.extend(d.events(snap));
        }
    }
    let at = |r: usize, c: usize| -> Vec<Transition> {
        seen.iter().filter(|e| e.row == r && e.col == c).map(|e| e.transition).collect()
    };
    for (r, c) in [(1, 13), (5, 0)] {
        let t = at(r, c);
        assert_eq!(t.len(), 6);
        for (k, tr) in t.iter().enumerate() {
            let want = if k % 2 == 0 { Transition::Press } else { Transition::Release };
            assert_eq!(*tr, want);
        }
    }
}

#[test]
fn events_come_in_row_major_order() {
    let open = empty_snapshot();
    let mut d = Debouncer::new(&open, 1);
    let snap = snapshot_with(&[(4, 3), (0, 9), (4, 1)]);
    assert_eq!(d.events(&snap), vec![press(0, 9), press(4, 1), press(4, 3)]);
    assert_eq!(d.events(&open), vec![release(0, 9), release(4, 1), release(4, 3)]);
}

#[test]
fn base_layer_survives_any_holds() {
    let mut layout = Layout::new(default_keymap());
    assert!(layout.is_layer_active(0));
    assert!(!layout.is_layer_active(1));
    layout.event(press(5, 10));
    layout.event(release(5, 10));
    layout.event(release(5, 10));
    assert!(layout.is_layer_active(0));
    assert!(!layout.is_layer_active(1));
}

#[test]
fn two_holds_of_one_layer_are_counted() {
    let mut table = [KeyAction::NoOp; TABLE_LEN];
    for i in 0..TABLE_LEN {
        table[i] = if i < NUM_KEYS {
            if i < 2 { KeyAction::LayerHold(1) } else { KeyAction::Code(B) }
        } else if i < NUM_KEYS + 2 {
            KeyAction::Transparent
        } else {
            KeyAction::Code(E)
        };
    }
    let mut layout = Layout::new(Keymap::new(table).unwrap());
    layout.event(press(0, 0));
    layout.event(press(0, 1));
    layout.event(release(0, 0));
    assert!(layout.is_layer_active(1));
    layout.event(press(2, 2));
    assert_eq!(layout.keycodes(), vec![E]);
    layout.event(release(0, 1));
    assert!(!layout.is_layer_active(1));
    layout.event(press(2, 3));
    assert_eq!(layout.keycodes(), vec![E, B]);
}

#[test]
fn transparent_falls_through_and_noop_is_ignored() {
    let mut layout = Layout::new(default_keymap());
    layout.event(press(5, 10));
    layout.event(press(3, 1));
    assert_eq!(layout.keycodes(), vec![A]);
    layout.event(press(5, 4));
    layout.event(press(0, 6));
    assert_eq!(layout.keycodes(), vec![A]);
    layout.event(release(5, 4));
    assert_eq!(layout.keycodes(), vec![A]);
}

#[test]
fn build_is_deterministic() {
    let keys = vec![LSHIFT, A, RGUI, 0x1E];
    let first = build(&keys);
    let second = build(&keys);
    assert_eq!(first, second);
    assert_eq!(first, [0x82, 0, A, 0x1E, 0, 0, 0, 0]);
    assert_eq!(first.len(), REPORT_LEN);
}

#[test]
fn build_truncates_and_orders() {
    let keys = vec![0x10, 0x11, 0x12, LCTRL, 0x13, 0x14, 0x15, 0x16, 0x17];
    assert_eq!(build(&keys), [0x01, 0, 0x10, 0x11, 0x12, 0x13, 0x14, 0x15]);
    assert_eq!(build(&Vec::new()), [0; REPORT_LEN]);
}

#[test]
fn modifier_bits() {
    assert!(is_modifier(LCTRL));
    assert!(is_modifier(RGUI));
    assert!(!is_modifier(MEDIA_PLAY_PAUSE));
    assert!(!is_modifier(A));
    assert_eq!(modifier_bit(LCTRL), 0x01);
    assert_eq!(modifier_bit(LSHIFT), 0x02);
    assert_eq!(modifier_bit(RGUI), 0x80);
    assert_eq!(modifier_bit(A), 0);
}

#[test]
fn malformed_keymaps_are_refused() {
    let mut table = [KeyAction::NoOp; TABLE_LEN];
    table[7] = KeyAction::LayerHold(NUM_LAYERS);
    assert!(Keymap::new(table).is_none());
    table[7] = KeyAction::LayerHold(7);
    assert!(Keymap::new(table).is_none());
    table[7] = KeyAction::LayerHold(NUM_LAYERS - 1);
    assert!(Keymap::new(table).is_some());
}

#[test]
fn rows_are_read_active_low() {
    let mut snap = empty_snapshot();
    let mut levels = [true; NUM_COLS];
    levels[3] = false;
    levels[13] = false;
    record_row(&mut snap, 2, &levels);
    for c in 0..NUM_COLS {
        assert_eq!(snap[cell_index(2, c)], c == 3 || c == 13);
    }
    assert_eq!(snap.iter().filter(|x| **x).count(), 2);
    assert_eq!(cell_index(2, 3), 31);
}

#[test]
fn report_slot_keeps_last_write() {
    let mut slot = ReportSlot::new();
    assert!(!slot.is_pending());
    assert!(!slot.publish([0; 8]));
    assert_eq!(slot.take(), None);
    assert!(slot.publish([0, 0, 4, 0, 0, 0, 0, 0]));
    assert!(slot.publish([0, 0, 5, 0, 0, 0, 0, 0]));
    assert_eq!(slot.take(), Some([0, 0, 5, 0, 0, 0, 0, 0]));
    assert_eq!(slot.take(), None);
    assert!(!slot.publish([0, 0, 5, 0, 0, 0, 0, 0]));
    assert!(!slot.is_pending());
    assert_eq!(slot.latest(), [0, 0, 5, 0, 0, 0, 0, 0]);
    assert!(same_report(&[1; 8], &[1; 8]));
    assert!(!same_report(&[1; 8], &[1, 1, 1, 1, 1, 1, 1, 2]));
}

#[test]
fn release_reaches_report_after_debounce() {
    let mut kb = Keyboard::new(default_keymap());
    let snap = snapshot_with(&[(4, 0), (2, 1)]);
    for _ in 0..DEBOUNCE_THRESHOLD {
        kb.tick(&snap);
    }
    assert_eq!(kb.report(), [0x02, 0, 0x14, 0, 0, 0, 0, 0]);
    let open = empty_snapshot();
    for _ in 0..DEBOUNCE_THRESHOLD - 1 {
        assert!(!kb.tick(&open));
    }
    assert!(kb.tick(&open));
    assert_eq!(kb.report(), [0; 8]);
}
