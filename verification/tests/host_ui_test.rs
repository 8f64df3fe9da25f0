//! Window snapshots turned into events.

use smallishtalk::host_ui::{
    HostEvent, HostUi, KeyPress, KeyRole, EV_CLOSE, EV_KEY_DOWN, EV_MOUSE_BUTTON, EV_MOUSE_MOVE,
};

fn key(role: KeyRole, code: char) -> KeyPress {
    KeyPress { code: code as i64, role }
}

fn drain(ui: &mut HostUi) -> Vec<HostEvent> {
    let mut out = Vec::new();
    while let Some(e) = ui.pop_event() {
        out.push(e);
    }
    out
}

/// The invariant primNextEvent's drain loop depends on: re-reporting an
/// unchanged window snapshot (what minifb does between updates) enqueues
/// nothing after the first harvest. Each regression here was a live hang.
/// (Chars are exempt by construction — the callback buffer is drained.)
#[test]
fn repeated_identical_snapshots_quiesce() {
    let mut ui = HostUi::new();
    ui.ingest_window_state(true, false, Some((10, 20)), true, true, vec![key(KeyRole::Other, 'A'), key(KeyRole::Other, 'B')], vec![]);
    let first = drain(&mut ui);
    assert_eq!(
        first,
        vec![
            [EV_MOUSE_MOVE, 10, 20, 0, 0],
            [EV_MOUSE_BUTTON, 10, 20, 1, 1],
            [EV_MOUSE_BUTTON, 10, 20, 2, 1],
            [EV_KEY_DOWN, key(KeyRole::Other, 'A').code, 0, 0, 0],
            [EV_KEY_DOWN, key(KeyRole::Other, 'B').code, 0, 0, 0],
        ]
    );
    for _ in 0..3 {
        ui.ingest_window_state(
            true,
            false,
            Some((10, 20)),
            true,
            true,
            vec![key(KeyRole::Other, 'A'), key(KeyRole::Other, 'B')],
            vec![],
        );
        assert_eq!(drain(&mut ui), Vec::<HostEvent>::new());
    }
}

/// The right button reports as button 2 in slot c, with the same
/// edge-only discipline as the left — this is what the Workspace's
/// right-click operate menu rides on.
#[test]
fn right_button_fires_edges_as_button_2() {
    let mut ui = HostUi::new();
    ui.ingest_window_state(true, false, Some((5, 6)), false, true, vec![], vec![]);
    assert_eq!(
        drain(&mut ui),
        vec![
            [EV_MOUSE_MOVE, 5, 6, 0, 0],
            [EV_MOUSE_BUTTON, 5, 6, 2, 1],
        ]
    );
    ui.ingest_window_state(true, false, Some((5, 6)), false, false, vec![], vec![]);
    assert_eq!(drain(&mut ui), vec![[EV_MOUSE_BUTTON, 5, 6, 2, 0]]);
}

/// Typed characters (the window's char callback) become key-down events
/// carrying the character in slot c — what TextPane inserts. Control
/// chars are dropped here; backspace/enter arrive as keys instead.
#[test]
fn chars_become_key_events_with_the_char_in_c() {
    let mut ui = HostUi::new();
    ui.ingest_window_state(true, false, Some((0, 0)), false, false, vec![], vec![104, 7, 105]);
    assert_eq!(
        drain(&mut ui),
        vec![
            [EV_MOUSE_MOVE, 0, 0, 0, 0],
            [EV_KEY_DOWN, 0, 0, 104, 0],
            [EV_KEY_DOWN, 0, 0, 105, 0],
        ]
    );
}

/// Backspace and Enter never come through the char callback, so their
/// key events carry the control codes (8, 10) TextPane understands.
#[test]
fn editing_keys_carry_their_control_codes() {
    let mut ui = HostUi::new();
    ui.ingest_window_state(
        true,
        false,
        Some((0, 0)),
        false,
        false,
        vec![key(KeyRole::Backspace, 'b'), key(KeyRole::Enter, 'e')],
        vec![],
    );
    assert_eq!(
        drain(&mut ui),
        vec![
            [EV_MOUSE_MOVE, 0, 0, 0, 0],
            [EV_KEY_DOWN, key(KeyRole::Backspace, 'b').code, 0, 8, 0],
            [EV_KEY_DOWN, key(KeyRole::Enter, 'e').code, 0, 10, 0],
        ]
    );
}

/// macOS reports arrow/function/navigation keys as fake "characters" in
/// the Unicode private-use area (U+F700–U+F8FF, e.g. left arrow =
/// U+F702 = NSLeftArrowFunctionKey) and minifb's char callback forwards
/// them verbatim. They are keys, not text: letting one through crashed
/// the Workspace (option-left → insert 0xF702 into a byte String).
#[test]
fn mac_function_key_chars_are_dropped() {
    let mut ui = HostUi::new();
    ui.ingest_window_state(
        true,
        false,
        Some((0, 0)),
        false,
        false,
        vec![],
        vec![0xF700, 0xF702, 0xF8FF, 97],
    );
    assert_eq!(
        drain(&mut ui),
        vec![[EV_MOUSE_MOVE, 0, 0, 0, 0], [EV_KEY_DOWN, 0, 0, 97, 0]]
    );
}

/// Arrow keys ride the key path (like backspace/enter) as the classic
/// Smalltalk control codes 28–31, so TextPane can navigate on them.
#[test]
fn arrow_keys_carry_the_classic_control_codes() {
    let mut ui = HostUi::new();
    ui.ingest_window_state(
        true,
        false,
        Some((0, 0)),
        false,
        false,
        vec![key(KeyRole::Left, 'l'), key(KeyRole::Right, 'r'), key(KeyRole::Up, 'u'), key(KeyRole::Down, 'd')],
        vec![],
    );
    assert_eq!(
        drain(&mut ui),
        vec![
            [EV_MOUSE_MOVE, 0, 0, 0, 0],
            [EV_KEY_DOWN, key(KeyRole::Left, 'l').code, 0, 28, 0],
            [EV_KEY_DOWN, key(KeyRole::Right, 'r').code, 0, 29, 0],
            [EV_KEY_DOWN, key(KeyRole::Up, 'u').code, 0, 30, 0],
            [EV_KEY_DOWN, key(KeyRole::Down, 'd').code, 0, 31, 0],
        ]
    );
}

#[test]
fn changes_fire_as_edges() {
    let mut ui = HostUi::new();
    ui.ingest_window_state(true, false, Some((10, 20)), true, false, vec![key(KeyRole::Other, 'A')], vec![]);
    drain(&mut ui);
    // Move, release, new key; A held over from last time must not re-fire.
    ui.ingest_window_state(true, false, Some((11, 20)), false, false, vec![key(KeyRole::Other, 'A'), key(KeyRole::Other, 'C')], vec![]);
    assert_eq!(
        drain(&mut ui),
        vec![
            [EV_MOUSE_MOVE, 11, 20, 0, 0],
            [EV_MOUSE_BUTTON, 11, 20, 1, 0],
            [EV_KEY_DOWN, key(KeyRole::Other, 'C').code, 0, 0, 0],
        ]
    );
    // A released then re-pressed fires again.
    ui.ingest_window_state(true, false, Some((11, 20)), false, false, vec![], vec![]);
    drain(&mut ui);
    ui.ingest_window_state(true, false, Some((11, 20)), false, false, vec![key(KeyRole::Other, 'A')], vec![]);
    assert_eq!(drain(&mut ui), vec![[EV_KEY_DOWN, key(KeyRole::Other, 'A').code, 0, 0, 0]]);
}

#[test]
fn close_fires_exactly_once() {
    for esc in [false, true] {
        let mut ui = HostUi::new();
        let open = esc; // closed-window in one case, escape in the other
        ui.ingest_window_state(open, esc, None, false, false, Vec::new(), Vec::new());
        assert_eq!(drain(&mut ui), vec![[EV_CLOSE, 0, 0, 0, 0]]);
        for _ in 0..3 {
            ui.ingest_window_state(open, esc, None, false, false, Vec::new(), Vec::new());
            assert_eq!(drain(&mut ui), Vec::<HostEvent>::new());
        }
    }
}

/// Set bits are black, clear and missing ones white; rows start at bytes.
#[test]
fn one_bit_forms_expand() {
    let bits = [0b1010_0000u8, 0b0100_0000, 0b1000_0000];
    let mut ui = HostUi::new();
    ui.present_mono(9, 2, &bits);
    assert_eq!((ui.buf_width, ui.buf_height), (9, 2));
    let black: Vec<usize> = (0..18).filter(|&k| ui.buffer[k] == 0xFF00_0000).collect();
    assert_eq!(black, vec![0, 2, 9]);
    assert!((0..18).filter(|k| !black.contains(k)).all(|k| ui.buffer[k] == 0xFFFF_FFFF));
    let rgb = HostUi::mono_to_rgb(9, 2, &bits);
    assert_eq!(rgb.len(), 54);
    assert_eq!(&rgb[0..9], &[0, 0, 0, 255, 255, 255, 0, 0, 0]);
    assert_eq!(&rgb[27..33], &[0, 0, 0, 255, 255, 255]);
}

/// Virtual time passes only when it is advanced; real time is the host's.
#[test]
fn clocks_are_virtual_or_real() {
    let mut ui = HostUi::new();
    ui.advance_virtual_ns(5);
    assert_eq!(ui.mono_ns(77), 77);
    ui.use_virtual_clock();
    assert_eq!(ui.mono_ns(77), 0);
    ui.advance_virtual_ns(5);
    ui.advance_virtual_ns(6);
    assert_eq!(ui.mono_ns(77), 11);
}
