use keyberon::key_code::KeyCode;
use split_keyboard::handle::{
    handle_event, new_layout, restart_for, CustomActions, Handled, KeyAction, Restart, SimpleAction,
};
use split_keyboard::keys::{side_column_exec, transform_event, KeyEvent};
use split_keyboard::link::{decode_byte, encode_event, encode_events, rx_byte_ready, RxStatus};
use split_keyboard::scan::{new_debouncer, route_events, scan, ScanOutput};
use split_keyboard::usb::{send_step, Command, Feedback, SendState};

fn quiet_status() -> RxStatus {
    RxStatus {
        rx_interrupt: true,
        rx_empty: false,
        overrun: false,
        break_error: false,
        parity_error: false,
        framing_error: false,
    }
}

#[test]
fn right_half_columns_follow_the_comment() {
    // 0 -> 5,  5 -> 15, 10 -> 25
    assert_eq!(side_column_exec(true, 0), 5);
    assert_eq!(side_column_exec(true, 5), 15);
    assert_eq!(side_column_exec(true, 10), 25);
    assert_eq!(side_column_exec(true, 4), 9);
    assert_eq!(side_column_exec(true, 16), 36);
}

#[test]
fn left_half_columns_are_mirrored() {
    assert_eq!(side_column_exec(false, 0), 4);
    assert_eq!(side_column_exec(false, 4), 0);
    assert_eq!(side_column_exec(false, 5), 14);
    assert_eq!(side_column_exec(false, 9), 10);
    assert_eq!(side_column_exec(false, 15), 34);
    assert_eq!(side_column_exec(false, 16), 33);
}

#[test]
fn halves_never_share_a_layout_key() {
    let mut seen = Vec::new();
    for j in 0..17u8 {
        seen.push(side_column_exec(false, j));
        seen.push(side_column_exec(true, j));
    }
    let mut sorted = seen.clone();
    sorted.sort();
    sorted.dedup();
    assert_eq!(sorted.len(), 34);
    assert!(seen.iter().all(|&x| x < 40));
}

#[test]
fn transform_keeps_row_and_kind() {
    assert_eq!(transform_event(true, KeyEvent::Press(0, 7)), KeyEvent::Press(0, 17));
    assert_eq!(transform_event(false, KeyEvent::Release(2, 7)), KeyEvent::Release(2, 12));
}

#[test]
fn encode_press_and_release() {
    assert_eq!(encode_event(KeyEvent::Press(0, 5)), 0b0100_0101);
    assert_eq!(encode_event(KeyEvent::Release(0, 5)), 0b0000_0101);
    assert_eq!(encode_event(KeyEvent::Press(3, 36)), 64 + 36);
}

#[test]
fn encode_caps_column_at_63() {
    assert_eq!(encode_event(KeyEvent::Release(0, 64)), 63);
    assert_eq!(encode_event(KeyEvent::Press(0, 200)), 127);
}

#[test]
fn decode_bytes() {
    assert_eq!(decode_byte(0b0100_0101), KeyEvent::Press(0, 5));
    assert_eq!(decode_byte(0b0000_0101), KeyEvent::Release(0, 5));
    assert_eq!(decode_byte(0b1100_0001), KeyEvent::Press(0, 1));
    assert_eq!(decode_byte(0xff), KeyEvent::Press(0, 63));
}

#[test]
fn round_trip_over_the_wire() {
    for col in 0..64u8 {
        for e in [KeyEvent::Press(0, col), KeyEvent::Release(0, col)] {
            assert_eq!(decode_byte(encode_event(e)), e);
        }
    }
    for b in 0..128u8 {
        assert_eq!(encode_event(decode_byte(b)), b);
    }
    // The row does not travel.
    assert_eq!(decode_byte(encode_event(KeyEvent::Press(2, 3))), KeyEvent::Press(0, 3));
}

#[test]
fn batch_is_encoded_in_order_with_end_bit_on_last() {
    let events = vec![KeyEvent::Press(0, 4), KeyEvent::Release(0, 33), KeyEvent::Press(0, 70)];
    assert_eq!(encode_events(&events), vec![68, 33, 127 | 0b1000_0000]);
    assert!(encode_events(&vec![]).is_empty());
    assert_eq!(encode_events(&vec![KeyEvent::Release(0, 2)]), vec![0b1000_0010]);
    let full: Vec<KeyEvent> = (0..15u8).map(|j| KeyEvent::Release(0, j)).collect();
    let bytes = encode_events(&full);
    let mut expected: Vec<u8> = (0..15u8).collect();
    expected[14] |= 0b1000_0000;
    assert_eq!(bytes, expected);
    assert!(bytes[..14].iter().all(|&b| b & 0b1000_0000 == 0));
}

#[test]
fn end_bit_does_not_change_the_event() {
    for b in 0..128u8 {
        assert_eq!(decode_byte(b | 0b1000_0000), decode_byte(b));
    }
    let events = vec![KeyEvent::Press(0, 4), KeyEvent::Release(0, 33)];
    let decoded: Vec<KeyEvent> = encode_events(&events).into_iter().map(decode_byte).collect();
    assert_eq!(decoded, events);
}

#[test]
fn rx_accepts_only_clean_bytes() {
    assert!(rx_byte_ready(quiet_status()));
    assert!(!rx_byte_ready(RxStatus { rx_interrupt: false, ..quiet_status() }));
    assert!(!rx_byte_ready(RxStatus { rx_empty: true, ..quiet_status() }));
    assert!(!rx_byte_ready(RxStatus { overrun: true, ..quiet_status() }));
    assert!(!rx_byte_ready(RxStatus { break_error: true, ..quiet_status() }));
    assert!(!rx_byte_ready(RxStatus { parity_error: true, ..quiet_status() }));
    assert!(!rx_byte_ready(RxStatus { framing_error: true, ..quiet_status() }));
}

#[test]
fn route_right_keeps_events() {
    match route_events(true, vec![KeyEvent::Press(0, 0), KeyEvent::Release(0, 16)]) {
        ScanOutput::Local(v) => assert_eq!(v, vec![KeyEvent::Press(0, 5), KeyEvent::Release(0, 36)]),
        _ => panic!("right half keeps its events"),
    }
}

#[test]
fn route_left_sends_bytes() {
    match route_events(false, vec![KeyEvent::Press(0, 0), KeyEvent::Release(0, 16)]) {
        ScanOutput::Serial(b) => assert_eq!(b, vec![64 + 4, 33 + 128]),
        _ => panic!("left half sends its events"),
    }
}

#[test]
fn route_left_overflows_past_fifteen() {
    let fifteen: Vec<KeyEvent> = (0..15u8).map(|j| KeyEvent::Press(0, j)).collect();
    match route_events(false, fifteen) {
        ScanOutput::Serial(b) => assert_eq!(b.len(), 15),
        _ => panic!("fifteen events fit"),
    }
    let sixteen: Vec<KeyEvent> = (0..16u8).map(|j| KeyEvent::Press(0, j)).collect();
    assert!(matches!(route_events(false, sixteen), ScanOutput::Overflow));
    let sixteen_right: Vec<KeyEvent> = (0..16u8).map(|j| KeyEvent::Press(0, j)).collect();
    match route_events(true, sixteen_right) {
        ScanOutput::Local(v) => assert_eq!(v.len(), 16),
        _ => panic!("the right half has no batch limit"),
    }
}

#[test]
fn scan_debounces_for_thirty_updates() {
    let mut debouncer = new_debouncer();
    let mut pressed = [[false; 17]; 1];
    pressed[0][0] = true;
    for _ in 0..30 {
        match scan(&mut debouncer, pressed, true) {
            ScanOutput::Local(v) => assert!(v.is_empty()),
            _ => panic!("right half"),
        }
    }
    match scan(&mut debouncer, pressed, true) {
        ScanOutput::Local(v) => assert_eq!(v, vec![KeyEvent::Press(0, 5)]),
        _ => panic!("right half"),
    }
}

#[test]
fn scan_left_sends_release_after_press() {
    let mut debouncer = new_debouncer();
    let mut pressed = [[false; 17]; 1];
    pressed[0][16] = true;
    let mut sent = Vec::new();
    for _ in 0..31 {
        if let ScanOutput::Serial(b) = scan(&mut debouncer, pressed, false) {
            sent.extend(b);
        }
    }
    pressed[0][16] = false;
    for _ in 0..31 {
        if let ScanOutput::Serial(b) = scan(&mut debouncer, pressed, false) {
            sent.extend(b);
        }
    }
    assert_eq!(sent, vec![128 + 64 + 33, 128 + 33]);
    assert_eq!(decode_byte(sent[0]), KeyEvent::Press(0, 33));
}

fn key(kc: KeyCode) -> KeyAction {
    KeyAction::Simple(SimpleAction::Key(kc))
}

#[test]
fn handle_event_queues_then_reports() {
    let mut layout = new_layout(&vec![vec![vec![key(KeyCode::A), key(KeyCode::B)]]]);
    assert!(matches!(handle_event(&mut layout, Some(KeyEvent::Press(0, 1))), Handled::Queued));
    match handle_event(&mut layout, None) {
        Handled::Report(r) => assert_eq!(r.as_bytes(), &[0, 0, 0x05, 0, 0, 0, 0, 0]),
        Handled::Queued => panic!("a tick gives a report"),
    }
    assert!(matches!(handle_event(&mut layout, Some(KeyEvent::Release(0, 1))), Handled::Queued));
    match handle_event(&mut layout, None) {
        Handled::Report(r) => assert_eq!(r.as_bytes(), &[0; 8]),
        Handled::Queued => panic!("a tick gives a report"),
    }
}

#[test]
fn hold_tap_turns_into_hold_after_timeout() {
    let keymap = vec![vec![vec![KeyAction::HoldTap {
        timeout: 2,
        hold: SimpleAction::Key(KeyCode::LShift),
        tap: SimpleAction::Key(KeyCode::A),
    }]]];
    let mut layout = new_layout(&keymap);
    assert!(matches!(handle_event(&mut layout, Some(KeyEvent::Press(0, 0))), Handled::Queued));
    match handle_event(&mut layout, None) {
        Handled::Report(r) => assert_eq!(r.as_bytes(), &[0; 8]),
        Handled::Queued => panic!("a tick gives a report"),
    }
    match handle_event(&mut layout, None) {
        Handled::Report(r) => assert_eq!(r.as_bytes(), &[0b10, 0, 0, 0, 0, 0, 0, 0]),
        Handled::Queued => panic!("a tick gives a report"),
    }
}

#[test]
fn layer_key_switches_layer() {
    let keymap = vec![
        vec![vec![KeyAction::Simple(SimpleAction::Layer(1)), key(KeyCode::A)]],
        vec![vec![KeyAction::Simple(SimpleAction::Trans), key(KeyCode::Kb1)]],
    ];
    let mut layout = new_layout(&keymap);
    handle_event(&mut layout, Some(KeyEvent::Press(0, 0)));
    handle_event(&mut layout, None);
    handle_event(&mut layout, Some(KeyEvent::Press(0, 1)));
    match handle_event(&mut layout, None) {
        Handled::Report(r) => assert_eq!(r.as_bytes(), &[0, 0, 0x1e, 0, 0, 0, 0, 0]),
        Handled::Queued => panic!("a tick gives a report"),
    }
}

#[test]
fn short_bounce_is_never_reported() {
    let mut debouncer = new_debouncer();
    let mut pressed = [[false; 17]; 1];
    pressed[0][3] = true;
    for _ in 0..30 {
        assert!(matches!(scan(&mut debouncer, pressed, false), ScanOutput::Serial(b) if b.is_empty()));
    }
    let released = [[false; 17]; 1];
    for _ in 0..40 {
        assert!(matches!(scan(&mut debouncer, released, false), ScanOutput::Serial(b) if b.is_empty()));
    }
}

#[test]
fn custom_actions_restart() {
    assert_eq!(restart_for(CustomActions::Uf2), Restart::UsbBoot);
    assert_eq!(restart_for(CustomActions::Reset), Restart::System);
}

#[test]
fn unchanged_report_is_not_sent() {
    assert_eq!(
        send_step(SendState::SettingReport, Feedback::ReportSet(false)),
        (SendState::Done, Command::Finish)
    );
}

#[test]
fn unconfigured_device_gets_nothing() {
    let (s, c) = send_step(SendState::SettingReport, Feedback::ReportSet(true));
    assert_eq!(c, Command::QueryDevice);
    assert_eq!(send_step(s, Feedback::DeviceState(false)), (SendState::Done, Command::Finish));
}

#[test]
fn write_repeats_while_nothing_written() {
    let (s, _) = send_step(SendState::SettingReport, Feedback::ReportSet(true));
    let (s, c) = send_step(s, Feedback::DeviceState(true));
    assert_eq!(c, Command::WriteReport);
    let (s, c) = send_step(s, Feedback::Wrote(0));
    assert_eq!((s, c), (SendState::Writing, Command::WriteReport));
    assert_eq!(send_step(s, Feedback::Wrote(8)), (SendState::Done, Command::Finish));
    assert_eq!(send_step(SendState::Writing, Feedback::WriteFailed), (SendState::Done, Command::Finish));
    assert_eq!(send_step(SendState::Done, Feedback::Wrote(0)), (SendState::Done, Command::Finish));
}
