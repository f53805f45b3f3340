use curiosity::interface::{Event, KeyCode, KeyEvent, KeyEventKind, Ui};

#[test]
fn handle_key_event() {
    let mut ui = Ui::default();
    ui.handle_key_event(KeyCode::Char('q').into());
    assert!(ui.exit);
}

#[test]
fn a_new_interface_runs() {
    assert!(!Ui::default().exit);
}

#[test]
fn other_keys_change_nothing() {
    let mut ui = Ui::default();
    ui.handle_key_event(KeyCode::Char('Q').into());
    ui.handle_key_event(KeyCode::Char('x').into());
    ui.handle_key_event(KeyCode::Other.into());
    assert!(!ui.exit);
}

#[test]
fn a_key_code_becomes_a_press() {
    let event: KeyEvent = KeyCode::Char('q').into();
    assert_eq!(event, KeyEvent { code: KeyCode::Char('q'), kind: KeyEventKind::Press });
}

#[test]
fn exit_sets_the_flag() {
    let mut ui = Ui::default();
    ui.exit();
    assert!(ui.exit);
    ui.exit();
    assert!(ui.exit);
}

#[test]
fn pressing_q_quits() {
    let mut ui = Ui::default();
    ui.handle_events(Event::Key(KeyEvent { code: KeyCode::Char('q'), kind: KeyEventKind::Press }));
    assert!(ui.exit);
}

#[test]
fn releasing_q_does_not_quit() {
    let mut ui = Ui::default();
    ui.handle_events(Event::Key(KeyEvent {
        code: KeyCode::Char('q'),
        kind: KeyEventKind::Release,
    }));
    ui.handle_events(Event::Key(KeyEvent { code: KeyCode::Char('q'), kind: KeyEventKind::Repeat }));
    assert!(!ui.exit);
}

#[test]
fn other_events_change_nothing() {
    let mut ui = Ui::default();
    ui.handle_events(Event::Other);
    ui.handle_events(Event::Key(KeyEvent { code: KeyCode::Other, kind: KeyEventKind::Press }));
    assert!(!ui.exit);
}

#[test]
fn once_asked_to_quit_it_stays_so() {
    let mut ui = Ui::default();
    ui.handle_key_event(KeyCode::Char('q').into());
    ui.handle_events(Event::Other);
    ui.handle_key_event(KeyCode::Char('x').into());
    assert!(ui.exit);
}
