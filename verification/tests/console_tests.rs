use console_thingy::apply_command;
use console_thingy::scrollback::Scrollback;
use console_thingy::Command;
use console_thingy::Input;
use console_thingy::InputMode;

#[test]
fn push_command_adds_newest_entry() {
    let mut input = Input::new();
    let mut sb = Scrollback::new();
    let mut shutdown = false;
    let r = apply_command(Command::Push("one".to_string()), &mut input, &mut sb, &mut shutdown);
    apply_command(Command::Push("two".to_string()), &mut input, &mut sb, &mut shutdown);
    assert!(!r);
    assert!(!shutdown);
    assert_eq!(sb.events.len(), 2);
    assert_eq!(sb.events[0].as_text().as_str(), "two");
    assert_eq!(sb.events[1].as_text().as_str(), "one");
}

#[test]
fn set_suggestion_command_opens_slot() {
    let mut input = Input::new();
    let mut sb = Scrollback::new();
    let mut shutdown = false;
    apply_command(Command::SetSuggestion("help".to_string()), &mut input, &mut sb, &mut shutdown);
    match &input.mode {
        InputMode::Suggesting(s) => assert_eq!(s, "help"),
        _ => panic!("expected a suggestion slot"),
    }
}

#[test]
fn reset_commands_clear_their_piece() {
    let mut input = Input::new();
    let mut sb = Scrollback::new();
    let mut shutdown = false;
    input.apply_char('a');
    sb.set_columns(10);
    sb.push("line".to_string());
    sb.recompute_bounds(1, 1);
    sb.scroll_by(1);
    assert_eq!(sb.scroll, 1);
    apply_command(Command::ResetInput, &mut input, &mut sb, &mut shutdown);
    assert_eq!(input.buffer.as_text().as_str(), "");
    apply_command(Command::ResetScroll, &mut input, &mut sb, &mut shutdown);
    assert_eq!(sb.scroll, 0);
    assert_eq!(sb.events.len(), 1);
    apply_command(Command::ResetScrollback, &mut input, &mut sb, &mut shutdown);
    assert_eq!(sb.events.len(), 0);
}

#[test]
fn shutdown_command_sets_the_flag() {
    let mut input = Input::new();
    let mut sb = Scrollback::new();
    let mut shutdown = false;
    let r = apply_command(Command::Shutdown, &mut input, &mut sb, &mut shutdown);
    assert!(r);
    assert!(shutdown);
    // the flag stays set for later commands
    let r = apply_command(Command::Push("bye".to_string()), &mut input, &mut sb, &mut shutdown);
    assert!(r);
}
