use console_thingy::ConsoleEvent;
use console_thingy::Input;
use console_thingy::InputMode;

fn suggestion_of(input: &Input) -> Option<String> {
    match &input.mode {
        InputMode::Suggesting(s) => Some(s.clone()),
        _ => None,
    }
}

#[test]
fn typing_appends_and_notifies() {
    let mut input = Input::new();
    let ev = input.apply_char('h');
    assert!(matches!(ev, Some(ConsoleEvent::InputBufferChanged)));
    input.apply_char('i');
    assert_eq!(input.buffer.as_text().as_str(), "hi");
}

#[test]
fn backspace_erases_last_character() {
    let mut input = Input::new();
    input.apply_char('h');
    input.apply_char('i');
    let ev = input.apply_char('\u{8}');
    assert!(matches!(ev, Some(ConsoleEvent::InputBufferChanged)));
    assert_eq!(input.buffer.as_text().as_str(), "h");
    input.apply_char('\u{8}');
    let ev = input.apply_char('\u{8}');
    assert!(matches!(ev, Some(ConsoleEvent::InputBufferChanged)));
    assert_eq!(input.buffer.as_text().as_str(), "");
}

#[test]
fn submission_leaves_buffer_alone() {
    let mut input = Input::new();
    input.apply_char('o');
    input.apply_char('k');
    let ev = input.apply_char('\n');
    assert!(matches!(ev, Some(ConsoleEvent::Input)));
    let ev = input.apply_char('\r');
    assert!(matches!(ev, Some(ConsoleEvent::Input)));
    assert_eq!(input.buffer.as_text().as_str(), "ok");
}

#[test]
fn tab_is_ignored() {
    let mut input = Input::new();
    input.apply_char('a');
    let ev = input.apply_char('\t');
    assert!(ev.is_none());
    assert_eq!(input.buffer.as_text().as_str(), "a");
}

#[test]
fn matching_character_shortens_suggestion() {
    let mut input = Input::new();
    input.apply_char('/');
    input.set_suggestion("quit".to_string());
    input.apply_char('q');
    assert_eq!(suggestion_of(&input), Some("uit".to_string()));
    input.apply_char('u');
    assert_eq!(suggestion_of(&input), Some("it".to_string()));
    assert_eq!(input.buffer.as_text().as_str(), "/qu");
}

#[test]
fn mismatching_character_clears_suggestion() {
    let mut input = Input::new();
    input.set_suggestion("quit".to_string());
    input.apply_char('x');
    assert_eq!(suggestion_of(&input), Some(String::new()));
    assert_eq!(input.buffer.as_text().as_str(), "x");
}

#[test]
fn backspace_clears_suggestion() {
    let mut input = Input::new();
    input.apply_char('q');
    input.set_suggestion("uit".to_string());
    input.apply_char('\u{8}');
    assert_eq!(suggestion_of(&input), Some(String::new()));
}

#[test]
fn complete_suggestion_on_empty_returns_false() {
    let mut input = Input::new();
    input.apply_char('a');
    // no suggestion slot at all
    assert!(!input.complete_suggestion());
    assert_eq!(input.buffer.as_text().as_str(), "a");
    // an empty suggestion
    input.set_suggestion(String::new());
    assert!(!input.complete_suggestion());
    assert_eq!(input.buffer.as_text().as_str(), "a");
    assert_eq!(suggestion_of(&input), Some(String::new()));
}

#[test]
fn complete_suggestion_moves_text_into_buffer() {
    let mut input = Input::new();
    input.apply_char('/');
    input.apply_char('q');
    input.set_suggestion("uit".to_string());
    assert!(input.complete_suggestion());
    assert_eq!(input.buffer.as_text().as_str(), "/quit");
    assert_eq!(suggestion_of(&input), Some(String::new()));
}

#[test]
fn secure_mode_keeps_typed_text_until_cleared() {
    let mut input = Input::new();
    input.set_secure();
    assert!(matches!(input.mode, InputMode::Secure));
    input.apply_char('p');
    input.apply_char('w');
    assert_eq!(input.buffer.as_text().as_str(), "pw");
    input.clear_secure();
    assert!(matches!(input.mode, InputMode::Text));
    assert_eq!(input.buffer.as_text().as_str(), "");
}

#[test]
fn clear_input_closes_suggestion_slot() {
    let mut input = Input::new();
    input.apply_char('q');
    input.set_suggestion("uit".to_string());
    input.clear_input();
    assert_eq!(input.buffer.as_text().as_str(), "");
    assert!(matches!(input.mode, InputMode::Text));
}

#[test]
fn clear_input_keeps_secure_mode() {
    let mut input = Input::new();
    input.set_secure();
    input.apply_char('s');
    input.clear_input();
    assert_eq!(input.buffer.as_text().as_str(), "");
    assert!(matches!(input.mode, InputMode::Secure));
}

#[test]
fn input_clone_copies_text_and_mode() {
    let mut input = Input::new();
    input.apply_char('a');
    input.set_suggestion("bc".to_string());
    let copy = input.clone();
    assert_eq!(copy.buffer.as_text().as_str(), "a");
    assert_eq!(suggestion_of(&copy), Some("bc".to_string()));
}
