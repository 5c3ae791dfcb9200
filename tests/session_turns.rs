use groq_chat::conversation::{Conversation, Role};
use groq_chat::request::{create_request_body, MAX_TOKENS, MODEL};
use groq_chat::session::{begin_turn, is_exit_command, matches_exit_word, TurnAction};
use groq_chat::tokens::MAX_COUNTED_CHARS;

#[test]
fn exit_sentinel_variants() {
    assert!(is_exit_command("exit"));
    assert!(is_exit_command("Exit"));
    assert!(is_exit_command("  EXIT  "));
    assert!(is_exit_command("\teXiT\n"));
    assert!(!is_exit_command("exit now"));
    assert!(!is_exit_command("exi t"));
    assert!(!is_exit_command(""));
    assert!(!is_exit_command("quit"));
    assert!(is_exit_command("\u{3000}exit\u{a0}"));
}

#[test]
fn exit_word_on_trimmed_text() {
    assert!(matches_exit_word("eXIT"));
    assert!(!matches_exit_word(" exit"));
    assert!(!matches_exit_word("exits"));
    assert!(!matches_exit_word("éxit"));
}

#[test]
fn exit_turn_changes_nothing() {
    let mut c = Conversation::new();
    c.add_message(Role::User, "hi");
    for input in ["exit", "Exit", "  EXIT  "] {
        assert!(matches!(begin_turn(&mut c, input), TurnAction::Exit));
        assert_eq!(c.history().len(), 1);
    }
}

#[test]
fn ordinary_turn_appends_and_builds_request() {
    let mut c = Conversation::new();
    match begin_turn(&mut c, "What is Rust?") {
        TurnAction::Send(body) => {
            assert_eq!(body.messages.len(), 1);
            assert_eq!(body.messages[0].role, Role::User);
            assert_eq!(body.messages[0].content, "What is Rust?");
            assert_eq!(body.model, "llama3-70b-8192");
            assert_eq!(body.max_tokens, 8000);
            assert_eq!(body.temperature_hundredths, 70);
            assert_eq!(body.top_p_hundredths, 90);
            assert!(body.stream);
            assert!(body.stop.is_none());
        }
        _ => panic!("expected a request"),
    }
    assert_eq!(c.history().len(), 1);
    c.add_message(Role::Assistant, "A language.");
    match begin_turn(&mut c, "") {
        TurnAction::Send(body) => {
            assert_eq!(body.messages.len(), 3);
            assert_eq!(body.messages[2].content, "");
        }
        _ => panic!("empty input is a turn"),
    }
    assert_eq!(c.history().len(), 3);
}

#[test]
fn request_body_carries_messages_and_fixed_parameters() {
    let mut c = Conversation::new();
    c.add_message(Role::User, "a");
    c.add_message(Role::Assistant, "b");
    let body = create_request_body(c.history());
    assert_eq!(body.messages.len(), 2);
    assert_eq!(body.messages[1].role, Role::Assistant);
    assert_eq!(body.messages[1].content, "b");
    assert_eq!(body.model, MODEL);
    assert_eq!(body.max_tokens, MAX_TOKENS);
    assert!(create_request_body(&[]).messages.is_empty());
}

#[test]
fn overlong_input_is_refused_without_appending() {
    let mut c = Conversation::new();
    c.add_message(Role::User, "hi");
    let long = "a".repeat(MAX_COUNTED_CHARS + 1);
    assert!(matches!(begin_turn(&mut c, &long), TurnAction::TooLong));
    assert_eq!(c.history().len(), 1);
    let fits = "b ".repeat(MAX_COUNTED_CHARS / 2);
    assert!(matches!(begin_turn(&mut c, &fits), TurnAction::Send(_)));
    assert_eq!(c.history().len(), 2);
}

#[test]
fn overlong_held_message_is_refused() {
    let mut c = Conversation::new();
    c.add_message(Role::Assistant, &"z".repeat(MAX_COUNTED_CHARS + 1));
    assert!(matches!(begin_turn(&mut c, "next"), TurnAction::TooLong));
    assert_eq!(c.history().len(), 1);
    assert!(matches!(begin_turn(&mut c, " exit "), TurnAction::Exit));
}
