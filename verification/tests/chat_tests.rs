use baro_bot::chat::{mentions_self, ChatCore, ChatMessage, GroupChat, MentionSegment};

fn make_core() -> ChatCore {
    ChatCore::new("http://api", "key", "model-x", 256, "You are a cat.")
}

fn user(name: &str, text: &str) -> ChatMessage {
    ChatMessage::User { name: name.to_string(), content: text.to_string() }
}

#[test]
fn a_new_chat_has_no_history() {
    let c = make_core();
    assert!(c.messages.is_empty());
    assert_eq!(c.model, "model-x");
    assert_eq!(c.max_token, 256);
    assert_eq!(c.prompt, "You are a cat.");
}

#[test]
fn the_request_wraps_the_history() {
    let mut c = make_core();
    c.add_user_text("hello", "Bob");
    let r = c.chat_request("meow?", "Ann");
    assert_eq!(
        r,
        vec![
            ChatMessage::System { content: "You are a cat.".to_string() },
            user("Bob", "hello"),
            user("Ann", "meow?"),
        ]
    );
}

#[test]
fn an_answer_joins_the_history() {
    let mut c = make_core();
    let said = c.chat("hi", "Ann", Some("meow".to_string()), None);
    assert_eq!(said, "meow");
    assert_eq!(
        c.messages,
        vec![
            ChatMessage::System { content: "You are a cat.".to_string() },
            user("Ann", "hi"),
            ChatMessage::Assistant { content: Some("meow".to_string()), refusal: None },
        ]
    );
    let said = c.chat("again", "Ann", None, Some("no".to_string()));
    assert_eq!(said, "");
    assert_eq!(c.messages.len(), 6);
    assert_eq!(c.messages[0], ChatMessage::System { content: "You are a cat.".to_string() });
    assert_eq!(c.messages[1], ChatMessage::System { content: "You are a cat.".to_string() });
    assert_eq!(c.messages[5], ChatMessage::Assistant { content: None, refusal: Some("no".to_string()) });
}

#[test]
fn clearing_forgets_everything() {
    let mut c = make_core();
    c.add_user_text("a", "b");
    c.clear_memory();
    assert!(c.messages.is_empty());
}

#[test]
fn quiet_turns_count_and_replies_trim() {
    let mut g = GroupChat::new(make_core(), 1, Some(3));
    assert!(g.may_stay_quiet(false));
    assert!(!g.may_stay_quiet(true));
    g.stay_quiet("one", "A");
    g.stay_quiet("two", "B");
    assert_eq!(g.count, 2);
    assert_eq!(g.cc.messages.len(), 2);
    g.prepare_reply();
    assert_eq!(g.count, 0);
    assert_eq!(g.cc.messages, vec![user("B", "two")]);
    g.prepare_reply();
    assert_eq!(g.cc.messages.len(), 1);
}

#[test]
fn a_group_without_quiet_turns_always_answers() {
    let g = GroupChat::new(make_core(), 5, Some(0));
    assert!(!g.may_stay_quiet(false));
    let g = GroupChat::new(make_core(), 5, None);
    assert!(g.may_stay_quiet(false));
}

#[test]
fn mentions_of_the_bot() {
    let segs = vec![
        MentionSegment { kind: "text".to_string(), qq: None },
        MentionSegment { kind: "at".to_string(), qq: Some("10001".to_string()) },
    ];
    assert!(mentions_self(&segs, 10001));
    assert!(!mentions_self(&segs, 10002));
    let segs = vec![MentionSegment { kind: "text".to_string(), qq: Some("10001".to_string()) }];
    assert!(!mentions_self(&segs, 10001));
    assert!(!mentions_self(&vec![], 1));
}

#[test]
fn the_request_carries_model_and_length() {
    let mut c = make_core();
    c.add_user_text("hello", "Bob");
    let q = c.request("meow?", "Ann");
    assert_eq!(q.model, "model-x");
    assert_eq!(q.max_tokens, 256);
    assert_eq!(q.messages, c.chat_request("meow?", "Ann"));
}
