use baro_bot::command::get_command;

#[test]
fn a_slash_starts_a_command() {
    assert_eq!(get_command("/ping"), Some("ping".to_string()));
    assert_eq!(get_command("/repeat on 123"), Some("repeat on 123".to_string()));
    assert_eq!(get_command("/"), Some(String::new()));
    assert_eq!(get_command("/复读"), Some("复读".to_string()));
}

#[test]
fn other_messages_are_no_commands() {
    assert_eq!(get_command("ping"), None);
    assert_eq!(get_command(""), None);
    assert_eq!(get_command(" /ping"), None);
    assert_eq!(get_command("／ping"), None);
}

#[test]
fn prefix_and_command_give_back_the_message() {
    for msg in ["/a b c", "/", "//x", "/é"] {
        let c = get_command(msg).unwrap();
        assert_eq!(format!("/{c}"), msg);
    }
}
