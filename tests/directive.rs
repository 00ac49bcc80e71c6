use wfa_wts_sim::directive::{
    classify_lowered, is_exit_command, is_exit_word, parse_directive, parse_internal_cmd, parse_seconds, process_internal_cmd,
    InternalCmd, LineAction,
};

fn empty_cmd() -> InternalCmd {
    InternalCmd { key: String::new(), value: String::new() }
}

fn chars(s: &str) -> Vec<char> {
    s.chars().collect()
}

#[test]
fn directive_key_and_value_are_lowered() {
    let mut cmd = empty_cmd();
    assert!(parse_internal_cmd(&"!SLEEP!Ten!".to_string(), &mut cmd));
    assert_eq!(cmd.key, "sleep");
    assert_eq!(cmd.value, "ten");
}

#[test]
fn failed_parse_keeps_record() {
    let mut cmd = InternalCmd { key: "a".to_string(), value: "b".to_string() };
    assert!(!parse_internal_cmd(&"!x!".to_string(), &mut cmd));
    assert_eq!(cmd.key, "a");
    assert_eq!(cmd.value, "b");
}

#[test]
fn repeated_parse_agrees_whatever_came_before() {
    let mut fresh = empty_cmd();
    let mut used = InternalCmd { key: "old".to_string(), value: "99".to_string() };
    let line = "!sleep!3!".to_string();
    assert_eq!(parse_internal_cmd(&line, &mut fresh), parse_internal_cmd(&line, &mut used));
    assert_eq!(fresh.key, used.key);
    assert_eq!(fresh.value, used.value);
    assert_eq!(process_internal_cmd(&line), LineAction::Sleep(3));
    assert_eq!(process_internal_cmd(&line), LineAction::Sleep(3));
}

#[test]
fn only_one_bang_is_stripped_at_each_end() {
    let mut cmd = empty_cmd();
    assert!(!parse_directive(&chars("!!sleep!10!!"), &mut cmd));
    assert!(!parse_directive(&chars("!!!"), &mut cmd));
    assert!(!parse_directive(&chars("!"), &mut cmd));
    assert!(!parse_directive(&chars(""), &mut cmd));
    assert!(!parse_directive(&chars("!!10!"), &mut cmd));
    assert!(!parse_directive(&chars("!sleep!!"), &mut cmd));
    assert!(parse_directive(&chars("!a!b!"), &mut cmd));
    assert_eq!(cmd.key, "a");
    assert_eq!(cmd.value, "b");
}

#[test]
fn sleep_directive_is_consumed() {
    let action = process_internal_cmd(&"!sleep!10!".to_string());
    assert_eq!(action, LineAction::Sleep(10));
    assert!(action.handled_locally());
}

#[test]
fn plain_command_is_forwarded() {
    let action = process_internal_cmd(&"ca_get_version".to_string());
    assert_eq!(action, LineAction::Forward);
    assert!(!action.handled_locally());
}

#[test]
fn unknown_directive_is_forwarded() {
    let action = process_internal_cmd(&"!reboot!now!".to_string());
    assert_eq!(action, LineAction::ForwardUnknown("reboot".to_string()));
    assert!(!action.handled_locally());
}

#[test]
fn bad_sleep_value_is_reported() {
    let action = process_internal_cmd(&"!sleep!abc!".to_string());
    assert_eq!(action, LineAction::BadSleep("abc".to_string()));
    assert!(action.handled_locally());
}

#[test]
fn seconds_parse_like_unsigned_integers() {
    assert_eq!(parse_seconds(&chars("10")), Some(10));
    assert_eq!(parse_seconds(&chars("+7")), Some(7));
    assert_eq!(parse_seconds(&chars("007")), Some(7));
    assert_eq!(parse_seconds(&chars("18446744073709551615")), Some(u64::MAX));
    assert_eq!(parse_seconds(&chars("18446744073709551616")), None);
    assert_eq!(parse_seconds(&chars("")), None);
    assert_eq!(parse_seconds(&chars("+")), None);
    assert_eq!(parse_seconds(&chars("-1")), None);
    assert_eq!(parse_seconds(&chars("1 ")), None);
}

#[test]
fn exit_in_any_case() {
    assert!(is_exit_command(&"exit".to_string()));
    assert!(is_exit_command(&"EXIT".to_string()));
    assert!(is_exit_command(&"ExIt".to_string()));
    assert!(!is_exit_command(&"exit now".to_string()));
    assert!(!is_exit_command(&"".to_string()));
}

#[test]
fn exit_word_on_lowered_text() {
    assert!(is_exit_word(&chars("exit")));
    assert!(!is_exit_word(&chars("EXIT")));
    assert!(!is_exit_word(&chars("exi")));
}

#[test]
fn classify_lowered_line() {
    assert_eq!(classify_lowered(&chars("!sleep!5!")), LineAction::Sleep(5));
    assert_eq!(classify_lowered(&chars("!SLEEP!5!")), LineAction::ForwardUnknown("SLEEP".to_string()));
    assert_eq!(classify_lowered(&chars("!sleep!99999999999999999999!")), LineAction::BadSleep("99999999999999999999".to_string()));
    assert_eq!(classify_lowered(&chars("ca_get_version")), LineAction::Forward);
}
