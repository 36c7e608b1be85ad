use companion::notify::{excited_label, read_line};

const CALL: &str = "method call time=1700000000.1 sender=:1.42 -> destination=:1.17 serial=7 path=/org/freedesktop/Notifications; interface=org.freedesktop.Notifications; member=Notify";

#[test]
fn call_line_arms_the_reader() {
    assert_eq!(read_line(false, CALL), (true, None));
    assert_eq!(read_line(true, CALL), (true, None));
}

#[test]
fn app_name_follows_the_call() {
    let (armed, app) = read_line(true, "   string \"Slack\"");
    assert!(!armed);
    assert_eq!(app.as_deref(), Some("Slack"));
}

#[test]
fn unarmed_reader_ignores_strings() {
    assert_eq!(read_line(false, "   string \"Slack\""), (false, None));
}

#[test]
fn unexpected_line_still_reports() {
    assert_eq!(read_line(true, "   uint32 0"), (false, Some(String::new())));
}

#[test]
fn other_string_shapes_keep_waiting() {
    assert_eq!(read_line(true, "\tstring_list"), (true, None));
}

#[test]
fn trailing_quotes_are_trimmed() {
    let (_, app) = read_line(true, "string \"Thunder\"\"\"  \r");
    assert_eq!(app.as_deref(), Some("Thunder"));
    let (_, empty) = read_line(true, "  string \"\"");
    assert_eq!(empty.as_deref(), Some(""));
}

#[test]
fn full_monitor_transcript() {
    let lines = [
        "signal time=1.0 sender=org.freedesktop.DBus -> destination=:1.5 serial=2",
        CALL,
        "   string \"Firefox\"",
        "   uint32 0",
        CALL,
        "   array [",
    ];
    let mut armed = false;
    let mut seen = Vec::new();
    for l in lines {
        let (a, app) = read_line(armed, l);
        armed = a;
        if let Some(app) = app {
            seen.push(app);
        }
    }
    assert_eq!(seen, vec!["Firefox".to_string(), String::new()]);
}

#[test]
fn excited_labels() {
    assert_eq!(excited_label("Slack"), "Ooh! Slack!");
    assert_eq!(excited_label(""), "Ooh! What's that?");
    assert_eq!(excited_label("Thunderbird Mail Client Pro"), "Ooh! Thunderbird Mail C!");
    assert_eq!(excited_label("日本語のアプリケーション名前長い長い長い長い"), "Ooh! 日本語のアプリケーション名前長い長い!");
}
