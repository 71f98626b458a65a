use remote_lab::session::{
    default_log_path, prompt_decision, Announcement, Consent, GateStep, Notice, Supervisor,
};

fn some(s: &str) -> Option<String> {
    Some(s.to_string())
}

#[test]
fn log_hangs_from_the_home_directory() {
    assert_eq!(
        default_log_path(some("/home/u"), some("C:\\Users\\u")),
        vec!["/home/u", ".remote-lab", "sessions.log"]
    );
}

#[test]
fn log_hangs_from_the_user_profile() {
    let path = default_log_path(None, some("C:\\Users\\u"));
    assert_eq!(path, vec!["C:\\Users\\u", ".remote-lab", "sessions.log"]);
}

#[test]
fn log_hangs_from_the_working_directory() {
    assert_eq!(default_log_path(None, None), vec![".", ".remote-lab", "sessions.log"]);
}

#[test]
fn supervisor_keeps_its_log_path() {
    let supervisor = Supervisor::new(true, some("/root"), None);
    assert_eq!(supervisor.log_path(), &vec!["/root", ".remote-lab", "sessions.log"]);
}

#[test]
fn lines_that_say_yes() {
    for line in ["y", "Y", "yes", "YES", "yEs", "  y\t", "\u{3000}yes\r"] {
        assert_eq!(prompt_decision(&some(line)), Consent::Allow);
    }
}

#[test]
fn lines_that_do_not_say_yes() {
    for line in ["", " ", "n", "no", "ye", "yess", "y y", "yes!", "j"] {
        assert_eq!(prompt_decision(&some(line)), Consent::Deny);
    }
}

#[test]
fn no_line_denies() {
    assert_eq!(prompt_decision(&None), Consent::Deny);
}

#[test]
fn gate_is_open_where_no_consent_is_required() {
    let supervisor = Supervisor::new(false, None, None);
    assert_eq!(supervisor.gate("10.0.0.1", false, 30), GateStep::Decided(Consent::Allow));
}

#[test]
fn gate_asks_the_operator() {
    let supervisor = Supervisor::new(false, None, None);
    assert_eq!(
        supervisor.gate("10.0.0.1", true, 30),
        GateStep::Ask(
            "[remote-lab] CONSENT: allow viewer from 10.0.0.1? type `y` + Enter within 30 s to allow, anything else denies.".to_string()
        )
    );
}

#[test]
fn approval_is_remembered() {
    let mut supervisor = Supervisor::new(false, None, None);
    assert_eq!(supervisor.settle("10.0.0.1", &some("yes")), Consent::Allow);
    assert_eq!(supervisor.gate("10.0.0.1", true, 5), GateStep::Decided(Consent::Allow));
    assert!(matches!(supervisor.gate("10.0.0.2", true, 5), GateStep::Ask(_)));
    assert_eq!(supervisor.settle("10.0.0.1", &some("y")), Consent::Allow);
    assert_eq!(supervisor.gate("10.0.0.1", true, 5), GateStep::Decided(Consent::Allow));
}

#[test]
fn denial_is_not_remembered() {
    let mut supervisor = Supervisor::new(false, None, None);
    assert_eq!(supervisor.settle("::1", &some("no")), Consent::Deny);
    assert!(matches!(supervisor.gate("::1", true, 5), GateStep::Ask(_)));
    assert_eq!(supervisor.settle("::1", &None), Consent::Deny);
    assert!(matches!(supervisor.gate("::1", true, 5), GateStep::Ask(_)));
    assert_eq!(supervisor.settle("::1", &some("y")), Consent::Allow);
    assert_eq!(supervisor.settle("::1", &some("n")), Consent::Deny);
    assert_eq!(supervisor.gate("::1", true, 5), GateStep::Decided(Consent::Allow));
}

#[test]
fn connection_is_announced() {
    let supervisor = Supervisor::new(true, None, None);
    assert_eq!(
        supervisor.on_connect("10.0.0.1:5000", Some(1_700_000_000)),
        Announcement {
            console: "[remote-lab] viewer connected: 10.0.0.1:5000".to_string(),
            log: "2023-11-14T22:13:20Z CONNECT  10.0.0.1:5000".to_string(),
            notice: Some(Notice {
                summary: "Remote session started".to_string(),
                body: "Viewer connected from 10.0.0.1:5000".to_string(),
            }),
        }
    );
}

#[test]
fn end_of_a_session_is_announced() {
    let supervisor = Supervisor::new(true, None, None);
    assert_eq!(
        supervisor.on_disconnect("10.0.0.1:5000", Some(61), Some(1_700_000_061)),
        Announcement {
            console: "[remote-lab] viewer disconnected: 10.0.0.1:5000 (duration 61s)".to_string(),
            log: "2023-11-14T22:14:21Z DISCONN  10.0.0.1:5000  duration_s=61".to_string(),
            notice: Some(Notice {
                summary: "Remote session ended".to_string(),
                body: "Viewer from 10.0.0.1:5000 disconnected after 61s".to_string(),
            }),
        }
    );
}

#[test]
fn clock_that_was_set_back_gives_no_duration() {
    let supervisor = Supervisor::new(false, None, None);
    let end = supervisor.on_disconnect("p", None, None);
    assert_eq!(end.log, "1970-01-01T00:00:00Z DISCONN  p  duration_s=0");
}

#[test]
fn denial_is_announced() {
    let supervisor = Supervisor::new(true, None, None);
    assert_eq!(
        supervisor.on_denied("10.0.0.1:5000", "no consent", Some(1_700_000_000)),
        Announcement {
            console: "[remote-lab] connection denied: 10.0.0.1:5000 (no consent)".to_string(),
            log: "2023-11-14T22:13:20Z DENIED   10.0.0.1:5000  reason=no consent".to_string(),
            notice: Some(Notice {
                summary: "Remote session denied".to_string(),
                body: "Blocked viewer from 10.0.0.1:5000 (no consent)".to_string(),
            }),
        }
    );
}

#[test]
fn log_is_kept_without_notifications() {
    let loud = Supervisor::new(true, None, None);
    let quiet = Supervisor::new(false, None, None);
    let clock = Some(1_700_000_000);
    for (a, b) in [
        (loud.on_connect("p", clock), quiet.on_connect("p", clock)),
        (loud.on_disconnect("p", Some(1), clock), quiet.on_disconnect("p", Some(1), clock)),
        (loud.on_denied("p", "r", clock), quiet.on_denied("p", "r", clock)),
    ] {
        assert_eq!(a.log, b.log);
        assert_eq!(a.console, b.console);
        assert!(a.notice.is_some());
        assert_eq!(b.notice, None);
    }
}
