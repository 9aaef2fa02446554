use zaimeter::agent::{
    after_reload, announcement, fetch_failure, first_step, next_step, notification_script,
    parse_args, polling_interval, Command, RunSettings, Step,
};
use zaimeter::providers::{Backend, Provider};

fn args(list: &[&str]) -> Vec<String> {
    list.iter().map(|s| s.to_string()).collect()
}

fn tiered() -> Provider {
    Provider::Claude(backend())
}

fn backend() -> Backend {
    Backend {
        id: "tiered".to_string(),
        title: "Tiered".to_string(),
        command: "tiered-login".to_string(),
    }
}

#[test]
fn arguments_ask_for_a_command() {
    assert_eq!(parse_args(&args(&["zaimeter"])), Command::Run);
    assert_eq!(parse_args(&args(&["zaimeter", "--once"])), Command::Once);
    assert_eq!(parse_args(&args(&["zaimeter", "--refresh"])), Command::Once);
    assert_eq!(parse_args(&args(&["zaimeter", "--once", "--status"])), Command::Status);
    assert_eq!(parse_args(&args(&["zaimeter", "--onc", "-status"])), Command::Run);
}

fn course(settings: RunSettings, results: &[bool]) -> Vec<Step> {
    let mut step = first_step(settings);
    let mut r = vec![step];
    for ok in results {
        step = next_step(settings, step, *ok);
        r.push(step);
    }
    r
}

#[test]
fn runs_take_their_course() {
    let settings = |command: Command, notice: bool| RunSettings {
        command,
        show_startup_notification: notice,
        polling_interval_seconds: 120,
    };
    assert_eq!(
        course(settings(Command::Status, true), &[true, true]),
        vec![Step::PrintStatus, Step::Exit, Step::Exit]
    );
    assert_eq!(
        course(settings(Command::Once, true), &[true, true, false, true]),
        vec![Step::CreateClient, Step::Backfill, Step::Poll, Step::Exit, Step::Exit]
    );
    assert_eq!(
        course(settings(Command::Run, true), &[true, true, true, false, true]),
        vec![
            Step::CreateClient,
            Step::Backfill,
            Step::Announce,
            Step::Poll,
            Step::Sleep(120),
            Step::Poll
        ]
    );
    assert_eq!(
        course(settings(Command::Run, false), &[true, true]),
        vec![Step::CreateClient, Step::Backfill, Step::Poll]
    );
    assert_eq!(
        course(settings(Command::Run, true), &[false, true]),
        vec![Step::CreateClient, Step::ReportClientFailure, Step::Exit]
    );
}

#[test]
fn polls_are_a_minute_apart_at_least() {
    assert_eq!(polling_interval(0), 60);
    assert_eq!(polling_interval(59), 60);
    assert_eq!(polling_interval(60), 60);
    assert_eq!(polling_interval(120), 120);
    assert_eq!(polling_interval(u64::MAX), u64::MAX);
}

#[test]
fn providers_name_themselves() {
    assert_eq!(Provider::Zai.name(), "zai");
    assert_eq!(tiered().name(), "tiered");
    assert_eq!(
        Provider::Zai.login_hint(),
        "Z.ai token not found. Set GLM_API_KEY in ~/.hermes/.env."
    );
    assert_eq!(
        tiered().login_hint(),
        "Tiered login not found. Run `tiered-login` in Terminal."
    );
    for name in ["tiered", "zai"] {
        assert_eq!(Provider::from_config(name, backend()).name(), name);
    }
    assert_eq!(Provider::from_config("anything", backend()).name(), "zai");
    assert_eq!(Provider::from_config("Tiered", backend()).name(), "zai");
    assert_eq!(Provider::from_config("", backend()).name(), "zai");
}

#[test]
fn provider_failures_have_texts() {
    assert_eq!(Provider::Zai.client_failure("tls"), "Failed to create Z.ai client: tls");
    assert_eq!(tiered().client_failure("tls"), "Failed to create Tiered client: tls");
    assert_eq!(
        Provider::Zai.credential_failure("io"),
        "[cred] Z.ai token not found. Set GLM_API_KEY in ~/.hermes/.env."
    );
    assert_eq!(
        tiered().credential_failure("io"),
        "[cred] Tiered credentials unavailable: io"
    );
}

#[test]
fn only_missing_credentials_get_the_hint() {
    for provider in [Provider::Zai, tiered()] {
        let error = provider.credential_failure("io");
        let r = fetch_failure(&error, true, &provider);
        assert_eq!(r.log_line, format!("Usage poll failed: {error}"));
        let hint = r.hint.unwrap();
        assert_eq!(hint.title, "ZaiMeter");
        assert_eq!(hint.message, provider.login_hint());
        assert!(fetch_failure(&error, false, &provider).hint.is_none());
        assert!(fetch_failure("[network_error] x", true, &provider).hint.is_none());
        assert!(fetch_failure("[cred", true, &provider).hint.is_none());
        assert!(fetch_failure(" [cred]", true, &provider).hint.is_none());
    }
}

#[test]
fn running_is_announced() {
    let r = announcement();
    assert_eq!((r.title.as_str(), r.message.as_str()), ("ZaiMeter", "Running in the macOS menu bar."));
}

#[test]
fn reload_makes_a_client_where_one_is_due() {
    assert!(!after_reload(true, &tiered(), &tiered()));
    assert!(!after_reload(true, &Provider::Zai, &Provider::Zai));
    assert!(after_reload(true, &Provider::Zai, &tiered()));
    assert!(after_reload(true, &tiered(), &Provider::Zai));
    assert!(after_reload(false, &Provider::Zai, &Provider::Zai));
}

#[test]
fn notifications_quote_their_texts() {
    assert_eq!(
        notification_script("A \"b\"", r"c\d"),
        r#"display notification "c\\d" with title "A \"b\"""#
    );
    assert_eq!(
        notification_script("", ""),
        "display notification \"\" with title \"\""
    );
}
