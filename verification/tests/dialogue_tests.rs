use notification_bot::config::{BotConfig, IntervalError};
use notification_bot::dialogue::{
    ask_removal, complete_add, configure, list_hosts, next_state, parse_command, prompt_for,
    recover_state, remove_host, route, scan_reply, settle, start_task, stop_reply, stop_task,
    AuthorizedChats, Command, DialogueState, Route, StorageFault,
};
use notification_bot::probe::ProbeRun;
use notification_bot::registry::{HostEntry, HostRegistry, PersistenceError};
use notification_bot::reply::{describe_interval_error, number_hosts, render, Reply};
use notification_bot::scan::HostProbe;
use notification_bot::supervisor::{MonitoringTask, StopError, Supervisor};

fn entry(hostname: &str, online: bool) -> HostEntry {
    HostEntry { hostname: hostname.to_string(), online }
}

fn failure(detail: &str) -> PersistenceError {
    PersistenceError { detail: detail.to_string() }
}

#[test]
fn stored_state_is_recovered() {
    assert_eq!(recover_state(Ok(Some(DialogueState::WaitingForHostAdd))), DialogueState::WaitingForHostAdd);
    assert_eq!(recover_state(Ok(Some(DialogueState::Default))), DialogueState::Default);
}

#[test]
fn missing_or_failed_state_is_the_default() {
    assert_eq!(recover_state(Ok(None)), DialogueState::Default);
    assert_eq!(recover_state(Err(StorageFault)), DialogueState::Default);
}

#[test]
fn commands_are_read_by_their_prefix() {
    assert_eq!(parse_command("/status"), Some(Command::Status));
    assert_eq!(parse_command("/start"), Some(Command::Start));
    assert_eq!(parse_command("/stop"), Some(Command::Stop));
    assert_eq!(parse_command("/add"), Some(Command::Add));
    assert_eq!(parse_command("/remove"), Some(Command::Remove));
    assert_eq!(parse_command("/hosts"), Some(Command::Hosts));
    assert_eq!(parse_command("/config edit ping_interval 30"), Some(Command::Config));
    assert_eq!(parse_command("/stopwatch"), Some(Command::Stop));
    assert_eq!(parse_command("/address"), Some(Command::Add));
}

#[test]
fn other_texts_are_no_command() {
    assert_eq!(parse_command(""), None);
    assert_eq!(parse_command("hello"), None);
    assert_eq!(parse_command("/sta"), None);
    assert_eq!(parse_command(" /status"), None);
    assert_eq!(parse_command("/STATUS"), None);
    assert_eq!(parse_command("/help"), None);
}

#[test]
fn unauthenticated_chat_is_challenged_and_nothing_is_scanned() {
    let registry = HostRegistry::load("10.0.0.1\n10.0.0.2");
    let before = registry.snapshot();
    let chats = AuthorizedChats::new();
    let taken = route(DialogueState::Default, chats.contains(7), "/status", "secret");
    assert_eq!(taken, Route::Challenge);
    assert_eq!(prompt_for(taken).map(|r| render(&r)), Some("Enter password".to_string()));
    assert_eq!(next_state(taken), DialogueState::WaitingForPassword);
    assert_eq!(registry.snapshot(), before);
}

#[test]
fn unauthenticated_chat_is_challenged_whatever_it_sends() {
    for text in ["", "hello", "/start", "/config list", "secret"] {
        assert_eq!(route(DialogueState::Default, false, text, "secret"), Route::Challenge);
    }
}

#[test]
fn matching_password_admits_the_chat() {
    let mut chats = AuthorizedChats::new();
    let taken = route(DialogueState::WaitingForPassword, false, "secret", "secret");
    assert_eq!(taken, Route::Admit);
    chats.authorize(7);
    assert!(chats.contains(7));
    assert!(!chats.contains(8));
    assert_eq!(next_state(taken), DialogueState::Default);
    assert_eq!(
        prompt_for(taken).map(|r| render(&r)),
        Some("Password accepted! You can now use /start, /stop, /status, /hosts, /add, /remove.".to_string())
    );
}

#[test]
fn wrong_password_is_asked_again() {
    for attempt in ["", "Secret", "secret ", "/status"] {
        let taken = route(DialogueState::WaitingForPassword, false, attempt, "secret");
        assert_eq!(taken, Route::Reprompt);
        assert_eq!(next_state(taken), DialogueState::WaitingForPassword);
        assert_eq!(prompt_for(taken), Some(Reply::IncorrectPassword));
    }
}

#[test]
fn authorizing_twice_changes_nothing() {
    let mut chats = AuthorizedChats::new();
    chats.authorize(1);
    chats.authorize(1);
    chats.authorize(-5);
    assert!(chats.contains(1));
    assert!(chats.contains(-5));
    assert!(!chats.contains(5));
}

#[test]
fn authenticated_commands_are_run() {
    assert_eq!(route(DialogueState::Default, true, "/status", "pw"), Route::Run(Command::Status));
    assert_eq!(route(DialogueState::Default, true, "/hosts", "pw"), Route::Run(Command::Hosts));
    assert_eq!(route(DialogueState::Default, true, "something", "pw"), Route::Ignore);
    assert_eq!(prompt_for(Route::Ignore), None);
    assert_eq!(prompt_for(Route::Run(Command::Status)), None);
}

#[test]
fn commands_that_keep_the_state() {
    for command in [Command::Status, Command::Start, Command::Stop, Command::Hosts, Command::Config] {
        assert_eq!(next_state(Route::Run(command)), DialogueState::Default);
    }
    assert_eq!(next_state(Route::Ignore), DialogueState::Default);
}

#[test]
fn add_dialogue_takes_the_next_message_as_hostname() {
    let taken = route(DialogueState::Default, true, "/add", "pw");
    assert_eq!(taken, Route::Run(Command::Add));
    assert_eq!(prompt_for(taken), Some(Reply::AskHostToAdd));
    assert_eq!(next_state(taken), DialogueState::WaitingForHostAdd);
    let then = route(DialogueState::WaitingForHostAdd, true, "/status", "pw");
    assert_eq!(then, Route::AddHost);
    assert_eq!(next_state(then), DialogueState::Default);
}

#[test]
fn remove_dialogue_takes_the_next_message_as_hostname() {
    let taken = route(DialogueState::Default, true, "/remove", "pw");
    assert_eq!(taken, Route::Run(Command::Remove));
    assert_eq!(next_state(taken), DialogueState::WaitingForHostRemove);
    let then = route(DialogueState::WaitingForHostRemove, true, "10.0.0.1", "pw");
    assert_eq!(then, Route::RemoveHost);
    assert_eq!(next_state(then), DialogueState::Default);
}

#[test]
fn start_twice_answers_already_running() {
    let mut supervisor = Supervisor::new();
    let config = BotConfig::default();
    let first = start_task(&mut supervisor, &config, 1001);
    assert_eq!(first.reply, Reply::Started(1001));
    let launch = first.launch.unwrap();
    assert_eq!(launch.task, MonitoringTask { owner: 1001, interval_secs: 60 });
    let second = start_task(&mut supervisor, &config, 1002);
    assert_eq!(second.reply, Reply::AlreadyRunning);
    assert!(second.launch.is_none());
    assert_eq!(render(&second.reply), "Task is already running!");
    assert_eq!(supervisor.current(), Some(MonitoringTask { owner: 1001, interval_secs: 60 }));
}

#[test]
fn stop_answers_by_the_slot() {
    let mut supervisor = Supervisor::new();
    assert_eq!(stop_task(&mut supervisor), Reply::NotRunning);
    let step = start_task(&mut supervisor, &BotConfig::default(), 1);
    let mut launch = step.launch.unwrap();
    assert_eq!(stop_task(&mut supervisor), Reply::Stopped);
    assert_eq!(launch.cancelled.try_recv(), Ok(()));
    supervisor.release();
    assert_eq!(stop_task(&mut supervisor), Reply::NotRunning);
}

#[test]
fn stop_reports_a_signal_that_was_not_taken() {
    let mut supervisor = Supervisor::new();
    let step = start_task(&mut supervisor, &BotConfig::default(), 1);
    drop(step.launch);
    assert_eq!(stop_task(&mut supervisor), Reply::StopFailed);
}

#[test]
fn stop_reply_for_each_answer() {
    assert_eq!(stop_reply(Ok(())), Reply::Stopped);
    assert_eq!(stop_reply(Err(StopError::NotRunning)), Reply::NotRunning);
    assert_eq!(stop_reply(Err(StopError::SignalRejected)), Reply::StopFailed);
}

#[test]
fn edited_interval_is_used_by_the_next_start_only() {
    let mut supervisor = Supervisor::new();
    let mut config = BotConfig::default();
    let first = start_task(&mut supervisor, &config, 5);
    assert_eq!(first.launch.as_ref().map(|l| l.task.interval_secs), Some(60));

    let step = configure(&mut config, "/config edit ping_interval 30");
    assert_eq!(step.reply, Reply::IntervalChanged(30));
    assert!(step.persist);
    assert_eq!(config.ping_interval(), 30);
    assert_eq!(supervisor.current(), Some(MonitoringTask { owner: 5, interval_secs: 60 }));

    let reloaded = BotConfig::with_interval(config.ping_interval()).unwrap();
    assert_eq!(stop_task(&mut supervisor), Reply::Stopped);
    supervisor.release();
    let second = start_task(&mut supervisor, &reloaded, 5);
    assert_eq!(second.launch.as_ref().map(|l| l.task.interval_secs), Some(30));
    assert_eq!(supervisor.current(), Some(MonitoringTask { owner: 5, interval_secs: 30 }));
}

#[test]
fn config_command_answers() {
    let mut config = BotConfig::default();
    let usage = configure(&mut config, "/config");
    assert_eq!((usage.reply, usage.persist), (Reply::ConfigUsage, false));
    let list = configure(&mut config, "/config list");
    assert_eq!((list.reply, list.persist), (Reply::ConfigListing(BotConfig::default()), false));
    let short = configure(&mut config, "/config edit ping_interval");
    assert_eq!((short.reply, short.persist), (Reply::NotEnoughArguments, false));
    let other = configure(&mut config, "/config drop");
    assert_eq!((other.reply, other.persist), (Reply::InvalidInput, false));
    assert_eq!(config, BotConfig::default());
}

#[test]
fn config_edit_is_written_whatever_it_did() {
    let mut config = BotConfig::default();
    let bad_value = configure(&mut config, "/config edit ping_interval soon");
    assert_eq!((bad_value.reply, bad_value.persist), (Reply::InvalidValue(IntervalError::InvalidDigit), true));
    let zero = configure(&mut config, "/config edit ping_interval 0");
    assert_eq!((zero.reply, zero.persist), (Reply::InvalidValue(IntervalError::Zero), true));
    let bad_field = configure(&mut config, "/config edit timeout 3");
    assert_eq!((bad_field.reply, bad_field.persist), (Reply::InvalidArguments, true));
    assert_eq!(config, BotConfig::default());
    let good = configure(&mut config, "/CONFIG EDIT PING_INTERVAL 15");
    assert_eq!((good.reply, good.persist), (Reply::IntervalChanged(15), true));
    assert_eq!(config.ping_interval(), 15);
}

#[test]
fn hosts_are_listed() {
    let registry = HostRegistry::load("a\nb");
    assert_eq!(list_hosts(&registry), Reply::HostList(vec!["a".to_string(), "b".to_string()]));
    assert_eq!(ask_removal(&registry), Reply::AskHostToRemove(vec!["a".to_string(), "b".to_string()]));
}

#[test]
fn add_reloads_the_registry_from_storage() {
    let mut registry = HostRegistry::load("a");
    registry.mark("a", false);
    let reply = complete_add(&mut registry, Ok("a\nb".to_string()));
    assert_eq!(reply, Reply::HostAdded);
    assert_eq!(registry.snapshot(), vec![entry("a", true), entry("b", true)]);
}

#[test]
fn add_that_could_not_be_stored_is_reported() {
    let mut registry = HostRegistry::load("a");
    registry.mark("a", false);
    let reply = complete_add(&mut registry, Err(failure("disk full")));
    assert_eq!(reply, Reply::PersistenceFailed("disk full".to_string()));
    assert_eq!(render(&reply), "Host list could not be saved: disk full");
    assert_eq!(registry.snapshot(), vec![entry("a", false)]);
}

#[test]
fn removing_an_absent_host_touches_nothing() {
    let mut registry = HostRegistry::load("a\nb");
    let before = registry.snapshot();
    for _ in 0..3 {
        let step = remove_host(&mut registry, "c");
        assert_eq!(step.reply, Reply::HostNotFound("c".to_string()));
        assert_eq!(step.rewrite, None);
        assert_eq!(registry.snapshot(), before);
    }
}

#[test]
fn removing_a_host_rewrites_storage_with_the_rest() {
    let mut registry = HostRegistry::load("a\nb\nc");
    let step = remove_host(&mut registry, "b");
    assert_eq!(step.reply, Reply::HostRemoved("b".to_string()));
    assert_eq!(step.rewrite, Some("a\nc".to_string()));
    assert_eq!(registry.hostnames(), vec!["a".to_string(), "c".to_string()]);
    let again = remove_host(&mut registry, "b");
    assert_eq!(again.reply, Reply::HostNotFound("b".to_string()));
    assert_eq!(again.rewrite, None);
}

#[test]
fn removing_the_last_host_rewrites_storage_empty() {
    let mut registry = HostRegistry::load("only");
    let step = remove_host(&mut registry, "only");
    assert_eq!(step.rewrite, Some(String::new()));
    assert!(registry.is_empty());
}

#[test]
fn failed_rewrite_is_reported_and_memory_stays_changed() {
    let mut registry = HostRegistry::load("a\nb");
    let step = remove_host(&mut registry, "a");
    let reply = settle(step.reply, Err(failure("read-only file system")));
    assert_eq!(reply, Reply::PersistenceFailed("read-only file system".to_string()));
    assert!(!registry.contains("a"));
}

#[test]
fn successful_rewrite_keeps_the_prepared_answer() {
    assert_eq!(settle(Reply::HostRemoved("a".to_string()), Ok(())), Reply::HostRemoved("a".to_string()));
}

#[test]
fn status_answers_with_the_report() {
    let results = vec![
        HostProbe {
            host: "a".to_string(),
            run: ProbeRun::Exited { success: true, stdout: "header\nup\n".to_string(), stderr: String::new() },
        },
        HostProbe { host: "b".to_string(), run: ProbeRun::SpawnFailed { error: "missing".to_string() } },
    ];
    let reply = scan_reply(&results, 2345);
    assert_eq!(
        render(&reply),
        "up\n\nPING FAILED TO HOST -> b, error -> missing\n\nNmap scan finnished in 2.35 seconds"
    );
}

#[test]
fn every_reply_has_its_text() {
    let hosts = vec!["a".to_string(), "b".to_string()];
    let cases: Vec<(Reply, &str)> = vec![
        (Reply::EnterPassword, "Enter password"),
        (Reply::IncorrectPassword, "Incorrect password. Try again."),
        (Reply::Report("text".to_string()), "text"),
        (Reply::AlreadyRunning, "Task is already running!"),
        (Reply::Started(-1001234), "Notification Bot started. Your chat ID is: -1001234"),
        (Reply::Started(77), "Notification Bot started. Your chat ID is: 77"),
        (Reply::Stopped, "Task stopped."),
        (Reply::StopFailed, "Failed to stop task."),
        (Reply::NotRunning, "No task is running."),
        (Reply::AskHostToAdd, "Enter hostname you want to add."),
        (Reply::AskHostToRemove(hosts.clone()), "Enter hostname you want to remove.\na\nb"),
        (Reply::AskHostToRemove(Vec::new()), "Enter hostname you want to remove.\n"),
        (Reply::HostList(hosts.clone()), "Hosts: \n  1: a\n 2: b"),
        (Reply::HostList(Vec::new()), "Hosts: \n "),
        (Reply::IntervalChanged(30), "Ping interval changed to 30"),
        (Reply::InvalidValue(IntervalError::Empty), "Invalid value: cannot parse integer from empty string"),
        (Reply::InvalidValue(IntervalError::InvalidDigit), "Invalid value: invalid digit found in string"),
        (Reply::InvalidValue(IntervalError::TooLarge), "Invalid value: number too large to fit in target type"),
        (Reply::InvalidValue(IntervalError::Zero), "Invalid value: number would be zero for non-zero type"),
        (Reply::InvalidArguments, "Invalid arguments"),
        (Reply::NotEnoughArguments, "Not enought arguments"),
        (Reply::ConfigListing(BotConfig::default()), "BotConfig { ping_interval: 60 }"),
        (Reply::InvalidInput, "Invalid input"),
        (
            Reply::ConfigUsage,
            "/config list     - Show current config \n /config edit <field> <value>     - Update config field",
        ),
        (Reply::HostAdded, "New host added."),
        (Reply::HostNotFound("x".to_string()), "Host 'x' not found."),
        (Reply::HostRemoved("x".to_string()), "Host 'x' removed."),
        (Reply::PersistenceFailed("why".to_string()), "Host list could not be saved: why"),
    ];
    for (reply, expected) in cases {
        assert_eq!(render(&reply), expected);
    }
}

#[test]
fn interval_errors_read_like_those_of_the_standard_parser() {
    assert_eq!(describe_interval_error(IntervalError::Empty), "".parse::<u64>().unwrap_err().to_string());
    assert_eq!(describe_interval_error(IntervalError::InvalidDigit), "x".parse::<u64>().unwrap_err().to_string());
    assert_eq!(
        describe_interval_error(IntervalError::TooLarge),
        "18446744073709551616".parse::<u64>().unwrap_err().to_string()
    );
    assert_eq!(
        describe_interval_error(IntervalError::Zero),
        "0".parse::<std::num::NonZeroU64>().unwrap_err().to_string()
    );
}

#[test]
fn hosts_are_numbered_from_one() {
    let hosts: Vec<String> = (0..12).map(|i| format!("h{}", i)).collect();
    let lines = number_hosts(&hosts);
    assert_eq!(lines.len(), 12);
    assert_eq!(lines[0], " 1: h0");
    assert_eq!(lines[9], " 10: h9");
    assert_eq!(lines[11], " 12: h11");
}
