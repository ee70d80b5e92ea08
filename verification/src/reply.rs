//! What the agent says to the operator, and the exact text of each message.

use vstd::prelude::*;
use crate::config::{BotConfig, IntervalError};
use crate::text::{decimal, join, join_texts, push_decimal, push_signed, push_text, signed_decimal};

verus! {

/// One message to the operator.
#[derive(Clone, Debug, PartialEq, Eq)]
pub enum Reply {
    /// The password challenge.
    EnterPassword,
    /// The password matched.
    PasswordAccepted,
    /// The password did not match.
    IncorrectPassword,
    /// The report of an on-demand scan, as text.
    Report(String),
    /// A start request found the slot occupied.
    AlreadyRunning,
    /// The periodic task was started for the chat.
    Started(i64),
    /// The cancellation signal was accepted.
    Stopped,
    /// The cancellation signal was not accepted.
    StopFailed,
    /// A stop request found the slot empty.
    NotRunning,
    /// Asks for the hostname to add.
    AskHostToAdd,
    /// Asks for the hostname to remove, and lists the registered ones.
    AskHostToRemove(Vec<String>),
    /// The registered hostnames, numbered from one.
    HostList(Vec<String>),
    /// The tick interval was set.
    IntervalChanged(u64),
    /// The value given for the tick interval is none.
    InvalidValue(IntervalError),
    /// The field to edit is not one of the configuration.
    InvalidArguments,
    /// An edit without both a field and a value.
    NotEnoughArguments,
    /// The configuration, as it stands.
    ConfigListing(BotConfig),
    /// An argument of `/config` that is neither `list` nor `edit`.
    InvalidInput,
    /// How `/config` is used.
    ConfigUsage,
    /// The hostname was added.
    HostAdded,
    /// The hostname to remove is not registered.
    HostNotFound(String),
    /// The hostname was removed.
    HostRemoved(String),
    /// Durable storage failed, with its diagnostic.
    PersistenceFailed(String),
}

/// Why a text is no tick interval, in words.
pub open spec fn interval_error_text(e: IntervalError) -> Seq<char> {
    match e {
        IntervalError::Empty => "cannot parse integer from empty string"@,
        IntervalError::InvalidDigit => "invalid digit found in string"@,
        IntervalError::TooLarge => "number too large to fit in target type"@,
        IntervalError::Zero => "number would be zero for non-zero type"@,
    }
}

/// The lines of a numbered host list: a space, the position counted from
/// one, a colon, a space, the hostname.
pub open spec fn numbered(hosts: Seq<Seq<char>>) -> Seq<Seq<char>> {
    Seq::new(hosts.len(), |i: int| " "@ + decimal((i + 1) as nat) + ": "@ + hosts[i])
}

/// The text of a message.
pub open spec fn reply_text(reply: Reply) -> Seq<char> {
    match reply {
        Reply::EnterPassword => "Enter password"@,
        Reply::PasswordAccepted => "Password accepted! You can now use /start, /stop, /status, /hosts, /add, /remove."@,
        Reply::IncorrectPassword => "Incorrect password. Try again."@,
        Reply::Report(text) => text@,
        Reply::AlreadyRunning => "Task is already running!"@,
        Reply::Started(chat) => "Notification Bot started. Your chat ID is: "@ + signed_decimal(
            chat as int,
        ),
        Reply::Stopped => "Task stopped."@,
        Reply::StopFailed => "Failed to stop task."@,
        Reply::NotRunning => "No task is running."@,
        Reply::AskHostToAdd => "Enter hostname you want to add."@,
        Reply::AskHostToRemove(hosts) => "Enter hostname you want to remove.\n"@ + join(
            hosts.deep_view(),
            seq!['\n'],
        ),
        Reply::HostList(hosts) => "Hosts: \n "@ + join(numbered(hosts.deep_view()), seq!['\n']),
        Reply::IntervalChanged(secs) => "Ping interval changed to "@ + decimal(secs as nat),
        Reply::InvalidValue(e) => "Invalid value: "@ + interval_error_text(e),
        Reply::InvalidArguments => "Invalid arguments"@,
        Reply::NotEnoughArguments => "Not enought arguments"@,
        Reply::ConfigListing(config) => "BotConfig { ping_interval: "@ + decimal(
            config.interval() as nat,
        ) + " }"@,
        Reply::InvalidInput => "Invalid input"@,
        Reply::ConfigUsage => "/config list     - Show current config \n /config edit <field> <value>     - Update config field"@,
        Reply::HostAdded => "New host added."@,
        Reply::HostNotFound(host) => "Host '"@ + host@ + "' not found."@,
        Reply::HostRemoved(host) => "Host '"@ + host@ + "' removed."@,
        Reply::PersistenceFailed(detail) => "Host list could not be saved: "@ + detail@,
    }
}

/// Why a text is no tick interval, in words.
pub fn describe_interval_error(e: IntervalError) -> (text: &'static str)
    ensures
        text@ == interval_error_text(e),
{
    match e {
        IntervalError::Empty => "cannot parse integer from empty string",
        IntervalError::InvalidDigit => "invalid digit found in string",
        IntervalError::TooLarge => "number too large to fit in target type",
        IntervalError::Zero => "number would be zero for non-zero type",
    }
}

/// The lines of a numbered host list.
pub fn number_hosts(hosts: &Vec<String>) -> (out: Vec<String>)
    ensures
        out.deep_view() == numbered(hosts.deep_view()),
{
    let mut out: Vec<String> = Vec::new();
    let mut i: usize = 0;
    while i < hosts.len()
        invariant
            i <= hosts.len(),
            out.deep_view() == numbered(hosts.deep_view()).take(i as int),
        decreases hosts.len() - i,
    {
        let mut line = String::new();
        push_text(&mut line, " ");
        push_decimal(&mut line, (i + 1) as u64);
        push_text(&mut line, ": ");
        push_text(&mut line, hosts[i].as_str());
        let ghost before = out.deep_view();
        assert(line@ == numbered(hosts.deep_view())[i as int]);
        out.push(line);
        assert(out.deep_view() == before.push(numbered(hosts.deep_view())[i as int]));
        i += 1;
    }
    assert(numbered(hosts.deep_view()).take(hosts.len() as int) == numbered(hosts.deep_view()));
    out
}

/// Writes a message out as the text that is sent.
pub fn render(reply: &Reply) -> (text: String)
    ensures
        text@ == reply_text(*reply),
{
    let mut text = String::new();
    proof {
        reveal_strlit("\n");
        assert("\n"@ == seq!['\n']);
    }
    match reply {
        Reply::EnterPassword => {
            push_text(&mut text, "Enter password");
        },
        Reply::PasswordAccepted => {
            push_text(
                &mut text,
                "Password accepted! You can now use /start, /stop, /status, /hosts, /add, /remove.",
            );
        },
        Reply::IncorrectPassword => {
            push_text(&mut text, "Incorrect password. Try again.");
        },
        Reply::Report(report) => {
            push_text(&mut text, report.as_str());
        },
        Reply::AlreadyRunning => {
            push_text(&mut text, "Task is already running!");
        },
        Reply::Started(chat) => {
            push_text(&mut text, "Notification Bot started. Your chat ID is: ");
            push_signed(&mut text, *chat);
        },
        Reply::Stopped => {
            push_text(&mut text, "Task stopped.");
        },
        Reply::StopFailed => {
            push_text(&mut text, "Failed to stop task.");
        },
        Reply::NotRunning => {
            push_text(&mut text, "No task is running.");
        },
        Reply::AskHostToAdd => {
            push_text(&mut text, "Enter hostname you want to add.");
        },
        Reply::AskHostToRemove(hosts) => {
            push_text(&mut text, "Enter hostname you want to remove.\n");
            let list = join_texts(hosts, "\n");
            push_text(&mut text, list.as_str());
        },
        Reply::HostList(hosts) => {
            push_text(&mut text, "Hosts: \n ");
            let lines = number_hosts(hosts);
            let list = join_texts(&lines, "\n");
            push_text(&mut text, list.as_str());
        },
        Reply::IntervalChanged(secs) => {
            push_text(&mut text, "Ping interval changed to ");
            push_decimal(&mut text, *secs);
        },
        Reply::InvalidValue(e) => {
            push_text(&mut text, "Invalid value: ");
            push_text(&mut text, describe_interval_error(*e));
        },
        Reply::InvalidArguments => {
            push_text(&mut text, "Invalid arguments");
        },
        Reply::NotEnoughArguments => {
            push_text(&mut text, "Not enought arguments");
        },
        Reply::ConfigListing(config) => {
            push_text(&mut text, "BotConfig { ping_interval: ");
            push_decimal(&mut text, config.ping_interval());
            push_text(&mut text, " }");
        },
        Reply::InvalidInput => {
            push_text(&mut text, "Invalid input");
        },
        Reply::ConfigUsage => {
            push_text(
                &mut text,
                "/config list     - Show current config \n /config edit <field> <value>     - Update config field",
            );
        },
        Reply::HostAdded => {
            push_text(&mut text, "New host added.");
        },
        Reply::HostNotFound(host) => {
            push_text(&mut text, "Host '");
            push_text(&mut text, host.as_str());
            push_text(&mut text, "' not found.");
        },
        Reply::HostRemoved(host) => {
            push_text(&mut text, "Host '");
            push_text(&mut text, host.as_str());
            push_text(&mut text, "' removed.");
        },
        Reply::PersistenceFailed(detail) => {
            push_text(&mut text, "Host list could not be saved: ");
            push_text(&mut text, detail.as_str());
        },
    }
    assert(text@ == reply_text(*reply));
    text
}

} // verus!
