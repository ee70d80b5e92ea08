//! The conversation state machine: the password challenge, the routing of
//! commands, and what each step of the add and remove dialogues does to the
//! shared state.

use vstd::prelude::*;
use tokio::sync::oneshot::Receiver;
use crate::config::{edit_of, request_of, BotConfig, ConfigRequest, ConfigRequestView, EditOutcome};
use crate::registry::{has_host, loaded, names, stored_form, without, HostRegistry, PersistenceError};
use crate::reply::Reply;
use crate::scan::{assemble, report_text, scan_entries, HostProbe};
use crate::supervisor::{slot_after, MonitoringTask, SlotRequest, StopError, Supervisor};
use crate::text::{same_text, starts_with};

verus! {

/// Where a conversation stands.
#[derive(Clone, Copy, PartialEq, Eq, Structural, Debug)]
pub enum DialogueState {
    /// Nothing is pending: the next message is a command, or is challenged
    /// when the chat has not given the password.
    Default,
    /// The password was asked for: the next message is taken as the password.
    WaitingForPassword,
    /// A hostname to add was asked for: the next message is taken as it.
    WaitingForHostAdd,
    /// A hostname to remove was asked for: the next message is taken as it.
    WaitingForHostRemove,
}

/// The commands of an authenticated chat.
#[derive(Clone, Copy, PartialEq, Eq, Structural, Debug)]
pub enum Command {
    Status,
    Start,
    Stop,
    Add,
    Remove,
    Hosts,
    Config,
}

/// The dialogue store could not give the state of a conversation.
#[derive(Clone, Copy, PartialEq, Eq, Structural, Debug)]
pub struct StorageFault;

/// What an inbound message leads to.
#[derive(Clone, Copy, PartialEq, Eq, Structural, Debug)]
pub enum Route {
    /// The chat is not authenticated: ask for the password.
    Challenge,
    /// The message is the password: the chat is let in.
    Admit,
    /// The message is not the password: ask again.
    Reprompt,
    /// The message is a command of an authenticated chat.
    Run(Command),
    /// The message is no command: nothing happens.
    Ignore,
    /// The message is the hostname to add.
    AddHost,
    /// The message is the hostname to remove.
    RemoveHost,
}

/// The chats that have given the password.
pub struct AuthorizedChats {
    chats: Vec<i64>,
}

impl View for AuthorizedChats {
    type V = Set<i64>;

    closed spec fn view(&self) -> Set<i64> {
        self.chats@.to_set()
    }
}

/// What a start request leads to: the answer for the operator, and, when the
/// task was started, what the periodic loop is launched with.
pub struct StartStep {
    pub reply: Reply,
    pub launch: Option<Launch>,
}

/// What the periodic loop is launched with: the task it runs as, and the
/// receiving half of its cancellation channel.
pub struct Launch {
    pub task: MonitoringTask,
    pub cancelled: Receiver<()>,
}

/// What a `/config` message leads to: the answer for the operator, and
/// whether the configuration is to be written to durable storage.
pub struct ConfigStep {
    pub reply: Reply,
    pub persist: bool,
}

/// What the hostname of a remove dialogue leads to: the answer for the
/// operator, and, when the host was registered, what durable storage is to be
/// rewritten with.
pub struct RemoveStep {
    pub reply: Reply,
    pub rewrite: Option<String>,
}

/// The command that a message begins with, if any. The names are tried in a
/// fixed order, and what follows the name does not matter.
pub open spec fn command_of(text: Seq<char>) -> Option<Command> {
    if "/status"@.is_prefix_of(text) {
        Some(Command::Status)
    } else if "/start"@.is_prefix_of(text) {
        Some(Command::Start)
    } else if "/stop"@.is_prefix_of(text) {
        Some(Command::Stop)
    } else if "/add"@.is_prefix_of(text) {
        Some(Command::Add)
    } else if "/remove"@.is_prefix_of(text) {
        Some(Command::Remove)
    } else if "/hosts"@.is_prefix_of(text) {
        Some(Command::Hosts)
    } else if "/config"@.is_prefix_of(text) {
        Some(Command::Config)
    } else {
        None
    }
}

/// What a message leads to, by the state of its conversation, whether its
/// chat is authenticated, and the password.
pub open spec fn route_of(
    state: DialogueState,
    authorized: bool,
    text: Seq<char>,
    password: Seq<char>,
) -> Route {
    match state {
        DialogueState::Default => if !authorized {
            Route::Challenge
        } else {
            match command_of(text) {
                Some(command) => Route::Run(command),
                None => Route::Ignore,
            }
        },
        DialogueState::WaitingForPassword => if text == password {
            Route::Admit
        } else {
            Route::Reprompt
        },
        DialogueState::WaitingForHostAdd => Route::AddHost,
        DialogueState::WaitingForHostRemove => Route::RemoveHost,
    }
}

/// The state of the conversation after a message took the route.
pub open spec fn state_after(route: Route) -> DialogueState {
    match route {
        Route::Challenge => DialogueState::WaitingForPassword,
        Route::Reprompt => DialogueState::WaitingForPassword,
        Route::Run(Command::Add) => DialogueState::WaitingForHostAdd,
        Route::Run(Command::Remove) => DialogueState::WaitingForHostRemove,
        _ => DialogueState::Default,
    }
}

impl Default for DialogueState {
    /// A conversation starts with nothing pending.
    fn default() -> (state: DialogueState)
        ensures
            state == DialogueState::Default,
    {
        DialogueState::Default
    }
}

/// The state to go on from, by what the dialogue store gave: the stored
/// state, and the default state when none is stored or the store failed.
pub fn recover_state(stored: Result<Option<DialogueState>, StorageFault>) -> (state: DialogueState)
    ensures
        state == (match stored {
            Ok(Some(s)) => s,
            _ => DialogueState::Default,
        }),
{
    match stored {
        Ok(Some(s)) => s,
        _ => DialogueState::Default,
    }
}

/// Reads the command that a message begins with.
pub fn parse_command(text: &str) -> (command: Option<Command>)
    ensures
        command == command_of(text@),
{
    if starts_with(text, "/status") {
        Some(Command::Status)
    } else if starts_with(text, "/start") {
        Some(Command::Start)
    } else if starts_with(text, "/stop") {
        Some(Command::Stop)
    } else if starts_with(text, "/add") {
        Some(Command::Add)
    } else if starts_with(text, "/remove") {
        Some(Command::Remove)
    } else if starts_with(text, "/hosts") {
        Some(Command::Hosts)
    } else if starts_with(text, "/config") {
        Some(Command::Config)
    } else {
        None
    }
}

/// Decides what an inbound message leads to.
pub fn route(state: DialogueState, authorized: bool, text: &str, password: &str) -> (r: Route)
    ensures
        r == route_of(state, authorized, text@, password@),
{
    match state {
        DialogueState::Default => {
            if !authorized {
                Route::Challenge
            } else {
                match parse_command(text) {
                    Some(command) => Route::Run(command),
                    None => Route::Ignore,
                }
            }
        },
        DialogueState::WaitingForPassword => {
            if same_text(text, password) {
                Route::Admit
            } else {
                Route::Reprompt
            }
        },
        DialogueState::WaitingForHostAdd => Route::AddHost,
        DialogueState::WaitingForHostRemove => Route::RemoveHost,
    }
}

/// The state of the conversation after a message took the route.
pub fn next_state(route: Route) -> (state: DialogueState)
    ensures
        state == state_after(route),
{
    match route {
        Route::Challenge => DialogueState::WaitingForPassword,
        Route::Reprompt => DialogueState::WaitingForPassword,
        Route::Run(Command::Add) => DialogueState::WaitingForHostAdd,
        Route::Run(Command::Remove) => DialogueState::WaitingForHostRemove,
        _ => DialogueState::Default,
    }
}

/// The message that a route answers with at once, where it needs nothing of
/// the shared state.
pub fn prompt_for(route: Route) -> (reply: Option<Reply>)
    ensures
        reply == (match route {
            Route::Challenge => Some(Reply::EnterPassword),
            Route::Admit => Some(Reply::PasswordAccepted),
            Route::Reprompt => Some(Reply::IncorrectPassword),
            Route::Run(Command::Add) => Some(Reply::AskHostToAdd),
            _ => None::<Reply>,
        }),
{
    match route {
        Route::Challenge => Some(Reply::EnterPassword),
        Route::Admit => Some(Reply::PasswordAccepted),
        Route::Reprompt => Some(Reply::IncorrectPassword),
        Route::Run(Command::Add) => Some(Reply::AskHostToAdd),
        _ => None,
    }
}

impl AuthorizedChats {
    /// No chat is authenticated.
    pub fn new() -> (a: AuthorizedChats)
        ensures
            a@ == Set::<i64>::empty(),
    {
        let a = AuthorizedChats { chats: Vec::new() };
        assert(a@ =~= Set::<i64>::empty());
        a
    }

    /// Whether the chat has given the password.
    pub fn contains(&self, chat: i64) -> (b: bool)
        ensures
            b == self@.contains(chat),
    {
        let mut i: usize = 0;
        while i < self.chats.len()
            invariant
                i <= self.chats.len(),
                forall|j: int| 0 <= j < i ==> self.chats@[j] != chat,
            decreases self.chats.len() - i,
        {
            if self.chats[i] == chat {
                assert(self.chats@.contains(chat));
                return true;
            }
            i += 1;
        }
        assert(!self.chats@.contains(chat));
        false
    }

    /// Lets the chat in. A chat that is in already stays in.
    pub fn authorize(&mut self, chat: i64)
        ensures
            final(self)@ == old(self)@.insert(chat),
    {
        if !self.contains(chat) {
            self.chats.push(chat);
            assert forall|c: i64| self@.contains(c) <==> old(self)@.insert(chat).contains(c) by {
                if old(self).chats@.contains(c) {
                    let k = choose|k: int| 0 <= k < old(self).chats@.len() && old(self).chats@[k]
                        == c;
                    assert(self.chats@[k] == c);
                }
                if c == chat {
                    assert(self.chats@[old(self).chats@.len() as int] == c);
                }
                if self.chats@.contains(c) {
                    let k = choose|k: int| 0 <= k < self.chats@.len() && self.chats@[k] == c;
                    if k < old(self).chats@.len() {
                        assert(old(self).chats@[k] == c);
                    }
                }
            }
            assert(self@ =~= old(self)@.insert(chat));
        } else {
            assert(self@ =~= old(self)@.insert(chat));
        }
    }
}

/// Handles `/start`: asks the supervisor to start the periodic task for the
/// chat, with the tick interval that the configuration holds now.
pub fn start_task(supervisor: &mut Supervisor, config: &BotConfig, chat: i64) -> (step: StartStep)
    ensures
        final(supervisor).wf(),
        final(supervisor).slot() == slot_after(
            old(supervisor).slot(),
            SlotRequest::Start { chat, interval_secs: config.interval() },
        ),
        old(supervisor).slot() is Some ==> step.reply == Reply::AlreadyRunning && step.launch is None
            && *final(supervisor) == *old(supervisor),
        old(supervisor).slot() is None ==> step.reply == Reply::Started(chat) && step.launch is Some
            && step.launch->0.task == (MonitoringTask {
            owner: chat,
            interval_secs: config.interval(),
        }),
{
    let interval_secs = config.ping_interval();
    match supervisor.start(chat, interval_secs) {
        Ok(cancelled) => StartStep {
            reply: Reply::Started(chat),
            launch: Some(Launch { task: MonitoringTask { owner: chat, interval_secs }, cancelled }),
        },
        Err(_) => StartStep { reply: Reply::AlreadyRunning, launch: None },
    }
}

/// The answer to a stop request, from what the supervisor said.
pub fn stop_reply(res: Result<(), StopError>) -> (reply: Reply)
    ensures
        reply == (match res {
            Ok(_) => Reply::Stopped,
            Err(StopError::NotRunning) => Reply::NotRunning,
            Err(StopError::SignalRejected) => Reply::StopFailed,
        }),
{
    match res {
        Ok(_) => Reply::Stopped,
        Err(StopError::NotRunning) => Reply::NotRunning,
        Err(StopError::SignalRejected) => Reply::StopFailed,
    }
}

/// Handles `/stop`: asks the supervisor to stop the periodic task. The slot
/// stays as it was; only the loop releases it.
pub fn stop_task(supervisor: &mut Supervisor) -> (reply: Reply)
    ensures
        final(supervisor).wf(),
        final(supervisor).slot() == old(supervisor).slot(),
        !final(supervisor).armed(),
        old(supervisor).slot() is None <==> reply == Reply::NotRunning,
        old(supervisor).slot() is Some && !old(supervisor).armed() ==> reply == Reply::Stopped,
        reply == Reply::NotRunning || reply == Reply::Stopped || reply == Reply::StopFailed,
{
    let res = supervisor.stop();
    stop_reply(res)
}

/// Handles `/remove`: asks which host to remove, and lists those registered.
pub fn ask_removal(registry: &HostRegistry) -> (reply: Reply)
    ensures
        reply matches Reply::AskHostToRemove(hosts) && hosts.deep_view() == names(registry@),
{
    Reply::AskHostToRemove(registry.hostnames())
}

/// Handles `/hosts`: lists the registered hosts.
pub fn list_hosts(registry: &HostRegistry) -> (reply: Reply)
    ensures
        reply matches Reply::HostList(hosts) && hosts.deep_view() == names(registry@),
{
    Reply::HostList(registry.hostnames())
}

/// Handles `/status` once every probe of the round has ended: the report of
/// the round, one entry per host.
pub fn scan_reply(results: &Vec<HostProbe>, elapsed_millis: u64) -> (reply: Reply)
    ensures
        reply matches Reply::Report(text) && text@ == report_text(
            scan_entries(results@),
            elapsed_millis as nat,
        ),
{
    let report = assemble(results, elapsed_millis);
    Reply::Report(report.render())
}

/// Handles `/config`. An edit that names a field and a value has the
/// configuration written to durable storage, whatever the edit did; nothing
/// else is written.
pub fn configure(config: &mut BotConfig, text: &str) -> (step: ConfigStep)
    ensures
        final(config).wf(),
        step.persist == (request_of(text@) is Edit),
        request_of(text@) matches ConfigRequestView::Edit { field, value } ==> (match edit_of(
            field,
            value,
        ) {
            EditOutcome::Changed(secs) => final(config).interval() == secs && step.reply
                == Reply::IntervalChanged(secs),
            EditOutcome::InvalidValue(e) => *final(config) == *old(config) && step.reply
                == Reply::InvalidValue(e),
            EditOutcome::UnknownField => *final(config) == *old(config) && step.reply
                == Reply::InvalidArguments,
        }),
        !(request_of(text@) is Edit) ==> *final(config) == *old(config),
        request_of(text@) is Usage ==> step.reply == Reply::ConfigUsage,
        request_of(text@) is List ==> step.reply == Reply::ConfigListing(*old(config)),
        request_of(text@) is NotEnoughArguments ==> step.reply == Reply::NotEnoughArguments,
        request_of(text@) is InvalidInput ==> step.reply == Reply::InvalidInput,
{
    proof {
        use_type_invariant(&*config);
    }
    match crate::config::parse_request(text) {
        ConfigRequest::Usage => ConfigStep { reply: Reply::ConfigUsage, persist: false },
        ConfigRequest::List => ConfigStep { reply: Reply::ConfigListing(*config), persist: false },
        ConfigRequest::NotEnoughArguments => ConfigStep {
            reply: Reply::NotEnoughArguments,
            persist: false,
        },
        ConfigRequest::InvalidInput => ConfigStep { reply: Reply::InvalidInput, persist: false },
        ConfigRequest::Edit { field, value } => {
            let reply = match config.edit(field.as_str(), value.as_str()) {
                EditOutcome::Changed(secs) => Reply::IntervalChanged(secs),
                EditOutcome::InvalidValue(e) => Reply::InvalidValue(e),
                EditOutcome::UnknownField => Reply::InvalidArguments,
            };
            ConfigStep { reply, persist: true }
        },
    }
}

/// Ends the add dialogue, with what durable storage holds after the append,
/// or the failure of the append or of the read. On success the registry is
/// what storage holds; on failure it stays as it was and the failure is
/// reported.
pub fn complete_add(registry: &mut HostRegistry, stored: Result<String, PersistenceError>) -> (reply:
    Reply)
    ensures
        final(registry).wf(),
        stored matches Ok(text) ==> final(registry)@ == loaded(text@) && reply == Reply::HostAdded,
        stored matches Err(e) ==> final(registry)@ == old(registry)@ && reply
            == Reply::PersistenceFailed(e.detail),
{
    match registry.finish_add(stored) {
        Ok(_) => Reply::HostAdded,
        Err(e) => Reply::PersistenceFailed(e.detail),
    }
}

/// Takes the hostname of a remove dialogue. A host that is not registered is
/// reported as not found: the registry stays as it is and durable storage is
/// not to be touched. A registered host leaves the registry, and durable
/// storage is to be rewritten with the hostnames that remain.
pub fn remove_host(registry: &mut HostRegistry, host: &str) -> (step: RemoveStep)
    ensures
        final(registry).wf(),
        final(registry)@ == without(old(registry)@, host@),
        !has_host(old(registry)@, host@) ==> final(registry)@ == old(registry)@ && step.rewrite
            is None && (step.reply matches Reply::HostNotFound(name) && name@ == host@),
        has_host(old(registry)@, host@) ==> (step.rewrite matches Some(content) && content@
            == stored_form(final(registry)@)) && (step.reply matches Reply::HostRemoved(name)
            && name@ == host@),
{
    if registry.remove(host) {
        RemoveStep {
            reply: Reply::HostRemoved(host.to_owned()),
            rewrite: Some(registry.storage_text()),
        }
    } else {
        RemoveStep { reply: Reply::HostNotFound(host.to_owned()), rewrite: None }
    }
}

/// The answer once durable storage was rewritten: the answer that was
/// prepared, or the failure of the write.
pub fn settle(prepared: Reply, written: Result<(), PersistenceError>) -> (reply: Reply)
    ensures
        reply == (match written {
            Ok(_) => prepared,
            Err(e) => Reply::PersistenceFailed(e.detail),
        }),
{
    match written {
        Ok(_) => prepared,
        Err(e) => Reply::PersistenceFailed(e.detail),
    }
}

/// Commands are behind the password: one is run only for a chat that is
/// authenticated, and a chat is let in only by the message that is the
/// password, sent while the password was waited for. A chat that is not
/// authenticated and has nothing pending is challenged, whatever it sends.
pub proof fn commands_need_the_password(
    state: DialogueState,
    authorized: bool,
    text: Seq<char>,
    password: Seq<char>,
)
    ensures
        route_of(state, authorized, text, password) is Run ==> authorized && state
            == DialogueState::Default,
        route_of(state, authorized, text, password) == Route::Admit ==> text == password && state
            == DialogueState::WaitingForPassword,
        state == DialogueState::Default && !authorized ==> route_of(
            state,
            authorized,
            text,
            password,
        ) == Route::Challenge,
{
}

} // verus!
