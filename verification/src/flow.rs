//! The course of one run, as a machine: it hands out the next thing to do,
//! and is told how that went. What is done (files, the clock, the
//! terminal, the client) is the caller's; every decision is made here.

use crate::config::{
    declared_hosts, extract_hosts, find_config, history_file, list_hosts, listing, state_folder,
};
use crate::error::Error;
use crate::history::{
    adds, attempts, extract_history, first_line_out_of_order, line_text, log_entries,
    log_in_order, history_line, Attempt, HistoryEntry,
};
use crate::ranker::{merge, merged};
use crate::recency::{is_ranking, latest_of};
use crate::session::{client_arguments, client_program, session_arguments, session_outcome};
use crate::stamp::{in_range, text_of};
use crate::text::{copy_of, is_word, texts};
use vstd::prelude::*;

verus! {

/// What was asked for on the command line, and the home directory.
#[derive(Debug, PartialEq, Eq)]
pub struct Request {
    /// The home directory, under which the files are.
    pub home: String,
    /// The alias to connect to. Without one, the user chooses.
    pub target: Option<String>,
    /// Set up the connection only, without a shell.
    pub detached: bool,
    /// List the aliases of the configuration, and do nothing else.
    pub hosts: bool,
}

/// How far the run has come: what was handed out last.
#[derive(Debug, PartialEq, Eq)]
pub enum Stage {
    /// The state directory is being made sure of.
    Preparing,
    /// The configuration is being read, to list its aliases.
    Listing,
    /// The configuration is being read, to offer its aliases.
    Gathering,
    /// The history is being read; `hosts` are the aliases of the
    /// configuration.
    Loading { hosts: Vec<String> },
    /// The history file, which did not exist, is being created; `hosts`
    /// are the aliases of the configuration.
    Creating { hosts: Vec<String> },
    /// The user is choosing among `candidates`.
    Choosing { candidates: Vec<String> },
    /// The clock is being read, for a session with `alias`.
    Timing { alias: String },
    /// The attempt at `alias` at the time `timestamp` is being written to
    /// the history.
    Recording { alias: String, timestamp: i64 },
    /// The client is running.
    Running,
    /// The run is over.
    Done,
}

/// The next thing to do.
#[derive(Debug, PartialEq, Eq)]
pub enum Action {
    /// Create the directory `path` unless it exists.
    EnsureFolder { path: String },
    /// Read the file `path` as text.
    ReadConfig { path: String },
    /// Read the file `path` as text.
    LoadHistory { path: String },
    /// Create the file `path`, empty.
    CreateHistory { path: String },
    /// Let the user choose one of `candidates`. The first of them are the
    /// aliases of `history`, one for each of its entries.
    Choose { candidates: Vec<String>, history: Vec<HistoryEntry> },
    /// Read the system clock.
    ReadClock,
    /// Add `line` to the end of the file `path`, creating the file if
    /// needed.
    Append { path: String, line: String },
    /// Run `program` with `arguments`, on the caller's terminal, and wait
    /// for its end.
    Run { program: String, arguments: Vec<String>, detached: bool },
    /// Print `text` and end the run well.
    Report { text: String },
    /// End the run with `result`.
    Finish { result: Result<(), Error> },
}

/// How the last action went.
#[derive(Debug, PartialEq, Eq)]
pub enum Event {
    /// The directory is there.
    FolderReady,
    /// The directory could not be created.
    FolderFailed,
    /// The text of the configuration.
    ConfigText(String),
    /// The configuration does not exist.
    ConfigMissing,
    /// The configuration could not be read.
    ConfigFailed,
    /// The text of the history.
    HistoryText(String),
    /// The history does not exist.
    HistoryMissing,
    /// The history could not be read.
    HistoryFailed,
    /// The history file is created.
    Created,
    /// The history file could not be created.
    CreateFailed,
    /// The user chose the candidate at this index.
    Chosen(usize),
    /// The user chose none.
    Cancelled,
    /// The clock's time, in whole seconds since the Unix epoch.
    Now(i64),
    /// The line is written.
    Appended,
    /// The line could not be written.
    AppendFailed,
    /// The client ended, with this exit code if it had one.
    Exited(Option<i32>),
}

/// Whether `event` tells how the action went that was handed out on the way
/// to `stage`.
pub open spec fn answers(stage: Stage, event: Event) -> bool {
    match stage {
        Stage::Preparing => event is FolderReady || event is FolderFailed,
        Stage::Listing | Stage::Gathering => event is ConfigText || event is ConfigMissing
            || event is ConfigFailed,
        Stage::Loading { .. } => event is HistoryText || event is HistoryMissing
            || event is HistoryFailed,
        Stage::Creating { .. } => event is Created || event is CreateFailed,
        Stage::Choosing { .. } => event is Chosen || event is Cancelled,
        Stage::Timing { .. } => event is Now,
        Stage::Recording { .. } => event is Appended || event is AppendFailed,
        Stage::Running => event is Exited,
        Stage::Done => false,
    }
}

/// The run ends with `result`.
pub open spec fn ends(next: Stage, action: Action, result: Result<(), Error>) -> bool {
    next is Done && action == (Action::Finish { result })
}

/// A session with `alias` is begun: the clock is asked for the time of the
/// attempt.
pub open spec fn begins_session(alias: Seq<char>, next: Stage, action: Action) -> bool {
    &&& next matches Stage::Timing { alias: kept }
    &&& action is ReadClock
    &&& kept@ == alias
}

/// The attempt at `alias` at the time `now` is handed out to be written to
/// the history, before anything is run: one line, the timestamp in its
/// twenty characters, a space and the alias. Where `now` has no text, the
/// run ends as for a history that cannot be written.
pub open spec fn session_begun(
    request: Request,
    alias: Seq<char>,
    now: i64,
    next: Stage,
    action: Action,
) -> bool {
    if in_range(now) {
        &&& next matches Stage::Recording { alias: recorded, timestamp }
        &&& action matches Action::Append { path, line }
        &&& recorded@ == alias
        &&& timestamp == now
        &&& path@ == request.home@ + "/.zzh"@ + "/history"@
        &&& line@ == line_text(text_of(now), alias)
        &&& text_of(now).len() == 20
        &&& is_word(text_of(now))
        &&& is_word(alias) ==> adds(line@, Attempt { alias, timestamp })
    } else {
        ends(next, action, Err(Error::HistoryIo))
    }
}

/// The candidates from `history` and `hosts` are offered to the user.
pub open spec fn offers(
    history: Seq<Attempt>,
    hosts: Seq<Seq<char>>,
    next: Stage,
    action: Action,
) -> bool {
    &&& next matches Stage::Choosing { candidates: kept }
    &&& action matches Action::Choose { candidates, history: shown }
    &&& attempts(shown@) == history
    &&& texts(candidates@) == merged(history, hosts)
    &&& texts(kept@) == texts(candidates@)
}

/// The configuration is asked for, on the way to `stage`.
pub open spec fn asks_config(request: Request, next: Stage, action: Action, stage: Stage) -> bool {
    &&& next == stage
    &&& action matches Action::ReadConfig { path }
    &&& path@ == request.home@ + "/.ssh/config"@
}

/// The step after the state directory was made sure of: a run that lists
/// reads the configuration, whatever else was asked for; a run with a
/// target begins the session with it; any other reads the configuration to
/// let the user choose.
pub open spec fn after_preparing(request: Request, event: Event, next: Stage, action: Action) -> bool {
    match event {
        Event::FolderReady => if request.hosts {
            asks_config(request, next, action, Stage::Listing)
        } else {
            match request.target {
                Some(target) => begins_session(target@, next, action),
                None => asks_config(request, next, action, Stage::Gathering),
            }
        },
        Event::FolderFailed => ends(next, action, Err(Error::HistoryIo)),
        _ => false,
    }
}

/// The step after the configuration was read, to list: its aliases are
/// printed, one per line, and the run ends.
pub open spec fn after_listing(event: Event, next: Stage, action: Action) -> bool {
    match event {
        Event::ConfigText(config) => {
            &&& next is Done
            &&& action matches Action::Report { text }
            &&& text@ == listing(declared_hosts(config@))
        },
        Event::ConfigMissing => ends(next, action, Err(Error::ConfigNotFound)),
        Event::ConfigFailed => ends(next, action, Err(Error::ConfigIo)),
        _ => false,
    }
}

/// The step after the configuration was read, to choose: its aliases are
/// kept, and the history is asked for.
pub open spec fn after_gathering(request: Request, event: Event, next: Stage, action: Action) -> bool {
    match event {
        Event::ConfigText(config) => {
            &&& next matches Stage::Loading { hosts }
            &&& action matches Action::LoadHistory { path }
            &&& texts(hosts@) == declared_hosts(config@)
            &&& path@ == request.home@ + "/.zzh"@ + "/history"@
        },
        Event::ConfigMissing => ends(next, action, Err(Error::ConfigNotFound)),
        Event::ConfigFailed => ends(next, action, Err(Error::ConfigIo)),
        _ => false,
    }
}

/// The step after the history was read: the candidates are offered, the
/// latest attempts first; a log with a line that is not in order ends the
/// run; a history file that does not exist is created.
pub open spec fn after_loading(
    request: Request,
    hosts: Seq<Seq<char>>,
    event: Event,
    next: Stage,
    action: Action,
) -> bool {
    match event {
        Event::HistoryText(log) => if log_in_order(log@) {
            exists|history: Seq<Attempt>|
                is_ranking(history, latest_of(log_entries(log@))) && #[trigger] offers(
                    history,
                    hosts,
                    next,
                    action,
                )
        } else {
            &&& next is Done
            &&& action matches Action::Finish { result: Err(Error::HistoryCorrupt { line }) }
            &&& first_line_out_of_order(log@, line as int)
        },
        Event::HistoryMissing => {
            &&& next matches Stage::Creating { hosts: kept }
            &&& action matches Action::CreateHistory { path }
            &&& texts(kept@) == hosts
            &&& path@ == request.home@ + "/.zzh"@ + "/history"@
        },
        Event::HistoryFailed => ends(next, action, Err(Error::HistoryIo)),
        _ => false,
    }
}

/// The step after the history file was created: the candidates are those
/// of the configuration.
pub open spec fn after_creating(hosts: Seq<Seq<char>>, event: Event, next: Stage, action: Action) -> bool {
    match event {
        Event::Created => offers(Seq::empty(), hosts, next, action),
        Event::CreateFailed => ends(next, action, Err(Error::HistoryIo)),
        _ => false,
    }
}

/// The step after the user chose: a session with the chosen candidate is
/// begun; where none was chosen, or the index is that of no candidate, the
/// run ends well.
pub open spec fn after_choosing(
    candidates: Seq<Seq<char>>,
    event: Event,
    next: Stage,
    action: Action,
) -> bool {
    match event {
        Event::Chosen(index) => if index < candidates.len() {
            begins_session(candidates[index as int], next, action)
        } else {
            ends(next, action, Ok(()))
        },
        Event::Cancelled => ends(next, action, Ok(())),
        _ => false,
    }
}

/// The step after the clock was read: the attempt at `alias` at that time
/// is handed out to be written to the history.
pub open spec fn after_timing(
    request: Request,
    alias: Seq<char>,
    event: Event,
    next: Stage,
    action: Action,
) -> bool {
    match event {
        Event::Now(now) => session_begun(request, alias, now, next, action),
        _ => false,
    }
}

/// The step after the attempt at `alias` was written to the history: the
/// client is run. It is not run where the attempt could not be written.
pub open spec fn after_recording(
    request: Request,
    alias: Seq<char>,
    event: Event,
    next: Stage,
    action: Action,
) -> bool {
    match event {
        Event::Appended => {
            &&& next is Running
            &&& action matches Action::Run { program, arguments, detached }
            &&& program@ == "ssh"@
            &&& texts(arguments@) == client_arguments(
                alias,
                request.detached,
                request.home@ + "/.zzh"@,
            )
            &&& detached == request.detached
        },
        Event::AppendFailed => ends(next, action, Err(Error::HistoryIo)),
        _ => false,
    }
}

/// The step after the client ended: the run ends well for the exit code 0,
/// and with a failure that carries the code for any other end.
pub open spec fn after_running(event: Event, next: Stage, action: Action) -> bool {
    match event {
        Event::Exited(code) => if code == Some(0i32) {
            ends(next, action, Ok(()))
        } else {
            ends(next, action, Err(Error::Session { code }))
        },
        _ => false,
    }
}

/// After `event` at `stage`, the run is at `next` and `action` is to be
/// done.
pub open spec fn follows(request: Request, stage: Stage, event: Event, next: Stage, action: Action) -> bool {
    match stage {
        Stage::Preparing => after_preparing(request, event, next, action),
        Stage::Listing => after_listing(event, next, action),
        Stage::Gathering => after_gathering(request, event, next, action),
        Stage::Loading { hosts } => after_loading(request, texts(hosts@), event, next, action),
        Stage::Creating { hosts } => after_creating(texts(hosts@), event, next, action),
        Stage::Choosing { candidates } => after_choosing(texts(candidates@), event, next, action),
        Stage::Timing { alias } => after_timing(request, alias@, event, next, action),
        Stage::Recording { alias, timestamp } => after_recording(
            request,
            alias@,
            event,
            next,
            action,
        ),
        Stage::Running => after_running(event, next, action),
        Stage::Done => false,
    }
}

/// The first thing to do in any run: make sure of the state directory.
pub fn start(request: &Request) -> (r: (Stage, Action))
    ensures
        r.0 is Preparing,
        r.1 matches Action::EnsureFolder { path } && path@ == request.home@ + "/.zzh"@,
{
    (Stage::Preparing, Action::EnsureFolder { path: state_folder(request.home.as_str()) })
}

/// Ends the run with `result`.
fn finish(result: Result<(), Error>) -> (r: (Stage, Action))
    ensures
        ends(r.0, r.1, result),
{
    (Stage::Done, Action::Finish { result })
}

/// Asks for the configuration, on the way to `next`.
fn read_config(request: &Request, next: Stage) -> (r: (Stage, Action))
    ensures
        asks_config(*request, r.0, r.1, next),
{
    (next, Action::ReadConfig { path: find_config(request.home.as_str()) })
}

/// Where the history file is.
fn history_path(request: &Request) -> (path: String)
    ensures
        path@ == request.home@ + "/.zzh"@ + "/history"@,
{
    let folder = state_folder(request.home.as_str());
    history_file(folder.as_str())
}

/// Begins a session with `alias`: asks for the time of the attempt.
fn begin_session(alias: &String) -> (r: (Stage, Action))
    ensures
        begins_session(alias@, r.0, r.1),
{
    (Stage::Timing { alias: alias.clone() }, Action::ReadClock)
}

/// Hands out the line for the history, for a session with `alias` begun at
/// the time `now`.
pub fn begin_session_at(request: &Request, alias: &String, now: i64) -> (r: (Stage, Action))
    ensures
        session_begun(*request, alias@, now, r.0, r.1),
{
    match history_line(now, alias.as_str()) {
        Some(line) => (
            Stage::Recording { alias: alias.clone(), timestamp: now },
            Action::Append { path: history_path(request), line },
        ),
        None => finish(Err(Error::HistoryIo)),
    }
}

/// The step after the state directory was made sure of.
fn prepared(request: &Request, event: Event) -> (r: Option<(Stage, Action)>)
    ensures
        r is Some <==> answers(Stage::Preparing, event),
        r matches Some((next, action)) ==> after_preparing(*request, event, next, action),
{
    match event {
        Event::FolderReady => {
            if request.hosts {
                Some(read_config(request, Stage::Listing))
            } else {
                match &request.target {
                    Some(target) => Some(begin_session(target)),
                    None => Some(read_config(request, Stage::Gathering)),
                }
            }
        },
        Event::FolderFailed => Some(finish(Err(Error::HistoryIo))),
        _ => None,
    }
}

/// The step after the configuration was read, to list its aliases.
fn config_listed(request: &Request, event: Event) -> (r: Option<(Stage, Action)>)
    ensures
        r is Some <==> answers(Stage::Listing, event),
        r matches Some((next, action)) ==> after_listing(event, next, action),
{
    match event {
        Event::ConfigText(config) => Some(
            (Stage::Done, Action::Report { text: list_hosts(config.as_str()) }),
        ),
        Event::ConfigMissing => Some(finish(Err(Error::ConfigNotFound))),
        Event::ConfigFailed => Some(finish(Err(Error::ConfigIo))),
        _ => None,
    }
}

/// The step after the configuration was read, to offer its aliases.
fn config_gathered(request: &Request, event: Event) -> (r: Option<(Stage, Action)>)
    ensures
        r is Some <==> answers(Stage::Gathering, event),
        r matches Some((next, action)) ==> after_gathering(*request, event, next, action),
{
    match event {
        Event::ConfigText(config) => Some(
            (
                Stage::Loading { hosts: extract_hosts(config.as_str()) },
                Action::LoadHistory { path: history_path(request) },
            ),
        ),
        Event::ConfigMissing => Some(finish(Err(Error::ConfigNotFound))),
        Event::ConfigFailed => Some(finish(Err(Error::ConfigIo))),
        _ => None,
    }
}

/// Offers the candidates from `history` and `hosts` to the user.
fn offer(history: Vec<HistoryEntry>, hosts: &Vec<String>) -> (r: (Stage, Action))
    ensures
        offers(attempts(history@), texts(hosts@), r.0, r.1),
{
    let candidates = merge(&history, hosts);
    let kept = copy_of(&candidates);
    (Stage::Choosing { candidates: kept }, Action::Choose { candidates, history })
}

/// The step after the history was read.
fn history_loaded(request: &Request, hosts: Vec<String>, event: Event) -> (r: Option<
    (Stage, Action),
>)
    ensures
        r is Some <==> answers(Stage::Loading { hosts }, event),
        r matches Some((next, action)) ==> after_loading(
            *request,
            texts(hosts@),
            event,
            next,
            action,
        ),
{
    match event {
        Event::HistoryText(log) => match extract_history(log.as_str()) {
            Ok(history) => {
                let ghost ranking = attempts(history@);
                let r = offer(history, &hosts);
                assert(offers(ranking, texts(hosts@), r.0, r.1));
                Some(r)
            },
            Err(e) => Some(finish(Err(e))),
        },
        Event::HistoryMissing => Some(
            (Stage::Creating { hosts }, Action::CreateHistory { path: history_path(request) }),
        ),
        Event::HistoryFailed => Some(finish(Err(Error::HistoryIo))),
        _ => None,
    }
}

/// The step after the history file was created: the history is empty.
fn history_created(request: &Request, hosts: Vec<String>, event: Event) -> (r: Option<
    (Stage, Action),
>)
    ensures
        r is Some <==> answers(Stage::Creating { hosts }, event),
        r matches Some((next, action)) ==> after_creating(texts(hosts@), event, next, action),
{
    match event {
        Event::Created => {
            let r = offer(Vec::new(), &hosts);
            assert(attempts(Seq::<HistoryEntry>::empty()) == Seq::<Attempt>::empty());
            Some(r)
        },
        Event::CreateFailed => Some(finish(Err(Error::HistoryIo))),
        _ => None,
    }
}

/// The step after the user chose.
fn chosen(candidates: Vec<String>, event: Event) -> (r: Option<(Stage, Action)>)
    ensures
        r is Some <==> answers(Stage::Choosing { candidates }, event),
        r matches Some((next, action)) ==> after_choosing(texts(candidates@), event, next, action),
{
    match event {
        Event::Chosen(index) => {
            if index < candidates.len() {
                Some(begin_session(&candidates[index]))
            } else {
                Some(finish(Ok(())))
            }
        },
        Event::Cancelled => Some(finish(Ok(()))),
        _ => None,
    }
}

/// The step after the clock was read.
fn timed(request: &Request, alias: String, event: Event) -> (r: Option<(Stage, Action)>)
    ensures
        r is Some <==> answers(Stage::Timing { alias }, event),
        r matches Some((next, action)) ==> after_timing(*request, alias@, event, next, action),
{
    match event {
        Event::Now(now) => Some(begin_session_at(request, &alias, now)),
        _ => None,
    }
}

/// The step after the attempt was written to the history.
fn recorded(request: &Request, alias: String, timestamp: i64, event: Event) -> (r: Option<
    (Stage, Action),
>)
    ensures
        r is Some <==> answers(Stage::Recording { alias, timestamp }, event),
        r matches Some((next, action)) ==> after_recording(*request, alias@, event, next, action),
{
    match event {
        Event::Appended => {
            let folder = state_folder(request.home.as_str());
            let arguments = session_arguments(alias.as_str(), request.detached, folder.as_str());
            Some(
                (
                    Stage::Running,
                    Action::Run { program: client_program(), arguments, detached: request.detached },
                ),
            )
        },
        Event::AppendFailed => Some(finish(Err(Error::HistoryIo))),
        _ => None,
    }
}

/// The step after the client ended.
fn client_ended(request: &Request, event: Event) -> (r: Option<(Stage, Action)>)
    ensures
        r is Some <==> answers(Stage::Running, event),
        r matches Some((next, action)) ==> after_running(event, next, action),
{
    match event {
        Event::Exited(code) => Some(finish(session_outcome(code))),
        _ => None,
    }
}

/// Takes the run one step on: from the stage it is at and the outcome of
/// the last action to the next stage and the next action. `None` if the
/// event is no answer to that action; there is none once the stage is
/// `Done`.
pub fn advance(request: &Request, stage: Stage, event: Event) -> (r: Option<(Stage, Action)>)
    ensures
        r is Some <==> answers(stage, event),
        r matches Some((next, action)) ==> follows(*request, stage, event, next, action),
{
    match stage {
        Stage::Preparing => prepared(request, event),
        Stage::Listing => config_listed(request, event),
        Stage::Gathering => config_gathered(request, event),
        Stage::Loading { hosts } => history_loaded(request, hosts, event),
        Stage::Creating { hosts } => history_created(request, hosts, event),
        Stage::Choosing { candidates } => chosen(candidates, event),
        Stage::Timing { alias } => timed(request, alias, event),
        Stage::Recording { alias, timestamp } => recorded(request, alias, timestamp, event),
        Stage::Running => client_ended(request, event),
        Stage::Done => None,
    }
}

/// The stages of a run that only lists the aliases of the configuration.
pub open spec fn listing_only(stage: Stage) -> bool {
    stage is Preparing || stage is Listing || stage is Done
}

/// Whether an action reads, creates or writes the history file.
pub open spec fn touches_history(action: Action) -> bool {
    action is LoadHistory || action is CreateHistory || action is Append
}

/// A run that was asked to list stays one: whatever happens, it never
/// reads, creates or writes the history file, lets nobody choose, reads no
/// clock and runs nothing.
pub proof fn lemma_listing_leaves_history(
    request: Request,
    stage: Stage,
    event: Event,
    next: Stage,
    action: Action,
)
    requires
        request.hosts,
        listing_only(stage),
        follows(request, stage, event, next, action),
    ensures
        listing_only(next),
        !touches_history(action),
        !(action is Choose),
        !(action is ReadClock),
        !(action is Run),
{
}

/// The client is run only once the attempt is written to the history, and
/// an attempt is written only to run the client next.
pub proof fn lemma_attempt_is_written_first(
    request: Request,
    stage: Stage,
    event: Event,
    next: Stage,
    action: Action,
)
    requires
        follows(request, stage, event, next, action),
    ensures
        action is Run ==> stage is Recording && event is Appended,
        action is Append <==> next is Recording,
        action is Append ==> stage is Timing && event is Now,
        stage is Recording ==> action is Run || ends(next, action, Err(Error::HistoryIo)),
{
}

/// A step is taken only on an event that answers the last action, and an
/// action that ends the run is handed out exactly with the last stage.
pub proof fn lemma_last_stage(request: Request, stage: Stage, event: Event, next: Stage, action: Action)
    requires
        follows(request, stage, event, next, action),
    ensures
        answers(stage, event),
        next is Done <==> action is Finish || action is Report,
{
}

} // verus!
