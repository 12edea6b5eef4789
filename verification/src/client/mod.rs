//! The client: interactive sessions and single commands.

pub mod command;
pub mod interactive;
pub mod timestamper;

use crate::log_reader;
use crate::log_reader::{Goal, Wanted};
use crate::pattern;
use crate::pattern::Pattern;
use crate::text;
use vstd::prelude::*;

verus! {

/// Checks the pattern from which history is to be shown, before anything is
/// connected.
pub fn compile_since(since: Option<&str>) -> (compiled: Result<Option<Pattern>, String>)
    ensures
        match compiled {
            Ok(None) => since is None,
            Ok(Some(p)) => since matches Some(source) && pattern::pattern_error(source@) is None
                && p@ == source@,
            Err(message) => since matches Some(source) && pattern::pattern_error(
                source@,
            ) matches Some(reason) && message@ == "invalid regex for --since: "@ + reason,
        },
{
    match since {
        Some(source) => match Pattern::new(source) {
            Ok(pattern) => Ok(Some(pattern)),
            Err(reason) => {
                let mut message = "invalid regex for --since: ".to_owned();
                message.append(reason.as_str());
                Err(message)
            },
        },
        None => Ok(None),
    }
}

/// Whether a client runs as an interactive session: as the flags say, and
/// without flags if it has no command to run and the output is a terminal.
pub fn is_interactive(
    interactive: bool,
    no_interactive: bool,
    has_command: bool,
    has_timeout: bool,
    has_wait_for: bool,
    stdout_is_terminal: bool,
) -> (session: bool)
    ensures
        session == (interactive || (!no_interactive && !(has_command || has_timeout
            || has_wait_for) && stdout_is_terminal)),
{
    let is_command_mode = has_command || has_timeout || has_wait_for;
    if interactive {
        true
    } else if no_interactive {
        false
    } else {
        !is_command_mode && stdout_is_terminal
    }
}

/// How a client reaches its server.
#[derive(Debug, Clone, PartialEq)]
pub enum Connection {
    /// Over TCP, at this address, with something to tell the user first.
    Remote { addr: String, notice: Option<String> },
    /// Over the server's socket, with history from its log first or not.
    Local { show_history: bool },
    /// Not at all, for this reason.
    NotRunning(String),
}

/// Decides how a client reaches its server.
pub fn plan_connection(
    name: &str,
    remote: Option<&str>,
    socket_path: &str,
    socket_exists: bool,
    history_requested: bool,
) -> (connection: Connection)
    ensures
        match connection {
            Connection::Remote { addr, notice } => {
                &&& remote matches Some(r) && addr@ == r@
                &&& match notice {
                    Some(message) => history_requested && message@
                        == "history is not available for remote connections"@,
                    None => !history_requested,
                }
            },
            Connection::Local { show_history } => remote is None && socket_exists
                && show_history == history_requested,
            Connection::NotRunning(message) => remote is None && !socket_exists && message@
                == "server '"@ + name@ + "' is not running (socket not found: "@ + socket_path@
                + ")"@,
        },
{
    match remote {
        Some(addr) => {
            let notice = if history_requested {
                Some("history is not available for remote connections".to_owned())
            } else {
                None
            };
            Connection::Remote { addr: addr.to_owned(), notice }
        },
        None => {
            if !socket_exists {
                let mut message = "server '".to_owned();
                message.append(name);
                message.append("' is not running (socket not found: ");
                message.append(socket_path);
                message.append(")");
                Connection::NotRunning(message)
            } else {
                Connection::Local { show_history: history_requested }
            }
        },
    }
}

/// Where history comes from.
#[derive(Debug, Clone, PartialEq)]
pub enum HistorySource {
    /// Nowhere, for this reason.
    Unavailable(String),
    /// From this log file.
    Log(String),
}

/// Where the log of a server is, given the log file in its state file, or the
/// reason why that cannot be read.
pub open spec fn source_error(log_file: Result<Option<String>, String>, exists: bool) -> Option<
    Seq<char>,
> {
    match log_file {
        Err(reason) => Some("history unavailable: could not read state file: "@ + reason@),
        Ok(None) => Some("history unavailable: server was started without --log"@),
        Ok(Some(path)) => if exists {
            None
        } else {
            Some("history unavailable: log file not found: "@ + path@)
        },
    }
}

/// Decides where history comes from, given the log file in the server's state
/// file, or the reason why that cannot be read, and whether there is a file at
/// its place.
pub fn history_source(log_file: Result<Option<String>, String>, exists: bool) -> (source:
    HistorySource)
    ensures
        match source {
            HistorySource::Unavailable(message) => source_error(log_file, exists) == Some(
                message@,
            ),
            HistorySource::Log(path) => source_error(log_file, exists) is None && log_file == Ok::<
                Option<String>,
                String,
            >(Some(path)),
        },
{
    match log_file {
        Err(reason) => {
            let mut message = "history unavailable: could not read state file: ".to_owned();
            message.append(reason.as_str());
            HistorySource::Unavailable(message)
        },
        Ok(None) => HistorySource::Unavailable(
            "history unavailable: server was started without --log".to_owned(),
        ),
        Ok(Some(path)) => {
            if exists {
                HistorySource::Log(path)
            } else {
                let mut message = "history unavailable: log file not found: ".to_owned();
                message.append(path.as_str());
                HistorySource::Unavailable(message)
            }
        },
    }
}

/// What history is asked for: so many lines, or else those since a pattern.
pub fn history_goal<'a>(last: Option<usize>, since: Option<&'a Pattern>) -> (goal: Option<Goal<'a>>)
    ensures
        (match goal {
            Some(g) => Some(g@),
            None => None,
        }) == (match (last, since) {
            (Some(n), _) => Some(Wanted::LastLines(n as nat)),
            (None, Some(p)) => Some(Wanted::Since(p@)),
            (None, None) => None,
        }),
{
    match last {
        Some(n) => Some(Goal::LastLines(n)),
        None => match since {
            Some(pattern) => Some(Goal::Since(pattern)),
            None => None,
        },
    }
}

/// What is shown of the history: something to tell the user, and lines.
#[derive(Debug, Clone, PartialEq)]
pub struct HistoryReport {
    pub notice: Option<String>,
    pub lines: Vec<String>,
}

/// A line of history as it is shown.
pub open spec fn history_line(line: Seq<char>, timestamps: bool) -> Seq<char> {
    if timestamps {
        line
    } else {
        log_reader::stripped(line)
    }
}

/// What is told the user about the history.
pub open spec fn history_notice(
    found: Result<Vec<String>, String>,
    since_given: bool,
) -> Option<Seq<char>> {
    match found {
        Ok(lines) => if lines@.len() == 0 && since_given {
            Some("no lines matched the --since pattern"@)
        } else {
            None
        },
        Err(reason) => Some("history error: "@ + reason@),
    }
}

/// Shows the history that was found in the log, or why it could not be read.
pub fn history_report(
    found: Result<Vec<String>, String>,
    since_given: bool,
    timestamps: bool,
) -> (report: HistoryReport)
    ensures
        text::optional(report.notice) == history_notice(found, since_given),
        text::texts(report.lines@) == (match found {
            Ok(lines) => text::texts(lines@).map_values(
                |line: Seq<char>| history_line(line, timestamps),
            ),
            Err(_) => seq![],
        }),
{
    match found {
        Err(reason) => {
            let mut message = "history error: ".to_owned();
            message.append(reason.as_str());
            let lines: Vec<String> = Vec::new();
            assert(text::texts(lines@) == Seq::<Seq<char>>::empty());
            HistoryReport { notice: Some(message), lines }
        },
        Ok(lines) => {
            let notice = if lines.len() == 0 && since_given {
                Some("no lines matched the --since pattern".to_owned())
            } else {
                None
            };
            let mut shown: Vec<String> = Vec::new();
            let ghost all = text::texts(lines@).map_values(
                |line: Seq<char>| history_line(line, timestamps),
            );
            assert(text::texts(shown@) == all.take(0));
            for i in 0..lines.len()
                invariant
                    all == text::texts(lines@).map_values(
                        |line: Seq<char>| history_line(line, timestamps),
                    ),
                    text::texts(shown@) == all.take(i as int),
            {
                let line = if timestamps {
                    lines[i].clone()
                } else {
                    log_reader::strip_timestamp(lines[i].as_str()).to_owned()
                };
                let ghost before = shown@;
                shown.push(line);
                assert(text::texts(shown@) == text::texts(before).push(line@));
                assert(all.take(i + 1) == all.take(i as int).push(line@));
            }
            assert(all.take(all.len() as int) == all);
            HistoryReport { notice, lines: shown }
        },
    }
}

/// History with timestamps shows lines as they are in the log; without, it shows
/// all that stands behind the bracketed timestamp.
pub proof fn history_shows_whole_lines(line: Seq<char>, end: int)
    requires
        line.len() > 0,
        line[0] == '[',
        0 <= end < line.len() - 1,
        line[end] == ']',
        line[end + 1] == ' ',
        forall|i: int| 0 <= i < end ==> !(#[trigger] line[i] == ']' && line[i + 1] == ' '),
    ensures
        history_line(line, true) == line,
        history_line(line, false) == line.skip(end + 2),
{
    log_reader::stripping_takes_the_prefix_alone(line, end);
}

/// A line without a timestamp is shown as it is.
pub proof fn history_keeps_other_lines(line: Seq<char>, timestamps: bool)
    requires
        line.len() == 0 || line[0] != '[',
    ensures
        history_line(line, timestamps) == line,
{
    log_reader::lines_without_prefix_stay(line);
}

/// History is there if the server has a log and the log is there. Otherwise the
/// user is told what is missing, with the whole of the reason or the path.
pub proof fn missing_history_is_explained(
    log_file: Result<Option<String>, String>,
    exists: bool,
)
    ensures
        source_error(log_file, exists) is None <==> log_file is Ok && log_file->Ok_0 is Some
            && exists,
        log_file matches Err(reason) ==> source_error(log_file, exists) == Some(
            "history unavailable: could not read state file: "@ + reason@,
        ),
        log_file == Ok::<Option<String>, String>(None) ==> source_error(log_file, exists) == Some(
            "history unavailable: server was started without --log"@,
        ),
        !exists && log_file is Ok && log_file->Ok_0 is Some ==> source_error(log_file, exists)
            == Some("history unavailable: log file not found: "@ + log_file->Ok_0->0@),
{
}

/// The user is told when nothing matched the pattern, and when the log could not
/// be read, with the whole of the reason, and nothing otherwise.
pub proof fn history_notices_are_rare(found: Result<Vec<String>, String>, since_given: bool)
    ensures
        history_notice(found, since_given) is None <==> found is Ok && (found->Ok_0@.len() > 0
            || !since_given),
        found matches Err(reason) ==> history_notice(found, since_given) == Some(
            "history error: "@ + reason@,
        ),
        found is Ok && found->Ok_0@.len() == 0 && since_given ==> history_notice(
            found,
            since_given,
        ) == Some("no lines matched the --since pattern"@),
{
}

/// The flags decide whether a client runs as an interactive session; without flags
/// it does if it has nothing to run and the output is a terminal.
pub proof fn flags_decide_on_sessions(
    has_command: bool,
    has_timeout: bool,
    has_wait_for: bool,
    terminal: bool,
    other: bool,
    session: bool,
)
    ensures
        call_ensures(
            is_interactive,
            (true, other, has_command, has_timeout, has_wait_for, terminal),
            session,
        ) ==> session,
        call_ensures(
            is_interactive,
            (false, true, has_command, has_timeout, has_wait_for, terminal),
            session,
        ) ==> !session,
        call_ensures(
            is_interactive,
            (false, false, has_command, has_timeout, has_wait_for, terminal),
            session,
        ) ==> session == (terminal && !has_command && !has_timeout && !has_wait_for),
{
}

/// A remote server is reached at its address, whatever there is here. A local one
/// is reached if its socket is there, and otherwise the user is told where it was
/// sought.
pub proof fn connections_are_planned(
    name: &str,
    remote: Option<&str>,
    socket_path: &str,
    socket_exists: bool,
    history_requested: bool,
    connection: Connection,
)
    requires
        call_ensures(
            plan_connection,
            (name, remote, socket_path, socket_exists, history_requested),
            connection,
        ),
    ensures
        remote is Some <==> connection is Remote,
        remote is None && socket_exists <==> connection is Local,
        match connection {
            Connection::Remote { addr, notice } => {
                &&& addr@ == remote->0@
                &&& notice is Some <==> history_requested
                &&& notice is Some ==> notice->0@
                    == "history is not available for remote connections"@
            },
            Connection::Local { show_history } => show_history == history_requested,
            Connection::NotRunning(message) => message@ == "server '"@ + name@
                + "' is not running (socket not found: "@ + socket_path@ + ")"@,
        },
{
}

/// A pattern is refused only where it is no expression, with the whole of the
/// reason.
pub proof fn only_bad_patterns_are_refused(
    source: &str,
    compiled: Result<Option<Pattern>, String>,
    nothing: Result<Option<Pattern>, String>,
)
    ensures
        call_ensures(compile_since, (Some(source),), compiled) ==> match pattern::pattern_error(
            source@,
        ) {
            None => compiled is Ok && compiled->Ok_0 is Some && compiled->Ok_0->0@ == source@,
            Some(reason) => compiled is Err && compiled->Err_0@ == "invalid regex for --since: "@
                + reason,
        },
        call_ensures(compile_since, (None,), nothing) ==> nothing is Ok && nothing->Ok_0 is None,
{
}

/// A number of lines is what history is asked for if it is given, and otherwise
/// the lines since a pattern.
pub proof fn a_number_of_lines_comes_first<'a>(
    n: usize,
    since: Option<&'a Pattern>,
    pattern: &'a Pattern,
    goal: Option<Goal<'a>>,
)
    ensures
        call_ensures(history_goal, (Some(n), since), goal) ==> goal is Some && goal->0@
            == Wanted::LastLines(n as nat),
        call_ensures(history_goal, (None, Some(pattern)), goal) ==> goal is Some && goal->0@
            == Wanted::Since(pattern@),
        call_ensures(history_goal, (None, None), goal) ==> goal is None,
{
}

/// History comes from the log that the state file names, if it is there.
pub proof fn history_comes_from_the_log(
    path: String,
    reason: String,
    exists: bool,
    source: HistorySource,
)
    ensures
        call_ensures(history_source, (Ok::<Option<String>, String>(Some(path)), true), source)
            ==> source == HistorySource::Log(path),
        call_ensures(history_source, (Ok::<Option<String>, String>(Some(path)), false), source)
            ==> source is Unavailable && source->Unavailable_0@
            == "history unavailable: log file not found: "@ + path@,
        call_ensures(history_source, (Ok::<Option<String>, String>(None), exists), source)
            ==> source is Unavailable && source->Unavailable_0@
            == "history unavailable: server was started without --log"@,
        call_ensures(history_source, (Err::<Option<String>, String>(reason), exists), source)
            ==> source is Unavailable && source->Unavailable_0@
            == "history unavailable: could not read state file: "@ + reason@,
{
}

/// A report has every line that was found, in order, and with timestamps as it was
/// found.
pub proof fn reports_have_every_line(
    lines: Vec<String>,
    since_given: bool,
    timestamps: bool,
    report: HistoryReport,
    i: int,
)
    requires
        call_ensures(
            history_report,
            (Ok::<Vec<String>, String>(lines), since_given, timestamps),
            report,
        ),
    ensures
        report.lines@.len() == lines@.len(),
        0 <= i < lines@.len() && timestamps ==> report.lines@[i]@ == lines@[i]@,
        0 <= i < lines@.len() && !timestamps ==> report.lines@[i]@ == log_reader::stripped(
            lines@[i]@,
        ),
        report.notice is Some <==> lines@.len() == 0 && since_given,
{
    let shown = text::texts(report.lines@);
    let found = text::texts(lines@);
    assert(shown.len() == found.len());
    if 0 <= i < lines@.len() {
        assert(shown[i] == report.lines@[i]@);
        assert(found[i] == lines@[i]@);
    }
}

} // verus!
