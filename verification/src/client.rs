//! The client side of the daemon's socket: where it lies, and what is said when a
//! request comes to nothing.

use crate::config::Config;
use crate::daemon::frames::MAX_MESSAGE_SIZE;
use crate::text;
use vstd::prelude::*;

verus! {

/// A lightweight client that connects to the daemon via Unix domain socket.
///
/// The connection is opened fresh for each request, so that the client survives daemon
/// restarts without state management.
#[derive(Debug)]
pub struct DaemonClient {
    /// Where the socket lies.
    pub socket_path: String,
    /// For how many seconds a response is waited for.
    pub timeout_secs: u64,
}

impl DaemonClient {
    /// Build a client from configuration.
    pub fn new(config: &Config) -> (r: Self)
        ensures
            r.socket_path@ == config.daemon.socket_dir@ + "/"@ + config.daemon.name@ + ".sock"@,
            r.timeout_secs == config.search.request_timeout_secs,
    {
        let dir = text::concat3(config.daemon.socket_dir.as_str(), "/", config.daemon.name.as_str());
        DaemonClient {
            socket_path: text::concat(dir.as_str(), ".sock"),
            timeout_secs: config.search.request_timeout_secs,
        }
    }
}

/// Where a request to the daemon came to nothing, with what the system says.
#[derive(Debug)]
pub enum ClientFailure {
    /// The socket could not be reached.
    Connect(String),
    /// The request could not be serialized.
    Serialize(String),
    /// The request could not be sent.
    Send(String),
    /// The request could not be flushed.
    Flush(String),
    /// The response could not be read.
    Read(String),
    /// The daemon closed the connection before a response came.
    Closed,
    /// The response is larger than a message may be.
    TooLarge,
    /// The response could not be parsed.
    Parse(String),
    /// No response came in time.
    TimedOut,
}

/// What a tool call that came to nothing is answered with.
#[derive(Debug)]
pub struct ToolError {
    /// The error code.
    pub code: i32,
    /// What is said.
    pub message: String,
}

/// The error code of a failure: `-32602` for a request that cannot be serialized or a response
/// that cannot be parsed, `-32001` for a request that timed out, `-32000` for all others.
pub open spec fn failure_code(failure: ClientFailure) -> int {
    match failure {
        ClientFailure::Serialize(_) => -32602,
        ClientFailure::Parse(_) => -32602,
        ClientFailure::TimedOut => -32001,
        _ => -32000,
    }
}

/// What a tool call says of a failure.
pub open spec fn failure_text(failure: ClientFailure, timeout_secs: u64) -> Seq<char> {
    match failure {
        ClientFailure::Connect(e) => "Daemon unreachable: "@ + e@,
        ClientFailure::Serialize(e) => "Failed to serialize request: "@ + e@,
        ClientFailure::Send(e) => "Failed to send request: "@ + e@,
        ClientFailure::Flush(e) => "Failed to flush: "@ + e@,
        ClientFailure::Read(e) => "Read error from daemon: "@ + e@,
        ClientFailure::Closed => "Daemon closed connection before sending response"@,
        ClientFailure::TooLarge => "Daemon response exceeded 1 MB limit"@,
        ClientFailure::Parse(e) => "Failed to parse daemon response: "@ + e@,
        ClientFailure::TimedOut => "Search request timed out after "@ + text::decimal(
            timeout_secs as nat,
        ) + "s"@,
    }
}

/// What a tool call answers to a failure.
pub fn tool_error(failure: &ClientFailure, timeout_secs: u64) -> (r: ToolError)
    ensures
        r.code == failure_code(*failure),
        r.message@ == failure_text(*failure, timeout_secs),
{
    match failure {
        ClientFailure::Connect(e) => ToolError {
            code: -32000,
            message: text::concat("Daemon unreachable: ", e.as_str()),
        },
        ClientFailure::Serialize(e) => ToolError {
            code: -32602,
            message: text::concat("Failed to serialize request: ", e.as_str()),
        },
        ClientFailure::Send(e) => ToolError {
            code: -32000,
            message: text::concat("Failed to send request: ", e.as_str()),
        },
        ClientFailure::Flush(e) => ToolError {
            code: -32000,
            message: text::concat("Failed to flush: ", e.as_str()),
        },
        ClientFailure::Read(e) => ToolError {
            code: -32000,
            message: text::concat("Read error from daemon: ", e.as_str()),
        },
        ClientFailure::Closed => ToolError {
            code: -32000,
            message: "Daemon closed connection before sending response".to_owned(),
        },
        ClientFailure::TooLarge => ToolError {
            code: -32000,
            message: "Daemon response exceeded 1 MB limit".to_owned(),
        },
        ClientFailure::Parse(e) => ToolError {
            code: -32602,
            message: text::concat("Failed to parse daemon response: ", e.as_str()),
        },
        ClientFailure::TimedOut => ToolError {
            code: -32001,
            message: text::concat3(
                "Search request timed out after ",
                text::decimal_of(timeout_secs).as_str(),
                "s",
            ),
        },
    }
}

/// What the command line says of a failure.
pub open spec fn command_text(failure: ClientFailure) -> Seq<char> {
    match failure {
        ClientFailure::Connect(_) => "daemon not running"@,
        ClientFailure::Serialize(_) => "failed to serialize request"@,
        ClientFailure::Send(_) => "failed to send request to daemon"@,
        ClientFailure::Flush(_) => "failed to flush request to daemon"@,
        ClientFailure::Read(e) => "failed to read response from daemon: "@ + e@,
        ClientFailure::Closed => "daemon closed connection without response"@,
        ClientFailure::TooLarge => "daemon response too large (>"@ + text::decimal(
            MAX_MESSAGE_SIZE as nat,
        ) + " bytes)"@,
        ClientFailure::Parse(_) => "failed to parse daemon response"@,
        ClientFailure::TimedOut => "daemon did not respond in time"@,
    }
}

/// What the command line says of a failure.
pub fn command_error(failure: &ClientFailure) -> (r: String)
    ensures
        r@ == command_text(*failure),
{
    match failure {
        ClientFailure::Connect(_) => "daemon not running".to_owned(),
        ClientFailure::Serialize(_) => "failed to serialize request".to_owned(),
        ClientFailure::Send(_) => "failed to send request to daemon".to_owned(),
        ClientFailure::Flush(_) => "failed to flush request to daemon".to_owned(),
        ClientFailure::Read(e) => text::concat("failed to read response from daemon: ", e.as_str()),
        ClientFailure::Closed => "daemon closed connection without response".to_owned(),
        ClientFailure::TooLarge => text::concat3(
            "daemon response too large (>",
            text::decimal_of(MAX_MESSAGE_SIZE as u64).as_str(),
            " bytes)",
        ),
        ClientFailure::Parse(_) => "failed to parse daemon response".to_owned(),
        ClientFailure::TimedOut => "daemon did not respond in time".to_owned(),
    }
}

/// The codes of failures: a request that took too long has a code of its own, what cannot be
/// serialized or parsed is one for invalid parameters, and everything else is a matter of the
/// daemon.
pub proof fn failures_have_their_codes(failure: ClientFailure)
    ensures
        failure_code(failure) == -32001 <==> failure is TimedOut,
        failure_code(failure) == -32602 <==> failure is Serialize || failure is Parse,
        failure_code(failure) == -32000 <==> failure is Connect || failure is Send || failure is Flush
            || failure is Read || failure is Closed || failure is TooLarge,
{
}

/// A daemon that cannot be reached is said to be not running, whatever the system says, so that
/// the program ends with the code for that.
pub proof fn unreachable_daemons_are_not_running(failure: ClientFailure)
    requires
        failure is Connect,
    ensures
        text::has_substring(command_text(failure), "daemon not running"@),
{
    let s = "daemon not running"@;
    assert(s.subrange(0, s.len() as int) =~= s);
    assert(text::occurs_at(s, s, 0));
}

/// What a tool says of a failure ends with what the system says, where the system says something.
pub proof fn tools_pass_on_what_the_system_says(failure: ClientFailure, timeout_secs: u64)
    ensures
        failure matches ClientFailure::Connect(e) ==> failure_text(failure, timeout_secs)
            == "Daemon unreachable: "@ + e@,
        failure matches ClientFailure::Serialize(e) ==> failure_text(failure, timeout_secs)
            == "Failed to serialize request: "@ + e@,
        failure matches ClientFailure::Send(e) ==> failure_text(failure, timeout_secs)
            == "Failed to send request: "@ + e@,
        failure matches ClientFailure::Flush(e) ==> failure_text(failure, timeout_secs)
            == "Failed to flush: "@ + e@,
        failure matches ClientFailure::Read(e) ==> failure_text(failure, timeout_secs)
            == "Read error from daemon: "@ + e@,
        failure matches ClientFailure::Parse(e) ==> failure_text(failure, timeout_secs)
            == "Failed to parse daemon response: "@ + e@,
        failure is TimedOut ==> failure_text(failure, timeout_secs)
            == "Search request timed out after "@ + text::decimal(timeout_secs as nat) + "s"@,
{
}

} // verus!
