//! The daemon process: where its files lie, and what a PID file says.

use crate::config::Config;
use crate::text;
use vstd::prelude::*;

verus! {

/// Where the daemon's socket lies.
pub fn socket_path(config: &Config) -> (r: String)
    ensures
        r@ == text::joined_path(
            config.daemon.socket_dir@,
            config.daemon.name@ + ".sock"@,
        ),
{
    let file = text::concat(config.daemon.name.as_str(), ".sock");
    text::join_path(config.daemon.socket_dir.as_str(), file.as_str())
}

/// Where the daemon's PID file lies.
pub fn pid_path(config: &Config) -> (r: String)
    ensures
        r@ == text::joined_path(config.daemon.pid_dir@, config.daemon.name@ + ".pid"@),
{
    let file = text::concat(config.daemon.name.as_str(), ".pid");
    text::join_path(config.daemon.pid_dir.as_str(), file.as_str())
}

/// Whether a daemon may be named so: letters, digits, underscores and hyphens.
pub open spec fn is_valid_name(name: Seq<char>) -> bool {
    forall|i: int|
        0 <= i < name.len() ==> {
            let c = #[trigger] name[i];
            'a' <= c <= 'z' || 'A' <= c <= 'Z' || '0' <= c <= '9' || c == '_' || c == '-'
        }
}

/// Checks the daemon's name, which becomes part of file names.
pub fn check_daemon_name(name: &str) -> (r: Result<(), String>)
    ensures
        match r {
            Ok(_) => is_valid_name(name@),
            Err(e) => !is_valid_name(name@) && e@ == "invalid daemon name: '"@ + name@
                + "'. Daemon name must contain only alphanumeric characters, underscores, and hyphens."@,
        },
{
    let cs = text::chars_of(name);
    let mut i: usize = 0;
    while i < cs.len()
        invariant
            i <= cs.len(),
            cs@ == name@,
            forall|j: int|
                0 <= j < i ==> {
                    let c = #[trigger] name@[j];
                    'a' <= c <= 'z' || 'A' <= c <= 'Z' || '0' <= c <= '9' || c == '_' || c == '-'
                },
        decreases cs.len() - i,
    {
        let c = cs[i];
        if !((c >= 'a' && c <= 'z') || (c >= 'A' && c <= 'Z') || (c >= '0' && c <= '9') || c == '_'
            || c == '-') {
            assert(name@[i as int] == c);
            return Err(
                text::concat3(
                    "invalid daemon name: '",
                    name,
                    "'. Daemon name must contain only alphanumeric characters, underscores, and hyphens.",
                ),
            );
        }
        i = i + 1;
    }
    Ok(())
}

/// The PID that a PID file holds.
pub fn read_pid(contents: &str) -> (r: Result<u32, String>)
    ensures
        match r {
            Ok(pid) => text::parsed_number(text::trimmed(contents@), u32::MAX as nat) == Some(
                pid as nat,
            ),
            Err(e) => text::parsed_number(text::trimmed(contents@), u32::MAX as nat) is None && e@
                == "Invalid PID in pid file: "@ + text::trimmed(contents@),
        },
{
    let trimmed = text::trim(contents);
    match text::parse_number(trimmed.as_str(), u32::MAX as u64) {
        Some(pid) => Ok(pid as u32),
        None => Err(text::concat("Invalid PID in pid file: ", trimmed.as_str())),
    }
}

/// What a PID file holds for a process.
pub fn pid_line(pid: u32) -> (r: String)
    ensures
        r@ == text::decimal(pid as nat).push('\n'),
{
    let mut line = text::decimal_of(pid as u64);
    line.push('\n');
    line
}

/// A PID file that was written is read back: the number comes out as it went in.
pub proof fn written_pid_is_read_back(pid: u32)
    ensures
        text::parsed_number(
            text::trimmed(text::decimal(pid as nat).push('\n')),
            u32::MAX as nat,
        ) == Some(pid as nat),
{
    let digits = text::decimal(pid as nat);
    text::lemma_decimal(pid as nat);
    let line = digits.push('\n');
    assert(text::is_white('\n'));
    assert(!text::is_white(line[0]));
    assert(text::trim_start(line) == line);
    assert(line.last() == '\n');
    assert(line.drop_last() =~= digits);
    assert(!text::is_white(digits.last()));
    assert(text::trim_end(line) == text::trim_end(digits));
    assert(text::trim_end(digits) == digits);
}

/// Whether a process is alive, given what `kill` with signal zero returned and the error
/// it left. Only an error that says there is no such process means that it is not; where
/// it cannot be determined, the process counts as alive.
pub fn is_alive(kill_result: i32, os_error: Option<i32>, no_such_process: i32) -> (r: bool)
    ensures
        r == (kill_result == 0 || os_error != Some(no_such_process)),
{
    if kill_result == 0 {
        return true;
    }
    match os_error {
        Some(code) => code != no_such_process,
        None => true,
    }
}

/// Whether a daemon may start beside the process of a PID file: not while that process is
/// alive.
pub fn check_running(pid: u32, alive: bool) -> (r: Result<(), String>)
    ensures
        match r {
            Ok(_) => !alive,
            Err(e) => alive && e@ == "daemon already running (pid "@ + text::decimal(pid as nat)
                + ")"@,
        },
{
    if alive {
        Err(
            text::concat3(
                "daemon already running (pid ",
                text::decimal_of(pid as u64).as_str(),
                ")",
            ),
        )
    } else {
        Ok(())
    }
}

/// Whether a process with the given command name is the daemon.
pub fn is_daemon_command(command: &str, daemon_name: &str) -> (r: bool)
    ensures
        r == (text::trimmed(command@) == daemon_name@),
{
    text::same(text::trim(command).as_str(), daemon_name)
}

/// The signed number that a text stands for, if 32 bits hold it: decimal digits with
/// perhaps a sign before them.
pub open spec fn parsed_signed(s: Seq<char>) -> Option<int> {
    if s.len() > 0 && s[0] == '-' {
        match text::digits_number(s.skip(1), 0x8000_0000) {
            Some(n) => Some(-(n as int)),
            None => None,
        }
    } else {
        match text::parsed_number(s, 0x7FFF_FFFF) {
            Some(n) => Some(n as int),
            None => None,
        }
    }
}

/// The PID of the daemon that is to be stopped.
pub fn read_stop_pid(contents: &str, daemon_name: &str) -> (r: Result<i32, String>)
    ensures
        match r {
            Ok(pid) => parsed_signed(text::trimmed(contents@)) == Some(pid as int),
            Err(e) => parsed_signed(text::trimmed(contents@)) is None && e@
                == "invalid PID in PID file for daemon '"@ + daemon_name@ + "': "@ + text::trimmed(
                contents@,
            ),
        },
{
    let trimmed = text::trim(contents);
    let cs = text::chars_of(trimmed.as_str());
    let parsed: Option<i32> = if cs.len() > 0 && cs[0] == '-' {
        let digits = text::string_of(&cs, 1, cs.len());
        assert(digits@ =~= trimmed@.skip(1));
        match plain_number(digits.as_str(), 0x8000_0000) {
            Some(n) => Some((0 - n as i64) as i32),
            None => None,
        }
    } else {
        match text::parse_number(trimmed.as_str(), 0x7FFF_FFFF) {
            Some(n) => Some(n as i32),
            None => None,
        }
    };
    match parsed {
        Some(pid) => Ok(pid),
        None => {
            let start = text::concat3("invalid PID in PID file for daemon '", daemon_name, "': ");
            Err(text::concat(start.as_str(), trimmed.as_str()))
        },
    }
}

/// The number up to `max` that a row of decimal digits stands for.
fn plain_number(digits: &str, max: u64) -> (r: Option<u64>)
    ensures
        match r {
            Some(n) => text::digits_number(digits@, max as nat) == Some(n as nat) && n <= max,
            None => text::digits_number(digits@, max as nat) is None,
        },
{
    let cs = text::chars_of(digits);
    if cs.len() > 0 && cs[0] == '+' {
        assert(!text::is_digit(digits@[0]));
        return None;
    }
    text::parse_number(digits, max)
}

/// What is said of a PID that does not belong to the daemon.
pub fn foreign_pid_message(pid: i32, daemon_name: &str) -> (r: String)
    ensures
        r@ == "PID "@ + text::signed_decimal(pid as int) + " does not belong to daemon '"@
            + daemon_name@
            + "'. The PID file may be stale — the daemon may have crashed or been terminated by an external agent. Remove the PID file manually if the daemon is no longer running."@,
{
    let start = text::concat3(
        "PID ",
        text::signed_decimal_of(pid as i64).as_str(),
        " does not belong to daemon '",
    );
    text::concat3(
        start.as_str(),
        daemon_name,
        "'. The PID file may be stale — the daemon may have crashed or been terminated by an external agent. Remove the PID file manually if the daemon is no longer running.",
    )
}

/// What is said of a daemon that is still there after so many seconds.
pub fn stop_timeout_message(daemon_name: &str, seconds: u64) -> (r: String)
    ensures
        r@ == "daemon '"@ + daemon_name@ + "' did not stop within "@ + text::decimal(seconds as nat)
            + " seconds"@,
{
    let start = text::concat3("daemon '", daemon_name, "' did not stop within ");
    text::concat3(start.as_str(), text::decimal_of(seconds).as_str(), " seconds")
}

/// A file that is named after a valid daemon lies in the directory it is meant for: its name
/// holds no separator and leads nowhere else.
pub proof fn valid_names_stay_in_their_directory(dir: Seq<char>, name: Seq<char>)
    requires
        is_valid_name(name),
    ensures
        !name.contains('/'),
        !name.contains('.'),
        dir.len() > 0 && dir.last() != '/' ==> {
            &&& text::joined_path(dir, name + ".sock"@) == dir + "/"@ + (name + ".sock"@)
            &&& text::joined_path(dir, name + ".pid"@) == dir + "/"@ + (name + ".pid"@)
        },
{
    reveal_strlit(".sock");
    reveal_strlit(".pid");
    reveal_strlit("/");
    assert forall|i: int| 0 <= i < name.len() implies name[i] != '/' && name[i] != '.' by {
        let c = name[i];
    }
    if dir.len() > 0 {
        assert(dir.push('/') =~= dir + "/"@);
    }
}

/// A name may be prolonged by letters, digits, underscores and hyphens of ASCII, and by nothing
/// else.
pub proof fn names_are_made_of_letters_and_digits(name: Seq<char>, c: char)
    ensures
        is_valid_name(Seq::empty()),
        is_valid_name(name.push(c)) <==> is_valid_name(name) && (0x61 <= c as u32 <= 0x7A || 0x41
            <= c as u32 <= 0x5A || 0x30 <= c as u32 <= 0x39 || c as u32 == 0x5F || c as u32
            == 0x2D),
{
    let longer = name.push(c);
    if is_valid_name(longer) {
        assert forall|i: int| 0 <= i < name.len() implies ({
            let d = #[trigger] name[i];
            'a' <= d <= 'z' || 'A' <= d <= 'Z' || '0' <= d <= '9' || d == '_' || d == '-'
        }) by {
            assert(longer[i] == name[i]);
        }
        assert(longer[name.len() as int] == c);
    }
    if is_valid_name(name) && (0x61 <= c as u32 <= 0x7A || 0x41 <= c as u32 <= 0x5A || 0x30
        <= c as u32 <= 0x39 || c as u32 == 0x5F || c as u32 == 0x2D) {
        assert forall|i: int| 0 <= i < longer.len() implies ({
            let d = #[trigger] longer[i];
            'a' <= d <= 'z' || 'A' <= d <= 'Z' || '0' <= d <= '9' || d == '_' || d == '-'
        }) by {
            if i < name.len() {
                assert(longer[i] == name[i]);
            }
        }
    }
}

/// A signed number of 32 bits that is written in decimal is read back.
pub proof fn written_signed_numbers_are_read_back(n: i32)
    ensures
        parsed_signed(text::signed_decimal(n as int)) == Some(n as int),
{
    reveal_strlit("-");
    if n < 0 {
        let size = (-(n as int)) as nat;
        text::lemma_decimal(size);
        assert(text::signed_decimal(n as int).skip(1) =~= text::decimal(size));
    } else {
        text::written_numbers_are_read_back(n as nat, 0x7FFF_FFFF);
        text::lemma_decimal(n as nat);
        assert(text::is_digit(text::decimal(n as nat)[0]));
    }
}

} // verus!
