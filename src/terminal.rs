//! The operations of the session multiplexer: what a new session is launched
//! with, and how create, write, resize, close and close-all act on the
//! registry. The host performs the pseudoterminal work on the record that an
//! operation hands it, while it still holds the registry's lock.

use vstd::prelude::*;
use crate::codec::{b64_decoded, decode_base64, random_session_id};
use crate::registry::TerminalManager;

verus! {

/// Why an operation on a session failed. Failures of the pseudoterminal
/// itself (opening it, spawning the shell, writing, resizing) arise in the
/// host, which reports them as it performs that work.
pub enum TerminalError {
    /// A terminal dimension is zero.
    InvalidSize,
    /// No session has this identifier: it ended or never existed.
    NotFound,
    /// The input payload is not standard base64.
    Encoding,
}

/// Columns and rows of a terminal.
#[derive(Clone, Copy)]
pub struct TerminalSize {
    pub cols: u16,
    pub rows: u16,
}

/// How to launch the shell of a new session.
pub struct LaunchPlan {
    /// The working directory of the shell.
    pub cwd: String,
    /// The shell program.
    pub program: String,
    /// Its arguments: an interactive login shell.
    pub args: Vec<String>,
    /// Environment variables to set, in order.
    pub env: Vec<(String, String)>,
    /// The initial size of the terminal.
    pub size: TerminalSize,
}

/// The shell used where the caller names none and the shell variable is
/// unset: `cmd.exe` on Windows, `/bin/bash` elsewhere.
pub open spec fn fallback_shell(windows: bool) -> Seq<char> {
    if windows {
        "cmd.exe"@
    } else {
        "/bin/bash"@
    }
}

/// The shell that `get_default_shell` picks from the value of the platform's
/// shell variable (`COMSPEC` on Windows, `SHELL` elsewhere).
pub open spec fn default_shell(shell_var: Option<Seq<char>>, windows: bool) -> Seq<char> {
    match shell_var {
        Some(s) => s,
        None => fallback_shell(windows),
    }
}

/// The working directory of a new session: the one asked for, else the home
/// directory, else the root.
pub open spec fn session_cwd(working_dir: Option<Seq<char>>, home_dir: Option<Seq<char>>) -> Seq<char> {
    match working_dir {
        Some(d) => d,
        None => match home_dir {
            Some(h) => h,
            None => "/"@,
        },
    }
}

/// The environment of a new session: on Windows nothing is added; elsewhere
/// a colour terminal, the home directory where known, and a UTF-8 locale
/// where none is set.
pub open spec fn session_env(home_dir: Option<Seq<char>>, lang_set: bool, windows: bool) -> Seq<(Seq<char>, Seq<char>)> {
    if windows {
        Seq::empty()
    } else {
        posix_session_env(home_dir, lang_set)
    }
}

/// The environment of a new session on a POSIX platform.
pub open spec fn posix_session_env(home_dir: Option<Seq<char>>, lang_set: bool) -> Seq<(Seq<char>, Seq<char>)> {
    seq![("TERM"@, "xterm-256color"@), ("COLORTERM"@, "truecolor"@)] + match home_dir {
        Some(h) => seq![("HOME"@, h)],
        None => Seq::empty(),
    } + if lang_set {
        Seq::empty()
    } else {
        seq![("LANG"@, "en_US.UTF-8"@)]
    }
}

/// The environment pairs of a plan, as text.
pub open spec fn env_view(env: Seq<(String, String)>) -> Seq<(Seq<char>, Seq<char>)> {
    env.map_values(|e: (String, String)| (e.0@, e.1@))
}

/// The view of an optional string.
pub open spec fn opt_view(s: Option<String>) -> Option<Seq<char>> {
    match s {
        Some(t) => Some(t@),
        None => None,
    }
}

/// The shell for sessions that name none: the value of the platform's shell
/// variable where it is set (the host reads `COMSPEC` on Windows, `SHELL`
/// elsewhere, and tells whether it runs on Windows), else `cmd.exe` on
/// Windows and `/bin/bash` elsewhere.
pub fn get_default_shell(shell_var: Option<String>, windows: bool) -> (r: String)
    ensures
        r@ == default_shell(opt_view(shell_var), windows),
{
    match shell_var {
        Some(s) => s,
        None => if windows {
            String::from_str("cmd.exe")
        } else {
            String::from_str("/bin/bash")
        },
    }
}

fn text_pair(k: &str, v: String) -> (r: (String, String))
    ensures
        r.0@ == k@,
        r.1@ == v@,
{
    (String::from_str(k), v)
}

/// Decides how a new session is launched. Both dimensions must be positive.
/// `home_dir` is the user's home directory and `shell_var` the value of the
/// platform's shell variable, where known; `lang_set` tells whether `LANG` is
/// set and `windows` whether the host runs on Windows. Outside Windows the
/// shell is started as an interactive login shell (`-il`) with its
/// environment seeded; on Windows it gets no arguments and no variables.
/// Whether the working directory exists is for the host to check.
pub fn plan_terminal(
    working_dir: Option<String>,
    shell: Option<String>,
    home_dir: Option<String>,
    shell_var: Option<String>,
    lang_set: bool,
    windows: bool,
    cols: u16,
    rows: u16,
) -> (r: Result<LaunchPlan, TerminalError>)
    ensures
        (cols == 0 || rows == 0) <==> r is Err,
        r matches Err(e) ==> e is InvalidSize,
        r matches Ok(p) ==> {
            &&& p.cwd@ == session_cwd(opt_view(working_dir), opt_view(home_dir))
            &&& p.program@ == match shell {
                Some(s) => s@,
                None => default_shell(opt_view(shell_var), windows),
            }
            &&& windows ==> p.args@.len() == 0
            &&& !windows ==> p.args@.len() == 1 && p.args@[0]@ == "-il"@
            &&& env_view(p.env@) == session_env(opt_view(home_dir), lang_set, windows)
            &&& p.size == (TerminalSize { cols, rows })
        },
{
    if cols == 0 || rows == 0 {
        return Err(TerminalError::InvalidSize);
    }
    let cwd = match working_dir {
        Some(d) => d,
        None => match &home_dir {
            Some(h) => h.clone(),
            None => String::from_str("/"),
        },
    };
    let program = match shell {
        Some(s) => s,
        None => get_default_shell(shell_var, windows),
    };
    let mut args: Vec<String> = Vec::new();
    let mut env: Vec<(String, String)> = Vec::new();
    if !windows {
        args.push(String::from_str("-il"));
        env.push(text_pair("TERM", String::from_str("xterm-256color")));
        env.push(text_pair("COLORTERM", String::from_str("truecolor")));
        match &home_dir {
            Some(h) => env.push(text_pair("HOME", h.clone())),
            None => {},
        }
        if !lang_set {
            env.push(text_pair("LANG", String::from_str("en_US.UTF-8")));
        }
    }
    proof {
        assert(env_view(env@) =~= session_env(opt_view(home_dir), lang_set, windows));
    }
    Ok(LaunchPlan { cwd, program, args, env, size: TerminalSize { cols, rows } })
}

/// Registers a newly launched session under the identifier `id`, which must
/// not be in use: where it is, the table is left as it was and the record is
/// handed back for the host to tear down.
pub fn register_terminal<R>(manager: &mut TerminalManager<R>, id: String, record: R) -> (r: Result<String, R>)
    requires
        old(manager).wf(),
    ensures
        final(manager).wf(),
        r is Ok <==> !old(manager)@.contains_key(id@),
        r matches Ok(k) ==> k@ == id@ && final(manager)@ == old(manager)@.insert(id@, record),
        r matches Err(back) ==> back == record && final(manager)@ == old(manager)@,
{
    if manager.contains(id.as_str()) {
        return Err(record);
    }
    let key = id.clone();
    manager.add(id, record);
    Ok(key)
}

/// Registers a newly launched session under a fresh random identifier and
/// returns that identifier. Should the drawn identifier be in use already,
/// nothing is registered and the record is handed back.
pub fn create_terminal<R>(manager: &mut TerminalManager<R>, record: R) -> (r: Result<String, R>)
    requires
        old(manager).wf(),
    ensures
        final(manager).wf(),
        r matches Ok(k) ==> !old(manager)@.contains_key(k@) && final(manager)@ == old(manager)@.insert(
            k@,
            record,
        ),
        r matches Err(back) ==> back == record && final(manager)@ == old(manager)@,
        old(manager)@ == Map::<Seq<char>, R>::empty() ==> r is Ok,
{
    let id = random_session_id();
    register_terminal(manager, id, record)
}

/// Prepares a write of input to a session: finds the session and decodes the
/// base64 payload. On success the host writes all of the returned bytes to
/// the record's input writer and flushes it. Fails with `NotFound` where no
/// session has the identifier, else with `Encoding` where the payload is not
/// standard base64; the table is then unchanged.
pub fn write_to_terminal<'a, R>(manager: &'a mut TerminalManager<R>, terminal_id: &str, data: &str) -> (r:
    Result<(&'a mut R, Vec<u8>), TerminalError>)
    requires
        old(manager).wf(),
    ensures
        final(manager).wf(),
        !old(manager)@.contains_key(terminal_id@) ==> (r matches Err(e) && e is NotFound),
        old(manager)@.contains_key(terminal_id@) && b64_decoded(data@) is None ==> (r matches Err(e)
            && e is Encoding),
        r is Err ==> final(manager)@ == old(manager)@,
        old(manager)@.contains_key(terminal_id@) && b64_decoded(data@) is Some ==> r is Ok,
        r matches Ok((rec, bytes)) ==> {
            &&& *rec == old(manager)@[terminal_id@]
            &&& b64_decoded(data@) == Some(bytes@)
            &&& final(manager)@ == old(manager)@.insert(terminal_id@, *final(rec))
        },
{
    if !manager.contains(terminal_id) {
        return Err(TerminalError::NotFound);
    }
    let bytes = match decode_base64(data) {
        Some(b) => b,
        None => {
            return Err(TerminalError::Encoding);
        },
    };
    match manager.get_mut(terminal_id) {
        Some(rec) => Ok((rec, bytes)),
        None => Err(TerminalError::NotFound),
    }
}

/// Finds a session to resize: the host then applies the new size to the
/// record's pseudoterminal. Fails with `NotFound`, leaving the table as it
/// was, where no session has the identifier.
pub fn resize_terminal<'a, R>(manager: &'a mut TerminalManager<R>, terminal_id: &str) -> (r: Result<
    &'a mut R,
    TerminalError,
>)
    requires
        old(manager).wf(),
    ensures
        final(manager).wf(),
        r is Ok <==> old(manager)@.contains_key(terminal_id@),
        r matches Err(e) ==> e is NotFound && final(manager)@ == old(manager)@,
        r matches Ok(rec) ==> *rec == old(manager)@[terminal_id@] && final(manager)@
            == old(manager)@.insert(terminal_id@, *final(rec)),
{
    match manager.get_mut(terminal_id) {
        Some(rec) => Ok(rec),
        None => Err(TerminalError::NotFound),
    }
}

/// Removes a session from the table and hands its record over, for the host
/// to kill and reap the child. Fails with `NotFound`, leaving the table as it
/// was, where no session has the identifier.
pub fn close_terminal<R>(manager: &mut TerminalManager<R>, terminal_id: &str) -> (r: Result<R, TerminalError>)
    requires
        old(manager).wf(),
    ensures
        final(manager).wf(),
        final(manager)@ == old(manager)@.remove(terminal_id@),
        r is Ok <==> old(manager)@.contains_key(terminal_id@),
        r matches Ok(rec) ==> rec == old(manager)@[terminal_id@],
        r matches Err(e) ==> e is NotFound,
{
    match manager.remove(terminal_id) {
        Some(rec) => Ok(rec),
        None => {
            assert(old(manager)@.remove(terminal_id@) =~= old(manager)@);
            Err(TerminalError::NotFound)
        },
    }
}

/// Empties the table in one step and hands over every session, each exactly
/// once, for the host to kill and reap.
pub fn close_all_terminals<R>(manager: &mut TerminalManager<R>) -> (r: Vec<(String, R)>)
    requires
        old(manager).wf(),
    ensures
        final(manager).wf(),
        final(manager)@ == Map::<Seq<char>, R>::empty(),
        r@.len() == old(manager)@.len(),
        forall|i: int, j: int| 0 <= i < j < r@.len() ==> r@[i].0@ != r@[j].0@,
        forall|i: int| 0 <= i < r@.len() ==> old(manager)@.contains_key(#[trigger] r@[i].0@) && r@[i].1
            == old(manager)@[r@[i].0@],
        forall|k: Seq<char>| old(manager)@.contains_key(k) ==> exists|i: int| 0 <= i < r@.len()
            && #[trigger] r@[i].0@ == k,
{
    manager.drain_all()
}

/// Closing an identifier twice: after the first close the identifier is no
/// longer in the table, so the second close fails with not-found, and it
/// leaves the table as the first close left it.
pub proof fn lemma_close_twice<R>(sessions: Map<Seq<char>, R>, id: Seq<char>)
    ensures
        !sessions.remove(id).contains_key(id),
        sessions.remove(id).remove(id) == sessions.remove(id),
{
    assert(sessions.remove(id).remove(id) =~= sessions.remove(id));
}

/// Closing all sessions hands back as many identifiers as there were
/// sessions, and afterwards none of them is found by any operation.
pub proof fn lemma_close_all<R>(sessions: Map<Seq<char>, R>, closed: Seq<Seq<char>>)
    requires
        sessions.dom().finite(),
        closed.no_duplicates(),
        forall|k: Seq<char>| sessions.contains_key(k) <==> closed.contains(k),
    ensures
        closed.len() == sessions.len(),
        forall|i: int| 0 <= i < closed.len() ==> !Map::<Seq<char>, R>::empty().contains_key(#[trigger] closed[i]),
{
    assert(closed.to_set() =~= sessions.dom());
    closed.unique_seq_to_set();
}

/// The bytes that a sequence of input payloads delivers to a session, in
/// call order: the decodings concatenated, or `None` where some payload is
/// not standard base64 (that write fails and delivers nothing).
pub open spec fn delivered_input(payloads: Seq<Seq<char>>) -> Option<Seq<u8>>
    decreases payloads.len(),
{
    if payloads.len() == 0 {
        Some(Seq::empty())
    } else {
        match (delivered_input(payloads.drop_last()), b64_decoded(payloads.last())) {
            (Some(a), Some(b)) => Some(a + b),
            _ => None,
        }
    }
}

/// Byte strings concatenated in order.
pub open spec fn concat_chunks(chunks: Seq<Seq<u8>>) -> Seq<u8>
    decreases chunks.len(),
{
    if chunks.len() == 0 {
        Seq::empty()
    } else {
        concat_chunks(chunks.drop_last()) + chunks.last()
    }
}

/// Writes to one session, in order: where the writes all succeed, each hands
/// over the decoding of its payload (as `write_to_terminal` ensures), so the
/// session receives exactly the decoded payloads concatenated in call order,
/// none dropped, repeated or reordered.
pub proof fn lemma_writes_in_call_order(payloads: Seq<Seq<char>>, handed: Seq<Seq<u8>>)
    requires
        handed.len() == payloads.len(),
        forall|i: int| 0 <= i < payloads.len() ==> b64_decoded(#[trigger] payloads[i]) == Some(handed[i]),
    ensures
        delivered_input(payloads) == Some(concat_chunks(handed)),
    decreases payloads.len(),
{
    if payloads.len() > 0 {
        let n = payloads.len() - 1;
        assert(b64_decoded(payloads[n]) == Some(handed[n]));
        lemma_writes_in_call_order(payloads.drop_last(), handed.drop_last());
    }
}

/// A teardown call: `close_terminal` on one identifier, or
/// `close_all_terminals`.
pub enum CloseCall {
    One(Seq<char>),
    All,
}

/// The table after a teardown call, as the two functions' `ensures` state.
pub open spec fn after_close_call<R>(sessions: Map<Seq<char>, R>, call: CloseCall) -> Map<Seq<char>, R> {
    match call {
        CloseCall::One(k) => sessions.remove(k),
        CloseCall::All => Map::empty(),
    }
}

/// Whether a teardown call reports `id` as closed (and hands its record
/// over): `close_terminal(id)` succeeds, or `id` is among the identifiers
/// that `close_all_terminals` returns.
pub open spec fn close_call_reports<R>(sessions: Map<Seq<char>, R>, call: CloseCall, id: Seq<char>) -> bool {
    sessions.contains_key(id) && match call {
        CloseCall::One(k) => k == id,
        CloseCall::All => true,
    }
}

/// How many calls of a sequence of teardown calls report `id` as closed.
pub open spec fn close_reports<R>(sessions: Map<Seq<char>, R>, calls: Seq<CloseCall>, id: Seq<char>) -> nat
    decreases calls.len(),
{
    if calls.len() == 0 {
        0
    } else {
        (if close_call_reports(sessions, calls[0], id) { 1nat } else { 0nat }) + close_reports(
            after_close_call(sessions, calls[0]),
            calls.drop_first(),
            id,
        )
    }
}

/// Whatever sequence of `close_terminal` and `close_all_terminals` calls
/// follows, at most one of them reports a session as closed, and none does
/// where it is not in the table: its record is handed over, and so released,
/// at most once.
pub proof fn lemma_closed_at_most_once<R>(sessions: Map<Seq<char>, R>, calls: Seq<CloseCall>, id: Seq<char>)
    ensures
        close_reports(sessions, calls, id) <= if sessions.contains_key(id) { 1nat } else { 0nat },
    decreases calls.len(),
{
    if calls.len() > 0 {
        let after = after_close_call(sessions, calls[0]);
        lemma_closed_at_most_once(after, calls.drop_first(), id);
        if after.contains_key(id) {
            assert(sessions.contains_key(id));
            assert(!close_call_reports(sessions, calls[0], id));
        }
    }
}

} // verus!
