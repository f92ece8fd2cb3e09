//! The Mininet environment: a server that is asked over HTTP.

use vstd::prelude::*;

use crate::numerals::parse_u32;
use crate::surroundings::copy_opt;
use crate::text::{chars, join, same, split, trim, u64_text};
use crate::virtual_wall_lite::tunnels::{TunnelInfo, TunnelRequest};

verus! {

/// The commands that end the processes of a program.
pub open spec fn kill_lines(program: Seq<char>) -> Seq<Seq<char>> {
    seq![
        "pkill -f -- '[t]arget/x86_64-unknown-linux-gnu/release/"@ + program + "' || true"@,
        "pkill -f -- '[t]arget/debug/"@ + program + "' || true"@,
        "pkill -x -- '"@ + program + "' || true"@,
    ]
}

/// The commands that end the processes that hosts leave behind.
pub open spec fn cleanup_lines() -> Seq<Seq<char>> {
    kill_lines("metrics"@) + kill_lines("pc-agent"@) + kill_lines("pc-receiver"@) + kill_lines(
        "cdn_proxy"@,
    ) + kill_lines("pc-server"@)
}

fn push_kill_lines(out: &mut Vec<String>, program: &str)
    ensures
        crate::text::texts(final(out)@) == crate::text::texts(old(out)@) + kill_lines(program@),
{
    let ghost before = crate::text::texts(out@);
    out.push(
        "pkill -f -- '[t]arget/x86_64-unknown-linux-gnu/release/".to_owned().concat(program).concat(
            "' || true",
        ),
    );
    out.push("pkill -f -- '[t]arget/debug/".to_owned().concat(program).concat("' || true"));
    out.push("pkill -x -- '".to_owned().concat(program).concat("' || true"));
    assert(crate::text::texts(out@) =~= before + kill_lines(program@));
}

/// The script that ends the processes that hosts leave behind.
pub fn leaked_host_process_cleanup_script() -> (r: String)
    ensures
        r@ == crate::text::joined(cleanup_lines(), "; "@),
{
    let mut lines: Vec<String> = Vec::new();
    assert(crate::text::texts(lines@) =~= Seq::<Seq<char>>::empty());
    push_kill_lines(&mut lines, "metrics");
    assert(crate::text::texts(lines@) =~= kill_lines("metrics"@));
    push_kill_lines(&mut lines, "pc-agent");
    push_kill_lines(&mut lines, "pc-receiver");
    push_kill_lines(&mut lines, "cdn_proxy");
    push_kill_lines(&mut lines, "pc-server");
    join(&lines, "; ")
}

/// What the clean-up came to.
pub fn cleanup_reply(success: bool, status: &str, stderr: &str) -> (r: Result<String, String>)
    ensures
        if success {
            r matches Ok(m) && m@ == "Mininet host cleanup completed"@
        } else {
            r matches Err(m) && m@ == "Mininet host cleanup failed with status "@ + status@ + (
            if crate::text::trimmed(stderr@).len() == 0 {
                Seq::empty()
            } else {
                ": "@ + crate::text::trimmed(stderr@)
            })
        },
{
    if success {
        return Ok("Mininet host cleanup completed".to_owned());
    }
    let mut m = "Mininet host cleanup failed with status ".to_owned().concat(status);
    let ghost before = m@;
    let detail = trim(stderr);
    if !detail.is_empty() {
        m.append(": ");
        m.append(detail);
        assert(m@ =~= before + (": "@ + detail@));
    } else {
        assert(m@ =~= before + Seq::<char>::empty());
    }
    Err(m)
}

/// Whether a status says that the network is running.
pub fn is_running_status(status: Option<&str>) -> (r: bool)
    ensures
        r == (status matches Some(s) && (s@ == "running"@ || s@ == "success"@)),
{
    match status {
        Some(s) => same(s, "running") || same(s, "success"),
        None => false,
    }
}

/// What came back from the server.
#[derive(Debug)]
pub enum Reply {
    /// The server did what was asked, with something to say where it did.
    Success(Option<String>),
    /// The server did not, with a reason where it was understood.
    Failure(Option<String>),
    /// Nothing came back.
    Lost(String),
}

/// A text, or another one where there is none.
pub open spec fn said(o: Option<String>, other: Seq<char>) -> Seq<char> {
    match o {
        Some(s) => s@,
        None => other,
    }
}

fn or_else(o: Option<String>, other: &str) -> (r: String)
    ensures
        r@ == said(o, other@),
{
    match o {
        Some(s) => s,
        None => other.to_owned(),
    }
}

/// What a request came to: what the server said, or the words for what went wrong.
pub open spec fn is_outcome(
    r: Result<String, String>,
    reply: Reply,
    done: Seq<char>,
    lost: Seq<char>,
) -> bool {
    match reply {
        Reply::Success(m) => r matches Ok(s) && s@ == said(m, done),
        Reply::Failure(e) => r matches Err(s) && s@ == said(e, "Unknown error"@),
        Reply::Lost(e) => r matches Err(s) && s@ == lost + e@,
    }
}

fn outcome(reply: Reply, done: &str, lost: &str) -> (r: Result<String, String>)
    ensures
        is_outcome(r, reply, done@, lost@),
{
    match reply {
        Reply::Success(m) => Ok(or_else(m, done)),
        Reply::Failure(e) => Err(or_else(e, "Unknown error")),
        Reply::Lost(e) => Err(lost.to_owned().concat(e.as_str())),
    }
}

/// What starting came to. Where the network runs all the same, a failure to say so is passed
/// over.
pub fn start_outcome(reply: Reply, network_runs: bool) -> (r: Result<String, String>)
    ensures
        match reply {
            Reply::Failure(_) if network_runs => r matches Ok(m) && m@
                == "Mininet started (recovered after transient /start response error)"@,
            Reply::Lost(_) if network_runs => r matches Ok(m) && m@
                == "Mininet started (recovered after transient /start connection drop)"@,
            _ => is_outcome(r, reply, "Mininet started"@, "Failed to start Mininet: "@),
        },
{
    match reply {
        Reply::Failure(_) if network_runs => Ok(
            "Mininet started (recovered after transient /start response error)".to_owned(),
        ),
        Reply::Lost(_) if network_runs => Ok(
            "Mininet started (recovered after transient /start connection drop)".to_owned(),
        ),
        reply => outcome(reply, "Mininet started", "Failed to start Mininet: "),
    }
}

/// What stopping came to.
pub fn stop_outcome(reply: Reply) -> (r: Result<String, String>)
    ensures
        is_outcome(r, reply, "Mininet stopped"@, "Failed to stop Mininet: "@),
{
    outcome(reply, "Mininet stopped", "Failed to stop Mininet: ")
}

/// What executing a command came to.
pub fn exec_outcome(reply: Reply) -> (r: Result<String, String>)
    ensures
        is_outcome(r, reply, ""@, "Failed to execute command: "@),
{
    outcome(reply, "", "Failed to execute command: ")
}

/// What starting a terminal came to.
pub fn xterm_outcome(reply: Reply) -> (r: Result<String, String>)
    ensures
        is_outcome(r, reply, "Xterm started"@, "Failed to start xterm: "@),
{
    outcome(reply, "Xterm started", "Failed to start xterm: ")
}

/// Whether the server can be asked.
pub fn require_server(is_running: bool) -> (r: Result<(), String>)
    ensures
        if is_running {
            r is Ok
        } else {
            r matches Err(m) && m@ == "Mininet server is not running"@
        },
{
    if is_running {
        Ok(())
    } else {
        Err("Mininet server is not running".to_owned())
    }
}

/// The file that holds the process id of a tunnel.
pub open spec fn pid_file(id: Seq<char>) -> Seq<char> {
    "/tmp/tunnel-"@ + id + ".pid"@
}

/// The file that holds the process id of a tunnel.
pub fn pid_file_of(id: &str) -> (r: String)
    ensures
        r@ == pid_file(id@),
{
    "/tmp/tunnel-".to_owned().concat(id).concat(".pid")
}

/// The command that opens a tunnel on a node, and notes its process id.
pub fn remote_tunnel_command(id: &str, request: &TunnelRequest) -> (r: String)
    ensures
        r@ == "bash -c 'nohup socat TCP-LISTEN:"@ + crate::text::dec(request.listen.port as nat)
            + ",fork,reuseaddr,bind="@ + request.listen.host@ + " TCP:"@ + request.target.host@
            + ":"@ + crate::text::dec(request.target.port as nat) + " >/tmp/tunnel-"@ + id@
            + ".log 2>&1 < /dev/null & echo $! | tee "@ + pid_file(id@) + "'"@,
{
    "bash -c 'nohup socat TCP-LISTEN:".to_owned().concat(
        u64_text(request.listen.port as u64).as_str(),
    ).concat(",fork,reuseaddr,bind=").concat(request.listen.host.as_str()).concat(" TCP:").concat(
        request.target.host.as_str(),
    ).concat(":").concat(u64_text(request.target.port as u64).as_str()).concat(
        " >/tmp/tunnel-",
    ).concat(id).concat(".log 2>&1 < /dev/null & echo $! | tee ").concat(
        pid_file_of(id).as_str(),
    ).concat("'")
}

/// Whether a text consists of digits alone, or is empty.
pub open spec fn all_digits(s: Seq<char>) -> bool {
    forall|i: int| 0 <= i < s.len() ==> crate::numerals::is_digit(#[trigger] s[i])
}

/// The lines of a text: nothing follows the last line break where the text ends with it.
pub open spec fn lines_of(s: Seq<char>) -> Seq<Seq<char>> {
    let parts = crate::text::pieces(s, '\n');
    if parts.len() > 0 && parts.last().len() == 0 {
        parts.drop_last()
    } else {
        parts
    }
}

/// The last of some lines that consists of digits alone but for white space around them; nothing
/// where there is none.
pub open spec fn last_number(lines: Seq<Seq<char>>) -> Seq<char>
    decreases lines.len(),
{
    if lines.len() == 0 {
        Seq::empty()
    } else if all_digits(crate::text::trimmed(lines.last())) {
        crate::text::trimmed(lines.last())
    } else {
        last_number(lines.drop_last())
    }
}

fn has_only_digits(s: &str) -> (r: bool)
    ensures
        r == all_digits(s@),
{
    let x = chars(s);
    let mut i: usize = 0;
    while i < x.len()
        invariant
            i <= x.len(),
            x@ == s@,
            all_digits(s@.take(i as int)),
        decreases x.len() - i,
    {
        if !('0' <= x[i] && x[i] <= '9') {
            assert(!crate::numerals::is_digit(s@[i as int]));
            return false;
        }
        assert forall|j: int| 0 <= j < i + 1 implies crate::numerals::is_digit(
            #[trigger] s@.take(i + 1)[j],
        ) by {
            if j < i {
                assert(crate::numerals::is_digit(s@.take(i as int)[j]));
            }
        }
        i += 1;
    }
    assert(s@.take(i as int) =~= s@);
    true
}

/// The process id that the output of a command ends with, in digits.
pub fn pid_line(output: &str) -> (r: String)
    ensures
        r@ == last_number(lines_of(output@)),
{
    let parts = split(output, '\n');
    let ghost all = crate::text::texts(parts@);
    let mut n: usize = parts.len();
    if n > 0 && parts[n - 1].as_str().is_empty() {
        assert(all.last().len() == 0);
        n -= 1;
        assert(all.take(n as int) =~= all.drop_last());
    } else {
        assert(all.take(n as int) =~= all);
        assert(n > 0 ==> all.last() == parts@[n - 1]@);
    }
    let ghost lines = all.take(n as int);
    assert(lines == lines_of(output@));
    assert(lines.take(n as int) =~= lines);
    while n > 0
        invariant
            n <= lines.len(),
            lines.len() <= parts@.len(),
            forall|j: int| 0 <= j < lines.len() ==> #[trigger] lines[j] == parts@[j]@,
            last_number(lines) == last_number(lines.take(n as int)),
            lines == lines_of(output@),
        decreases n,
    {
        assert(lines.take(n as int).last() == parts@[n - 1]@);
        assert(lines.take(n as int).drop_last() =~= lines.take(n - 1));
        let line = trim(parts[n - 1].as_str());
        if has_only_digits(line) {
            return line.to_owned();
        }
        n -= 1;
    }
    assert(lines.take(0) =~= Seq::<Seq<char>>::empty());
    String::new()
}

/// A tunnel on a node, with its process id as it was printed.
#[derive(Debug)]
pub struct RemoteTunnel {
    pub info: TunnelInfo,
    pub pid: Option<String>,
    pub pidfile: String,
}

/// The number that digits stand for.
pub open spec fn pid_number(digits: Seq<char>) -> Option<u32> {
    match crate::numerals::unsigned_upto(digits, u32::MAX as nat) {
        Some(n) => Some(n as u32),
        None => None,
    }
}

fn info_of(id: &str, request: &TunnelRequest, pid: Option<u32>) -> (r: TunnelInfo)
    ensures
        r@ == opened(id@, request@, pid),
{
    TunnelInfo {
        id: id.to_owned(),
        node: request.node.clone(),
        direction: request.direction,
        listen: request.listen.clone(),
        target: request.target.clone(),
        username: copy_opt(&request.username),
        pid,
    }
}

/// What is known of a tunnel that was asked for.
pub open spec fn opened(
    id: Seq<char>,
    request: crate::virtual_wall_lite::tunnels::TunnelRequestView,
    pid: Option<u32>,
) -> crate::virtual_wall_lite::tunnels::TunnelInfoView {
    crate::virtual_wall_lite::tunnels::TunnelInfoView {
        id,
        node: request.node,
        direction: request.direction,
        listen: request.listen,
        target: request.target,
        username: request.username,
        pid,
    }
}

/// A tunnel on this machine.
pub fn local_tunnel(id: &str, request: &TunnelRequest) -> (r: TunnelInfo)
    ensures
        r@ == opened(id@, request@, None),
{
    info_of(id, request, None)
}

/// A tunnel on a node, from what the command that opened it printed.
pub fn remote_tunnel(id: &str, request: &TunnelRequest, output: &str) -> (r: RemoteTunnel)
    ensures
        ({
            let digits = last_number(lines_of(output@));
            &&& r.info@ == opened(id@, request@, pid_number(digits))
            &&& r.pidfile@ == pid_file(id@)
            &&& crate::text::opt_text(r.pid) == (if digits.len() == 0 {
                None
            } else {
                Some(digits)
            })
        }),
{
    let digits = pid_line(output);
    let pid: Option<u32> = parse_u32(digits.as_str());
    let info = info_of(id, request, pid);
    RemoteTunnel {
        info,
        pid: if digits.as_str().is_empty() {
            None
        } else {
            Some(digits)
        },
        pidfile: pid_file_of(id),
    }
}

/// The process to end when a tunnel on a node is closed: the one that was printed, else the one
/// that its file holds.
pub open spec fn pid_to_end(printed: Option<Seq<char>>, noted: Option<Seq<char>>) -> Option<
    Seq<char>,
> {
    match (printed, noted) {
        (Some(p), _) => Some(p),
        (None, Some(s)) => match pid_number(crate::text::trimmed(s)) {
            Some(n) => Some(crate::text::dec(n as nat)),
            None => None,
        },
        (None, None) => None,
    }
}

/// The commands that end the process of a tunnel, in order.
pub fn stop_commands(printed: Option<&str>, noted: Option<&str>) -> (r: Vec<String>)
    ensures
        crate::text::texts(r@) == match pid_to_end(
            crate::text::opt_str(printed),
            crate::text::opt_str(noted),
        ) {
            Some(pid) => seq!["kill -TERM "@ + pid, "kill -KILL "@ + pid],
            None => Seq::empty(),
        },
{
    let pid: Option<String> = match (printed, noted) {
        (Some(p), _) => Some(p.to_owned()),
        (None, Some(s)) => {
            let n: Option<u32> = parse_u32(trim(s));
            match n {
                Some(n) => Some(u64_text(n as u64)),
                None => None,
            }
        },
        (None, None) => None,
    };
    let mut out: Vec<String> = Vec::new();
    if let Some(pid) = pid {
        out.push("kill -TERM ".to_owned().concat(pid.as_str()));
        out.push("kill -KILL ".to_owned().concat(pid.as_str()));
        assert(crate::text::texts(out@) =~= seq!["kill -TERM "@ + pid@, "kill -KILL "@ + pid@]);
    } else {
        assert(crate::text::texts(out@) =~= Seq::<Seq<char>>::empty());
    }
    out
}

/// What is answered when a tunnel was to be closed.
pub fn close_tunnel_reply(id: &str, found: bool) -> (r: Result<String, String>)
    ensures
        if found {
            r matches Ok(m) && m@ == crate::controller::requests::closed_tunnel(id@)
        } else {
            r matches Err(m) && m@ == "Tunnel "@ + id@ + " not found"@
        },
{
    if found {
        Ok("Closed tunnel ".to_owned().concat(id))
    } else {
        Err("Tunnel ".to_owned().concat(id).concat(" not found"))
    }
}

/// Whether a tunnel is still open: one on this machine is while its task runs.
pub fn is_open(is_local: bool, is_finished: bool) -> (r: bool)
    ensures
        r == !(is_local && is_finished),
{
    !(is_local && is_finished)
}

/// Whether a text holds something else than digits.
pub open spec fn holds_no_number(s: Seq<char>) -> bool {
    exists|i: int| 0 <= i < s.len() && !crate::numerals::is_digit(#[trigger] s[i])
}

/// The number that a command printed is the last line of digits in its output.
pub proof fn the_last_number_counts(lines: Seq<Seq<char>>, k: int)
    requires
        0 <= k < lines.len(),
        !holds_no_number(crate::text::trimmed(lines[k])),
        forall|j: int|
            k < j < lines.len() ==> holds_no_number(crate::text::trimmed(#[trigger] lines[j])),
    ensures
        last_number(lines) == crate::text::trimmed(lines[k]),
    decreases lines.len(),
{
    let front = lines.drop_last();
    if k < front.len() {
        assert(holds_no_number(crate::text::trimmed(lines[lines.len() - 1])));
        assert(front[k] == lines[k]);
        assert forall|j: int| k < j < front.len() implies holds_no_number(
            crate::text::trimmed(#[trigger] front[j]),
        ) by {
            assert(front[j] == lines[j]);
        }
        the_last_number_counts(front, k);
    }
}

/// The process to end is the one that was printed, else the one that was noted.
pub proof fn printed_processes_go_before_noted_ones(
    printed: Option<Seq<char>>,
    noted: Seq<char>,
    n: u32,
)
    ensures
        printed is Some ==> pid_to_end(printed, Some(noted)) == printed,
        printed is None && crate::text::trimmed(noted) == crate::text::dec(n as nat) ==> pid_to_end(
            printed,
            Some(noted),
        ) == Some(crate::text::dec(n as nat)),
        pid_to_end(None, None) is None,
{
    crate::numerals::reading_a_numeral(n as nat);
}

/// A tunnel that was opened is the one that was asked for.
pub proof fn opened_tunnels_are_those_asked_for(
    id: Seq<char>,
    request: crate::virtual_wall_lite::tunnels::TunnelRequestView,
    pid: Option<u32>,
)
    ensures
        ({
            let info = opened(id, request, pid);
            &&& info.id == id && info.pid == pid
            &&& info.node == request.node && info.username == request.username
            &&& info.direction == request.direction
            &&& info.listen == request.listen
            &&& info.target == request.target
        }),
{
}

/// The cleanup ends every program of an experiment by its name.
pub proof fn every_program_is_ended(program: Seq<char>)
    requires
        program == "metrics"@ || program == "pc-agent"@ || program == "pc-receiver"@ || program
            == "cdn_proxy"@ || program == "pc-server"@,
    ensures
        crate::text::holds(
            crate::text::joined(cleanup_lines(), "; "@),
            "pkill -x -- '"@ + program + "' || true"@,
        ),
{
    let lines = cleanup_lines();
    assert(lines[2] == "pkill -x -- '"@ + "metrics"@ + "' || true"@);
    assert(lines[5] == "pkill -x -- '"@ + "pc-agent"@ + "' || true"@);
    assert(lines[8] == "pkill -x -- '"@ + "pc-receiver"@ + "' || true"@);
    assert(lines[11] == "pkill -x -- '"@ + "cdn_proxy"@ + "' || true"@);
    assert(lines[14] == "pkill -x -- '"@ + "pc-server"@ + "' || true"@);
    crate::text::joined_holds_its_parts(lines, "; "@, 2);
    crate::text::joined_holds_its_parts(lines, "; "@, 5);
    crate::text::joined_holds_its_parts(lines, "; "@, 8);
    crate::text::joined_holds_its_parts(lines, "; "@, 11);
    crate::text::joined_holds_its_parts(lines, "; "@, 14);
}

/// An order counts as carried out where the server says so, and only there; what it says is passed
/// on.
pub proof fn replies_are_passed_on(
    r: Result<String, String>,
    reply: Reply,
    done: Seq<char>,
    lost: Seq<char>,
)
    requires
        is_outcome(r, reply, done, lost),
    ensures
        r is Ok <==> reply is Success,
        reply matches Reply::Success(Some(m)) ==> r->Ok_0@ == m@,
        reply matches Reply::Success(None) ==> r->Ok_0@ == done,
        reply matches Reply::Failure(Some(e)) ==> r->Err_0@ == e@,
        reply matches Reply::Lost(e) ==> r->Err_0@ == lost + e@,
{
}

} // verus!
