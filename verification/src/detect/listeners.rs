//! The listening sockets that `lsof` reports.
use crate::detect::classify;
use crate::detect::classify::should_skip_command;
use crate::text::chars;
use crate::text::chars::{chars_of, substring};
use crate::text::class;
use crate::text::class::{lines_of, split_by, trim_by, trim_space, CharClass};
use crate::text::number;
use crate::text::search;
use crate::text::search::{has, starts_with};
use crate::text::std_calls;
use crate::text::std_calls::{from_lossy, parse_u16};
use vstd::prelude::*;

verus! {

/// A process that listens on a port.
#[derive(Debug)]
pub struct Listener {
    pub port: u16,
    pub command: String,
    pub pid: String,
}

/// A process that listens on a port.
pub struct ListenerModel {
    pub port: u16,
    pub command: Seq<char>,
    pub pid: Seq<char>,
}

impl View for Listener {
    type V = ListenerModel;

    open spec fn view(&self) -> ListenerModel {
        ListenerModel { port: self.port, command: self.command@, pid: self.pid@ }
    }
}

/// The views of a list of listeners.
pub open spec fn listener_list(listeners: Seq<Listener>) -> Seq<ListenerModel> {
    listeners.map_values(|l: Listener| l@)
}

/// The port that a binding names, behind its last colon. A connection names none.
pub open spec fn port_in(binding: Seq<char>) -> Option<u16> {
    if search::contains(binding, "->"@) {
        None
    } else {
        let last = class::split(binding, CharClass::Char(':')).last();
        let bare = class::trim(class::trim(last, CharClass::Char(']')), CharClass::Char('['));
        match number::decimal_up_to(bare, u16::MAX as nat) {
            Some(v) => Some(v as u16),
            None => None,
        }
    }
}

/// What has been read of a report: the process that is being told of, the ports that were seen
/// and the listeners that were noted.
pub struct ScanModel {
    pub pid: Seq<char>,
    pub command: Seq<char>,
    pub seen: Seq<u16>,
    pub found: Seq<ListenerModel>,
}

/// What one line of a report adds. `p` names a process, `c` its command and `n` a binding; the
/// first binding of a port counts, and only if its command is not skipped.
pub open spec fn scan_line(scan: ScanModel, line: Seq<char>) -> ScanModel {
    if line.len() == 0 {
        scan
    } else if line[0] == 'p' {
        ScanModel { pid: line.skip(1), ..scan }
    } else if line[0] == 'c' {
        ScanModel { command: line.skip(1), ..scan }
    } else if line[0] == 'n' {
        match port_in(line.skip(1)) {
            Some(port) => if scan.seen.contains(port) {
                scan
            } else if classify::is_skipped(scan.command) {
                ScanModel { seen: scan.seen.push(port), ..scan }
            } else {
                ScanModel {
                    seen: scan.seen.push(port),
                    found: scan.found.push(
                        ListenerModel { port, command: scan.command, pid: scan.pid },
                    ),
                    ..scan
                }
            },
            None => scan,
        }
    } else {
        scan
    }
}

/// What the lines of a report say together.
pub open spec fn scan_lines(lines: Seq<Seq<char>>) -> ScanModel
    decreases lines.len(),
{
    if lines.len() == 0 {
        ScanModel { pid: seq![], command: seq![], seen: seq![], found: seq![] }
    } else {
        scan_line(scan_lines(lines.drop_last()), lines.last())
    }
}

/// The listeners in a report, in order.
pub open spec fn listeners_in(report: Seq<u8>) -> Seq<ListenerModel> {
    scan_lines(class::lines(std_calls::lossy_text(report))).found
}

/// The port that a binding names.
pub fn parse_port(binding: &str) -> (r: Option<u16>)
    ensures
        r == port_in(binding@),
{
    if has(binding, "->") {
        return None;
    }
    let parts = split_by(binding, CharClass::Char(':'));
    assert(chars::texts(parts@).len() > 0);
    let last = &parts[parts.len() - 1];
    assert(chars::texts(parts@).last() == last@);
    let half = trim_by(last.as_str(), CharClass::Char(']'));
    let bare = trim_by(half.as_str(), CharClass::Char('['));
    match parse_u16(bare.as_str()) {
        Ok(v) => Some(v),
        Err(_) => None,
    }
}

/// Whether `port` is among the ports.
fn is_seen(ports: &Vec<u16>, port: u16) -> (r: bool)
    ensures
        r == ports@.contains(port),
{
    let mut i: usize = 0;
    while i < ports.len()
        invariant
            i <= ports@.len(),
            forall|j: int| 0 <= j < i ==> ports@[j] != port,
        decreases ports@.len() - i,
    {
        if ports[i] == port {
            return true;
        }
        i += 1;
    }
    false
}

/// The listeners in a report of `lsof`, one for each port.
pub fn parse_listeners(report: &[u8]) -> (r: Vec<Listener>)
    ensures
        listener_list(r@) == listeners_in(report@),
{
    let text = from_lossy(report);
    let lines = lines_of(text.as_str());
    let ghost all = chars::texts(lines@);
    let mut pid = String::new();
    let mut command = String::new();
    let mut seen: Vec<u16> = Vec::new();
    let mut found: Vec<Listener> = Vec::new();
    let mut i: usize = 0;
    assert(all.take(0) =~= Seq::<Seq<char>>::empty());
    assert(listener_list(found@) =~= Seq::<ListenerModel>::empty());
    while i < lines.len()
        invariant
            i <= lines@.len(),
            all == chars::texts(lines@),
            scan_lines(all.take(i as int)) == (ScanModel {
                pid: pid@,
                command: command@,
                seen: seen@,
                found: listener_list(found@),
            }),
        decreases lines@.len() - i,
    {
        let ghost before = found@;
        assert(all.take(i + 1).drop_last() =~= all.take(i as int));
        assert(all.take(i + 1).last() == lines@[i as int]@);
        let line = chars_of(lines[i].as_str());
        if line.len() > 0 {
            let rest = substring(line.as_slice(), 1, line.len());
            assert(rest@ =~= line@.skip(1));
            if line[0] == 'p' {
                pid = rest;
            } else if line[0] == 'c' {
                command = rest;
            } else if line[0] == 'n' {
                if let Some(port) = parse_port(rest.as_str()) {
                    if !is_seen(&seen, port) {
                        seen.push(port);
                        if !should_skip_command(command.as_str()) {
                            let listener = Listener {
                                port,
                                command: command.clone(),
                                pid: pid.clone(),
                            };
                            found.push(listener);
                            assert(listener_list(found@) =~= listener_list(before).push(
                                listener@,
                            ));
                        }
                    }
                }
            }
        }
        i += 1;
    }
    assert(all.take(all.len() as int) =~= all);
    found
}

/// The message of a report that failed: what was written to the error stream.
pub fn report_failure(stderr: &[u8]) -> (r: String)
    ensures
        r@ == class::trimmed(std_calls::lossy_text(stderr@)),
{
    trim_space(from_lossy(stderr).as_str())
}

/// Whether the first bytes of an answer are those of an HTTP response.
pub fn looks_like_http(answer: &[u8]) -> (r: bool)
    ensures
        r == (answer@.len() > 0 && search::begins(std_calls::lossy_text(answer@), "HTTP/"@)),
{
    answer.len() > 0 && starts_with(from_lossy(answer).as_str(), "HTTP/")
}

proof fn lemma_scan_ports(lines: Seq<Seq<char>>)
    ensures
        ({
            let s = scan_lines(lines);
            &&& forall|i: int|
                0 <= i < s.found.len() ==> s.seen.contains((#[trigger] s.found[i]).port)
            &&& forall|i: int, j: int|
                0 <= i < j < s.found.len() ==> (#[trigger] s.found[i]).port != (
                #[trigger] s.found[j]).port
            &&& forall|i: int|
                0 <= i < s.found.len() ==> !classify::is_skipped((#[trigger] s.found[i]).command)
        }),
    decreases lines.len(),
{
    if lines.len() > 0 {
        let before = scan_lines(lines.drop_last());
        lemma_scan_ports(lines.drop_last());
        let now = scan_lines(lines);
        assert forall|i: int| 0 <= i < now.found.len() implies now.seen.contains(
            (#[trigger] now.found[i]).port,
        ) by {
            if i < before.found.len() {
                assert(now.found[i] == before.found[i]);
                let k = choose|k: int|
                    0 <= k < before.seen.len() && before.seen[k] == before.found[i].port;
                assert(now.seen[k] == before.seen[k]);
            } else {
                assert(now.seen[before.seen.len() as int] == now.found[i].port);
            }
        }
        assert forall|i: int, j: int| 0 <= i < j < now.found.len() implies (
        #[trigger] now.found[i]).port != (#[trigger] now.found[j]).port by {
            assert(now.found[i] == before.found[i]);
            if j < before.found.len() {
                assert(now.found[j] == before.found[j]);
            } else {
                assert(before.seen.contains(before.found[i].port));
            }
        }
        assert forall|i: int| 0 <= i < now.found.len() implies !classify::is_skipped(
            (#[trigger] now.found[i]).command,
        ) by {
            if i < before.found.len() {
                assert(now.found[i] == before.found[i]);
            }
        }
    }
}

/// Each port is listed once, and no command that is skipped is listed.
pub proof fn listeners_have_distinct_ports(report: Seq<u8>)
    ensures
        forall|i: int, j: int|
            0 <= i < j < listeners_in(report).len() ==> (#[trigger] listeners_in(report)[i]).port
                != (#[trigger] listeners_in(report)[j]).port,
        forall|i: int|
            0 <= i < listeners_in(report).len() ==> !classify::is_skipped(
                (#[trigger] listeners_in(report)[i]).command,
            ),
{
    lemma_scan_ports(class::lines(std_calls::lossy_text(report)));
}

} // verus!
