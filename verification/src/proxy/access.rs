//! The access log: a line for each request, and who was there.
use crate::proxy::guard::{Forward, ForwardModel, Rejection, RejectionModel};
use crate::proxy::relay;
use crate::text::chars;
use crate::text::chars::{copy_opt, same};
use crate::text::class;
use crate::text::class::{lines_of, split_by, CharClass};
use crate::text::laws;
use crate::text::number;
use crate::text::number::to_decimal;
use vstd::prelude::*;

verus! {

/// What the log says of a request.
#[derive(Debug)]
pub struct LogEntry {
    pub status: u16,
    pub path: String,
    pub method: String,
    pub user_agent: Option<String>,
}

/// What the log says of a request.
pub struct LogEntryModel {
    pub status: u16,
    pub path: Seq<char>,
    pub method: Seq<char>,
    pub user_agent: Option<Seq<char>>,
}

impl View for LogEntry {
    type V = LogEntryModel;

    open spec fn view(&self) -> LogEntryModel {
        LogEntryModel {
            status: self.status,
            path: self.path@,
            method: self.method@,
            user_agent: chars::opt_text(self.user_agent),
        }
    }
}

/// The entry of a request that was served: its path goes without the query.
pub fn served(forward: &Forward, status: u16) -> (r: LogEntry)
    ensures
        r@ == (LogEntryModel {
            status,
            path: forward@.path,
            method: forward@.method,
            user_agent: forward@.user_agent,
        }),
{
    LogEntry {
        status,
        path: forward.path.clone(),
        method: forward.method.clone(),
        user_agent: copy_opt(&forward.user_agent),
    }
}

/// The entry of a request that was refused.
pub fn refused(rejection: &Rejection) -> (r: LogEntry)
    ensures
        r@ == (LogEntryModel {
            status: rejection.status,
            path: rejection@.path,
            method: rejection@.method,
            user_agent: rejection@.user_agent,
        }),
{
    LogEntry {
        status: rejection.status,
        path: rejection.path.clone(),
        method: rejection.method.clone(),
        user_agent: copy_opt(&rejection.user_agent),
    }
}

/// A refusal of a request that was forwarded and failed upstream.
pub open spec fn upstream_refusal(forward: ForwardModel, message: Seq<char>) -> RejectionModel {
    RejectionModel {
        status: 502,
        path: forward.uri,
        method: forward.method,
        message,
        user_agent: forward.user_agent,
    }
}

/// A refusal of a request that was forwarded and failed upstream.
pub fn refuse_upstream(forward: &Forward, message: String) -> (r: Rejection)
    ensures
        r@ == upstream_refusal(forward@, message@),
{
    Rejection {
        status: 502,
        path: forward.uri.clone(),
        method: forward.method.clone(),
        message,
        user_agent: copy_opt(&forward.user_agent),
    }
}

/// A refusal of a request whose upstream service could not be reached.
pub fn refuse_unreachable(forward: &Forward, error: &str) -> (r: Rejection)
    ensures
        r@ == upstream_refusal(
            forward@,
            "failed to connect to upstream "@ + number::decimal(forward.upstream_port as nat)
                + ": "@ + error@,
        ),
{
    let message = "failed to connect to upstream ".to_owned().concat(
        to_decimal(forward.upstream_port as u64).as_str(),
    ).concat(": ").concat(error);
    refuse_upstream(forward, message)
}

/// A refusal of a request that could not be sent to its upstream service.
pub fn refuse_unsent(forward: &Forward) -> (r: Rejection)
    ensures
        r@ == upstream_refusal(forward@, "failed to forward request to upstream"@),
{
    refuse_upstream(forward, "failed to forward request to upstream".to_owned())
}

/// A refusal of a request whose response head could not be written to the client.
pub fn refuse_unstreamed(forward: &Forward) -> (r: Rejection)
    ensures
        r@ == upstream_refusal(forward@, relay::stream_failure()),
{
    refuse_upstream(forward, "failed to stream upstream response".to_owned())
}

/// The line of the log for a request: when, from where, what, and how it ended.
pub open spec fn log_line(now: u64, ip: Seq<char>, entry: LogEntryModel) -> Seq<char> {
    number::decimal(now as nat) + "\t"@ + ip + "\t"@ + entry.method + "\t"@ + entry.path + "\t"@
        + number::decimal(entry.status as nat) + "\t"@ + match entry.user_agent {
        Some(agent) => agent,
        None => "-"@,
    }
}

/// Writes the line of the log for a request, with its line feed.
pub fn access_line(now: u64, ip: &str, entry: &LogEntry) -> (r: String)
    ensures
        r@ == log_line(now, ip@, entry@) + "\n"@,
{
    let agent = match &entry.user_agent {
        Some(agent) => agent.clone(),
        None => "-".to_owned(),
    };
    to_decimal(now).concat("\t").concat(ip).concat("\t").concat(entry.method.as_str()).concat(
        "\t",
    ).concat(entry.path.as_str()).concat("\t").concat(
        to_decimal(entry.status as u64).as_str(),
    ).concat("\t").concat(agent.as_str()).concat("\n")
}

/// Who a line of the log tells of: what stands between its first two tabs.
pub open spec fn visitor_in(line: Seq<char>) -> Option<Seq<char>> {
    let parts = class::split(line, CharClass::Char('\t'));
    if parts.len() > 1 {
        Some(parts[1])
    } else {
        None
    }
}

/// Who the lines of the log tell of, each once, in the order of their first request.
pub open spec fn visitors(lines: Seq<Seq<char>>) -> Seq<Seq<char>>
    decreases lines.len(),
{
    if lines.len() == 0 {
        seq![]
    } else {
        let earlier = visitors(lines.drop_last());
        match visitor_in(lines.last()) {
            Some(v) => if earlier.contains(v) {
                earlier
            } else {
                earlier.push(v)
            },
            None => earlier,
        }
    }
}

/// Whether `name` is among the names.
fn is_among(names: &Vec<String>, name: &str) -> (r: bool)
    ensures
        r == chars::texts(names@).contains(name@),
{
    let mut i: usize = 0;
    while i < names.len()
        invariant
            i <= names@.len(),
            forall|j: int| 0 <= j < i ==> (#[trigger] names@[j])@ != name@,
        decreases names@.len() - i,
    {
        if same(names[i].as_str(), name) {
            assert(chars::texts(names@)[i as int] == name@);
            return true;
        }
        i += 1;
    }
    assert forall|j: int| 0 <= j < names@.len() implies chars::texts(names@)[j] != name@ by {
        assert(names@[j]@ != name@);
    }
    false
}

/// The lines of a log; a log that is not there has none.
pub open spec fn logged(log: Option<Seq<char>>) -> Seq<Seq<char>> {
    match log {
        Some(text) => class::lines(text),
        None => seq![],
    }
}

/// How many requests a log tells of, and from whom they came.
pub fn summarize_access(log: Option<&str>) -> (r: (u64, Vec<String>))
    ensures
        r.0 == logged(chars::opt_str(log)).len(),
        chars::texts(r.1@) == visitors(logged(chars::opt_str(log))),
{
    let lines = match log {
        Some(text) => lines_of(text),
        None => Vec::new(),
    };
    let ghost all = chars::texts(lines@);
    assert(all =~= logged(chars::opt_str(log)));
    let mut names: Vec<String> = Vec::new();
    let mut i: usize = 0;
    assert(all.take(0) =~= Seq::<Seq<char>>::empty());
    assert(chars::texts(names@) =~= Seq::<Seq<char>>::empty());
    while i < lines.len()
        invariant
            i <= lines@.len(),
            all == chars::texts(lines@),
            chars::texts(names@) == visitors(all.take(i as int)),
        decreases lines@.len() - i,
    {
        let ghost before = names@;
        assert(all.take(i + 1).drop_last() =~= all.take(i as int));
        assert(all.take(i + 1).last() == lines@[i as int]@);
        let parts = split_by(lines[i].as_str(), CharClass::Char('\t'));
        if parts.len() > 1 {
            assert(chars::texts(parts@)[1] == parts@[1]@);
            if !is_among(&names, parts[1].as_str()) {
                let name = parts[1].clone();
                names.push(name);
                assert(chars::texts(names@) =~= chars::texts(before).push(parts@[1]@));
            }
        }
        i += 1;
    }
    assert(all.take(all.len() as int) =~= all);
    (lines.len() as u64, names)
}

/// A visitor is listed once, and exactly those are listed whom some line tells of.
pub proof fn visitors_are_listed_once(lines: Seq<Seq<char>>)
    ensures
        visitors(lines).no_duplicates(),
        forall|v: Seq<char>|
            #[trigger] visitors(lines).contains(v) <==> exists|i: int|
                0 <= i < lines.len() && visitor_in(#[trigger] lines[i]) == Some(v),
    decreases lines.len(),
{
    let now = visitors(lines);
    if lines.len() > 0 {
        let front = lines.drop_last();
        let earlier = visitors(front);
        visitors_are_listed_once(front);
        assert forall|v: Seq<char>| #[trigger] now.contains(v) <==> exists|i: int|
            0 <= i < lines.len() && visitor_in(#[trigger] lines[i]) == Some(v) by {
            if now.contains(v) {
                if earlier.contains(v) {
                    let i = choose|i: int|
                        0 <= i < front.len() && visitor_in(#[trigger] front[i]) == Some(v);
                    assert(lines[i] == front[i]);
                } else {
                    let j = choose|j: int| 0 <= j < now.len() && now[j] == v;
                    if j < earlier.len() {
                        assert(earlier[j] == v);
                    }
                    assert(visitor_in(lines[lines.len() - 1]) == Some(v));
                }
            }
            if exists|i: int| 0 <= i < lines.len() && visitor_in(#[trigger] lines[i]) == Some(v) {
                let i = choose|i: int|
                    0 <= i < lines.len() && visitor_in(#[trigger] lines[i]) == Some(v);
                if i < front.len() {
                    assert(front[i] == lines[i]);
                    assert(earlier.contains(v));
                    let j = choose|j: int| 0 <= j < earlier.len() && earlier[j] == v;
                    assert(now[j] == v);
                } else if !earlier.contains(v) {
                    assert(now[earlier.len() as int] == v);
                } else {
                    let j = choose|j: int| 0 <= j < earlier.len() && earlier[j] == v;
                    assert(now[j] == v);
                }
            }
        }
    }
}

/// A line that was written tells of the address that it was written for.
pub proof fn log_line_names_its_visitor(now: u64, ip: Seq<char>, entry: LogEntryModel)
    requires
        laws::lacks(ip, '\t'),
    ensures
        visitor_in(log_line(now, ip, entry)) == Some(ip),
{
    reveal_strlit("\t");
    assert("\t"@ =~= seq!['\t']);
    number::decimal_reads_back(now as nat);
    let front = number::decimal(now as nat);
    let line = log_line(now, ip, entry);
    let rest = line.skip(front.len() as int + 1);
    assert(laws::lacks(front, '\t')) by {
        assert forall|i: int| 0 <= i < front.len() implies #[trigger] front[i] != '\t' by {
            assert('0' <= front[i]);
        }
    }
    assert(line =~= front + seq!['\t'] + rest);
    laws::split_once_parts(front, '\t', rest);
    let tail = rest.skip(ip.len() as int + 1);
    assert(rest =~= ip + seq!['\t'] + tail);
    laws::split_once_parts(ip, '\t', tail);
    assert(rest.take(ip.len() as int) =~= ip);
    reveal_with_fuel(class::split, 3);
}

/// The contents of a log: its lines, each with a line feed behind it.
pub open spec fn log_text(lines: Seq<Seq<char>>) -> Seq<char>
    decreases lines.len(),
{
    if lines.len() == 0 {
        seq![]
    } else {
        log_text(lines.drop_last()) + (lines.last() + "\n"@)
    }
}

/// Every request is counted: what was written to a log line by line is read from it line by line.
pub proof fn log_reads_back(lines: Seq<Seq<char>>)
    requires
        forall|i: int| 0 <= i < lines.len() ==> laws::is_line(#[trigger] lines[i]),
    ensures
        logged(Some(log_text(lines))) == lines,
        log_text(lines).len() > 0 ==> log_text(lines).last() == '\n',
    decreases lines.len(),
{
    if lines.len() > 0 {
        let front = lines.drop_last();
        assert forall|i: int| 0 <= i < front.len() implies laws::is_line(#[trigger] front[i]) by {
            assert(front[i] == lines[i]);
        }
        log_reads_back(front);
        reveal_strlit("\n");
        assert(log_text(lines) =~= log_text(front) + lines.last() + seq!['\n']);
        assert(laws::is_line(lines[lines.len() - 1]));
        laws::lines_take_another(log_text(front), lines.last());
        assert(front.push(lines.last()) =~= lines);
    } else {
        assert(lines =~= Seq::<Seq<char>>::empty());
    }
}

/// The line of a request is one line, unless a line feed stands in what the client sent.
pub proof fn log_line_is_a_line(now: u64, ip: Seq<char>, entry: LogEntryModel)
    requires
        laws::lacks(ip, '\n'),
        laws::lacks(entry.method, '\n'),
        laws::lacks(entry.path, '\n'),
        entry.user_agent matches Some(agent) ==> laws::is_line(agent),
    ensures
        laws::is_line(log_line(now, ip, entry)),
{
    reveal_strlit("\t");
    reveal_strlit("-");
    number::decimal_reads_back(now as nat);
    number::decimal_reads_back(entry.status as nat);
    let tab = "\t"@;
    let agent = match entry.user_agent {
        Some(agent) => agent,
        None => "-"@,
    };
    let line = log_line(now, ip, entry);
    let time = number::decimal(now as nat);
    let status = number::decimal(entry.status as nat);
    laws::lacks_sum(time, tab, '\n');
    laws::lacks_sum(time + tab, ip, '\n');
    laws::lacks_sum(time + tab + ip, tab, '\n');
    laws::lacks_sum(time + tab + ip + tab, entry.method, '\n');
    laws::lacks_sum(time + tab + ip + tab + entry.method, tab, '\n');
    let front = time + tab + ip + tab + entry.method + tab;
    laws::lacks_sum(front, entry.path, '\n');
    laws::lacks_sum(front + entry.path, tab, '\n');
    laws::lacks_sum(front + entry.path + tab, status, '\n');
    laws::lacks_sum(front + entry.path + tab + status, tab, '\n');
    laws::lacks_sum(front + entry.path + tab + status + tab, agent, '\n');
    if agent.len() > 0 {
        assert(line.last() == agent.last());
    } else {
        assert(line.last() == '\t');
    }
}

} // verus!
