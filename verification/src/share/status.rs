//! What has become of the shares that were started.
use crate::order;
use crate::order::{sort_stable, Ranked};
use crate::paths;
use crate::paths::is_state_file;
use crate::proxy::guard;
use crate::proxy::guard::expired;
use crate::share::state;
use crate::share::state::{load_active_share, ActiveModel, ActiveShare};
use crate::text::chars;
use crate::text::class;
use crate::text::class::{lines_of, trim_space};
use crate::text::number;
use crate::text::number::to_decimal;
use crate::text::search;
use crate::text::search::has;
use crate::text::std_calls;
use crate::text::std_calls::from_lossy;
use vstd::prelude::*;

verus! {

/// How often a starting share is looked at before it is given up.
pub const LAUNCH_POLLS: u32 = 60;

/// The arguments with which `ps` is asked for a process; `None` for a process that is not known.
pub fn probe_args(pid: u32) -> (r: Option<Vec<String>>)
    ensures
        match r {
            Some(args) => pid != 0 && chars::texts(args@) == seq![
                "-p"@,
                number::decimal(pid as nat),
                "-o"@,
                "pid="@,
            ],
            None => pid == 0,
        },
{
    if pid == 0 {
        None
    } else {
        let args = vec!["-p".to_owned(), to_decimal(pid as u64), "-o".to_owned(), "pid=".to_owned()];
        assert(chars::texts(args@) =~= seq![
            "-p"@,
            number::decimal(pid as nat),
            "-o"@,
            "pid="@,
        ]);
        Some(args)
    }
}

/// Whether a process lives, as far as the answer of `ps` tells.
pub open spec fn alive(succeeded: bool, listing: Seq<u8>) -> Option<bool> {
    if succeeded {
        Some(class::trimmed(std_calls::lossy_text(listing)).len() > 0)
    } else {
        None
    }
}

/// Whether a process lives, as far as the answer of `ps` tells.
pub fn process_alive(succeeded: bool, listing: &[u8]) -> (r: Option<bool>)
    ensures
        r == alive(succeeded, listing@),
{
    if succeeded {
        Some(!trim_space(from_lossy(listing).as_str()).as_str().is_empty())
    } else {
        None
    }
}

/// What is known of the two processes of a share.
#[derive(Clone, Copy, Debug)]
pub struct Probe {
    pub worker: Option<bool>,
    pub tunnel: Option<bool>,
}

/// The status of a share at `now`: run out, its worker gone, its tunnel gone, or as it was.
pub open spec fn status_at(share: ActiveModel, now: u64, probe: Probe) -> Seq<char> {
    if guard::is_expired(now, share.expires_at) {
        "expired"@
    } else if probe.worker == Some(false) {
        "stopped"@
    } else if share.cloudflared_pid is Some && probe.tunnel == Some(false) {
        "cloudflared-stopped"@
    } else {
        share.status
    }
}

/// A share with its status at `now`.
pub open spec fn refreshed(share: ActiveModel, now: u64, probe: Probe) -> ActiveModel {
    ActiveModel { status: status_at(share, now, probe), ..share }
}

/// Brings the status of a share up to date.
pub fn refresh_share_status(share: &mut ActiveShare, now: u64, probe: Probe)
    ensures
        final(share)@ == refreshed(old(share)@, now, probe),
{
    if expired(now, share.expires_at) {
        share.status = "expired".to_owned();
        return;
    }
    if let Some(alive) = probe.worker {
        if !alive {
            share.status = "stopped".to_owned();
            return;
        }
    }
    if share.cloudflared_pid.is_some() {
        if let Some(alive) = probe.tunnel {
            if !alive {
                share.status = "cloudflared-stopped".to_owned();
            }
        }
    }
}

/// A file in the state directory: its name, and its contents if they could be read.
#[derive(Debug)]
pub struct StateFile {
    pub name: String,
    pub contents: Option<String>,
}

/// A file in the state directory.
pub struct StateFileModel {
    pub name: Seq<char>,
    pub contents: Option<Seq<char>>,
}

impl View for StateFile {
    type V = StateFileModel;

    open spec fn view(&self) -> StateFileModel {
        StateFileModel { name: self.name@, contents: chars::opt_text(self.contents) }
    }
}

/// The models of a list of files.
pub open spec fn file_list(files: Seq<StateFile>) -> Seq<StateFileModel> {
    files.map_values(|f: StateFile| f@)
}

/// The share that a file tells of, if it is a state file that can be read.
pub open spec fn share_of_file(file: StateFileModel) -> Option<ActiveModel> {
    match file.contents {
        Some(text) => match state::share_in(text) {
            Ok(share) => if paths::names_state_file(file.name) {
                Some(share)
            } else {
                None
            },
            Err(_) => None,
        },
        None => None,
    }
}

/// The shares that the files tell of.
pub open spec fn shares_of_files(files: Seq<StateFileModel>) -> Seq<ActiveModel>
    decreases files.len(),
{
    if files.len() == 0 {
        seq![]
    } else {
        let earlier = shares_of_files(files.drop_last());
        match share_of_file(files.last()) {
            Some(share) => earlier.push(share),
            None => earlier,
        }
    }
}

/// Reads the shares from the files of the state directory. Other files, and files that cannot be
/// read, are passed over.
pub fn load_shares(files: &[StateFile]) -> (r: Vec<ActiveShare>)
    ensures
        state::share_list(r@) == shares_of_files(file_list(files@)),
{
    let ghost all = file_list(files@);
    let mut out: Vec<ActiveShare> = Vec::new();
    let mut i: usize = 0;
    assert(all.take(0) =~= Seq::<StateFileModel>::empty());
    assert(state::share_list(out@) =~= Seq::<ActiveModel>::empty());
    while i < files.len()
        invariant
            i <= files@.len(),
            all == file_list(files@),
            state::share_list(out@) == shares_of_files(all.take(i as int)),
        decreases files@.len() - i,
    {
        assert(all.take(i + 1).drop_last() =~= all.take(i as int));
        assert(all.take(i + 1).last() == files@[i as int]@);
        let file = &files[i];
        if is_state_file(file.name.as_str()) {
            if let Some(text) = &file.contents {
                if let Ok(share) = load_active_share(text.as_str()) {
                    let ghost before = out@;
                    out.push(share);
                    assert(state::share_list(out@) =~= state::share_list(before).push(share@));
                }
            }
        }
        i += 1;
    }
    assert(all.take(all.len() as int) =~= all);
    out
}

/// Shares that were started later come first.
pub open spec fn newest_first() -> spec_fn(ActiveModel, ActiveModel) -> bool {
    |a: ActiveModel, b: ActiveModel| a.started_at > b.started_at
}

impl Ranked for ActiveShare {
    open spec fn ahead(self, other: ActiveShare) -> bool {
        self.started_at > other.started_at
    }

    fn is_ahead(&self, other: &ActiveShare) -> (r: bool) {
        self.started_at > other.started_at
    }
}

/// A share, and what is known of its processes.
#[derive(Debug)]
pub struct ProbedShare {
    pub share: ActiveShare,
    pub probe: Probe,
}

/// The shares with their status at `now`.
pub open spec fn all_refreshed(shares: Seq<ProbedShare>, now: u64) -> Seq<ActiveModel> {
    shares.map_values(|s: ProbedShare| refreshed(s.share@, now, s.probe))
}

/// The shares, newest first, with their status at `now`.
pub fn list_active_shares(shares: &[ProbedShare], now: u64) -> (r: Vec<ActiveShare>)
    ensures
        state::share_list(r@) == order::sorted(all_refreshed(shares@, now), newest_first()),
{
    let mut out: Vec<ActiveShare> = Vec::new();
    let mut i: usize = 0;
    while i < shares.len()
        invariant
            i <= shares@.len(),
            out@.len() == i,
            forall|j: int|
                0 <= j < i ==> (#[trigger] out@[j])@ == refreshed(
                    shares@[j].share@,
                    now,
                    shares@[j].probe,
                ),
        decreases shares@.len() - i,
    {
        let mut share = shares[i].share.clone();
        refresh_share_status(&mut share, now, shares[i].probe);
        out.push(share);
        i += 1;
    }
    assert(state::share_list(out@) =~= all_refreshed(shares@, now));
    let ghost before = order::rank::<ActiveShare>();
    let ghost f = |s: ActiveShare| s@;
    proof {
        assert forall|a: ActiveShare, b: ActiveShare| #[trigger]
            before(a, b) == newest_first()(f(a), f(b)) by {}
        order::lemma_sorted_map(out@, f, before, newest_first());
    }
    sort_stable(out)
}

/// What is to be done about a share that is starting.
#[derive(Debug)]
pub enum LaunchStep {
    /// It is up.
    Ready(ActiveShare),
    /// It has failed.
    Failed(String),
    /// It may still come up: wait and look again.
    Wait,
}

/// What is to be done about a share that is starting.
pub enum LaunchStepModel {
    Ready(ActiveModel),
    Failed(Seq<char>),
    Wait,
}

impl View for LaunchStep {
    type V = LaunchStepModel;

    open spec fn view(&self) -> LaunchStepModel {
        match self {
            LaunchStep::Ready(share) => LaunchStepModel::Ready(share@),
            LaunchStep::Failed(message) => LaunchStepModel::Failed(message@),
            LaunchStep::Wait => LaunchStepModel::Wait,
        }
    }
}

/// The share in a state file, if it can be read and has its public URL.
pub open spec fn published(contents: Option<Seq<char>>) -> Option<ActiveModel> {
    match contents {
        Some(text) => match state::share_in(text) {
            Ok(share) => if share.public_url.len() > 0 {
                Some(share)
            } else {
                None
            },
            Err(_) => None,
        },
        None => None,
    }
}

/// The last line of a log that tells of an error.
pub open spec fn logged_failure(log: Seq<char>) -> Option<Seq<char>> {
    if search::contains(log, "error:"@) {
        let lines = class::lines(log);
        Some(
            if lines.len() > 0 {
                lines.last()
            } else {
                "share worker failed"@
            },
        )
    } else {
        None
    }
}

/// The message on a share that did not come up in time.
pub open spec fn launch_timeout(pid: u32, logs: Seq<char>) -> Seq<char> {
    "share worker "@ + number::decimal(pid as nat)
        + " started but did not publish a URL in time. Check logs in "@ + logs
}

/// What is to be done about a share that is starting, after it was looked at `polls` times.
pub open spec fn launch_step(
    polls: u32,
    contents: Option<Seq<char>>,
    log: Option<Seq<char>>,
    pid: u32,
    logs: Seq<char>,
) -> LaunchStepModel {
    if polls >= LAUNCH_POLLS {
        LaunchStepModel::Failed(launch_timeout(pid, logs))
    } else if published(contents) is Some {
        LaunchStepModel::Ready(published(contents)->0)
    } else if log is Some && logged_failure(log->0) is Some {
        LaunchStepModel::Failed(logged_failure(log->0)->0)
    } else {
        LaunchStepModel::Wait
    }
}

/// Decides on a share that is starting, from its state file and the log of its worker, as far as
/// they could be read, after it was looked at `polls` times. `logs` is the logs' directory, as it
/// is shown to the user.
pub fn wait_for_state(
    polls: u32,
    contents: Option<&str>,
    log: Option<&str>,
    pid: u32,
    logs: &str,
) -> (r: LaunchStep)
    ensures
        r@ == launch_step(
            polls,
            chars::opt_str(contents),
            chars::opt_str(log),
            pid,
            logs@,
        ),
{
    if polls >= LAUNCH_POLLS {
        return LaunchStep::Failed(
            "share worker ".to_owned().concat(to_decimal(pid as u64).as_str()).concat(
                " started but did not publish a URL in time. Check logs in ",
            ).concat(logs),
        );
    }
    if let Some(text) = contents {
        if let Ok(share) = load_active_share(text) {
            if !share.public_url.as_str().is_empty() {
                return LaunchStep::Ready(share);
            }
        }
    }
    if let Some(text) = log {
        if has(text, "error:") {
            let lines = lines_of(text);
            let ghost all = chars::texts(lines@);
            let n = lines.len();
            if n > 0 {
                assert(all.last() == lines@[n - 1]@);
                return LaunchStep::Failed(lines[n - 1].clone());
            }
            return LaunchStep::Failed("share worker failed".to_owned());
        }
    }
    LaunchStep::Wait
}

/// The list of shares holds every share once, newest first, and shares of one second in the order
/// in which they were read.
pub proof fn shares_are_listed_newest_first(shares: Seq<ActiveModel>, second: u64)
    ensures
        order::sorted(shares, newest_first()).to_multiset() == shares.to_multiset(),
        forall|i: int, j: int|
            0 <= i < j < shares.len() ==> (#[trigger] order::sorted(
                shares,
                newest_first(),
            )[i]).started_at >= (#[trigger] order::sorted(shares, newest_first())[j]).started_at,
        order::sorted(shares, newest_first()).filter(|s: ActiveModel| s.started_at == second)
            == shares.filter(|s: ActiveModel| s.started_at == second),
{
    order::sorting_keeps_elements(shares, newest_first());
    order::sorting_orders(shares, newest_first());
    let s = order::sorted(shares, newest_first());
    assert forall|i: int, j: int| 0 <= i < j < shares.len() implies (#[trigger] s[i]).started_at >= (
    #[trigger] s[j]).started_at by {
        assert(!newest_first()(s[j], s[i]));
    }
    order::sorting_is_stable(
        shares,
        newest_first(),
        |s: ActiveModel| s.started_at == second,
    );
}

/// Bringing a share up to date twice at one time is the same as once, and nothing but its status
/// ever changes.
pub proof fn refreshing_twice_is_once(share: ActiveModel, now: u64, probe: Probe)
    ensures
        refreshed(refreshed(share, now, probe), now, probe) == refreshed(share, now, probe),
        refreshed(share, now, probe) == (ActiveModel {
            status: refreshed(share, now, probe).status,
            ..share
        }),
{
}

} // verus!
