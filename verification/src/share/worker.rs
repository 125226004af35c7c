//! The process that serves a share: how it is started, and how it runs.
use crate::config::{Protection, ProtectionModel};
use crate::proxy::guard;
use crate::proxy::guard::{expired, Guard, GuardModel};
use crate::routes;
use crate::routes::{format_routes, ShareRoute};
use crate::share::fields;
use crate::share::fields::{lookup, required, set_field};
use crate::share::protection;
use crate::share::protection::share_expiry;
use crate::share::state::{ActiveModel, ActiveShare};
use crate::share::target::{ShareTarget, TargetModel};
use crate::text::chars;
use crate::text::chars::{chars_of, copy_opt, same, substring};
use crate::text::class;
use crate::text::class::{trim_by, words_of, CharClass};
use crate::text::number;
use crate::text::number::to_decimal;
use crate::text::search;
use crate::text::search::{begins_at, has, starts_with};
use crate::text::std_calls::parse_u64;
use vstd::hash_map::StringHashMap;
use vstd::prelude::*;

verus! {

/// How often the log of a starting tunnel is looked at before it is given up.
pub const TUNNEL_POLLS: u32 = 60;

/// The ports that are tried first for the guard, from the first one up to, but without, the last.
pub const FIRST_PROXY_PORT: u16 = 43120;

pub const LAST_PROXY_PORT: u16 = 43220;

/// The name of a share that is started at `now`.
pub open spec fn id_at(now: u64) -> Seq<char> {
    "share-"@ + number::decimal(now as nat)
}

/// The name of a share that is started at `now`.
pub fn share_id(now: u64) -> (r: String)
    ensures
        r@ == id_at(now),
{
    "share-".to_owned().concat(to_decimal(now).as_str())
}

/// Shares that are started in different seconds have different names.
pub proof fn share_ids_differ(a: u64, b: u64)
    requires
        a != b,
    ensures
        id_at(a) != id_at(b),
{
    number::decimal_reads_back(a as nat);
    number::decimal_reads_back(b as nat);
    let n = "share-"@.len() as int;
    assert(id_at(a).skip(n) =~= number::decimal(a as nat));
    assert(id_at(b).skip(n) =~= number::decimal(b as nat));
}

/// The command line of the worker that serves a share. The token goes along in token mode, if
/// there is one.
pub open spec fn worker_line(
    project_root: Seq<char>,
    share_id: Seq<char>,
    target: TargetModel,
    protection: ProtectionModel,
    expires_at: Option<u64>,
) -> Seq<Seq<char>> {
    seq![
        "__serve-share"@,
        "--project-root"@,
        project_root,
        "--share-id"@,
        share_id,
        "--label"@,
        target.label,
        "--description"@,
        target.description,
        "--routes"@,
        routes::routes_text(target.routes),
        "--access-mode"@,
        protection.access_mode,
    ] + (match expires_at {
        Some(t) => seq!["--expires-at"@, number::decimal(t as nat)],
        None => seq![],
    }) + (if protection.access_mode == "token"@ && protection.share_token.len() > 0 {
        seq!["--share-token"@, protection.share_token]
    } else {
        seq![]
    })
}

/// The command line of the worker that serves a share.
pub fn worker_args(
    project_root: &str,
    share_id: &str,
    target: &ShareTarget,
    protection: &Protection,
    expires_at: Option<u64>,
) -> (r: Vec<String>)
    ensures
        chars::texts(r@) == worker_line(
            project_root@,
            share_id@,
            target@,
            protection@,
            expires_at,
        ),
{
    let mut args = vec![
        "__serve-share".to_owned(),
        "--project-root".to_owned(),
        project_root.to_owned(),
        "--share-id".to_owned(),
        share_id.to_owned(),
        "--label".to_owned(),
        target.label.clone(),
        "--description".to_owned(),
        target.description.clone(),
        "--routes".to_owned(),
        format_routes(target.routes.as_slice()),
        "--access-mode".to_owned(),
        protection.access_mode.clone(),
    ];
    if let Some(t) = expires_at {
        args.push("--expires-at".to_owned());
        args.push(to_decimal(t));
    }
    if same(protection.access_mode.as_str(), "token") && !protection.share_token.as_str().is_empty() {
        args.push("--share-token".to_owned());
        args.push(protection.share_token.clone());
    }
    assert(chars::texts(args@) =~= worker_line(
        project_root@,
        share_id@,
        target@,
        protection@,
        expires_at,
    ));
    args
}

/// What it takes to start the worker of a share.
#[derive(Debug)]
pub struct LaunchPlan {
    pub share_id: String,
    pub args: Vec<String>,
}

/// Plans the start of the worker that serves `target` from `now` on. The end of the share has to
/// fit into 64 bits.
pub fn plan_launch(project_root: &str, target: &ShareTarget, protection: &Protection, now: u64) -> (r:
    Result<LaunchPlan, String>)
    requires
        protection::expiry_in_range(now, protection@.expires_in),
    ensures
        match r {
            Ok(plan) => {
                &&& protection::expiry(now, protection@.expires_in) is Ok
                &&& plan.share_id@ == id_at(now)
                &&& chars::texts(plan.args@) == worker_line(
                    project_root@,
                    id_at(now),
                    target@,
                    protection@,
                    match protection::expiry(now, protection@.expires_in)->Ok_0 {
                        Some(end) => Some(end as u64),
                        None => None,
                    },
                )
            },
            Err(e) => protection::expiry(now, protection@.expires_in) == Err::<
                Option<nat>,
                Seq<char>,
            >(e@),
        },
{
    let id = share_id(now);
    let expires_at = match share_expiry(now, protection.expires_in.as_str()) {
        Ok(t) => t,
        Err(e) => {
            return Err(e);
        },
    };
    Ok(
        LaunchPlan {
            args: worker_args(project_root, id.as_str(), target, protection, expires_at),
            share_id: id,
        },
    )
}

/// What a worker is told on its command line.
#[derive(Debug)]
pub struct InternalArgs {
    pub project_root: String,
    pub share_id: String,
    pub label: String,
    pub description: String,
    pub routes: String,
    pub access_mode: String,
    pub share_token: Option<String>,
    pub expires_at: Option<u64>,
}

/// What a worker is told on its command line.
pub struct InternalModel {
    pub project_root: Seq<char>,
    pub share_id: Seq<char>,
    pub label: Seq<char>,
    pub description: Seq<char>,
    pub routes: Seq<char>,
    pub access_mode: Seq<char>,
    pub share_token: Option<Seq<char>>,
    pub expires_at: Option<u64>,
}

impl View for InternalArgs {
    type V = InternalModel;

    open spec fn view(&self) -> InternalModel {
        InternalModel {
            project_root: self.project_root@,
            share_id: self.share_id@,
            label: self.label@,
            description: self.description@,
            routes: self.routes@,
            access_mode: self.access_mode@,
            share_token: chars::opt_text(self.share_token),
            expires_at: self.expires_at,
        }
    }
}

/// The share that a worker has been told of, now that it is up.
pub open spec fn started_share(
    told: InternalModel,
    public_url: Seq<char>,
    started_at: u64,
    pid: u32,
    cloudflared_pid: u32,
    proxy_port: u16,
) -> ActiveModel {
    ActiveModel {
        id: told.share_id,
        target_label: told.label,
        target_description: told.description,
        public_url,
        access_mode: told.access_mode,
        share_token: told.share_token,
        started_at,
        expires_at: told.expires_at,
        pid,
        cloudflared_pid: Some(cloudflared_pid),
        status: "active"@,
        proxy_port,
    }
}

/// A flag without the pairs of dashes at its front.
pub open spec fn flag_name(s: Seq<char>) -> Seq<char>
    decreases s.len(),
{
    if search::begins(s, seq!['-', '-']) {
        flag_name(s.skip(2))
    } else {
        s
    }
}

/// The named values of a command line, on top of those that are known. What is no flag is passed
/// over; a flag takes the next argument as its value, whatever that is.
pub open spec fn arg_fields(
    args: Seq<Seq<char>>,
    known: Map<Seq<char>, Seq<char>>,
) -> Result<Map<Seq<char>, Seq<char>>, Seq<char>>
    decreases args.len(),
{
    if args.len() == 0 {
        Ok(known)
    } else if !search::begins(args[0], "--"@) {
        arg_fields(args.skip(1), known)
    } else if args.len() == 1 {
        Err("missing value for --"@ + flag_name(args[0]))
    } else {
        arg_fields(args.skip(2), known.insert(flag_name(args[0]), args[1]))
    }
}

/// What a worker is told by named values.
pub open spec fn told_by(map: Map<Seq<char>, Seq<char>>) -> Result<InternalModel, Seq<char>> {
    if fields::field(map, "project-root"@) is None {
        Err(fields::missing("project-root"@))
    } else if fields::field(map, "share-id"@) is None {
        Err(fields::missing("share-id"@))
    } else if fields::field(map, "label"@) is None {
        Err(fields::missing("label"@))
    } else if fields::field(map, "description"@) is None {
        Err(fields::missing("description"@))
    } else if fields::field(map, "routes"@) is None {
        Err(fields::missing("routes"@))
    } else if fields::field(map, "access-mode"@) is None {
        Err(fields::missing("access-mode"@))
    } else {
        Ok(
            InternalModel {
                project_root: fields::field(map, "project-root"@)->0,
                share_id: fields::field(map, "share-id"@)->0,
                label: fields::field(map, "label"@)->0,
                description: fields::field(map, "description"@)->0,
                routes: fields::field(map, "routes"@)->0,
                access_mode: fields::field(map, "access-mode"@)->0,
                share_token: fields::field(map, "share-token"@),
                expires_at: match fields::field(map, "expires-at"@) {
                    Some(text) => match number::decimal_up_to(text, u64::MAX as nat) {
                        Some(t) => Some(t as u64),
                        None => None,
                    },
                    None => None,
                },
            },
        )
    }
}

/// What a worker is told on a command line.
pub open spec fn told_on(args: Seq<Seq<char>>) -> Result<InternalModel, Seq<char>> {
    match arg_fields(args, Map::empty()) {
        Ok(map) => told_by(map),
        Err(e) => Err(e),
    }
}

/// A flag without the pairs of dashes at its front.
fn strip_dashes(flag: &str) -> (r: String)
    ensures
        r@ == flag_name(flag@),
{
    let text = chars_of(flag);
    let dashes = vec!['-', '-'];
    let n = text.len();
    let mut at: usize = 0;
    assert(text@.skip(0) =~= text@);
    assert(dashes@ =~= seq!['-', '-']);
    while begins_at(text.as_slice(), at, dashes.as_slice())
        invariant
            n == text@.len(),
            at <= n,
            dashes@ == seq!['-', '-'],
            flag_name(flag@) == flag_name(text@.skip(at as int)),
        decreases n - at,
    {
        assert(text@.skip(at as int).skip(2) =~= text@.skip(at + 2));
        at += 2;
    }
    let r = substring(text.as_slice(), at, n);
    assert(r@ =~= text@.skip(at as int));
    r
}

impl InternalArgs {
    /// Reads the command line of a worker, without the command that starts it.
    pub fn parse(args: &[String]) -> (r: Result<InternalArgs, String>)
        ensures
            match r {
                Ok(a) => told_on(chars::texts(args@)) == Ok::<InternalModel, Seq<char>>(a@),
                Err(e) => told_on(chars::texts(args@)) == Err::<InternalModel, Seq<char>>(e@),
            },
    {
        let ghost all = chars::texts(args@);
        let n = args.len();
        let mut map: StringHashMap<String> = StringHashMap::new();
        let mut index: usize = 0;
        assert(all.skip(0) =~= all);
        assert(fields::field_texts(map@) =~= Map::<Seq<char>, Seq<char>>::empty());
        while index < n
            invariant
                n == args@.len(),
                index <= n,
                all == chars::texts(args@),
                arg_fields(all, Map::empty()) == arg_fields(
                    all.skip(index as int),
                    fields::field_texts(map@),
                ),
            decreases n - index,
        {
            let ghost rest = all.skip(index as int);
            assert(rest[0] == args@[index as int]@);
            if !starts_with(args[index].as_str(), "--") {
                assert(rest.skip(1) =~= all.skip(index + 1));
                index += 1;
            } else {
                let key = strip_dashes(args[index].as_str());
                if index == n - 1 {
                    return Err("missing value for --".to_owned().concat(key.as_str()));
                }
                assert(rest[1] == args@[index + 1]@);
                assert(rest.skip(2) =~= all.skip(index + 2));
                set_field(&mut map, key, args[index + 1].clone());
                index += 2;
            }
        }
        InternalArgs::from_fields(&map)
    }

    /// What a worker is told by named values.
    fn from_fields(map: &StringHashMap<String>) -> (r: Result<InternalArgs, String>)
        ensures
            match r {
                Ok(a) => told_by(fields::field_texts(map@)) == Ok::<InternalModel, Seq<char>>(a@),
                Err(e) => told_by(fields::field_texts(map@)) == Err::<InternalModel, Seq<char>>(e@),
            },
    {
        let project_root = match required(map, "project-root") {
            Ok(v) => v,
            Err(e) => {
                return Err(e);
            },
        };
        let share_id = match required(map, "share-id") {
            Ok(v) => v,
            Err(e) => {
                return Err(e);
            },
        };
        let label = match required(map, "label") {
            Ok(v) => v,
            Err(e) => {
                return Err(e);
            },
        };
        let description = match required(map, "description") {
            Ok(v) => v,
            Err(e) => {
                return Err(e);
            },
        };
        let routes = match required(map, "routes") {
            Ok(v) => v,
            Err(e) => {
                return Err(e);
            },
        };
        let access_mode = match required(map, "access-mode") {
            Ok(v) => v,
            Err(e) => {
                return Err(e);
            },
        };
        let expires_at = match lookup(map, "expires-at") {
            Some(text) => match parse_u64(text.as_str()) {
                Ok(t) => Some(t),
                Err(_) => None,
            },
            None => None,
        };
        Ok(
            InternalArgs {
                project_root,
                share_id,
                label,
                description,
                routes,
                access_mode,
                share_token: lookup(map, "share-token"),
                expires_at,
            },
        )
    }

    /// The guard of the share, over its routes.
    pub fn guard(&self, routes: Vec<ShareRoute>) -> (r: Guard)
        ensures
            r@ == (GuardModel {
                routes: routes::route_list(routes@),
                access_mode: self@.access_mode,
                share_token: self@.share_token,
                expires_at: self@.expires_at,
            }),
    {
        Guard {
            routes,
            access_mode: self.access_mode.clone(),
            share_token: copy_opt(&self.share_token),
            expires_at: self.expires_at,
        }
    }

    /// The share, now that it is up.
    pub fn started(
        &self,
        public_url: String,
        started_at: u64,
        pid: u32,
        cloudflared_pid: u32,
        proxy_port: u16,
    ) -> (r: ActiveShare)
        ensures
            r@ == started_share(
                self@,
                public_url@,
                started_at,
                pid,
                cloudflared_pid,
                proxy_port,
            ),
    {
        ActiveShare {
            id: self.share_id.clone(),
            target_label: self.label.clone(),
            target_description: self.description.clone(),
            public_url,
            access_mode: self.access_mode.clone(),
            share_token: copy_opt(&self.share_token),
            started_at,
            expires_at: self.expires_at,
            pid,
            cloudflared_pid: Some(cloudflared_pid),
            status: "active".to_owned(),
            proxy_port,
        }
    }
}

/// The ports to try for the guard, in this order; where none is free, any other will do.
pub fn proxy_port_candidates() -> (r: Vec<u16>)
    ensures
        r@ == Seq::new(
            (LAST_PROXY_PORT - FIRST_PROXY_PORT) as nat,
            |i: int| (FIRST_PROXY_PORT + i) as u16,
        ),
{
    let mut ports: Vec<u16> = Vec::new();
    let mut port: u16 = FIRST_PROXY_PORT;
    while port < LAST_PROXY_PORT
        invariant
            FIRST_PROXY_PORT <= port <= LAST_PROXY_PORT,
            ports@.len() == port - FIRST_PROXY_PORT,
            forall|i: int| 0 <= i < ports@.len() ==> #[trigger] ports@[i] == FIRST_PROXY_PORT + i,
        decreases LAST_PROXY_PORT - port,
    {
        ports.push(port);
        port += 1;
    }
    assert(ports@ =~= Seq::new(
        (LAST_PROXY_PORT - FIRST_PROXY_PORT) as nat,
        |i: int| (FIRST_PROXY_PORT + i) as u16,
    ));
    ports
}

/// What is known of the process of a tunnel.
#[derive(Debug)]
pub enum TunnelState {
    Running,
    /// It has exited, with this status.
    Exited(String),
    /// It could not be asked, for this reason.
    Unknown(String),
}

/// What is known of the process of a tunnel.
pub enum TunnelStateModel {
    Running,
    Exited(Seq<char>),
    Unknown(Seq<char>),
}

impl View for TunnelState {
    type V = TunnelStateModel;

    open spec fn view(&self) -> TunnelStateModel {
        match self {
            TunnelState::Running => TunnelStateModel::Running,
            TunnelState::Exited(status) => TunnelStateModel::Exited(status@),
            TunnelState::Unknown(error) => TunnelStateModel::Unknown(error@),
        }
    }
}

/// The arguments with which the tunnel to the guard's port is started.
pub fn tunnel_args(proxy_port: u16) -> (r: Vec<String>)
    ensures
        chars::texts(r@) == seq![
            "tunnel"@,
            "--no-autoupdate"@,
            "--url"@,
            "http://127.0.0.1:"@ + number::decimal(proxy_port as nat),
        ],
{
    let args = vec![
        "tunnel".to_owned(),
        "--no-autoupdate".to_owned(),
        "--url".to_owned(),
        "http://127.0.0.1:".to_owned().concat(to_decimal(proxy_port as u64).as_str()),
    ];
    assert(chars::texts(args@) =~= seq![
        "tunnel"@,
        "--no-autoupdate"@,
        "--url"@,
        "http://127.0.0.1:"@ + number::decimal(proxy_port as nat),
    ]);
    args
}

/// Whether a word is the public URL of a quick tunnel.
pub open spec fn is_tunnel_url(word: Seq<char>) -> bool {
    search::begins(word, "https://"@) && search::contains(word, "trycloudflare.com"@)
}

/// The first of the words that is a public URL, without the punctuation around it.
pub open spec fn url_among(words: Seq<Seq<char>>) -> Option<Seq<char>>
    decreases words.len(),
{
    if words.len() == 0 {
        None
    } else {
        let word = class::trim(words[0], CharClass::UrlEdge);
        if is_tunnel_url(word) {
            Some(word)
        } else {
            url_among(words.skip(1))
        }
    }
}

/// The public URL that a tunnel's log tells.
pub open spec fn public_url_in(log: Seq<char>) -> Option<Seq<char>> {
    url_among(class::words(log))
}

/// The public URL that a tunnel's log tells.
pub fn extract_public_url(log: &str) -> (r: Option<String>)
    ensures
        chars::opt_text(r) == public_url_in(log@),
{
    let words = words_of(log);
    let ghost all = chars::texts(words@);
    let mut i: usize = 0;
    assert(all.skip(0) =~= all);
    while i < words.len()
        invariant
            i <= words@.len(),
            all == chars::texts(words@),
            all == class::words(log@),
            url_among(all) == url_among(all.skip(i as int)),
        decreases words@.len() - i,
    {
        let ghost rest = all.skip(i as int);
        assert(rest[0] == words@[i as int]@);
        assert(rest.skip(1) =~= all.skip(i + 1));
        let word = trim_by(words[i].as_str(), CharClass::UrlEdge);
        if starts_with(word.as_str(), "https://") && has(word.as_str(), "trycloudflare.com") {
            return Some(word);
        }
        i += 1;
    }
    None
}

/// What a tunnel's log gives as its public URL is one.
pub proof fn public_url_is_of_a_tunnel(log: Seq<char>)
    ensures
        public_url_in(log) matches Some(url) ==> is_tunnel_url(url),
{
    lemma_url_among(class::words(log));
}

proof fn lemma_url_among(words: Seq<Seq<char>>)
    ensures
        url_among(words) matches Some(url) ==> is_tunnel_url(url),
    decreases words.len(),
{
    if words.len() > 0 {
        lemma_url_among(words.skip(1));
    }
}

/// What is to be done about a tunnel that is starting.
#[derive(Debug)]
pub enum TunnelStep {
    /// It is up, under this URL.
    Ready(String),
    /// It has failed.
    Failed(String),
    /// It may still come up: wait and look again.
    Wait,
}

/// What is to be done about a tunnel that is starting.
pub enum TunnelStepModel {
    Ready(Seq<char>),
    Failed(Seq<char>),
    Wait,
}

impl View for TunnelStep {
    type V = TunnelStepModel;

    open spec fn view(&self) -> TunnelStepModel {
        match self {
            TunnelStep::Ready(url) => TunnelStepModel::Ready(url@),
            TunnelStep::Failed(message) => TunnelStepModel::Failed(message@),
            TunnelStep::Wait => TunnelStepModel::Wait,
        }
    }
}

/// What is to be done about a tunnel that is starting, after it was looked at `polls` times.
pub open spec fn tunnel_step(
    polls: u32,
    log: Option<Seq<char>>,
    process: TunnelStateModel,
    log_path: Seq<char>,
) -> TunnelStepModel {
    if polls >= TUNNEL_POLLS {
        TunnelStepModel::Failed(
            "timed out waiting for cloudflared to publish a URL. Check "@ + log_path,
        )
    } else if log is Some && public_url_in(log->0) is Some {
        TunnelStepModel::Ready(public_url_in(log->0)->0)
    } else {
        match process {
            TunnelStateModel::Unknown(error) => TunnelStepModel::Failed(
                "failed to poll cloudflared: "@ + error,
            ),
            TunnelStateModel::Exited(status) => TunnelStepModel::Failed(
                "cloudflared exited before creating a tunnel: "@ + status + ". Check "@ + log_path,
            ),
            TunnelStateModel::Running => TunnelStepModel::Wait,
        }
    }
}

/// Decides on a tunnel that is starting, from its log, as far as it could be read, and its
/// process, after it was looked at `polls` times.
pub fn await_tunnel(polls: u32, log: Option<&str>, process: TunnelState, log_path: &str) -> (r:
    TunnelStep)
    ensures
        r@ == tunnel_step(polls, chars::opt_str(log), process@, log_path@),
{
    if polls >= TUNNEL_POLLS {
        return TunnelStep::Failed(
            "timed out waiting for cloudflared to publish a URL. Check ".to_owned().concat(log_path),
        );
    }
    if let Some(text) = log {
        if let Some(url) = extract_public_url(text) {
            return TunnelStep::Ready(url);
        }
    }
    match process {
        TunnelState::Unknown(error) => TunnelStep::Failed(
            "failed to poll cloudflared: ".to_owned().concat(error.as_str()),
        ),
        TunnelState::Exited(status) => TunnelStep::Failed(
            "cloudflared exited before creating a tunnel: ".to_owned().concat(
                status.as_str(),
            ).concat(". Check ").concat(log_path),
        ),
        TunnelState::Running => TunnelStep::Wait,
    }
}

/// How a worker goes on.
#[derive(Debug)]
pub enum WorkerNext {
    /// It looks again later.
    LookAgain,
    /// It ends.
    End,
    /// It gives up, with this message.
    Fail(String),
}

/// How a worker goes on.
pub enum WorkerNextModel {
    LookAgain,
    End,
    Fail(Seq<char>),
}

impl View for WorkerNext {
    type V = WorkerNextModel;

    open spec fn view(&self) -> WorkerNextModel {
        match self {
            WorkerNext::LookAgain => WorkerNextModel::LookAgain,
            WorkerNext::End => WorkerNextModel::End,
            WorkerNext::Fail(message) => WorkerNextModel::Fail(message@),
        }
    }
}

/// What a worker does about its share, in this order.
#[derive(Debug)]
pub struct Supervision {
    /// Whether the guard is told to shut down.
    pub stop_guard: bool,
    /// Whether the tunnel is killed.
    pub kill_tunnel: bool,
    /// Whether the share is recorded.
    pub record: bool,
    pub next: WorkerNext,
}

/// What a worker does about its share.
pub struct SupervisionModel {
    pub stop_guard: bool,
    pub kill_tunnel: bool,
    pub record: bool,
    pub next: WorkerNextModel,
}

impl View for Supervision {
    type V = SupervisionModel;

    open spec fn view(&self) -> SupervisionModel {
        SupervisionModel {
            stop_guard: self.stop_guard,
            kill_tunnel: self.kill_tunnel,
            record: self.record,
            next: self.next@,
        }
    }
}

/// What a worker does about its share, and the share's status from there on.
pub open spec fn supervised(share: ActiveModel, now: u64, process: TunnelStateModel) -> (
    SupervisionModel,
    Seq<char>,
) {
    let serving = SupervisionModel {
        stop_guard: false,
        kill_tunnel: false,
        record: true,
        next: WorkerNextModel::LookAgain,
    };
    if guard::is_expired(now, share.expires_at) {
        (
            SupervisionModel {
                stop_guard: true,
                kill_tunnel: true,
                next: WorkerNextModel::End,
                ..serving
            },
            "expired"@,
        )
    } else {
        match process {
            TunnelStateModel::Unknown(error) => (
                SupervisionModel {
                    record: false,
                    next: WorkerNextModel::Fail("failed to check cloudflared: "@ + error),
                    ..serving
                },
                share.status,
            ),
            TunnelStateModel::Exited(status) => (
                SupervisionModel { stop_guard: true, next: WorkerNextModel::End, ..serving },
                "stopped("@ + status + ")"@,
            ),
            TunnelStateModel::Running => (serving, share.status),
        }
    }
}

/// Decides what a worker does about its share, and keeps the share's status.
pub fn supervise(share: &mut ActiveShare, now: u64, process: TunnelState) -> (r: Supervision)
    ensures
        r@ == supervised(old(share)@, now, process@).0,
        final(share)@ == (ActiveModel {
            status: supervised(old(share)@, now, process@).1,
            ..old(share)@
        }),
{
    if expired(now, share.expires_at) {
        share.status = "expired".to_owned();
        return Supervision {
            stop_guard: true,
            kill_tunnel: true,
            record: true,
            next: WorkerNext::End,
        };
    }
    match process {
        TunnelState::Unknown(error) => Supervision {
            stop_guard: false,
            kill_tunnel: false,
            record: false,
            next: WorkerNext::Fail(
                "failed to check cloudflared: ".to_owned().concat(error.as_str()),
            ),
        },
        TunnelState::Exited(status) => {
            share.status = "stopped(".to_owned().concat(status.as_str()).concat(")");
            Supervision {
                stop_guard: true,
                kill_tunnel: false,
                record: true,
                next: WorkerNext::End,
            }
        },
        TunnelState::Running => Supervision {
            stop_guard: false,
            kill_tunnel: false,
            record: true,
            next: WorkerNext::LookAgain,
        },
    }
}

/// A look of a worker at the clock and at its tunnel.
pub struct Look {
    pub now: u64,
    pub process: TunnelStateModel,
}

/// The run of a worker so far.
pub struct RunModel {
    pub share: ActiveModel,
    /// What was recorded of the share, in order.
    pub recorded: Seq<ActiveModel>,
    pub guard_stopped: bool,
    pub tunnel_killed: bool,
    /// The last look that the worker took.
    pub seen: Option<Look>,
    /// How the run ended, if it has.
    pub end: Option<Result<(), Seq<char>>>,
}

/// The run of a worker whose share has just come up and been recorded.
pub open spec fn run_begun(share: ActiveModel) -> RunModel {
    RunModel {
        share,
        recorded: seq![share],
        guard_stopped: false,
        tunnel_killed: false,
        seen: None,
        end: None,
    }
}

/// The run of a worker after one more look. A run that has ended takes no more.
pub open spec fn run_with(run: RunModel, look: Look) -> RunModel {
    if run.end is Some {
        run
    } else {
        let (step, status) = supervised(run.share, look.now, look.process);
        let share = ActiveModel { status, ..run.share };
        RunModel {
            share,
            recorded: if step.record {
                run.recorded.push(share)
            } else {
                run.recorded
            },
            guard_stopped: run.guard_stopped || step.stop_guard,
            tunnel_killed: run.tunnel_killed || step.kill_tunnel,
            seen: Some(look),
            end: match step.next {
                WorkerNextModel::LookAgain => None,
                WorkerNextModel::End => Some(Ok(())),
                WorkerNextModel::Fail(message) => Some(Err(message)),
            },
        }
    }
}

/// The run of a worker after its looks, in order.
pub open spec fn run_after(share: ActiveModel, looks: Seq<Look>) -> RunModel
    decreases looks.len(),
{
    if looks.len() == 0 {
        run_begun(share)
    } else {
        run_with(run_after(share, looks.drop_last()), looks.last())
    }
}

} // verus!
