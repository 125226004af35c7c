//! What is remembered of a running share, and how it is written down and read back.
use crate::share::fields;
use crate::share::fields::{escape_state, lookup, required, set_field, unescape_state};
use crate::text::chars;
use crate::text::chars::{chars_of, copy_opt, same};
use crate::text::class;
use crate::text::class::{find_class, lines_of, split_once_by, CharClass};
use crate::text::number;
use crate::text::number::{parse_u32, to_decimal};
use crate::text::std_calls::{parse_u16, parse_u64};
use vstd::hash_map::StringHashMap;
use vstd::prelude::*;

verus! {

/// A share that was started.
#[derive(Debug)]
pub struct ActiveShare {
    pub id: String,
    pub target_label: String,
    pub target_description: String,
    pub public_url: String,
    pub access_mode: String,
    pub share_token: Option<String>,
    pub started_at: u64,
    pub expires_at: Option<u64>,
    pub pid: u32,
    pub cloudflared_pid: Option<u32>,
    pub status: String,
    pub proxy_port: u16,
}

/// A share that was started.
pub struct ActiveModel {
    pub id: Seq<char>,
    pub target_label: Seq<char>,
    pub target_description: Seq<char>,
    pub public_url: Seq<char>,
    pub access_mode: Seq<char>,
    pub share_token: Option<Seq<char>>,
    pub started_at: u64,
    pub expires_at: Option<u64>,
    pub pid: u32,
    pub cloudflared_pid: Option<u32>,
    pub status: Seq<char>,
    pub proxy_port: u16,
}

impl View for ActiveShare {
    type V = ActiveModel;

    open spec fn view(&self) -> ActiveModel {
        ActiveModel {
            id: self.id@,
            target_label: self.target_label@,
            target_description: self.target_description@,
            public_url: self.public_url@,
            access_mode: self.access_mode@,
            share_token: chars::opt_text(self.share_token),
            started_at: self.started_at,
            expires_at: self.expires_at,
            pid: self.pid,
            cloudflared_pid: self.cloudflared_pid,
            status: self.status@,
            proxy_port: self.proxy_port,
        }
    }
}

/// The models of a list of shares.
pub open spec fn share_list(shares: Seq<ActiveShare>) -> Seq<ActiveModel> {
    shares.map_values(|s: ActiveShare| s@)
}

impl Clone for ActiveShare {
    fn clone(&self) -> (r: ActiveShare)
        ensures
            r@ == self@,
    {
        ActiveShare {
            id: self.id.clone(),
            target_label: self.target_label.clone(),
            target_description: self.target_description.clone(),
            public_url: self.public_url.clone(),
            access_mode: self.access_mode.clone(),
            share_token: copy_opt(&self.share_token),
            started_at: self.started_at,
            expires_at: self.expires_at,
            pid: self.pid,
            cloudflared_pid: self.cloudflared_pid,
            status: self.status.clone(),
            proxy_port: self.proxy_port,
        }
    }
}

/// The URL to hand out: in token mode with the token in its query.
pub open spec fn launch_url_of(share: ActiveModel) -> Seq<char> {
    if share.access_mode == "token"@ && share.share_token is Some {
        share.public_url + (if share.public_url.contains('?') {
            "&"@
        } else {
            "?"@
        }) + "ltg_token="@ + share.share_token->0
    } else {
        share.public_url
    }
}

impl ActiveShare {
    /// The URL to hand out.
    pub fn launch_url(&self) -> (r: String)
        ensures
            r@ == launch_url_of(self@),
    {
        if same(self.access_mode.as_str(), "token") {
            if let Some(token) = &self.share_token {
                let url = chars_of(self.public_url.as_str());
                let k = CharClass::Char('?');
                assert(url@.skip(0) =~= url@);
                let at = find_class(url.as_slice(), 0, k);
                proof {
                    class::lemma_class_index(url@, k);
                    if at < url@.len() {
                        assert(url@[at as int] == '?');
                    } else if url@.contains('?') {
                        let i = choose|i: int| 0 <= i < url@.len() && url@[i] == '?';
                        assert(!k.has(url@[i]));
                    }
                }
                let separator = if at < url.len() {
                    "&"
                } else {
                    "?"
                };
                return self.public_url.clone().concat(separator).concat("ltg_token=").concat(
                    token.as_str(),
                );
            }
        }
        self.public_url.clone()
    }
}

/// A line of a state file.
pub open spec fn state_line(key: Seq<char>, value: Seq<char>) -> Seq<char> {
    key + "="@ + value + "\n"@
}

/// The lines of a state file, one after the other.
pub open spec fn state_text(pairs: Seq<(Seq<char>, Seq<char>)>) -> Seq<char>
    decreases pairs.len(),
{
    if pairs.len() == 0 {
        seq![]
    } else {
        state_text(pairs.drop_last()) + state_line(pairs.last().0, pairs.last().1)
    }
}

/// A number, or nothing where there is none.
pub open spec fn number_or_nothing(n: Option<nat>) -> Seq<char> {
    match n {
        Some(v) => number::decimal(v),
        None => seq![],
    }
}

/// The keys and values of a state file. The label, the description and the status are escaped.
pub open spec fn state_pairs(share: ActiveModel) -> Seq<(Seq<char>, Seq<char>)> {
    seq![
        ("id"@, share.id),
        ("target_label"@, fields::escaped(share.target_label)),
        ("target_description"@, fields::escaped(share.target_description)),
        ("public_url"@, share.public_url),
        ("access_mode"@, share.access_mode),
        (
            "share_token"@,
            match share.share_token {
                Some(t) => t,
                None => seq![],
            },
        ),
        ("started_at"@, number::decimal(share.started_at as nat)),
        (
            "expires_at"@,
            number_or_nothing(
                match share.expires_at {
                    Some(t) => Some(t as nat),
                    None => None,
                },
            ),
        ),
        ("pid"@, number::decimal(share.pid as nat)),
        (
            "cloudflared_pid"@,
            number_or_nothing(
                match share.cloudflared_pid {
                    Some(p) => Some(p as nat),
                    None => None,
                },
            ),
        ),
        ("status"@, fields::escaped(share.status)),
        ("proxy_port"@, number::decimal(share.proxy_port as nat)),
    ]
}

/// The contents of a share's state file.
pub open spec fn state_contents(share: ActiveModel) -> Seq<char> {
    state_text(state_pairs(share))
}

/// The fields that the lines of a state file set. A line without an equals sign sets none; of a
/// field that is set twice the later value counts.
pub open spec fn state_fields(lines: Seq<Seq<char>>) -> Map<Seq<char>, Seq<char>>
    decreases lines.len(),
{
    if lines.len() == 0 {
        Map::empty()
    } else {
        let earlier = state_fields(lines.drop_last());
        match class::split_once(lines.last(), CharClass::Char('=')) {
            Some((key, value)) => earlier.insert(key, fields::unescaped(value)),
            None => earlier,
        }
    }
}

/// The number in a field, if it is there, spells a number and is at most `max`.
pub open spec fn number_field(
    map: Map<Seq<char>, Seq<char>>,
    key: Seq<char>,
    max: nat,
) -> Option<nat> {
    match fields::field(map, key) {
        Some(value) => number::decimal_up_to(value, max),
        None => None,
    }
}

/// A number, or zero where there is none.
pub open spec fn or_zero(n: Option<nat>) -> nat {
    match n {
        Some(v) => v,
        None => 0,
    }
}

/// A text, or `default` where there is none.
pub open spec fn or_text(value: Option<Seq<char>>, default: Seq<char>) -> Seq<char> {
    match value {
        Some(v) => v,
        None => default,
    }
}

/// The share that the fields of a state file describe. It needs an id, a label and a description;
/// what else is missing is filled in.
pub open spec fn share_from(map: Map<Seq<char>, Seq<char>>) -> Result<ActiveModel, Seq<char>> {
    if fields::field(map, "id"@) is None {
        Err(fields::missing("id"@))
    } else if fields::field(map, "target_label"@) is None {
        Err(fields::missing("target_label"@))
    } else if fields::field(map, "target_description"@) is None {
        Err(fields::missing("target_description"@))
    } else {
        Ok(
            ActiveModel {
                id: fields::field(map, "id"@)->0,
                target_label: fields::field(map, "target_label"@)->0,
                target_description: fields::field(map, "target_description"@)->0,
                public_url: or_text(fields::field(map, "public_url"@), seq![]),
                access_mode: or_text(fields::field(map, "access_mode"@), "token"@),
                share_token: match fields::field(map, "share_token"@) {
                    Some(t) => if t.len() == 0 {
                        None
                    } else {
                        Some(t)
                    },
                    None => None,
                },
                started_at: or_zero(number_field(map, "started_at"@, u64::MAX as nat)) as u64,
                expires_at: match number_field(map, "expires_at"@, u64::MAX as nat) {
                    Some(t) => Some(t as u64),
                    None => None,
                },
                pid: or_zero(number_field(map, "pid"@, u32::MAX as nat)) as u32,
                cloudflared_pid: match number_field(map, "cloudflared_pid"@, u32::MAX as nat) {
                    Some(p) => Some(p as u32),
                    None => None,
                },
                status: or_text(fields::field(map, "status"@), "unknown"@),
                proxy_port: or_zero(number_field(map, "proxy_port"@, u16::MAX as nat)) as u16,
            },
        )
    }
}

/// The share that the contents of a state file describe.
pub open spec fn share_in(contents: Seq<char>) -> Result<ActiveModel, Seq<char>> {
    share_from(state_fields(class::lines(contents)))
}

/// Appends a line to the contents of a state file.
fn add_line(out: &mut String, key: &str, value: &str)
    ensures
        final(out)@ == old(out)@ + state_line(key@, value@),
{
    let line = key.to_owned().concat("=").concat(value).concat("\n");
    out.append(line.as_str());
}

/// Writes the contents of a share's state file.
pub fn save_active_share(share: &ActiveShare) -> (r: String)
    ensures
        r@ == state_contents(share@),
{
    let ghost pairs = state_pairs(share@);
    let mut data = String::new();
    let token = match &share.share_token {
        Some(t) => t.clone(),
        None => String::new(),
    };
    let expires = match share.expires_at {
        Some(t) => to_decimal(t),
        None => String::new(),
    };
    let tunnel = match share.cloudflared_pid {
        Some(p) => to_decimal(p as u64),
        None => String::new(),
    };
    add_line(&mut data, "id", share.id.as_str());
    add_line(&mut data, "target_label", escape_state(share.target_label.as_str()).as_str());
    add_line(
        &mut data,
        "target_description",
        escape_state(share.target_description.as_str()).as_str(),
    );
    add_line(&mut data, "public_url", share.public_url.as_str());
    add_line(&mut data, "access_mode", share.access_mode.as_str());
    add_line(&mut data, "share_token", token.as_str());
    add_line(&mut data, "started_at", to_decimal(share.started_at).as_str());
    add_line(&mut data, "expires_at", expires.as_str());
    add_line(&mut data, "pid", to_decimal(share.pid as u64).as_str());
    add_line(&mut data, "cloudflared_pid", tunnel.as_str());
    add_line(&mut data, "status", escape_state(share.status.as_str()).as_str());
    add_line(&mut data, "proxy_port", to_decimal(share.proxy_port as u64).as_str());
    proof {
        lemma_state_text_prefix(pairs, 0);
        lemma_state_text_prefix(pairs, 1);
        lemma_state_text_prefix(pairs, 2);
        lemma_state_text_prefix(pairs, 3);
        lemma_state_text_prefix(pairs, 4);
        lemma_state_text_prefix(pairs, 5);
        lemma_state_text_prefix(pairs, 6);
        lemma_state_text_prefix(pairs, 7);
        lemma_state_text_prefix(pairs, 8);
        lemma_state_text_prefix(pairs, 9);
        lemma_state_text_prefix(pairs, 10);
        lemma_state_text_prefix(pairs, 11);
        assert(pairs.take(12) =~= pairs);
        assert(pairs.take(0) =~= Seq::<(Seq<char>, Seq<char>)>::empty());
    }
    data
}

proof fn lemma_state_text_prefix(pairs: Seq<(Seq<char>, Seq<char>)>, n: int)
    requires
        0 <= n < pairs.len(),
    ensures
        state_text(pairs.take(n + 1)) == state_text(pairs.take(n)) + state_line(
            pairs[n].0,
            pairs[n].1,
        ),
{
    assert(pairs.take(n + 1).drop_last() =~= pairs.take(n));
}

/// The number in a field that is not empty, as 64 bits.
fn number_of(map: &StringHashMap<String>, key: &str) -> (r: Option<u64>)
    ensures
        match r {
            Some(n) => number_field(fields::field_texts(map@), key@, u64::MAX as nat) == Some(
                n as nat,
            ),
            None => number_field(fields::field_texts(map@), key@, u64::MAX as nat) is None,
        },
{
    match lookup(map, key) {
        Some(value) => match parse_u64(value.as_str()) {
            Ok(n) => Some(n),
            Err(_) => None,
        },
        None => None,
    }
}

/// The number in a field, as 32 bits.
fn small_number_of(map: &StringHashMap<String>, key: &str) -> (r: Option<u32>)
    ensures
        match r {
            Some(n) => number_field(fields::field_texts(map@), key@, u32::MAX as nat) == Some(
                n as nat,
            ),
            None => number_field(fields::field_texts(map@), key@, u32::MAX as nat) is None,
        },
{
    match lookup(map, key) {
        Some(value) => parse_u32(value.as_str()),
        None => None,
    }
}

/// A field's value, or `default` where it is missing.
fn text_of(map: &StringHashMap<String>, key: &str, default: &str) -> (r: String)
    ensures
        r@ == or_text(fields::field(fields::field_texts(map@), key@), default@),
{
    match lookup(map, key) {
        Some(value) => value,
        None => default.to_owned(),
    }
}

/// The share that the fields of a state file describe.
fn share_from_fields(map: &StringHashMap<String>) -> (r: Result<ActiveShare, String>)
    ensures
        match r {
            Ok(s) => share_from(fields::field_texts(map@)) == Ok::<ActiveModel, Seq<char>>(s@),
            Err(e) => share_from(fields::field_texts(map@)) == Err::<ActiveModel, Seq<char>>(e@),
        },
{
    let id = match required(map, "id") {
        Ok(v) => v,
        Err(e) => {
            return Err(e);
        },
    };
    let target_label = match required(map, "target_label") {
        Ok(v) => v,
        Err(e) => {
            return Err(e);
        },
    };
    let target_description = match required(map, "target_description") {
        Ok(v) => v,
        Err(e) => {
            return Err(e);
        },
    };
    let share_token = match lookup(map, "share_token") {
        Some(t) => if t.as_str().is_empty() {
            None
        } else {
            Some(t)
        },
        None => None,
    };
    let proxy_port = match lookup(map, "proxy_port") {
        Some(value) => match parse_u16(value.as_str()) {
            Ok(p) => p,
            Err(_) => 0,
        },
        None => 0,
    };
    proof {
        reveal_strlit("");
        assert(""@ =~= Seq::<char>::empty());
    }
    Ok(
        ActiveShare {
            id,
            target_label,
            target_description,
            public_url: text_of(map, "public_url", ""),
            access_mode: text_of(map, "access_mode", "token"),
            share_token,
            started_at: match number_of(map, "started_at") {
                Some(n) => n,
                None => 0,
            },
            expires_at: number_of(map, "expires_at"),
            pid: match small_number_of(map, "pid") {
                Some(n) => n,
                None => 0,
            },
            cloudflared_pid: small_number_of(map, "cloudflared_pid"),
            status: text_of(map, "status", "unknown"),
            proxy_port,
        },
    )
}

/// Reads the contents of a share's state file.
pub fn load_active_share(contents: &str) -> (r: Result<ActiveShare, String>)
    ensures
        match r {
            Ok(s) => share_in(contents@) == Ok::<ActiveModel, Seq<char>>(s@),
            Err(e) => share_in(contents@) == Err::<ActiveModel, Seq<char>>(e@),
        },
{
    let lines = lines_of(contents);
    let ghost all = chars::texts(lines@);
    let mut map: StringHashMap<String> = StringHashMap::new();
    let mut i: usize = 0;
    assert(all.take(0) =~= Seq::<Seq<char>>::empty());
    assert(fields::field_texts(map@) =~= Map::<Seq<char>, Seq<char>>::empty());
    while i < lines.len()
        invariant
            i <= lines@.len(),
            all == chars::texts(lines@),
            fields::field_texts(map@) == state_fields(all.take(i as int)),
        decreases lines@.len() - i,
    {
        assert(all.take(i + 1).drop_last() =~= all.take(i as int));
        assert(all.take(i + 1).last() == lines@[i as int]@);
        if let Some((key, value)) = split_once_by(lines[i].as_str(), CharClass::Char('=')) {
            set_field(&mut map, key, unescape_state(value.as_str()));
        }
        i += 1;
    }
    assert(all.take(all.len() as int) =~= all);
    share_from_fields(&map)
}

} // verus!
