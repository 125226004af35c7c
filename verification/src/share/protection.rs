//! How a share is protected: who gets in, with which token, and for how long.
use crate::config::{Config, Protection, ProtectionModel};
use crate::text::chars;
use crate::text::chars::{copy_opt, same};
use crate::text::class;
use crate::text::class::trim_space;
use crate::text::number;
use crate::text::number::to_hexadecimal;
use crate::text::search::strip_last;
use crate::text::std_calls;
use crate::text::std_calls::parse_u64;
use vstd::prelude::*;

verus! {

/// What the command line asks of a share.
#[derive(Debug)]
pub struct ShareOptions {
    pub selector: Option<String>,
    pub expires_in: Option<String>,
    pub access_mode: Option<String>,
    pub share_token: Option<String>,
    pub public: bool,
    pub detach: bool,
}

/// What the command line asks of a share.
pub struct OptionsModel {
    pub selector: Option<Seq<char>>,
    pub expires_in: Option<Seq<char>>,
    pub access_mode: Option<Seq<char>>,
    pub share_token: Option<Seq<char>>,
    pub public: bool,
    pub detach: bool,
}

impl View for ShareOptions {
    type V = OptionsModel;

    open spec fn view(&self) -> OptionsModel {
        OptionsModel {
            selector: chars::opt_text(self.selector),
            expires_in: chars::opt_text(self.expires_in),
            access_mode: chars::opt_text(self.access_mode),
            share_token: chars::opt_text(self.share_token),
            public: self.public,
            detach: self.detach,
        }
    }
}

impl Clone for ShareOptions {
    fn clone(&self) -> (r: ShareOptions)
        ensures
            r@ == self@,
    {
        ShareOptions {
            selector: copy_opt(&self.selector),
            expires_in: copy_opt(&self.expires_in),
            access_mode: copy_opt(&self.access_mode),
            share_token: copy_opt(&self.share_token),
            public: self.public,
            detach: self.detach,
        }
    }
}

/// A value, or `default` where there is none.
pub open spec fn or_else(value: Option<Seq<char>>, default: Seq<char>) -> Seq<char> {
    match value {
        Some(v) => v,
        None => default,
    }
}

/// A token made from the time and the process.
pub open spec fn fresh_token(now: u64, pid: u32) -> Seq<char> {
    "ltg-"@ + number::hexadecimal((now ^ (pid as u64)) as nat)
}

/// The protection of a share: what the command line says, else what is configured. A public share
/// has no token, and a token that is left to the tool is made afresh.
pub open spec fn protection_for(
    configured: ProtectionModel,
    options: OptionsModel,
    now: u64,
    pid: u32,
) -> ProtectionModel {
    let access_mode = if options.public {
        "public"@
    } else {
        or_else(options.access_mode, configured.access_mode)
    };
    let share_token = if options.public {
        ""@
    } else {
        or_else(options.share_token, configured.share_token)
    };
    ProtectionModel {
        expires_in: or_else(options.expires_in, configured.expires_in),
        access_mode,
        share_token: if share_token == "auto"@ && access_mode == "token"@ {
            fresh_token(now, pid)
        } else {
            share_token
        },
        warn_on_sensitive_ports: configured.warn_on_sensitive_ports,
    }
}

/// A token made from the time and the process.
pub fn generate_token(now: u64, pid: u32) -> (r: String)
    ensures
        r@ == fresh_token(now, pid),
{
    "ltg-".to_owned().concat(to_hexadecimal(now ^ (pid as u64)).as_str())
}

/// The protection of a share that the process `pid` starts at `now`.
pub fn effective_protection(config: &Config, options: &ShareOptions, now: u64, pid: u32) -> (r:
    Protection)
    ensures
        r@ == protection_for(config@.protection, options@, now, pid),
{
    let mut protection = config.protection.clone();
    if let Some(expires_in) = &options.expires_in {
        protection.expires_in = expires_in.clone();
    }
    if let Some(access_mode) = &options.access_mode {
        protection.access_mode = access_mode.clone();
    }
    if let Some(share_token) = &options.share_token {
        protection.share_token = share_token.clone();
    }
    if options.public {
        protection.access_mode = "public".to_owned();
        protection.share_token = "".to_owned();
    }
    if same(protection.share_token.as_str(), "auto") && same(
        protection.access_mode.as_str(),
        "token",
    ) {
        protection.share_token = generate_token(now, pid);
    }
    protection
}

/// What the command line says outweighs what is configured, unless the share is public; what it
/// does not say is taken from the configuration.
pub proof fn command_line_outweighs_configuration(
    configured: ProtectionModel,
    options: OptionsModel,
    now: u64,
    pid: u32,
)
    ensures
        ({
            let p = protection_for(configured, options, now, pid);
            &&& p.expires_in == or_else(options.expires_in, configured.expires_in)
            &&& !options.public ==> p.access_mode == or_else(
                options.access_mode,
                configured.access_mode,
            )
            &&& !options.public && or_else(options.share_token, configured.share_token) != "auto"@
                ==> p.share_token == or_else(options.share_token, configured.share_token)
            &&& p.warn_on_sensitive_ports == configured.warn_on_sensitive_ports
        }),
{
}

/// A public share asks for no token.
pub proof fn public_share_asks_for_no_token(
    configured: ProtectionModel,
    options: OptionsModel,
    now: u64,
    pid: u32,
)
    requires
        options.public,
    ensures
        protection_for(configured, options, now, pid).access_mode == "public"@,
        protection_for(configured, options, now, pid).share_token.len() == 0,
{
    reveal_strlit("");
    reveal_strlit("auto");
    assert(""@ != "auto"@) by {
        assert(""@.len() != "auto"@.len());
    }
}

/// A share in token mode never goes out with the placeholder for a token.
pub proof fn token_is_never_left_open(
    configured: ProtectionModel,
    options: OptionsModel,
    now: u64,
    pid: u32,
)
    requires
        protection_for(configured, options, now, pid).access_mode == "token"@,
    ensures
        protection_for(configured, options, now, pid).share_token != "auto"@,
{
    reveal_strlit("auto");
    reveal_strlit("ltg-");
    let fresh = fresh_token(now, pid);
    assert(fresh[0] == 'l');
    assert("auto"@[0] == 'a');
}

/// A duration as it is written: a number and the seconds that one of its units has.
pub enum DurationText {
    Blank,
    Amount { number: Seq<char>, unit: nat, prefix: Seq<char> },
}

/// The parts of a duration: a number with `h`, `m`, `s` or nothing behind it, and how a number
/// that cannot be read is reported.
pub open spec fn duration_text(value: Seq<char>) -> DurationText {
    let t = class::trimmed(value);
    if t.len() == 0 {
        DurationText::Blank
    } else if t.last() == 'h' {
        DurationText::Amount {
            number: t.drop_last(),
            unit: 3600,
            prefix: "invalid hour duration '"@,
        }
    } else if t.last() == 'm' {
        DurationText::Amount {
            number: t.drop_last(),
            unit: 60,
            prefix: "invalid minute duration '"@,
        }
    } else if t.last() == 's' {
        DurationText::Amount {
            number: t.drop_last(),
            unit: 1,
            prefix: "invalid second duration '"@,
        }
    } else {
        DurationText::Amount { number: t, unit: 1, prefix: "invalid duration '"@ }
    }
}

/// The seconds that a duration lasts, if it can be read.
pub open spec fn duration_seconds(value: Seq<char>) -> Option<nat> {
    match duration_text(value) {
        DurationText::Blank => None,
        DurationText::Amount { number, unit, .. } => match number::decimal_up_to(
            number,
            u64::MAX as nat,
        ) {
            Some(n) => Some(n * unit),
            None => None,
        },
    }
}

/// Why a duration cannot be read.
pub open spec fn duration_error(value: Seq<char>) -> Seq<char> {
    match duration_text(value) {
        DurationText::Blank => "expires_in cannot be empty"@,
        DurationText::Amount { number, prefix, .. } => prefix + value + "': "@
            + std_calls::parse_u64_error(number),
    }
}

/// The seconds that a duration lasts, or why it cannot be read.
pub open spec fn duration(value: Seq<char>) -> Result<nat, Seq<char>> {
    match duration_seconds(value) {
        Some(n) => Ok(n),
        None => Err(duration_error(value)),
    }
}

/// Whether a duration, if it can be read, fits into 64 bits.
pub open spec fn duration_fits(value: Seq<char>) -> bool {
    duration_seconds(value) matches Some(n) ==> n <= u64::MAX
}

/// Reads the number of a duration and the seconds that one of its units has.
fn read_duration(value: &str) -> (r: Result<(u64, u64), String>)
    ensures
        match r {
            Ok((n, unit)) => duration(value@) == Ok::<nat, Seq<char>>((n * unit) as nat) && (unit
                == 3600 || unit == 60 || unit == 1),
            Err(e) => duration(value@) == Err::<nat, Seq<char>>(e@),
        },
{
    let t = trim_space(value);
    if t.as_str().is_empty() {
        return Err("expires_in cannot be empty".to_owned());
    }
    let (number, unit, prefix): (String, u64, &'static str) = match strip_last(t.as_str(), 'h') {
        Some(n) => (n, 3600, "invalid hour duration '"),
        None => match strip_last(t.as_str(), 'm') {
            Some(n) => (n, 60, "invalid minute duration '"),
            None => match strip_last(t.as_str(), 's') {
                Some(n) => (n, 1, "invalid second duration '"),
                None => (t, 1, "invalid duration '"),
            },
        },
    };
    match parse_u64(number.as_str()) {
        Ok(n) => Ok((n, unit)),
        Err(e) => Err(prefix.to_owned().concat(value).concat("': ").concat(e.as_str())),
    }
}

/// The seconds that a duration lasts: `1h`, `30m`, `45s` or `120`.
pub fn parse_duration_seconds(value: &str) -> (r: Result<u64, String>)
    requires
        duration_fits(value@),
    ensures
        match r {
            Ok(n) => duration(value@) == Ok::<nat, Seq<char>>(n as nat),
            Err(e) => duration(value@) == Err::<nat, Seq<char>>(e@),
        },
{
    match read_duration(value) {
        Ok((n, unit)) => Ok(n * unit),
        Err(e) => Err(e),
    }
}

/// When a share that starts at `now` runs out: never if no duration is set.
pub open spec fn expiry(now: u64, expires_in: Seq<char>) -> Result<Option<nat>, Seq<char>> {
    if expires_in.len() == 0 {
        Ok(None)
    } else {
        match duration(expires_in) {
            Ok(n) => Ok(Some(now as nat + n)),
            Err(e) => Err(e),
        }
    }
}

/// Whether the end of a share fits into 64 bits.
pub open spec fn expiry_in_range(now: u64, expires_in: Seq<char>) -> bool {
    expires_in.len() > 0 ==> (duration_seconds(expires_in) matches Some(n) ==> now + n <= u64::MAX)
}

/// Whether the end of a share fits into 64 bits.
pub fn expiry_fits(now: u64, expires_in: &str) -> (r: bool)
    ensures
        r == expiry_in_range(now, expires_in@),
{
    if expires_in.is_empty() {
        return true;
    }
    match read_duration(expires_in) {
        Ok((n, unit)) => {
            assert(n as nat * unit as nat <= u64::MAX as nat * 3600) by (nonlinear_arith)
                requires
                    n <= u64::MAX,
                    unit <= 3600,
            ;
            let seconds: u128 = (n as u128) * (unit as u128);
            seconds <= (u64::MAX - now) as u128
        },
        Err(_) => true,
    }
}

/// When a share that starts at `now` runs out.
pub fn share_expiry(now: u64, expires_in: &str) -> (r: Result<Option<u64>, String>)
    requires
        expiry_in_range(now, expires_in@),
    ensures
        match r {
            Ok(Some(end)) => expiry(now, expires_in@) == Ok::<Option<nat>, Seq<char>>(
                Some(end as nat),
            ),
            Ok(None) => expiry(now, expires_in@) == Ok::<Option<nat>, Seq<char>>(None),
            Err(e) => expiry(now, expires_in@) == Err::<Option<nat>, Seq<char>>(e@),
        },
{
    if expires_in.is_empty() {
        return Ok(None);
    }
    match parse_duration_seconds(expires_in) {
        Ok(n) => Ok(Some(now + n)),
        Err(e) => Err(e),
    }
}

} // verus!
