//! How a share is protected, told by what was asked for and what is configured.
use crate::config::ProtectionModel;
use crate::proxy::guard;
use crate::share::protection;
use crate::share::protection::OptionsModel;
use crate::text::class;
use crate::text::facts;
use crate::text::number;
use crate::text::std_calls;
use vstd::prelude::*;

verus! {

/// A share lasts as long as the command line says, or else as long as is configured; the warnings
/// are those that are configured.
pub proof fn asked_for_duration_counts(
    configured: ProtectionModel,
    options: OptionsModel,
    now: u64,
    pid: u32,
)
    ensures
        ({
            let p = protection::protection_for(configured, options, now, pid);
            &&& options.expires_in matches Some(t) ==> p.expires_in == t
            &&& options.expires_in is None ==> p.expires_in == configured.expires_in
            &&& p.warn_on_sensitive_ports == configured.warn_on_sensitive_ports
        }),
{
}

/// A share that is asked to be public has no token and asks for none, whatever else is asked for or
/// configured. Any other share is guarded in the mode that the command line says, or else in the
/// configured one.
pub proof fn asked_for_mode_counts(
    configured: ProtectionModel,
    options: OptionsModel,
    now: u64,
    pid: u32,
)
    ensures
        ({
            let p = protection::protection_for(configured, options, now, pid);
            &&& options.public ==> p.access_mode == "public"@ && p.share_token.len() == 0
            &&& !options.public && options.access_mode is Some ==> p.access_mode
                == options.access_mode->0
            &&& !options.public && options.access_mode is None ==> p.access_mode
                == configured.access_mode
        }),
{
    reveal_strlit("");
    reveal_strlit("auto");
    assert(""@.len() != "auto"@.len());
}

/// A share that is not public has the token that the command line says, or else the configured one;
/// only in token mode does the word `auto` stand for a token that is made from the time and the
/// process.
pub proof fn asked_for_token_counts(
    configured: ProtectionModel,
    options: OptionsModel,
    now: u64,
    pid: u32,
)
    requires
        !options.public,
    ensures
        ({
            let p = protection::protection_for(configured, options, now, pid);
            let said = if options.share_token is Some {
                options.share_token->0
            } else {
                configured.share_token
            };
            let mode = if options.access_mode is Some {
                options.access_mode->0
            } else {
                configured.access_mode
            };
            &&& said != "auto"@ || mode != "token"@ ==> p.share_token == said
            &&& said == "auto"@ && mode == "token"@ ==> {
                &&& p.share_token.len() > 4
                &&& p.share_token.take(4) == seq!['l', 't', 'g', '-']
                &&& number::hex_value(p.share_token.skip(4)) == Some((now ^ (pid as u64)) as nat)
            }
        }),
{
    reveal_strlit("ltg-");
    let mix = (now ^ (pid as u64)) as nat;
    let token = protection::fresh_token(now, pid);
    number::hexadecimal_reads_back(mix);
    assert(token.take(4) =~= seq!['l', 't', 'g', '-']);
    assert(token.skip(4) =~= number::hexadecimal(mix));
}

/// A duration is a number of hours, minutes or seconds, with `h`, `m` or `s` behind it, or of seconds
/// with nothing behind it; white space around it does not count.
pub proof fn durations_count_seconds(n: u64, a: Seq<char>, b: Seq<char>)
    requires
        facts::all_white(a),
        facts::all_white(b),
    ensures
        protection::duration_seconds(a + number::decimal(n as nat).push('h') + b) == Some(
            (3600 * n) as nat,
        ),
        protection::duration_seconds(a + number::decimal(n as nat).push('m') + b) == Some(
            (60 * n) as nat,
        ),
        protection::duration_seconds(a + number::decimal(n as nat).push('s') + b) == Some(n as nat),
        protection::duration_seconds(a + number::decimal(n as nat) + b) == Some(n as nat),
{
    let digits = number::decimal(n as nat);
    number::decimal_reads_back(n as nat);
    assert('0' <= digits[0] <= '9');
    assert('0' <= digits[digits.len() - 1] <= '9');
    facts::trimming_takes_white_space_off(a, digits.push('h'), b);
    facts::trimming_takes_white_space_off(a, digits.push('m'), b);
    facts::trimming_takes_white_space_off(a, digits.push('s'), b);
    facts::trimming_takes_white_space_off(a, digits, b);
    assert(digits.push('h').drop_last() =~= digits);
    assert(digits.push('m').drop_last() =~= digits);
    assert(digits.push('s').drop_last() =~= digits);
    assert(n * 3600 == 3600 * n);
    assert(n * 60 == 60 * n);
}

/// Whether the last character of a text is a unit of time.
pub open spec fn has_unit(t: Seq<char>) -> bool {
    t[t.len() - 1] == 'h' || t[t.len() - 1] == 'm' || t[t.len() - 1] == 's'
}

/// What is no number that fits, with or without a unit behind it, is no duration, and neither is white
/// space; the refusal quotes the text and tells what is wrong with the number.
pub proof fn other_texts_are_no_durations(t: Seq<char>, a: Seq<char>, b: Seq<char>)
    requires
        facts::all_white(a),
        facts::all_white(b),
        facts::clean_ends(t),
        !(number::decimal_value(t) matches Some(n) && n <= u64::MAX),
        t.len() > 0 && has_unit(t) ==> !(number::decimal_value(t.take(t.len() - 1)) matches Some(n)
            && n <= u64::MAX),
    ensures
        ({
            let value = a + t + b;
            protection::duration(value) == Err::<nat, Seq<char>>(
                if t.len() == 0 {
                    "expires_in cannot be empty"@
                } else if t[t.len() - 1] == 'h' {
                    "invalid hour duration '"@ + value + "': "@ + std_calls::parse_u64_error(
                        t.take(t.len() - 1),
                    )
                } else if t[t.len() - 1] == 'm' {
                    "invalid minute duration '"@ + value + "': "@ + std_calls::parse_u64_error(
                        t.take(t.len() - 1),
                    )
                } else if t[t.len() - 1] == 's' {
                    "invalid second duration '"@ + value + "': "@ + std_calls::parse_u64_error(
                        t.take(t.len() - 1),
                    )
                } else {
                    "invalid duration '"@ + value + "': "@ + std_calls::parse_u64_error(t)
                },
            )
        }),
{
    facts::trimming_takes_white_space_off(a, t, b);
    if t.len() > 0 {
        assert(t.drop_last() =~= t.take(t.len() - 1));
    }
}

/// A share runs out its duration after it was started, and never if none is set: from that second on
/// and not before.
pub proof fn shares_run_out_after_their_duration(now: u64, n: u64, expires_in: Seq<char>)
    requires
        protection::duration_seconds(expires_in) == Some(n as nat),
        expires_in.len() > 0,
        now + n <= u64::MAX,
    ensures
        protection::expiry(now, expires_in) == Ok::<Option<nat>, Seq<char>>(
            Some((now + n) as nat),
        ),
        protection::expiry(now, seq![]) == Ok::<Option<nat>, Seq<char>>(None),
        forall|t: u64| #[trigger]
            guard::is_expired(t, Some((now + n) as u64)) <==> t >= now + n,
        forall|t: u64| !(#[trigger] guard::is_expired(t, None)),
{
}

/// Reading a text for its duration trims it first.
pub proof fn durations_are_trimmed(value: Seq<char>)
    ensures
        protection::duration_seconds(value) == protection::duration_seconds(class::trimmed(value)),
{
    facts::trimming_leaves_clean_ends(value);
    let t = class::trimmed(value);
    let nothing = Seq::<char>::empty();
    facts::trimming_takes_white_space_off(nothing, t, nothing);
    assert(nothing + t + nothing =~= t);
}

} // verus!
