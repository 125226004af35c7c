//! Decisions that the user is asked about.
use crate::detect::classify;
use crate::detect::classify::{DetectedService, ServiceModel};
use crate::share::target::{ShareTarget, TargetModel};
use crate::text::chars;
use crate::text::chars::same;
use crate::text::class;
use crate::text::class::trim_space;
use crate::text::number;
use crate::text::number::to_decimal;
use crate::text::std_calls;
use crate::text::std_calls::{parse_usize, to_lower};
use vstd::prelude::*;

verus! {

/// Which service is to be shared.
#[derive(Debug)]
pub enum Selection {
    /// The one of this name, or whatever the configuration says.
    Known(Option<String>),
    /// The user has to pick one.
    Ask,
}

/// Which service is to be shared.
pub enum SelectionModel {
    Known(Option<Seq<char>>),
    Ask,
}

impl View for Selection {
    type V = SelectionModel;

    open spec fn view(&self) -> SelectionModel {
        match self {
            Selection::Known(name) => SelectionModel::Known(chars::opt_text(*name)),
            Selection::Ask => SelectionModel::Ask,
        }
    }
}

/// Which service is to be shared: the one that the command line names, else the only one there is;
/// of several the user picks one.
pub open spec fn selection(named: Option<Seq<char>>, detected: Seq<ServiceModel>) -> SelectionModel {
    if named is Some {
        SelectionModel::Known(named)
    } else if detected.len() > 1 {
        SelectionModel::Ask
    } else if detected.len() == 1 {
        SelectionModel::Known(Some(detected[0].name))
    } else {
        SelectionModel::Known(None)
    }
}

/// Decides which service is to be shared.
pub fn choose_selector(named: Option<&str>, detected: &[DetectedService]) -> (r: Selection)
    ensures
        r@ == selection(chars::opt_str(named), classify::service_list(detected@)),
{
    match named {
        Some(name) => Selection::Known(Some(name.to_owned())),
        None => {
            if detected.len() > 1 {
                Selection::Ask
            } else if detected.len() == 1 {
                assert(classify::service_list(detected@)[0] == detected@[0]@);
                Selection::Known(Some(detected[0].name.clone()))
            } else {
                Selection::Known(None)
            }
        },
    }
}

/// The question for one of `count` services.
pub fn selection_prompt(count: usize) -> (r: String)
    ensures
        r@ == "Selection [1-"@ + number::decimal(count as nat) + "]: "@,
{
    "Selection [1-".to_owned().concat(to_decimal(count as u64).as_str()).concat("]: ")
}

/// The position of the service that was picked, counted from nought: one less than its number.
/// Nought picks the first one too.
pub open spec fn picked(input: Seq<char>) -> Option<nat> {
    match number::decimal_up_to(class::trimmed(input), usize::MAX as nat) {
        Some(n) => Some(
            if n > 0 {
                (n - 1) as nat
            } else {
                0
            },
        ),
        None => None,
    }
}

/// The name of the service that was picked. What is wrong with a number that cannot be read is
/// told behind the colon, in the words of the standard library.
pub fn prompt_for_service(services: &[DetectedService], input: &str) -> (r: Result<String, String>)
    ensures
        match r {
            Ok(name) => picked(input@) matches Some(i) && i < services@.len() && name@
                == services@[i as int]@.name,
            Err(e) => match picked(input@) {
                Some(i) => i >= services@.len() && e@ == "selection out of range"@,
                None => e@ == "invalid selection: "@ + std_calls::parse_usize_error(
                    class::trimmed(input@),
                    usize::MAX as nat,
                ),
            },
        },
{
    let number = match parse_usize(trim_space(input).as_str()) {
        Ok(n) => n,
        Err(e) => {
            return Err("invalid selection: ".to_owned().concat(e.as_str()));
        },
    };
    let index: usize = if number > 0 {
        number - 1
    } else {
        0
    };
    if index < services.len() {
        Ok(services[index].name.clone())
    } else {
        Err("selection out of range".to_owned())
    }
}

/// Whether an answer is a yes.
pub open spec fn is_yes(input: Seq<char>) -> bool {
    let answer = std_calls::lowercase(class::trimmed(input));
    answer == "y"@ || answer == "yes"@
}

/// Whether an answer is a yes.
pub fn confirm(input: &str) -> (r: bool)
    ensures
        r == is_yes(input@),
{
    let answer = to_lower(trim_space(input).as_str());
    same(answer.as_str(), "y") || same(answer.as_str(), "yes")
}

/// A warning, with a reason of its own or a general one.
pub open spec fn warning(reason: Option<Seq<char>>, default: Seq<char>) -> Seq<char> {
    "Warning: "@ + match reason {
        Some(r) => r,
        None => default,
    }
}

/// A warning, with a reason of its own or a general one.
pub fn write_warning(reason: &Option<String>, default: &str) -> (r: String)
    ensures
        r@ == warning(chars::opt_text(*reason), default@),
{
    match reason {
        Some(r) => "Warning: ".to_owned().concat(r.as_str()),
        None => "Warning: ".to_owned().concat(default),
    }
}

/// What stands in the way of sharing a target: nothing, a warning that the user has to confirm, or
/// that there is nothing to share.
pub open spec fn concern(target: TargetModel, warn: bool) -> Result<Option<Seq<char>>, Seq<char>> {
    if target.routes.len() == 0 {
        Err("the selected share target has no active routes"@)
    } else if warn && target.risky {
        Ok(Some(warning(target.risk_reason, "this target looks risky to expose"@)))
    } else {
        Ok(None)
    }
}

/// What stands in the way of sharing a target.
pub fn check_target(target: &ShareTarget, warn_on_sensitive_ports: bool) -> (r: Result<
    Option<String>,
    String,
>)
    ensures
        match r {
            Ok(w) => concern(target@, warn_on_sensitive_ports) == Ok::<
                Option<Seq<char>>,
                Seq<char>,
            >(chars::opt_text(w)),
            Err(e) => concern(target@, warn_on_sensitive_ports) == Err::<
                Option<Seq<char>>,
                Seq<char>,
            >(e@),
        },
{
    if target.routes.len() == 0 {
        Err("the selected share target has no active routes".to_owned())
    } else if warn_on_sensitive_ports && target.risky {
        Ok(Some(write_warning(&target.risk_reason, "this target looks risky to expose")))
    } else {
        Ok(None)
    }
}

/// Whether a target may be shared, after the user has answered the warning, if there is one: a
/// target that no warning stands against is not held up by the answer, and any other one only by an
/// answer that is no yes.
pub open spec fn settled(target: TargetModel, warn: bool, answer: Seq<char>) -> Result<(), Seq<char>> {
    match concern(target, warn) {
        Err(e) => Err(e),
        Ok(None) => Ok(()),
        Ok(Some(_)) => if is_yes(answer) {
            Ok(())
        } else {
            Err("share cancelled"@)
        },
    }
}

/// Decides whether a target may be shared, after the user has answered the warning, if there is
/// one.
pub fn settle_concern(target: &ShareTarget, warn_on_sensitive_ports: bool, answer: &str) -> (r:
    Result<(), String>)
    ensures
        match r {
            Ok(()) => settled(target@, warn_on_sensitive_ports, answer@) is Ok,
            Err(e) => settled(target@, warn_on_sensitive_ports, answer@) == Err::<(), Seq<char>>(
                e@,
            ),
        },
{
    match check_target(target, warn_on_sensitive_ports) {
        Err(e) => Err(e),
        Ok(None) => Ok(()),
        Ok(Some(_)) => if confirm(answer) {
            Ok(())
        } else {
            Err("share cancelled".to_owned())
        },
    }
}

/// The name of a project: that of its directory, where it has one.
pub fn project_name(directory: Option<&str>) -> (r: String)
    ensures
        r@ == match directory {
            Some(name) => name@,
            None => "localtoglobal"@,
        },
{
    match directory {
        Some(name) => name.to_owned(),
        None => "localtoglobal".to_owned(),
    }
}

} // verus!
