//! What the command line asks for, told word by word, and what the user's answers come to.
use crate::cli::args;
use crate::cli::args::{CommandModel, RoutesAction};
use crate::cli::choice;
use crate::cli::choice::SelectionModel;
use crate::config::ProtectionModel;
use crate::detect::classify::ServiceModel;
use crate::share::protection::OptionsModel;
use crate::share::target::TargetModel;
use crate::text::class;
use crate::text::facts;
use crate::text::number;
use crate::text::search;
use crate::text::std_calls;
use vstd::prelude::*;

verus! {

proof fn lemma_commands_differ()
    ensures
        "__serve-share"@.len() == 13,
        "run"@.len() == 3,
        "share"@.len() == 5,
        "routes"@.len() == 6,
        "routes"@[0] == 'r',
        "protect"@.len() == 7,
        "status"@.len() == 6,
        "status"@[0] == 's',
        "help"@.len() == 4,
        "help"@[0] == 'h',
        "--help"@.len() == 6,
        "--help"@[0] == '-',
        "-h"@.len() == 2,
        "show"@.len() == 4,
        "show"@[0] == 's',
        "init"@.len() == 4,
        "init"@[0] == 'i',
{
    reveal_strlit("__serve-share");
    reveal_strlit("run");
    reveal_strlit("share");
    reveal_strlit("routes");
    reveal_strlit("protect");
    reveal_strlit("status");
    reveal_strlit("help");
    reveal_strlit("--help");
    reveal_strlit("-h");
    reveal_strlit("show");
    reveal_strlit("init");
}

/// The first word is the command, and what stands behind it belongs to it. Without a word, the help
/// is asked for.
pub proof fn first_word_is_the_command(rest: Seq<Seq<char>>)
    ensures
        args::command_in(seq!["run"@] + rest) == Ok::<CommandModel, Seq<char>>(CommandModel::Run),
        args::command_in(seq!["share"@] + rest) == Ok::<CommandModel, Seq<char>>(
            CommandModel::Share(rest),
        ),
        args::command_in(seq!["routes"@] + rest) == Ok::<CommandModel, Seq<char>>(
            CommandModel::Routes(rest),
        ),
        args::command_in(seq!["protect"@] + rest) == Ok::<CommandModel, Seq<char>>(
            CommandModel::Protect(rest),
        ),
        args::command_in(seq!["status"@] + rest) == Ok::<CommandModel, Seq<char>>(
            CommandModel::Status,
        ),
        args::command_in(seq!["__serve-share"@] + rest) == Ok::<CommandModel, Seq<char>>(
            CommandModel::Serve(rest),
        ),
        args::command_in(seq!["help"@] + rest) == Ok::<CommandModel, Seq<char>>(CommandModel::Help),
        args::command_in(seq!["--help"@] + rest) == Ok::<CommandModel, Seq<char>>(
            CommandModel::Help,
        ),
        args::command_in(seq!["-h"@] + rest) == Ok::<CommandModel, Seq<char>>(CommandModel::Help),
        args::command_in(seq![]) == Ok::<CommandModel, Seq<char>>(CommandModel::Help),
{
    lemma_commands_differ();
    assert((seq!["share"@] + rest).skip(1) =~= rest);
    assert((seq!["routes"@] + rest).skip(1) =~= rest);
    assert((seq!["protect"@] + rest).skip(1) =~= rest);
    assert((seq!["__serve-share"@] + rest).skip(1) =~= rest);
}

/// Any other word is refused, and named in the refusal.
pub proof fn other_commands_are_refused(name: Seq<char>, rest: Seq<Seq<char>>)
    requires
        name != "run"@ && name != "share"@ && name != "routes"@ && name != "protect"@,
        name != "status"@ && name != "__serve-share"@,
        name != "help"@ && name != "--help"@ && name != "-h"@,
    ensures
        args::command_in(seq![name] + rest) == Err::<CommandModel, Seq<char>>(
            "unknown command '"@ + name + "'. Run `ltg help` for usage."@,
        ),
{
}

/// The route profiles are shown, unless they are to be set up; anything else is refused.
pub proof fn profiles_are_shown_or_set_up(word: Seq<char>, rest: Seq<Seq<char>>)
    ensures
        args::routes_action_in(seq![]) == Ok::<RoutesAction, Seq<char>>(RoutesAction::Show),
        args::routes_action_in(seq!["show"@] + rest) == Ok::<RoutesAction, Seq<char>>(
            RoutesAction::Show,
        ),
        args::routes_action_in(seq!["init"@] + rest) == Ok::<RoutesAction, Seq<char>>(
            RoutesAction::Init,
        ),
        word != "show"@ && word != "init"@ ==> args::routes_action_in(seq![word] + rest) == Err::<
            RoutesAction,
            Seq<char>,
        >("unsupported routes action '"@ + word + "'. Use `show` or `init`."@),
{
    lemma_commands_differ();
}

proof fn lemma_flags_differ()
    ensures
        "--expires-in"@.len() == 12,
        "--access-mode"@.len() == 13,
        "--access-mode"@[2] == 'a',
        "--share-token"@.len() == 13,
        "--share-token"@[2] == 's',
        "--public"@.len() == 8,
        "--public"@[2] == 'p',
        "--detach"@.len() == 8,
        "--detach"@[2] == 'd',
        "--warn-sensitive"@.len() == 16,
        "--no-warn-sensitive"@.len() == 19,
{
    reveal_strlit("--expires-in");
    reveal_strlit("--access-mode");
    reveal_strlit("--share-token");
    reveal_strlit("--public");
    reveal_strlit("--detach");
    reveal_strlit("--warn-sensitive");
    reveal_strlit("--no-warn-sensitive");
}

/// A flag of `share` sets its own option to the next word, or switches it on, and leaves the others;
/// then the words behind it are read.
pub proof fn share_flags_set_their_options(
    value: Seq<char>,
    rest: Seq<Seq<char>>,
    known: OptionsModel,
)
    ensures
        args::options_in(seq!["--expires-in"@, value] + rest, known) == args::options_in(
            rest,
            OptionsModel { expires_in: Some(value), ..known },
        ),
        args::options_in(seq!["--access-mode"@, value] + rest, known) == args::options_in(
            rest,
            OptionsModel { access_mode: Some(value), ..known },
        ),
        args::options_in(seq!["--share-token"@, value] + rest, known) == args::options_in(
            rest,
            OptionsModel { share_token: Some(value), ..known },
        ),
        args::options_in(seq!["--public"@] + rest, known) == args::options_in(
            rest,
            OptionsModel { public: true, ..known },
        ),
        args::options_in(seq!["--detach"@] + rest, known) == args::options_in(
            rest,
            OptionsModel { detach: true, ..known },
        ),
        args::options_in(seq![], known) == Ok::<OptionsModel, Seq<char>>(known),
{
    lemma_flags_differ();
    assert((seq!["--expires-in"@, value] + rest).skip(2) =~= rest);
    assert((seq!["--access-mode"@, value] + rest).skip(2) =~= rest);
    assert((seq!["--share-token"@, value] + rest).skip(2) =~= rest);
    assert((seq!["--public"@] + rest).skip(1) =~= rest);
    assert((seq!["--detach"@] + rest).skip(1) =~= rest);
}

/// A word of `share` that is no flag is what is to be shared; a second such word is refused, and so
/// are other flags and flags without the value that they need.
pub proof fn one_word_is_to_be_shared(
    word: Seq<char>,
    rest: Seq<Seq<char>>,
    known: OptionsModel,
)
    ensures
        !search::begins(word, seq!['-', '-']) && known.selector is None ==> args::options_in(
            seq![word] + rest,
            known,
        ) == args::options_in(rest, OptionsModel { selector: Some(word), ..known }),
        !search::begins(word, seq!['-', '-']) && known.selector is Some ==> args::options_in(
            seq![word] + rest,
            known,
        ) == Err::<OptionsModel, Seq<char>>("unexpected extra argument '"@ + word + "'"@),
        search::begins(word, seq!['-', '-']) && word != "--expires-in"@ && word
            != "--access-mode"@ && word != "--share-token"@ && word != "--public"@ && word
            != "--detach"@ ==> args::options_in(seq![word] + rest, known) == Err::<
            OptionsModel,
            Seq<char>,
        >("unsupported share flag '"@ + word + "'"@),
        word == "--expires-in"@ || word == "--access-mode"@ || word == "--share-token"@
            ==> args::options_in(seq![word], known) == Err::<OptionsModel, Seq<char>>(
            "missing value for "@ + word,
        ),
{
    reveal_strlit("--");
    assert("--"@ =~= seq!['-', '-']);
    assert((seq![word] + rest).skip(1) =~= rest);
    lemma_are_flags();
}

proof fn lemma_are_flags()
    ensures
        search::begins("--expires-in"@, seq!['-', '-']),
        search::begins("--access-mode"@, seq!['-', '-']),
        search::begins("--share-token"@, seq!['-', '-']),
        search::begins("--public"@, seq!['-', '-']),
        search::begins("--detach"@, seq!['-', '-']),
{
    reveal_strlit("--expires-in");
    reveal_strlit("--access-mode");
    reveal_strlit("--share-token");
    reveal_strlit("--public");
    reveal_strlit("--detach");
    assert("--expires-in"@.take(2) =~= seq!['-', '-']);
    assert("--access-mode"@.take(2) =~= seq!['-', '-']);
    assert("--share-token"@.take(2) =~= seq!['-', '-']);
    assert("--public"@.take(2) =~= seq!['-', '-']);
    assert("--detach"@.take(2) =~= seq!['-', '-']);
}

/// A flag of `protect` sets its own default to the next word, or switches the warnings on or off,
/// and leaves the others; then the words behind it are read. Anything else is refused.
pub proof fn protect_flags_set_their_defaults(
    value: Seq<char>,
    rest: Seq<Seq<char>>,
    known: ProtectionModel,
)
    ensures
        args::protection_in(seq!["--expires-in"@, value] + rest, known) == args::protection_in(
            rest,
            ProtectionModel { expires_in: value, ..known },
        ),
        args::protection_in(seq!["--access-mode"@, value] + rest, known) == args::protection_in(
            rest,
            ProtectionModel { access_mode: value, ..known },
        ),
        args::protection_in(seq!["--share-token"@, value] + rest, known) == args::protection_in(
            rest,
            ProtectionModel { share_token: value, ..known },
        ),
        args::protection_in(seq!["--warn-sensitive"@] + rest, known) == args::protection_in(
            rest,
            ProtectionModel { warn_on_sensitive_ports: true, ..known },
        ),
        args::protection_in(seq!["--no-warn-sensitive"@] + rest, known) == args::protection_in(
            rest,
            ProtectionModel { warn_on_sensitive_ports: false, ..known },
        ),
        args::protection_in(seq![], known) == Ok::<ProtectionModel, Seq<char>>(known),
        value != "--expires-in"@ && value != "--access-mode"@ && value != "--share-token"@ && value
            != "--warn-sensitive"@ && value != "--no-warn-sensitive"@ ==> args::protection_in(
            seq![value] + rest,
            known,
        ) == Err::<ProtectionModel, Seq<char>>("unsupported protect flag '"@ + value + "'"@),
        value == "--expires-in"@ || value == "--access-mode"@ || value == "--share-token"@
            ==> args::protection_in(seq![value], known) == Err::<ProtectionModel, Seq<char>>(
            "missing value for "@ + value,
        ),
{
    lemma_flags_differ();
    assert((seq!["--expires-in"@, value] + rest).skip(2) =~= rest);
    assert((seq!["--access-mode"@, value] + rest).skip(2) =~= rest);
    assert((seq!["--share-token"@, value] + rest).skip(2) =~= rest);
    assert((seq!["--warn-sensitive"@] + rest).skip(1) =~= rest);
    assert((seq!["--no-warn-sensitive"@] + rest).skip(1) =~= rest);
}

/// What the command line names is shared, whatever was detected. Where it names nothing, the only
/// service there is is shared, of several one has to be picked, and of none there is nothing to say.
pub proof fn named_services_are_not_asked_about(
    named: Option<Seq<char>>,
    detected: Seq<ServiceModel>,
)
    ensures
        named is Some ==> choice::selection(named, detected) == SelectionModel::Known(named),
        named is None && detected.len() == 0 ==> choice::selection(named, detected)
            == SelectionModel::Known(None),
        named is None && detected.len() == 1 ==> choice::selection(named, detected)
            == SelectionModel::Known(Some(detected[0].name)),
        named is None && detected.len() > 1 ==> choice::selection(named, detected) is Ask,
{
}

/// A service is picked by its number, counted from one; nought picks the first too, and what is no
/// number picks none.
pub proof fn services_are_picked_by_number(n: usize, a: Seq<char>, b: Seq<char>, word: Seq<char>)
    requires
        facts::all_white(a),
        facts::all_white(b),
        facts::clean_ends(word),
    ensures
        n > 0 ==> choice::picked(a + number::decimal(n as nat) + b) == Some((n - 1) as nat),
        choice::picked(a + number::decimal(0) + b) == Some(0nat),
        !(number::decimal_value(word) matches Some(m) && m <= usize::MAX) ==> choice::picked(
            a + word + b,
        ) is None,
{
    lemma_trimmed_number(n as nat, a, b);
    lemma_trimmed_number(0, a, b);
    facts::trimming_takes_white_space_off(a, word, b);
}

proof fn lemma_trimmed_number(n: nat, a: Seq<char>, b: Seq<char>)
    requires
        facts::all_white(a),
        facts::all_white(b),
    ensures
        class::trimmed(a + number::decimal(n) + b) == number::decimal(n),
        number::decimal_value(number::decimal(n)) == Some(n),
{
    let digits = number::decimal(n);
    number::decimal_reads_back(n);
    assert('0' <= digits[0] <= '9');
    assert('0' <= digits[digits.len() - 1] <= '9');
    facts::trimming_takes_white_space_off(a, digits, b);
}

/// An answer is a yes exactly if it is `y` or `yes`, in either case, with white space around it.
pub proof fn only_yes_is_a_yes(a: Seq<char>, word: Seq<char>, b: Seq<char>)
    requires
        facts::all_white(a),
        facts::all_white(b),
        facts::clean_ends(word),
    ensures
        choice::is_yes(a + word + b) <==> std_calls::lowercase(word) == seq!['y']
            || std_calls::lowercase(word) == seq!['y', 'e', 's'],
{
    reveal_strlit("y");
    reveal_strlit("yes");
    assert("y"@ =~= seq!['y']);
    assert("yes"@ =~= seq!['y', 'e', 's']);
    facts::trimming_takes_white_space_off(a, word, b);
}

/// A target without routes is not shared. A risky one is shared only after a yes, where warnings are
/// on, and the warning gives its reason; any other is shared whatever the answer is.
pub proof fn risks_are_warned_of(target: TargetModel, warn: bool, answer: Seq<char>)
    ensures
        target.routes.len() == 0 ==> choice::settled(target, warn, answer) == Err::<(), Seq<char>>(
            "the selected share target has no active routes"@,
        ) && choice::concern(target, warn) is Err,
        target.routes.len() > 0 && warn && target.risky ==> {
            &&& choice::settled(target, warn, answer) is Ok <==> choice::is_yes(answer)
            &&& choice::settled(target, warn, answer) matches Err(e) ==> e == "share cancelled"@
            &&& choice::concern(target, warn) matches Ok(Some(text)) && (target.risk_reason matches Some(
                reason,
            ) ==> text == "Warning: "@ + reason) && (target.risk_reason is None ==> text
                == "Warning: this target looks risky to expose"@)
        },
        target.routes.len() > 0 && !(warn && target.risky) ==> choice::settled(target, warn, answer)
            is Ok && choice::concern(target, warn) == Ok::<Option<Seq<char>>, Seq<char>>(None),
{
    reveal_strlit("Warning: ");
    reveal_strlit("this target looks risky to expose");
    reveal_strlit("Warning: this target looks risky to expose");
    assert("Warning: "@ + "this target looks risky to expose"@
        =~= "Warning: this target looks risky to expose"@);
}

} // verus!
