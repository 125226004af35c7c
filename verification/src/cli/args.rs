//! What the command line asks for.
use crate::config::{Protection, ProtectionModel};
use crate::share::protection::{OptionsModel, ShareOptions};
use crate::text::chars;
use crate::text::chars::same;
use crate::text::search;
use crate::text::search::starts_with;
use vstd::prelude::*;

verus! {

/// A command, with the arguments behind it.
#[derive(Debug)]
pub enum Command {
    /// Serve a share. Only the tool itself starts a process with this command.
    Serve(Vec<String>),
    Run,
    Share(Vec<String>),
    Routes(Vec<String>),
    Protect(Vec<String>),
    Status,
    Help,
}

/// A command, with the arguments behind it.
pub enum CommandModel {
    Serve(Seq<Seq<char>>),
    Run,
    Share(Seq<Seq<char>>),
    Routes(Seq<Seq<char>>),
    Protect(Seq<Seq<char>>),
    Status,
    Help,
}

impl View for Command {
    type V = CommandModel;

    open spec fn view(&self) -> CommandModel {
        match self {
            Command::Serve(args) => CommandModel::Serve(chars::texts(args@)),
            Command::Run => CommandModel::Run,
            Command::Share(args) => CommandModel::Share(chars::texts(args@)),
            Command::Routes(args) => CommandModel::Routes(chars::texts(args@)),
            Command::Protect(args) => CommandModel::Protect(chars::texts(args@)),
            Command::Status => CommandModel::Status,
            Command::Help => CommandModel::Help,
        }
    }
}

/// The command of a command line; without one, the help.
pub open spec fn command_in(args: Seq<Seq<char>>) -> Result<CommandModel, Seq<char>> {
    if args.len() == 0 {
        Ok(CommandModel::Help)
    } else {
        let name = args[0];
        let rest = args.skip(1);
        if name == "__serve-share"@ {
            Ok(CommandModel::Serve(rest))
        } else if name == "run"@ {
            Ok(CommandModel::Run)
        } else if name == "share"@ {
            Ok(CommandModel::Share(rest))
        } else if name == "routes"@ {
            Ok(CommandModel::Routes(rest))
        } else if name == "protect"@ {
            Ok(CommandModel::Protect(rest))
        } else if name == "status"@ {
            Ok(CommandModel::Status)
        } else if name == "help"@ || name == "--help"@ || name == "-h"@ {
            Ok(CommandModel::Help)
        } else {
            Err("unknown command '"@ + name + "'. Run `ltg help` for usage."@)
        }
    }
}

/// Copies of the arguments behind the first.
fn behind_first(args: &[String]) -> (r: Vec<String>)
    requires
        args@.len() > 0,
    ensures
        chars::texts(r@) == chars::texts(args@).skip(1),
{
    let mut out: Vec<String> = Vec::new();
    let mut i: usize = 1;
    while i < args.len()
        invariant
            1 <= i <= args@.len(),
            out@.len() == i - 1,
            forall|j: int| 0 <= j < i - 1 ==> (#[trigger] out@[j])@ == args@[j + 1]@,
        decreases args@.len() - i,
    {
        out.push(args[i].clone());
        i += 1;
    }
    assert(chars::texts(out@) =~= chars::texts(args@).skip(1));
    out
}

/// Reads the command of a command line.
pub fn parse_command(args: &[String]) -> (r: Result<Command, String>)
    ensures
        match r {
            Ok(c) => command_in(chars::texts(args@)) == Ok::<CommandModel, Seq<char>>(c@),
            Err(e) => command_in(chars::texts(args@)) == Err::<CommandModel, Seq<char>>(e@),
        },
{
    if args.len() == 0 {
        return Ok(Command::Help);
    }
    let ghost all = chars::texts(args@);
    assert(all[0] == args@[0]@);
    let name = args[0].as_str();
    if same(name, "__serve-share") {
        Ok(Command::Serve(behind_first(args)))
    } else if same(name, "run") {
        Ok(Command::Run)
    } else if same(name, "share") {
        Ok(Command::Share(behind_first(args)))
    } else if same(name, "routes") {
        Ok(Command::Routes(behind_first(args)))
    } else if same(name, "protect") {
        Ok(Command::Protect(behind_first(args)))
    } else if same(name, "status") {
        Ok(Command::Status)
    } else if same(name, "help") || same(name, "--help") || same(name, "-h") {
        Ok(Command::Help)
    } else {
        Err(
            "unknown command '".to_owned().concat(name).concat(
                "'. Run `ltg help` for usage.",
            ),
        )
    }
}

/// What is to be done about the route profiles.
#[derive(Debug, Clone, Copy, PartialEq, Eq, Structural)]
pub enum RoutesAction {
    Init,
    Show,
}

/// What is to be done about the route profiles; without a word on it, they are shown.
pub open spec fn routes_action_in(args: Seq<Seq<char>>) -> Result<RoutesAction, Seq<char>> {
    if args.len() == 0 || args[0] == "show"@ {
        Ok(RoutesAction::Show)
    } else if args[0] == "init"@ {
        Ok(RoutesAction::Init)
    } else {
        Err("unsupported routes action '"@ + args[0] + "'. Use `show` or `init`."@)
    }
}

/// Reads what is to be done about the route profiles.
pub fn parse_routes_action(args: &[String]) -> (r: Result<RoutesAction, String>)
    ensures
        match r {
            Ok(a) => routes_action_in(chars::texts(args@)) == Ok::<RoutesAction, Seq<char>>(a),
            Err(e) => routes_action_in(chars::texts(args@)) == Err::<RoutesAction, Seq<char>>(e@),
        },
{
    if args.len() == 0 {
        return Ok(RoutesAction::Show);
    }
    let ghost all = chars::texts(args@);
    assert(all[0] == args@[0]@);
    let action = args[0].as_str();
    if same(action, "show") {
        Ok(RoutesAction::Show)
    } else if same(action, "init") {
        Ok(RoutesAction::Init)
    } else {
        Err(
            "unsupported routes action '".to_owned().concat(action).concat(
                "'. Use `show` or `init`.",
            ),
        )
    }
}

/// The argument at a position, which a flag needs as its value.
pub fn required_arg<'a>(args: &'a [String], index: usize, flag: &str) -> (r: Result<&'a str, String>)
    ensures
        match r {
            Ok(v) => index < args@.len() && v@ == args@[index as int]@,
            Err(e) => index >= args@.len() && e@ == "missing value for "@ + flag@,
        },
{
    if index < args.len() {
        Ok(args[index].as_str())
    } else {
        Err("missing value for ".to_owned().concat(flag))
    }
}

/// The options of a share that the arguments ask for, on top of those that are known. A flag with a
/// value takes the next argument, whatever that is; of a flag that comes twice the later value
/// counts.
pub open spec fn options_in(args: Seq<Seq<char>>, known: OptionsModel) -> Result<
    OptionsModel,
    Seq<char>,
>
    decreases args.len(),
{
    if args.len() == 0 {
        Ok(known)
    } else {
        let a = args[0];
        if a == "--expires-in"@ || a == "--access-mode"@ || a == "--share-token"@ {
            if args.len() == 1 {
                Err("missing value for "@ + a)
            } else {
                options_in(
                    args.skip(2),
                    if a == "--expires-in"@ {
                        OptionsModel { expires_in: Some(args[1]), ..known }
                    } else if a == "--access-mode"@ {
                        OptionsModel { access_mode: Some(args[1]), ..known }
                    } else {
                        OptionsModel { share_token: Some(args[1]), ..known }
                    },
                )
            }
        } else if a == "--public"@ {
            options_in(args.skip(1), OptionsModel { public: true, ..known })
        } else if a == "--detach"@ {
            options_in(args.skip(1), OptionsModel { detach: true, ..known })
        } else if search::begins(a, "--"@) {
            Err("unsupported share flag '"@ + a + "'"@)
        } else if known.selector is Some {
            Err("unexpected extra argument '"@ + a + "'"@)
        } else {
            options_in(args.skip(1), OptionsModel { selector: Some(a), ..known })
        }
    }
}

/// No option at all.
pub open spec fn no_options() -> OptionsModel {
    OptionsModel {
        selector: None,
        expires_in: None,
        access_mode: None,
        share_token: None,
        public: false,
        detach: false,
    }
}

/// Reads the options of a share.
pub fn parse_share_options(args: &[String]) -> (r: Result<ShareOptions, String>)
    ensures
        match r {
            Ok(o) => options_in(chars::texts(args@), no_options()) == Ok::<
                OptionsModel,
                Seq<char>,
            >(o@),
            Err(e) => options_in(chars::texts(args@), no_options()) == Err::<
                OptionsModel,
                Seq<char>,
            >(e@),
        },
{
    let ghost all = chars::texts(args@);
    let n = args.len();
    let mut options = ShareOptions {
        selector: None,
        expires_in: None,
        access_mode: None,
        share_token: None,
        public: false,
        detach: false,
    };
    let mut index: usize = 0;
    assert(all.skip(0) =~= all);
    while index < n
        invariant
            n == args@.len(),
            index <= n,
            all == chars::texts(args@),
            options_in(all, no_options()) == options_in(all.skip(index as int), options@),
        decreases n - index,
    {
        let ghost rest = all.skip(index as int);
        assert(rest[0] == args@[index as int]@);
        assert(rest.skip(1) =~= all.skip(index + 1));
        assert(index + 1 < n ==> rest[1] == args@[index + 1]@);
        assert(index + 1 < n ==> rest.skip(2) =~= all.skip(index + 2));
        let value = args[index].as_str();
        if same(value, "--expires-in") {
            match required_arg(args, index + 1, "--expires-in") {
                Ok(v) => {
                    options.expires_in = Some(v.to_owned());
                },
                Err(e) => {
                    return Err(e);
                },
            }
            index += 2;
        } else if same(value, "--access-mode") {
            match required_arg(args, index + 1, "--access-mode") {
                Ok(v) => {
                    options.access_mode = Some(v.to_owned());
                },
                Err(e) => {
                    return Err(e);
                },
            }
            index += 2;
        } else if same(value, "--share-token") {
            match required_arg(args, index + 1, "--share-token") {
                Ok(v) => {
                    options.share_token = Some(v.to_owned());
                },
                Err(e) => {
                    return Err(e);
                },
            }
            index += 2;
        } else if same(value, "--public") {
            options.public = true;
            index += 1;
        } else if same(value, "--detach") {
            options.detach = true;
            index += 1;
        } else if starts_with(value, "--") {
            return Err("unsupported share flag '".to_owned().concat(value).concat("'"));
        } else if options.selector.is_some() {
            return Err("unexpected extra argument '".to_owned().concat(value).concat("'"));
        } else {
            options.selector = Some(value.to_owned());
            index += 1;
        }
    }
    Ok(options)
}

/// The protection that the arguments ask for, on top of the one that is known. A flag with a value
/// takes the next argument, whatever that is; of a flag that comes twice the later value counts.
pub open spec fn protection_in(args: Seq<Seq<char>>, known: ProtectionModel) -> Result<
    ProtectionModel,
    Seq<char>,
>
    decreases args.len(),
{
    if args.len() == 0 {
        Ok(known)
    } else {
        let a = args[0];
        if a == "--expires-in"@ || a == "--access-mode"@ || a == "--share-token"@ {
            if args.len() == 1 {
                Err("missing value for "@ + a)
            } else {
                protection_in(
                    args.skip(2),
                    if a == "--expires-in"@ {
                        ProtectionModel { expires_in: args[1], ..known }
                    } else if a == "--access-mode"@ {
                        ProtectionModel { access_mode: args[1], ..known }
                    } else {
                        ProtectionModel { share_token: args[1], ..known }
                    },
                )
            }
        } else if a == "--warn-sensitive"@ {
            protection_in(args.skip(1), ProtectionModel { warn_on_sensitive_ports: true, ..known })
        } else if a == "--no-warn-sensitive"@ {
            protection_in(args.skip(1), ProtectionModel { warn_on_sensitive_ports: false, ..known })
        } else {
            Err("unsupported protect flag '"@ + a + "'"@)
        }
    }
}

/// Reads what is to be changed about a protection, and changes it.
pub fn apply_protect_flags(protection: &Protection, args: &[String]) -> (r: Result<
    Protection,
    String,
>)
    ensures
        match r {
            Ok(p) => protection_in(chars::texts(args@), protection@) == Ok::<
                ProtectionModel,
                Seq<char>,
            >(p@),
            Err(e) => protection_in(chars::texts(args@), protection@) == Err::<
                ProtectionModel,
                Seq<char>,
            >(e@),
        },
{
    let ghost all = chars::texts(args@);
    let n = args.len();
    let mut changed = protection.clone();
    let mut index: usize = 0;
    assert(all.skip(0) =~= all);
    while index < n
        invariant
            n == args@.len(),
            index <= n,
            all == chars::texts(args@),
            protection_in(all, protection@) == protection_in(all.skip(index as int), changed@),
        decreases n - index,
    {
        let ghost rest = all.skip(index as int);
        assert(rest[0] == args@[index as int]@);
        assert(rest.skip(1) =~= all.skip(index + 1));
        assert(index + 1 < n ==> rest[1] == args@[index + 1]@);
        assert(index + 1 < n ==> rest.skip(2) =~= all.skip(index + 2));
        let flag = args[index].as_str();
        if same(flag, "--expires-in") {
            match required_arg(args, index + 1, "--expires-in") {
                Ok(v) => {
                    changed.expires_in = v.to_owned();
                },
                Err(e) => {
                    return Err(e);
                },
            }
            index += 2;
        } else if same(flag, "--access-mode") {
            match required_arg(args, index + 1, "--access-mode") {
                Ok(v) => {
                    changed.access_mode = v.to_owned();
                },
                Err(e) => {
                    return Err(e);
                },
            }
            index += 2;
        } else if same(flag, "--share-token") {
            match required_arg(args, index + 1, "--share-token") {
                Ok(v) => {
                    changed.share_token = v.to_owned();
                },
                Err(e) => {
                    return Err(e);
                },
            }
            index += 2;
        } else if same(flag, "--warn-sensitive") {
            changed.warn_on_sensitive_ports = true;
            index += 1;
        } else if same(flag, "--no-warn-sensitive") {
            changed.warn_on_sensitive_ports = false;
            index += 1;
        } else {
            return Err("unsupported protect flag '".to_owned().concat(flag).concat("'"));
        }
    }
    Ok(changed)
}

/// Protecting changes only what a flag names: where no argument is a setting's flag, the setting
/// stays as it was.
pub proof fn protecting_keeps_the_rest(args: Seq<Seq<char>>, known: ProtectionModel)
    requires
        protection_in(args, known) is Ok,
    ensures
        ({
            let changed = protection_in(args, known)->Ok_0;
            &&& !args.contains("--expires-in"@) ==> changed.expires_in == known.expires_in
            &&& !args.contains("--access-mode"@) ==> changed.access_mode == known.access_mode
            &&& !args.contains("--share-token"@) ==> changed.share_token == known.share_token
            &&& !args.contains("--warn-sensitive"@) && !args.contains("--no-warn-sensitive"@)
                ==> changed.warn_on_sensitive_ports == known.warn_on_sensitive_ports
        }),
    decreases args.len(),
{
    if args.len() > 0 {
        let a = args[0];
        assert(args.contains(a));
        if a == "--expires-in"@ || a == "--access-mode"@ || a == "--share-token"@ {
            let next = if a == "--expires-in"@ {
                ProtectionModel { expires_in: args[1], ..known }
            } else if a == "--access-mode"@ {
                ProtectionModel { access_mode: args[1], ..known }
            } else {
                ProtectionModel { share_token: args[1], ..known }
            };
            lemma_flags_differ();
            lemma_skip_contains(args, 2);
            protecting_keeps_the_rest(args.skip(2), next);
        } else {
            lemma_flags_differ();
            lemma_skip_contains(args, 1);
            protecting_keeps_the_rest(
                args.skip(1),
                ProtectionModel { warn_on_sensitive_ports: a == "--warn-sensitive"@, ..known },
            );
        }
    }
}

/// What stands in a tail of a list stands in the list.
proof fn lemma_skip_contains(args: Seq<Seq<char>>, n: int)
    requires
        0 <= n <= args.len(),
    ensures
        forall|a: Seq<char>| #[trigger] args.skip(n).contains(a) ==> args.contains(a),
{
    assert forall|a: Seq<char>| #[trigger] args.skip(n).contains(a) implies args.contains(a) by {
        let i = choose|i: int| 0 <= i < args.skip(n).len() && args.skip(n)[i] == a;
        assert(args[i + n] == a);
    }
}

/// The flags with a value are all different.
proof fn lemma_flags_differ()
    ensures
        "--expires-in"@ != "--access-mode"@,
        "--expires-in"@ != "--share-token"@,
        "--access-mode"@ != "--share-token"@,
{
    reveal_strlit("--expires-in");
    reveal_strlit("--access-mode");
    reveal_strlit("--share-token");
    assert("--access-mode"@[2] == 'a');
    assert("--share-token"@[2] == 's');
    assert("--expires-in"@.len() != "--access-mode"@.len());
}

/// Options are only those that the arguments name, and a share is public or detached only if it is
/// asked to be.
pub proof fn options_are_asked_for(args: Seq<Seq<char>>, known: OptionsModel)
    requires
        options_in(args, known) is Ok,
    ensures
        ({
            let options = options_in(args, known)->Ok_0;
            &&& !args.contains("--expires-in"@) ==> options.expires_in == known.expires_in
            &&& !args.contains("--access-mode"@) ==> options.access_mode == known.access_mode
            &&& !args.contains("--share-token"@) ==> options.share_token == known.share_token
            &&& !args.contains("--public"@) ==> options.public == known.public
            &&& !args.contains("--detach"@) ==> options.detach == known.detach
            &&& known.selector is Some ==> options.selector == known.selector
        }),
    decreases args.len(),
{
    if args.len() > 0 {
        let a = args[0];
        assert(args.contains(a));
        lemma_flags_differ();
        if a == "--expires-in"@ || a == "--access-mode"@ || a == "--share-token"@ {
            let next = if a == "--expires-in"@ {
                OptionsModel { expires_in: Some(args[1]), ..known }
            } else if a == "--access-mode"@ {
                OptionsModel { access_mode: Some(args[1]), ..known }
            } else {
                OptionsModel { share_token: Some(args[1]), ..known }
            };
            lemma_skip_contains(args, 2);
            options_are_asked_for(args.skip(2), next);
        } else {
            lemma_skip_contains(args, 1);
            let next = if a == "--public"@ {
                OptionsModel { public: true, ..known }
            } else if a == "--detach"@ {
                OptionsModel { detach: true, ..known }
            } else {
                OptionsModel { selector: Some(a), ..known }
            };
            options_are_asked_for(args.skip(1), next);
        }
    }
}

} // verus!
