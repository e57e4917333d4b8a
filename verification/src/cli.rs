//! The command line: which action to take and where to log diagnostics.

use crate::text::{compare_text, TextOrder};
use vstd::prelude::*;

verus! {

/// What the program was asked to do.
#[derive(Clone, Copy, Debug, Eq, PartialEq, Structural)]
pub enum Action {
    Run,
    Help,
    Version,
}

/// One command-line argument: its text where it is valid UTF-8, and the
/// argument as the operating system gave it.
pub struct RawArgument<P> {
    pub text: Option<String>,
    pub raw: P,
}

/// The parsed command line.
#[derive(Debug, Eq, PartialEq)]
pub struct Options<P> {
    pub action: Action,
    pub log_file: Option<P>,
}

/// The outcome of parsing the arguments `args`, with the action and log
/// file found so far: the options, or the error message.
pub open spec fn parse_from<P>(args: Seq<RawArgument<P>>, action: Action, log_file: Option<P>) -> Result<
    (Action, Option<P>),
    Seq<char>,
>
    decreases args.len(),
{
    if args.len() == 0 {
        Ok((action, log_file))
    } else {
        let rest = args.drop_first();
        match args[0].text {
            None => Err("arguments must be valid UTF-8"@),
            Some(t) => if t@ == "-h"@ || t@ == "--help"@ {
                parse_from(rest, Action::Help, log_file)
            } else if t@ == "-V"@ || t@ == "--version"@ {
                parse_from(rest, Action::Version, log_file)
            } else if t@ == "--log-file"@ {
                if rest.len() == 0 {
                    Err("--log-file requires a path; run `peek-codex --help`"@)
                } else if log_file is Some {
                    Err("--log-file may only be provided once"@)
                } else {
                    parse_from(rest.drop_first(), action, Some(rest[0].raw))
                }
            } else {
                Err("unknown option `"@ + t@ + "`; run `peek-codex --help`"@)
            },
        }
    }
}

/// Whether `argument` asks for help or for the version.
pub open spec fn is_action_flag<P>(argument: RawArgument<P>) -> bool {
    argument.text matches Some(t) && (t@ == "-h"@ || t@ == "--help"@ || t@ == "-V"@ || t@
        == "--version"@)
}

/// `-V` and `--version` are the same flag: either one, followed by any
/// arguments, parses as the version action followed by those arguments.
pub proof fn lemma_version_flags<P>(
    flag: RawArgument<P>,
    rest: Seq<RawArgument<P>>,
    action: Action,
    log_file: Option<P>,
)
    requires
        flag.text matches Some(t) && (t@ == "-V"@ || t@ == "--version"@),
    ensures
        parse_from(seq![flag] + rest, action, log_file) == parse_from(
            rest,
            Action::Version,
            log_file,
        ),
{
    reveal_strlit("-V");
    reveal_strlit("--version");
    reveal_strlit("-h");
    reveal_strlit("--help");
    let t = flag.text->0;
    assert(t@ != "-h"@) by {
        if t@.len() == 2 {
            assert(t@[1] == 'V');
        }
    }
    assert(t@ != "--help"@) by {
        if t@.len() == 6 {
            assert(false);
        }
    }
    assert((seq![flag] + rest).drop_first() =~= rest);
    assert((seq![flag] + rest)[0] == flag);
}

/// `-h` and `--help` are the same flag: either one, followed by any
/// arguments, parses as the help action followed by those arguments.
pub proof fn lemma_help_flags<P>(
    flag: RawArgument<P>,
    rest: Seq<RawArgument<P>>,
    action: Action,
    log_file: Option<P>,
)
    requires
        flag.text matches Some(t) && (t@ == "-h"@ || t@ == "--help"@),
    ensures
        parse_from(seq![flag] + rest, action, log_file) == parse_from(rest, Action::Help, log_file),
{
    reveal_strlit("-h");
    reveal_strlit("--help");
    assert((seq![flag] + rest).drop_first() =~= rest);
    assert((seq![flag] + rest)[0] == flag);
}

/// Arguments without a help or version flag never change the action: the
/// last such flag on a command line decides it, and without one the
/// program runs.
pub proof fn lemma_last_flag_decides<P>(args: Seq<RawArgument<P>>, action: Action, log_file: Option<P>)
    requires
        forall|i: int| 0 <= i < args.len() ==> !is_action_flag(#[trigger] args[i]),
    ensures
        parse_from(args, action, log_file) matches Ok((found, _)) ==> found == action,
    decreases args.len(),
{
    if args.len() > 0 {
        let rest = args.drop_first();
        assert(!is_action_flag(args[0]));
        assert forall|i: int| 0 <= i < rest.len() implies !is_action_flag(#[trigger] rest[i]) by {
            assert(rest[i] == args[i + 1]);
        }
        lemma_last_flag_decides(rest, action, log_file);
        if rest.len() > 0 {
            let after = rest.drop_first();
            assert forall|i: int| 0 <= i < after.len() implies !is_action_flag(#[trigger] after[i]) by {
                assert(after[i] == args[i + 2]);
            }
            lemma_last_flag_decides(after, action, Some(rest[0].raw));
        }
    }
}

/// Whether `t` is the text `literal`.
fn is_text(t: &str, literal: &str) -> (r: bool)
    ensures
        r == (t@ == literal@),
{
    match compare_text(t, literal) {
        TextOrder::Equal => true,
        _ => false,
    }
}

/// Parses the command line (program name excluded): `-h`/`--help`,
/// `-V`/`--version`, and `--log-file <PATH>` given at most once.
pub fn parse_args<P>(arguments: Vec<RawArgument<P>>) -> (r: Result<Options<P>, String>)
    ensures
        match parse_from(arguments@, Action::Run, None) {
            Ok((action, log_file)) => r matches Ok(options) && options.action == action
                && options.log_file == log_file,
            Err(message) => r matches Err(e) && e@ == message,
        },
{
    let ghost all = arguments@;
    let mut rest = arguments;
    let mut action = Action::Run;
    let mut log_file: Option<P> = None;
    while rest.len() > 0
        invariant
            all == arguments@,
            parse_from(all, Action::Run, None) == parse_from(rest@, action, log_file),
        decreases rest@.len(),
    {
        let ghost before = rest@;
        let argument = rest.remove(0);
        assert(rest@ =~= before.drop_first());
        let text = match argument.text {
            Some(text) => text,
            None => {
                return Err(String::from_str("arguments must be valid UTF-8"));
            },
        };
        if is_text(text.as_str(), "-h") || is_text(text.as_str(), "--help") {
            action = Action::Help;
        } else if is_text(text.as_str(), "-V") || is_text(text.as_str(), "--version") {
            action = Action::Version;
        } else if is_text(text.as_str(), "--log-file") {
            if rest.len() == 0 {
                return Err(String::from_str("--log-file requires a path; run `peek-codex --help`"));
            }
            let ghost after_flag = rest@;
            let path = rest.remove(0);
            assert(rest@ =~= after_flag.drop_first());
            if log_file.is_some() {
                return Err(String::from_str("--log-file may only be provided once"));
            }
            log_file = Some(path.raw);
        } else {
            let mut message = String::from_str("unknown option `");
            message.append(text.as_str());
            message.append("`; run `peek-codex --help`");
            return Err(message);
        }
    }
    Ok(Options { action, log_file })
}

} // verus!
