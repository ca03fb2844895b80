//! The command line: what the arguments ask for, what is done about it, and what is printed.

use crate::client::AttachResult;
use crate::protocol::{ClientFlags, Welcome};
use crate::socket::{is_session_stale, validate_session_name, LockState};
use crate::text::{parse_unsigned, push_decimal, str_eq, strings_from, together, trim};
use vstd::prelude::*;

verus! {

/// What the user asks for.
#[derive(Debug, Clone, Copy, PartialEq, Eq, Structural)]
pub enum Action {
    List,
    /// Create a session and attach to it.
    Create,
    /// Create a session and leave it alone.
    CreateOnly,
    /// Attach to a session that is there.
    Attach,
    /// Attach to a session, creating it where it is not there.
    AttachOrCreate,
    /// End a session, or all of them.
    Kill,
}

/// What the command line says.
#[derive(Debug)]
pub struct CliOpts {
    pub action: Action,
    pub session_name: String,
    pub command: Vec<String>,
    pub detach_key: u8,
    pub readonly: bool,
    pub low_priority: bool,
    pub quiet: bool,
    pub force: bool,
    /// Bytes of output to keep.
    pub ring_size: usize,
    /// Whether the command line says how much output to keep.
    pub ring_given: bool,
}

/// What [`CliOpts`] are.
pub struct CliOptsView {
    pub action: Action,
    pub session_name: Seq<char>,
    pub command: Seq<Seq<char>>,
    pub detach_key: u8,
    pub readonly: bool,
    pub low_priority: bool,
    pub quiet: bool,
    pub force: bool,
    pub ring_size: usize,
    pub ring_given: bool,
}

impl View for CliOpts {
    type V = CliOptsView;

    open spec fn view(&self) -> CliOptsView {
        CliOptsView {
            action: self.action,
            session_name: self.session_name@,
            command: crate::text::strings(self.command@),
            detach_key: self.detach_key,
            readonly: self.readonly,
            low_priority: self.low_priority,
            quiet: self.quiet,
            force: self.force,
            ring_size: self.ring_size,
            ring_given: self.ring_given,
        }
    }
}

/// Bytes of output that a session keeps by default: 1 MiB.
pub const DEFAULT_RING_SIZE: usize = 1048576;

/// The detach key by default: Ctrl-backslash.
pub const DEFAULT_DETACH_KEY: u8 = 0x1c;

// ---------------------------------------------------------------------------
// Values of options
// ---------------------------------------------------------------------------

/// The key that a string of the command line names: `^` and a character for a control key, or a
/// character of one byte for itself.
pub open spec fn detach_key_of(s: Seq<char>) -> Result<u8, Seq<char>> {
    let b = vstd::utf8::encode_utf8(s);
    if b.len() == 2 && b[0] == 0x5e {
        Ok(b[1] & 0x1f)
    } else if b.len() == 1 {
        Ok(b[0])
    } else {
        Err("invalid detach key: "@ + s)
    }
}

/// Read a detach key.
pub fn parse_detach_key(s: &str) -> (r: Result<u8, String>)
    ensures
        match detach_key_of(s@) {
            Ok(k) => r matches Ok(key) && key == k,
            Err(e) => r matches Err(msg) && msg@ == e,
        },
{
    let b = s.as_bytes();
    if b.len() == 2 && b[0] == 0x5e {
        Ok(b[1] & 0x1f)
    } else if b.len() == 1 {
        Ok(b[0])
    } else {
        Err(together("invalid detach key: ", s))
    }
}

/// The number part of a size and what its suffix multiplies it by: `M` is a mebibyte and `K` a
/// kibibyte, in either case.
pub open spec fn size_parts(s: Seq<char>) -> (Seq<char>, nat) {
    if s.len() > 0 && (s.last() == 'M' || s.last() == 'm') {
        (s.drop_last(), 1048576)
    } else if s.len() > 0 && (s.last() == 'K' || s.last() == 'k') {
        (s.drop_last(), 1024)
    } else {
        (s, 1)
    }
}

/// The number of bytes that a string of the command line names: a number with an optional
/// suffix, white space around it ignored. A size that no machine word holds is none.
pub open spec fn size_of_text(text: Seq<char>) -> Result<usize, Seq<char>> {
    let s = crate::text::trimmed(text);
    let (number, unit) = size_parts(s);
    match crate::text::unsigned_value(number, usize::MAX as nat) {
        Ok(n) => if n * unit <= usize::MAX {
            Ok((n * unit) as usize)
        } else {
            Err("invalid size: "@ + s)
        },
        Err(_) => Err("invalid size: "@ + s),
    }
}

/// Read a size.
pub fn parse_size(s: &str) -> (r: Result<usize, String>)
    ensures
        match size_of_text(s@) {
            Ok(n) => r matches Ok(m) && m == n,
            Err(e) => r matches Err(msg) && msg@ == e,
        },
{
    let s = trim(s);
    let n: usize = s.unicode_len();
    let mut digits: usize = n;
    let mut unit: usize = 1;
    if n > 0 {
        let last: char = s.get_char(n - 1);
        if last == 'M' || last == 'm' {
            digits = n - 1;
            unit = 1048576;
        } else if last == 'K' || last == 'k' {
            digits = n - 1;
            unit = 1024;
        }
    }
    let number = s.substring_char(0, digits);
    assert(s@.subrange(0, digits as int) =~= size_parts(s@).0);
    match parse_unsigned(number, usize::MAX as u64) {
        Ok(v) => match (v as usize).checked_mul(unit) {
            Some(total) => Ok(total),
            None => Err(together("invalid size: ", s)),
        },
        Err(_) => Err(together("invalid size: ", s)),
    }
}

/// How much output a session keeps where the command line does not say: what the environment
/// says, else the default.
pub open spec fn scrollback_of(scrollback: Option<Seq<char>>) -> Result<usize, Seq<char>> {
    match scrollback {
        None => Ok(DEFAULT_RING_SIZE),
        Some(text) => size_of_text(text),
    }
}

/// How much output a session keeps where the command line does not say.
pub fn default_ring_size(scrollback: Option<String>) -> (r: Result<usize, String>)
    ensures
        match scrollback_of(crate::server::opt_view(scrollback)) {
            Ok(n) => r matches Ok(m) && m == n,
            Err(e) => r matches Err(msg) && msg@ == e,
        },
{
    match scrollback {
        None => Ok(DEFAULT_RING_SIZE),
        Some(text) => parse_size(text.as_str()),
    }
}

// ---------------------------------------------------------------------------
// Arguments
// ---------------------------------------------------------------------------

/// What has been read of the arguments.
pub struct CliScan {
    pub action: Option<Action>,
    pub name: Option<Seq<char>>,
    pub command: Seq<Seq<char>>,
    pub detach_key: u8,
    pub readonly: bool,
    pub low_priority: bool,
    pub quiet: bool,
    pub force: bool,
    /// The size that an option names, once one has.
    pub ring_size: Option<usize>,
}

/// The action that a word in front of everything else stands for.
pub open spec fn subcommand_of(word: Seq<char>) -> Option<Action> {
    if word == "create"@ {
        Some(Action::Create)
    } else if word == "new"@ {
        Some(Action::CreateOnly)
    } else if word == "attach"@ {
        Some(Action::Attach)
    } else if word == "auto"@ {
        Some(Action::AttachOrCreate)
    } else if word == "list"@ {
        Some(Action::List)
    } else if word == "kill"@ {
        Some(Action::Kill)
    } else {
        None
    }
}

/// The action that an option stands for.
pub open spec fn action_flag(word: Seq<char>) -> Option<Action> {
    if word == "-c"@ {
        Some(Action::Create)
    } else if word == "-n"@ {
        Some(Action::CreateOnly)
    } else if word == "-a"@ {
        Some(Action::Attach)
    } else if word == "-A"@ {
        Some(Action::AttachOrCreate)
    } else {
        None
    }
}

/// Read options and the session's name; what follows the name and is no option starts the
/// command, which is taken as it stands.
pub open spec fn scan_cli(args: Seq<Seq<char>>, acc: CliScan) -> Result<CliScan, Seq<char>>
    decreases args.len(),
{
    if args.len() == 0 {
        Ok(acc)
    } else if action_flag(args[0]) is Some {
        scan_cli(args.drop_first(), CliScan { action: action_flag(args[0]), ..acc })
    } else if args[0] == "-r"@ {
        scan_cli(args.drop_first(), CliScan { readonly: true, ..acc })
    } else if args[0] == "-l"@ {
        scan_cli(args.drop_first(), CliScan { low_priority: true, ..acc })
    } else if args[0] == "-q"@ {
        scan_cli(args.drop_first(), CliScan { quiet: true, ..acc })
    } else if args[0] == "-f"@ {
        scan_cli(args.drop_first(), CliScan { force: true, ..acc })
    } else if args[0] == "-e"@ {
        if args.len() < 2 {
            Err("-e requires an argument"@)
        } else {
            match detach_key_of(args[1]) {
                Err(e) => Err(e),
                Ok(key) => scan_cli(args.skip(2), CliScan { detach_key: key, ..acc }),
            }
        }
    } else if args[0] == "-s"@ {
        if args.len() < 2 {
            Err("-s requires an argument"@)
        } else {
            match size_of_text(args[1]) {
                Err(e) => Err(e),
                Ok(n) => scan_cli(args.skip(2), CliScan { ring_size: Some(n), ..acc }),
            }
        }
    } else if acc.name is None {
        scan_cli(args.drop_first(), CliScan { name: Some(args[0]), ..acc })
    } else {
        Ok(CliScan { command: args, ..acc })
    }
}

/// What holds before the first option.
pub open spec fn cli_defaults(action: Option<Action>) -> CliScan {
    CliScan {
        action,
        name: None,
        command: Seq::empty(),
        detach_key: DEFAULT_DETACH_KEY,
        readonly: false,
        low_priority: false,
        quiet: false,
        force: false,
        ring_size: None,
    }
}

/// How the program is called.
pub open spec fn usage_text() -> Seq<char> {
    "usage: mneme [-a|-A|-c|-n] [-r] [-q] [-f] [-e key] [-s size] name [command...]"@
}

/// The options with this action, name and command.
pub open spec fn with_name(scan: CliScan, action: Action, name: Seq<char>, command: Seq<
    Seq<char>,
>) -> CliOptsView {
    CliOptsView {
        action,
        session_name: name,
        command,
        detach_key: scan.detach_key,
        readonly: scan.readonly,
        low_priority: scan.low_priority,
        quiet: scan.quiet,
        force: scan.force,
        ring_size: match scan.ring_size {
            Some(n) => n,
            None => DEFAULT_RING_SIZE,
        },
        ring_given: scan.ring_size is Some,
    }
}

/// What the arguments mean, once they have been read: nothing at all lists the sessions; listing
/// takes no name; everything else takes an action and a valid name.
pub open spec fn meaning(scan: CliScan) -> Result<CliOptsView, Seq<char>> {
    match (scan.action, scan.name) {
        (None, None) => Ok(with_name(scan, Action::List, Seq::empty(), Seq::empty())),
        (None, Some(name)) => Err("unrecognized subcommand '"@ + name + "'; "@ + usage_text()),
        (Some(Action::List), None) => Ok(
            with_name(scan, Action::List, Seq::empty(), Seq::empty()),
        ),
        (Some(Action::List), Some(name)) => Err("unexpected argument: "@ + name),
        (Some(_), None) => Err("session name required"@),
        (Some(action), Some(name)) => match crate::socket::name_problem(name) {
            Some(e) => Err(e.text()),
            None => Ok(with_name(scan, action, name, scan.command)),
        },
    }
}

/// What the arguments ask for. The first argument may be a word for the action; options stand
/// anywhere before the command.
pub open spec fn cli_opts_of(args: Seq<Seq<char>>) -> Result<CliOptsView, Seq<char>> {
    let word = if args.len() > 0 {
        subcommand_of(args[0])
    } else {
        None
    };
    let rest = if word is Some {
        args.drop_first()
    } else {
        args
    };
    match scan_cli(rest, cli_defaults(word)) {
        Err(e) => Err(e),
        Ok(scan) => meaning(scan),
    }
}

fn subcommand(word: &str) -> (r: Option<Action>)
    ensures
        r == subcommand_of(word@),
{
    if str_eq(word, "create") {
        Some(Action::Create)
    } else if str_eq(word, "new") {
        Some(Action::CreateOnly)
    } else if str_eq(word, "attach") {
        Some(Action::Attach)
    } else if str_eq(word, "auto") {
        Some(Action::AttachOrCreate)
    } else if str_eq(word, "list") {
        Some(Action::List)
    } else if str_eq(word, "kill") {
        Some(Action::Kill)
    } else {
        None
    }
}

fn flag_action(word: &str) -> (r: Option<Action>)
    ensures
        r == action_flag(word@),
{
    if str_eq(word, "-c") {
        Some(Action::Create)
    } else if str_eq(word, "-n") {
        Some(Action::CreateOnly)
    } else if str_eq(word, "-a") {
        Some(Action::Attach)
    } else if str_eq(word, "-A") {
        Some(Action::AttachOrCreate)
    } else {
        None
    }
}

/// Read the arguments.
pub fn parse_args(args: &[String]) -> (r: Result<CliOpts, String>)
    ensures
        match cli_opts_of(crate::text::strings(args@)) {
            Ok(o) => r matches Ok(opts) && opts@ == o,
            Err(e) => r matches Err(msg) && msg@ == e,
        },
{
    let ghost all = crate::text::strings(args@);
    let mut action: Option<Action> = None;
    let mut i: usize = 0;
    if args.len() > 0 {
        action = subcommand(args[0].as_str());
        if action.is_some() {
            i = 1;
        }
    }
    let ghost word = action;
    let ghost rest = if word is Some {
        all.drop_first()
    } else {
        all
    };
    let mut name: Option<String> = None;
    let mut command: Vec<String> = Vec::new();
    let mut detach_key: u8 = DEFAULT_DETACH_KEY;
    let mut readonly: bool = false;
    let mut low_priority: bool = false;
    let mut quiet: bool = false;
    let mut force: bool = false;
    let mut ring_size: Option<usize> = None;
    let mut done: bool = false;
    assert(all.skip(i as int) =~= rest);
    assert(crate::text::strings(command@) =~= Seq::<Seq<char>>::empty());
    while i < args.len() && !done
        invariant
            i <= args@.len(),
            all == crate::text::strings(args@),
            word == (if all.len() > 0 {
                subcommand_of(all[0])
            } else {
                None
            }),
            rest == (if word is Some {
                all.drop_first()
            } else {
                all
            }),
            ({
                let acc = CliScan {
                    action,
                    name: crate::server::opt_view(name),
                    command: crate::text::strings(command@),
                    detach_key,
                    readonly,
                    low_priority,
                    quiet,
                    force,
                    ring_size,
                };
                if done {
                    scan_cli(rest, cli_defaults(word)) == Ok::<_, Seq<char>>(acc)
                } else {
                    scan_cli(rest, cli_defaults(word)) == scan_cli(
                        all.skip(i as int),
                        acc,
                    )
                }
            }),
        decreases
                args@.len() - i + (if done {
                    0int
                } else {
                    1
                }),
    {
        let arg = args[i].as_str();
        proof {
            assert(all.skip(i as int)[0] == arg@);
            if i + 1 < all.len() {
                assert(all.skip(i as int)[1] == all[i + 1]);
                assert(all.skip(i as int).skip(2) =~= all.skip(i + 2));
            }
            assert(all.skip(i as int).drop_first() =~= all.skip(i + 1));
        }
        let flag = flag_action(arg);
        if flag.is_some() {
            action = flag;
            i = i + 1;
        } else if str_eq(arg, "-r") {
            readonly = true;
            i = i + 1;
        } else if str_eq(arg, "-l") {
            low_priority = true;
            i = i + 1;
        } else if str_eq(arg, "-q") {
            quiet = true;
            i = i + 1;
        } else if str_eq(arg, "-f") {
            force = true;
            i = i + 1;
        } else if str_eq(arg, "-e") {
            if args.len() - i < 2 {
                return Err("-e requires an argument".to_owned());
            }
            match parse_detach_key(args[i + 1].as_str()) {
                Err(e) => {
                    return Err(e);
                },
                Ok(key) => {
                    detach_key = key;
                },
            }
            i = i + 2;
        } else if str_eq(arg, "-s") {
            if args.len() - i < 2 {
                return Err("-s requires an argument".to_owned());
            }
            match parse_size(args[i + 1].as_str()) {
                Err(e) => {
                    return Err(e);
                },
                Ok(n) => {
                    ring_size = Some(n);
                },
            }
            i = i + 2;
        } else if name.is_none() {
            name = Some(arg.to_owned());
            i = i + 1;
        } else {
            command = strings_from(args, i);
            done = true;
        }
    }
    assert(i == all.len() ==> all.skip(i as int) =~= Seq::<Seq<char>>::empty());
    let ring_given: bool = ring_size.is_some();
    let ring_size: usize = match ring_size {
        Some(n) => n,
        None => DEFAULT_RING_SIZE,
    };
    let action = match action {
        None => match name {
            None => Action::List,
            Some(name) => {
                let mut msg: String = together("unrecognized subcommand '", name.as_str());
                msg.append("'; ");
                msg.append(
                    "usage: mneme [-a|-A|-c|-n] [-r] [-q] [-f] [-e key] [-s size] name [command...]",
                );
                return Err(msg);
            },
        },
        Some(action) => action,
    };
    if action == Action::List {
        match name {
            None => {
                let no_command: Vec<String> = Vec::new();
                assert(crate::text::strings(no_command@) =~= Seq::<Seq<char>>::empty());
                return Ok(
                    CliOpts {
                        action,
                        session_name: String::new(),
                        command: no_command,
                        detach_key,
                        readonly,
                        low_priority,
                        quiet,
                        force,
                        ring_size,
                        ring_given,
                    },
                );
            },
            Some(name) => {
                return Err(together("unexpected argument: ", name.as_str()));
            },
        }
    }
    match name {
        None => Err("session name required".to_owned()),
        Some(session_name) => match validate_session_name(session_name.as_str()) {
            Err(e) => Err(e.message().to_owned()),
            Ok(()) => Ok(
                CliOpts {
                    action,
                    session_name,
                    command,
                    detach_key,
                    readonly,
                    low_priority,
                    quiet,
                    force,
                    ring_size,
                    ring_given,
                },
            ),
        },
    }
}

/// A word in front means the same as the option for it.
pub proof fn law_word_means_option(rest: Seq<Seq<char>>)
    ensures
        cli_opts_of(seq!["create"@] + rest) == cli_opts_of(seq!["-c"@] + rest),
        cli_opts_of(seq!["new"@] + rest) == cli_opts_of(seq!["-n"@] + rest),
        cli_opts_of(seq!["attach"@] + rest) == cli_opts_of(seq!["-a"@] + rest),
        cli_opts_of(seq!["auto"@] + rest) == cli_opts_of(seq!["-A"@] + rest),
{
    lemma_words_differ();
    lemma_word_means_option("create"@, "-c"@, rest);
    lemma_word_means_option("new"@, "-n"@, rest);
    lemma_word_means_option("attach"@, "-a"@, rest);
    lemma_word_means_option("auto"@, "-A"@, rest);
}

/// The words and the options are all different.
proof fn lemma_words_differ()
    ensures
        subcommand_of("create"@) == Some(Action::Create),
        subcommand_of("new"@) == Some(Action::CreateOnly),
        subcommand_of("attach"@) == Some(Action::Attach),
        subcommand_of("auto"@) == Some(Action::AttachOrCreate),
        subcommand_of("list"@) == Some(Action::List),
        subcommand_of("kill"@) == Some(Action::Kill),
        subcommand_of("-c"@) is None,
        subcommand_of("-n"@) is None,
        subcommand_of("-a"@) is None,
        subcommand_of("-A"@) is None,
        action_flag("-c"@) == Some(Action::Create),
        action_flag("-n"@) == Some(Action::CreateOnly),
        action_flag("-a"@) == Some(Action::Attach),
        action_flag("-A"@) == Some(Action::AttachOrCreate),
{
    reveal_strlit("create");
    reveal_strlit("new");
    reveal_strlit("attach");
    reveal_strlit("auto");
    reveal_strlit("list");
    reveal_strlit("kill");
    reveal_strlit("-c");
    reveal_strlit("-n");
    reveal_strlit("-a");
    reveal_strlit("-A");
    assert("create"@.len() == 6 && "new"@.len() == 3 && "attach"@.len() == 6 && "auto"@.len() == 4
        && "list"@.len() == 4 && "kill"@.len() == 4);
    assert("-c"@.len() == 2 && "-n"@.len() == 2 && "-a"@.len() == 2 && "-A"@.len() == 2);
    assert("create"@[0] == 'c' && "attach"@[0] == 'a');
    assert("auto"@[0] == 'a' && "list"@[0] == 'l' && "kill"@[0] == 'k');
    assert("-c"@[1] == 'c' && "-n"@[1] == 'n' && "-a"@[1] == 'a' && "-A"@[1] == 'A');
}

proof fn lemma_word_means_option(
    word: Seq<char>,
    flag: Seq<char>,
    rest: Seq<Seq<char>>,
)
    requires
        subcommand_of(word) is Some,
        subcommand_of(flag) is None,
        action_flag(flag) == subcommand_of(word),
    ensures
        cli_opts_of(seq![word] + rest) == cli_opts_of(seq![flag] + rest),
{
    let a = seq![word] + rest;
    let b = seq![flag] + rest;
    assert(a[0] == word && b[0] == flag);
    assert(a.drop_first() =~= rest);
    assert(b.drop_first() =~= rest);
    assert(scan_cli(b, cli_defaults(None)) == scan_cli(
        rest,
        CliScan { action: action_flag(flag), ..cli_defaults(None) },
    ));
}

/// Whether a word is an option.
pub open spec fn is_option(word: Seq<char>) -> bool {
    ||| action_flag(word) is Some
    ||| word == "-r"@
    ||| word == "-l"@
    ||| word == "-q"@
    ||| word == "-f"@
    ||| word == "-e"@
    ||| word == "-s"@
}

/// A command goes to the session word for word, also where words in it look like options of this
/// program: reading stops at its first word.
pub proof fn law_command_is_verbatim(
    flag: Seq<char>,
    name: Seq<char>,
    command: Seq<Seq<char>>,
)
    requires
        subcommand_of(flag) is None,
        action_flag(flag) is Some,
        crate::socket::name_problem(name) is None,
        command.len() > 0,
        !is_option(command[0]),
    ensures
        cli_opts_of(seq![flag, name] + command) matches Ok(opts) && opts.command
            == command && opts.session_name == name && action_flag(flag) == Some(opts.action),
{
    let args = seq![flag, name] + command;
    crate::socket::law_session_name_is_tame(name);
    reveal_strlit("-c");
    reveal_strlit("-n");
    reveal_strlit("-a");
    reveal_strlit("-A");
    reveal_strlit("-r");
    reveal_strlit("-l");
    reveal_strlit("-q");
    reveal_strlit("-f");
    reveal_strlit("-e");
    reveal_strlit("-s");
    assert(!is_option(name)) by {
        assert("-c"@[0] == '-' && "-n"@[0] == '-' && "-a"@[0] == '-' && "-A"@[0] == '-' && "-r"@[0]
            == '-' && "-l"@[0] == '-' && "-q"@[0] == '-' && "-f"@[0] == '-' && "-e"@[0] == '-'
            && "-s"@[0] == '-');
    }
    let s0 = cli_defaults(None);
    let s1 = CliScan { action: action_flag(flag), ..s0 };
    let s2 = CliScan { name: Some(name), ..s1 };
    assert(args[0] == flag);
    assert(args.drop_first()[0] == name);
    assert(args.drop_first().drop_first() =~= command);
    assert(scan_cli(args, s0) == scan_cli(args.drop_first(), s1));
    assert(scan_cli(args.drop_first(), s1) == scan_cli(command, s2));
    assert(scan_cli(command, s2) == Ok::<_, Seq<char>>(CliScan { command, ..s2 }));
}

// ---------------------------------------------------------------------------
// What is done
// ---------------------------------------------------------------------------

/// One thing that the program does on the way to what the user asks for.
#[derive(Debug, Clone, Copy, PartialEq, Eq, Structural)]
pub enum Task {
    List,
    Kill,
    /// Find out whether the session's socket is there.
    CheckExists,
    Create,
    Attach,
}

/// The first thing to do.
pub fn first_task(action: Action) -> (t: Task)
    ensures
        t == (match action {
            Action::List => Task::List,
            Action::Kill => Task::Kill,
            Action::Create => Task::Create,
            Action::CreateOnly => Task::Create,
            Action::Attach => Task::Attach,
            Action::AttachOrCreate => Task::CheckExists,
        }),
{
    match action {
        Action::List => Task::List,
        Action::Kill => Task::Kill,
        Action::Create => Task::Create,
        Action::CreateOnly => Task::Create,
        Action::Attach => Task::Attach,
        Action::AttachOrCreate => Task::CheckExists,
    }
}

/// What follows a task that went well: a session that is there is attached to, one that is not is
/// created first; after creating, the user is attached unless they asked not to be.
pub open spec fn task_after(action: Action, done: Task, exists: bool) -> Option<Task> {
    match done {
        Task::CheckExists => if exists {
            Some(Task::Attach)
        } else {
            Some(Task::Create)
        },
        Task::Create => if action == Action::CreateOnly {
            None
        } else {
            Some(Task::Attach)
        },
        _ => None,
    }
}

/// What to do after a task that went well; `exists` says what was found out about the session.
pub fn next_task(action: Action, done: Task, exists: bool) -> (t: Option<Task>)
    ensures
        t == task_after(action, done, exists),
{
    match done {
        Task::CheckExists => if exists {
            Some(Task::Attach)
        } else {
            Some(Task::Create)
        },
        Task::Create => if action == Action::CreateOnly {
            None
        } else {
            Some(Task::Attach)
        },
        _ => None,
    }
}

/// How a session is created, given what is there under its name.
#[derive(Debug, Clone, Copy, PartialEq, Eq, Structural)]
pub enum CreatePlan {
    /// Nothing is in the way.
    Start,
    /// Remove what a dead server left behind, then start.
    CleanThenStart,
    /// End the server that is running, then start.
    ReplaceLive,
    /// The session exists.
    Refuse,
}

/// How a session is created. What a dead server left is cleaned up without asking; a live one is
/// in the way unless the user insists.
pub fn create_plan(lock: LockState, socket_exists: bool, force: bool) -> (p: CreatePlan)
    ensures
        p == (if lock == LockState::Missing && !socket_exists {
            CreatePlan::Start
        } else if lock == LockState::Missing || lock == LockState::Free {
            CreatePlan::CleanThenStart
        } else if force {
            CreatePlan::ReplaceLive
        } else {
            CreatePlan::Refuse
        }),
{
    if is_session_stale(lock) {
        if lock == LockState::Missing && !socket_exists {
            CreatePlan::Start
        } else {
            CreatePlan::CleanThenStart
        }
    } else if force {
        CreatePlan::ReplaceLive
    } else {
        CreatePlan::Refuse
    }
}

/// How much output a new session keeps: what the command line says, else what the environment
/// says, which is not even looked at where the command line speaks.
pub fn session_ring_size(opts: &CliOpts, scrollback: Option<String>) -> (r: Result<usize, String>)
    ensures
        opts.ring_given ==> (r matches Ok(n) && n == opts.ring_size),
        !opts.ring_given ==> match scrollback_of(crate::server::opt_view(scrollback)) {
            Ok(n) => r matches Ok(m) && m == n,
            Err(e) => r matches Err(msg) && msg@ == e,
        },
{
    if opts.ring_given {
        Ok(opts.ring_size)
    } else {
        default_ring_size(scrollback)
    }
}

/// How a session is ended, given what is there under its name.
#[derive(Debug, Clone, Copy, PartialEq, Eq, Structural)]
pub enum KillPlan {
    /// There is nothing.
    NotFound,
    /// Remove what a dead server left behind.
    CleanStale,
    /// End the server, then remove its files.
    Terminate,
}

/// How a session is ended.
pub fn kill_plan(lock: LockState, socket_exists: bool) -> (p: KillPlan)
    ensures
        p == (if lock == LockState::Missing && !socket_exists {
            KillPlan::NotFound
        } else if lock == LockState::Missing || lock == LockState::Free {
            KillPlan::CleanStale
        } else {
            KillPlan::Terminate
        }),
{
    if lock == LockState::Missing && !socket_exists {
        KillPlan::NotFound
    } else if is_session_stale(lock) {
        KillPlan::CleanStale
    } else {
        KillPlan::Terminate
    }
}

/// How long a server has to end after it was told to, in milliseconds.
pub const TERMINATE_LIMIT_MS: u64 = 5000;

/// How long to wait before looking again whether a server has ended, in milliseconds.
pub const TERMINATE_POLL_MS: u64 = 20;

/// What to do about a server that was told to end.
#[derive(Debug, Clone, Copy, PartialEq, Eq, Structural)]
pub enum TerminateStep {
    /// It has ended: remove its files.
    Done,
    /// Look again after so many milliseconds.
    Wait(u64),
    /// It does not end.
    GiveUp,
}

/// What to do about a server that was told to end `waited_ms` milliseconds ago; `stale` says
/// whether nobody holds its lock any more.
pub fn terminate_step(stale: bool, waited_ms: u64) -> (step: TerminateStep)
    ensures
        step == (if stale {
            TerminateStep::Done
        } else if waited_ms > TERMINATE_LIMIT_MS {
            TerminateStep::GiveUp
        } else {
            TerminateStep::Wait(TERMINATE_POLL_MS)
        }),
{
    if stale {
        TerminateStep::Done
    } else if waited_ms > TERMINATE_LIMIT_MS {
        TerminateStep::GiveUp
    } else {
        TerminateStep::Wait(TERMINATE_POLL_MS)
    }
}

/// The session that an entry of the socket directory belongs to: a socket is named after it, and
/// so is a lock file, with `.lock` behind.
pub open spec fn session_of(entry: Seq<char>, is_socket: bool) -> Option<Seq<char>> {
    if is_socket {
        Some(entry)
    } else if entry.len() > 5 && entry.skip(entry.len() - 5) == ".lock"@ {
        Some(entry.take(entry.len() - 5))
    } else {
        None
    }
}

/// The session that an entry of the socket directory belongs to.
pub fn session_of_entry(entry: &str, is_socket: bool) -> (r: Option<String>)
    ensures
        crate::server::opt_view(r) == session_of(entry@, is_socket),
{
    if is_socket {
        return Some(entry.to_owned());
    }
    let n: usize = entry.unicode_len();
    if n > 5 {
        let suffix = entry.substring_char(n - 5, n);
        assert(entry@.subrange(n - 5, n as int) =~= entry@.skip(n - 5));
        if str_eq(suffix, ".lock") {
            assert(entry@.subrange(0, n - 5) =~= entry@.take(n - 5));
            return Some(entry.substring_char(0, n - 5).to_owned());
        }
    }
    None
}

/// The entries of a directory: their names, and whether they are sockets.
pub open spec fn entries_seen(entries: Seq<(String, bool)>) -> Seq<(Seq<char>, bool)> {
    entries.map_values(|e: (String, bool)| (e.0@, e.1))
}

/// A name put into an ordered list of names, unless it is there.
pub open spec fn name_inserted(names: Seq<Seq<char>>, name: Seq<char>) -> Seq<Seq<char>>
    decreases names.len(),
{
    if names.len() == 0 {
        seq![name]
    } else if names.last() == name {
        names
    } else if name_le(names.last(), name) {
        names.push(name)
    } else {
        name_inserted(names.drop_last(), name).push(names.last())
    }
}

/// The sessions that the entries of the socket directory belong to, each once, by name.
pub open spec fn sessions_in(entries: Seq<(Seq<char>, bool)>) -> Seq<Seq<char>>
    decreases entries.len(),
{
    if entries.len() == 0 {
        Seq::empty()
    } else {
        match session_of(entries.last().0, entries.last().1) {
            Some(name) => name_inserted(sessions_in(entries.drop_last()), name),
            None => sessions_in(entries.drop_last()),
        }
    }
}

/// The sessions to end: the one of that name, or for `all` every one that has an entry in the
/// socket directory.
pub open spec fn targets_of(name: Seq<char>, entries: Seq<(Seq<char>, bool)>) -> Seq<Seq<char>> {
    if name == "all"@ {
        sessions_in(entries)
    } else {
        seq![name]
    }
}

/// Put a name into an ordered list of names, unless it is there.
fn insert_name(names: &mut Vec<String>, name: String)
    ensures
        crate::text::strings(final(names)@) == name_inserted(
            crate::text::strings(old(names)@),
            name@,
        ),
{
    let ghost before = crate::text::strings(names@);
    let ghost v = name@;
    let mut i: usize = names.len();
    assert(before.take(i as int) =~= before);
    assert(name_inserted(before, v) =~= name_inserted(before.take(i as int), v) + before.skip(
        i as int,
    ));
    while i > 0 && !name_not_after(names[i - 1].as_str(), name.as_str())
        invariant
            i <= names@.len(),
            before == crate::text::strings(names@),
            v == name@,
            name_inserted(before, v) == name_inserted(before.take(i as int), v) + before.skip(
                i as int,
            ),
        decreases i,
    {
        proof {
            let part = before.take(i as int);
            lemma_name_order(v, v, v);
            assert(part.last() == before[i - 1]);
            assert(part.drop_last() =~= before.take(i - 1));
            assert(name_inserted(part, v) == name_inserted(before.take(i - 1), v).push(
                before[i - 1],
            ));
            assert(name_inserted(before.take(i - 1), v).push(before[i - 1]) + before.skip(i as int)
                =~= name_inserted(before.take(i - 1), v) + before.skip(i - 1));
        }
        i = i - 1;
    }
    proof {
        let part = before.take(i as int);
        if i > 0 {
            assert(part.last() == before[i - 1]);
        }
        assert(part + before.skip(i as int) =~= before);
    }
    if i > 0 && str_eq(names[i - 1].as_str(), name.as_str()) {
        return;
    }
    names.insert(i, name);
    assert(name_inserted(before.take(i as int), v) =~= before.take(i as int).push(v));
    assert(crate::text::strings(names@) =~= before.take(i as int).push(v) + before.skip(i as int));
}

/// The sessions to end, given the entries of the socket directory and whether each is a socket.
pub fn kill_targets(name: &str, entries: &Vec<(String, bool)>) -> (names: Vec<String>)
    ensures
        crate::text::strings(names@) == targets_of(name@, entries_seen(entries@)),
{
    let mut names: Vec<String> = Vec::new();
    if !str_eq(name, "all") {
        names.push(name.to_owned());
        assert(crate::text::strings(names@) =~= seq![name@]);
        return names;
    }
    let ghost seen = entries_seen(entries@);
    let mut i: usize = 0;
    assert(crate::text::strings(names@) =~= sessions_in(seen.take(0)));
    while i < entries.len()
        invariant
            i <= entries@.len(),
            seen == entries_seen(entries@),
            crate::text::strings(names@) == sessions_in(seen.take(i as int)),
        decreases entries@.len() - i,
    {
        proof {
            assert(seen.take(i + 1).drop_last() =~= seen.take(i as int));
            assert(seen.take(i + 1).last() == seen[i as int]);
        }
        if let Some(session) = session_of_entry(entries[i].0.as_str(), entries[i].1) {
            insert_name(&mut names, session);
        }
        i = i + 1;
    }
    assert(seen.take(i as int) =~= seen);
    names
}

/// Whether names stand in order, none of them twice.
pub open spec fn names_in_order(names: Seq<Seq<char>>) -> bool {
    forall|i: int, j: int|
        0 <= i < j < names.len() ==> name_le(#[trigger] names[i], #[trigger] names[j]) && names[i]
            != names[j]
}

proof fn lemma_name_inserted(names: Seq<Seq<char>>, name: Seq<char>)
    requires
        names_in_order(names),
    ensures
        names_in_order(name_inserted(names, name)),
        forall|n: Seq<char>|
            #[trigger] name_inserted(names, name).contains(n) <==> n == name || names.contains(n),
    decreases names.len(),
{
    let all = name_inserted(names, name);
    if names.len() == 0 {
        assert(all[0] == name);
    } else if names.last() == name {
        assert(names[names.len() - 1] == name);
    } else if name_le(names.last(), name) {
        assert forall|i: int, j: int| 0 <= i < j < all.len() implies name_le(
            #[trigger] all[i],
            #[trigger] all[j],
        ) && all[i] != all[j] by {
            if j == names.len() {
                lemma_name_order(names[i], names.last(), name);
                if i < names.len() - 1 {
                    assert(name_le(names[i], names[names.len() - 1]));
                    assert(names[i] != names[names.len() - 1]);
                    if names[i] == name {
                        lemma_name_antisymmetric(names.last(), name);
                    }
                }
            }
        }
        assert forall|n: Seq<char>| #[trigger] all.contains(n) <==> n == name || names.contains(
            n,
        ) by {
            assert(all[names.len() as int] == name);
            if names.contains(n) {
                let k = choose|k: int| 0 <= k < names.len() && names[k] == n;
                assert(all[k] == n);
            }
        }
    } else {
        let init = names.drop_last();
        let part = name_inserted(init, name);
        lemma_name_inserted(init, name);
        lemma_name_order(names.last(), name, name);
        assert forall|i: int| 0 <= i < part.len() implies name_le(
            #[trigger] part[i],
            names.last(),
        ) && part[i] != names.last() by {
            assert(part.contains(part[i]));
            if part[i] != name {
                let k = choose|k: int| 0 <= k < init.len() && init[k] == part[i];
                assert(name_le(names[k], names[names.len() - 1]));
                assert(names[k] != names[names.len() - 1]);
            }
        }
        assert forall|n: Seq<char>| #[trigger] all.contains(n) <==> n == name || names.contains(
            n,
        ) by {
            if all.contains(n) {
                let k = choose|k: int| 0 <= k < all.len() && all[k] == n;
                if k < part.len() {
                    assert(part[k] == n);
                    assert(part.contains(n));
                    if n != name {
                        let m = choose|m: int| 0 <= m < init.len() && init[m] == n;
                        assert(names[m] == n);
                    }
                } else {
                    assert(names[names.len() - 1] == n);
                }
            }
            if n == name || names.contains(n) {
                if n == names.last() {
                    assert(all[part.len() as int] == n);
                } else {
                    if n != name {
                        let m = choose|m: int| 0 <= m < names.len() && names[m] == n;
                        assert(init[m] == n);
                    }
                    assert(part.contains(n));
                    let k = choose|k: int| 0 <= k < part.len() && part[k] == n;
                    assert(all[k] == n);
                }
            }
        }
    }
}

/// Whether some entry belongs to the session.
pub open spec fn has_entry(entries: Seq<(Seq<char>, bool)>, name: Seq<char>) -> bool {
    exists|i: int|
        0 <= i < entries.len() && session_of(
            (#[trigger] entries[i]).0,
            entries[i].1,
        ) == Some(name)
}

/// Ending all sessions ends exactly those that have a socket or a lock file, each once, by name.
pub proof fn law_all_means_every_session(entries: Seq<(Seq<char>, bool)>)
    ensures
        names_in_order(targets_of("all"@, entries)),
        forall|n: Seq<char>|
            #[trigger] targets_of("all"@, entries).contains(n) <==> has_entry(entries, n),
    decreases entries.len(),
{
    if entries.len() > 0 {
        let init = entries.drop_last();
        law_all_means_every_session(init);
        let last = session_of(entries.last().0, entries.last().1);
        if let Some(name) = last {
            lemma_name_inserted(sessions_in(init), name);
        }
        assert forall|n: Seq<char>| #[trigger]
            targets_of("all"@, entries).contains(n) <==> has_entry(entries, n) by {
            assert(targets_of("all"@, init).contains(n) <==> has_entry(init, n));
            if has_entry(init, n) {
                let i = choose|i: int|
                    0 <= i < init.len() && session_of((#[trigger] init[i]).0, init[i].1) == Some(n);
                assert(entries[i] == init[i]);
            }
            if has_entry(entries, n) {
                let i = choose|i: int|
                    0 <= i < entries.len() && session_of(
                        (#[trigger] entries[i]).0,
                        entries[i].1,
                    ) == Some(n);
                if i < init.len() {
                    assert(init[i] == entries[i]);
                }
            }
            if last == Some(n) {
                assert(entries[entries.len() - 1] == entries.last());
            }
        }
    }
}

/// What is said where all sessions are to be ended and there are none.
pub fn no_sessions_message() -> (s: &'static str)
    ensures
        s@ == "mneme: no sessions"@,
{
    "mneme: no sessions"
}

/// The command where the user gives none: what the environment names for a shell to run, else
/// the user's shell, else `/bin/sh`.
pub open spec fn default_command_of(cmd: Option<Seq<char>>, shell: Option<Seq<char>>) -> Seq<
    Seq<char>,
> {
    match cmd {
        Some(c) => seq!["/bin/sh"@, "-c"@, c],
        None => match shell {
            Some(s) => seq![s],
            None => seq!["/bin/sh"@],
        },
    }
}

/// The command where the user gives none.
pub fn default_command(mneme_cmd: Option<String>, shell: Option<String>) -> (r: Vec<String>)
    ensures
        crate::text::strings(r@) == default_command_of(
            crate::server::opt_view(mneme_cmd),
            crate::server::opt_view(shell),
        ),
{
    let mut r: Vec<String> = Vec::new();
    match mneme_cmd {
        Some(cmd) => {
            r.push("/bin/sh".to_owned());
            r.push("-c".to_owned());
            r.push(cmd);
            assert(crate::text::strings(r@) =~= seq!["/bin/sh"@, "-c"@, mneme_cmd->0@]);
        },
        None => {
            match shell {
                Some(s) => {
                    r.push(s);
                    assert(crate::text::strings(r@) =~= seq![shell->0@]);
                },
                None => {
                    r.push("/bin/sh".to_owned());
                    assert(crate::text::strings(r@) =~= seq!["/bin/sh"@]);
                },
            }
        },
    }
    r
}

/// The flags that the options ask for.
pub fn client_flags(opts: &CliOpts) -> (f: ClientFlags)
    ensures
        f == (ClientFlags { readonly: opts.readonly, low_priority: opts.low_priority }),
{
    ClientFlags { readonly: opts.readonly, low_priority: opts.low_priority }
}

// ---------------------------------------------------------------------------
// What is printed
// ---------------------------------------------------------------------------

/// A message about a session.
pub open spec fn session_message(name: Seq<char>, text: Seq<char>) -> Seq<char> {
    "mneme: "@ + name + ": "@ + text
}

fn about_session(name: &str, text: &str) -> (s: String)
    ensures
        s@ == session_message(name@, text@),
{
    let mut s: String = together("mneme: ", name);
    s.append(": ");
    s.append(text);
    s
}

/// What is told the user of a text that is only for information: nothing in quiet mode, else the
/// text.
pub fn notice(quiet: bool, text: String) -> (r: Option<String>)
    ensures
        quiet ==> r is None,
        !quiet ==> (r matches Some(t) && t@ == text@),
{
    if quiet {
        None
    } else {
        Some(text)
    }
}

/// What is said when a session has been created.
pub fn created_message(name: &str) -> (s: String)
    ensures
        s@ == session_message(name@, "session created"@),
{
    about_session(name, "session created")
}

/// What is said when a session has been ended; `stale` where its server was dead already.
pub fn killed_message(name: &str, stale: bool) -> (s: String)
    ensures
        s@ == session_message(
            name@,
            if stale {
                "stale session cleaned up"@
            } else {
                "killed"@
            },
        ),
{
    if stale {
        about_session(name, "stale session cleaned up")
    } else {
        about_session(name, "killed")
    }
}

/// The error where a session is to be created that exists.
pub fn already_exists(name: &str) -> (s: String)
    ensures
        s@ == name@ + ": session already exists"@,
{
    together(name, ": session already exists")
}

/// The error where a session is to be ended that is not there.
pub fn not_found(name: &str) -> (s: String)
    ensures
        s@ == name@ + ": session not found"@,
{
    together(name, ": session not found")
}

/// The error where a server is to be ended whose process is not known.
pub fn server_unknown(name: &str) -> (s: String)
    ensures
        s@ == name@ + ": server unknown"@,
{
    together(name, ": server unknown")
}

/// The error where a server was told to end and does not.
pub fn server_stays(name: &str) -> (s: String)
    ensures
        s@ == name@ + ": server does not end"@,
{
    together(name, ": server does not end")
}

/// The text that bytes stand for where what is not UTF-8 in them is replaced.
pub uninterp spec fn lossy_text(bytes: Seq<u8>) -> Seq<char>;

/// `String::from_utf8_lossy`: a text that depends on the bytes alone. Bytes that are well-formed
/// UTF-8 give the text that they encode; what takes the place of other bytes is not said.
#[verifier::external_body]
fn text_of_bytes(bytes: &[u8]) -> (s: String)
    ensures
        s@ == lossy_text(bytes@),
        vstd::utf8::valid_utf8(bytes@) ==> s@ == vstd::utf8::decode_utf8(bytes@),
{
    String::from_utf8_lossy(bytes).into_owned()
}

/// The error where a server could not start, for this reason.
pub fn startup_failed(reason: &str) -> (s: String)
    ensures
        s@ == "server startup failed: "@ + reason@,
{
    together("server startup failed: ", reason)
}

/// What a started server answered: nothing means that it is ready, anything else is why it is
/// not.
pub fn startup_result(answer: &[u8]) -> (r: Result<(), String>)
    ensures
        answer@.len() == 0 <==> r is Ok,
        r matches Err(msg) ==> msg@ == "server startup failed: "@ + lossy_text(answer@),
{
    if answer.len() == 0 {
        Ok(())
    } else {
        Err(startup_failed(text_of_bytes(answer).as_str()))
    }
}

/// What is said when an attachment has ended.
pub open spec fn attach_text(name: Seq<char>, result: crate::client::AttachView) -> Seq<char> {
    match result {
        crate::client::AttachView::Detached => session_message(name, "detached"@),
        crate::client::AttachView::Exited(status) => session_message(
            name,
            "session terminated with exit status "@ + crate::text::decimal(status as nat),
        ),
        crate::client::AttachView::IoError(_) => session_message(
            name,
            "exited due to I/O errors"@,
        ),
    }
}

/// The program's exit code when an attachment has ended: that of the child where it exited.
pub open spec fn attach_code(result: crate::client::AttachView) -> i32 {
    match result {
        crate::client::AttachView::Detached => 0,
        crate::client::AttachView::Exited(status) => status as i32,
        crate::client::AttachView::IoError(_) => 1,
    }
}

/// What is said when an attachment has ended, which is nothing in quiet mode, and the program's
/// exit code.
pub fn attach_report(name: &str, result: &AttachResult, quiet: bool) -> (r: (Option<String>, i32))
    ensures
        quiet ==> r.0 is None,
        !quiet ==> (r.0 matches Some(text) && text@ == attach_text(name@, result@)),
        r.1 == attach_code(result@),
{
    let (text, code): (String, i32) = match result {
        AttachResult::Detached => (about_session(name, "detached"), 0),
        AttachResult::Exited(status) => {
            let mut text: String = "session terminated with exit status ".to_owned();
            push_decimal(&mut text, *status as u64);
            (about_session(name, text.as_str()), *status as i32)
        },
        AttachResult::IoError(_) => (about_session(name, "exited due to I/O errors"), 1),
    };
    (notice(quiet, text), code)
}

/// A session of the listing.
#[derive(Debug)]
pub struct ListEntry {
    pub name: String,
    pub welcome: Welcome,
}

/// What a [`ListEntry`] is.
pub struct ListEntryView {
    pub name: Seq<char>,
    pub welcome: Welcome,
}

impl View for ListEntry {
    type V = ListEntryView;

    open spec fn view(&self) -> ListEntryView {
        ListEntryView { name: self.name@, welcome: self.welcome }
    }
}

/// What several entries are.
pub open spec fn entry_views(es: Seq<ListEntry>) -> Seq<ListEntryView> {
    es.map_values(|e: ListEntry| e@)
}

/// Whether `a` comes before `b` in the dictionary, or is `b`.
pub open spec fn name_le(a: Seq<char>, b: Seq<char>) -> bool
    decreases a.len(),
{
    if a.len() == 0 {
        true
    } else if b.len() == 0 {
        false
    } else if a[0] != b[0] {
        a[0] < b[0]
    } else {
        name_le(a.drop_first(), b.drop_first())
    }
}

/// An entry put into a sorted list, behind those of the same name.
pub open spec fn inserted(sorted: Seq<ListEntryView>, e: ListEntryView) -> Seq<ListEntryView>
    decreases sorted.len(),
{
    if sorted.len() == 0 || name_le(sorted.last().name, e.name) {
        sorted.push(e)
    } else {
        inserted(sorted.drop_last(), e).push(sorted.last())
    }
}

/// The entries sorted by name.
pub open spec fn sorted_entries(es: Seq<ListEntryView>) -> Seq<ListEntryView>
    decreases es.len(),
{
    if es.len() == 0 {
        Seq::empty()
    } else {
        inserted(sorted_entries(es.drop_last()), es.last())
    }
}

/// The mark of a session: its child has exited, it has clients, or neither.
pub open spec fn status_mark(w: Welcome) -> char {
    if !w.child_running {
        '+'
    } else if w.client_count > 0 {
        '*'
    } else {
        ' '
    }
}

/// So many spaces.
pub open spec fn spaces(n: nat) -> Seq<char> {
    Seq::new(n, |i: int| ' ')
}

/// Text moved to the right in a column of six characters; longer text is as it is.
pub open spec fn right_aligned(text: Seq<char>) -> Seq<char> {
    if text.len() < 6 {
        spaces((6 - text.len()) as nat) + text
    } else {
        text
    }
}

/// The line of a session: mark, process id of the server, name.
pub open spec fn entry_line(e: ListEntryView) -> Seq<char> {
    seq![status_mark(e.welcome), ' '] + right_aligned(
        crate::text::decimal(e.welcome.server_pid as nat),
    ) + "  "@ + e.name + "\n"@
}

/// The lines of several sessions.
pub open spec fn entry_lines(es: Seq<ListEntryView>) -> Seq<char>
    decreases es.len(),
{
    if es.len() == 0 {
        Seq::empty()
    } else {
        entry_lines(es.drop_last()) + entry_line(es.last())
    }
}

/// The listing: nothing where there are no sessions, else a heading and the sessions by name.
pub open spec fn listing_of(es: Seq<ListEntryView>) -> Seq<char> {
    if es.len() == 0 {
        Seq::empty()
    } else {
        "Active sessions\n"@ + entry_lines(sorted_entries(es))
    }
}

/// Whether `a` comes before `b` in the dictionary, or is `b`.
fn name_not_after(a: &str, b: &str) -> (r: bool)
    ensures
        r == name_le(a@, b@),
{
    let n: usize = a.unicode_len();
    let m: usize = b.unicode_len();
    let mut i: usize = 0;
    assert(a@.skip(0) =~= a@);
    assert(b@.skip(0) =~= b@);
    while i < n && i < m
        invariant
            i <= n,
            i <= m,
            n == a@.len(),
            m == b@.len(),
            name_le(a@, b@) == name_le(a@.skip(i as int), b@.skip(i as int)),
        decreases n - i,
    {
        let x: char = a.get_char(i);
        let y: char = b.get_char(i);
        assert(a@.skip(i as int)[0] == x && b@.skip(i as int)[0] == y);
        if x != y {
            return x < y;
        }
        assert(a@.skip(i as int).drop_first() =~= a@.skip(i + 1));
        assert(b@.skip(i as int).drop_first() =~= b@.skip(i + 1));
        i = i + 1;
    }
    i == n
}

/// Put an entry into a sorted list, behind those of the same name.
fn insert_entry(sorted: &mut Vec<ListEntry>, e: ListEntry)
    ensures
        entry_views(final(sorted)@) == inserted(entry_views(old(sorted)@), e@),
{
    let ghost before = entry_views(sorted@);
    let ghost v = e@;
    let mut i: usize = sorted.len();
    assert(before.take(i as int) =~= before);
    assert(inserted(before, v) =~= inserted(before.take(i as int), v) + before.skip(i as int));
    while i > 0 && !name_not_after(sorted[i - 1].name.as_str(), e.name.as_str())
        invariant
            i <= sorted@.len(),
            before == entry_views(sorted@),
            v == e@,
            inserted(before, v) == inserted(before.take(i as int), v) + before.skip(i as int),
        decreases i,
    {
        proof {
            let part = before.take(i as int);
            assert(part.last() == before[i - 1]);
            assert(part.drop_last() =~= before.take(i - 1));
            assert(inserted(part, v) == inserted(before.take(i - 1), v).push(before[i - 1]));
            assert(inserted(before.take(i - 1), v).push(before[i - 1]) + before.skip(i as int)
                =~= inserted(before.take(i - 1), v) + before.skip(i - 1));
        }
        i = i - 1;
    }
    proof {
        let part = before.take(i as int);
        if i > 0 {
            assert(part.last() == before[i - 1]);
        }
        assert(inserted(part, v) == part.push(v));
    }
    sorted.insert(i, e);
    assert(entry_views(sorted@) =~= before.take(i as int).push(v) + before.skip(i as int));
}

/// Append so many spaces.
fn push_spaces(s: &mut String, n: usize)
    ensures
        final(s)@ == old(s)@ + spaces(n as nat),
{
    let ghost before = s@;
    let mut i: usize = 0;
    assert(s@ =~= before + spaces(0));
    while i < n
        invariant
            i <= n,
            s@ == before + spaces(i as nat),
        decreases n - i,
    {
        s.push(' ');
        i = i + 1;
        assert(s@ =~= before + spaces(i as nat));
    }
}

/// The listing of the sessions.
pub fn list_sessions(entries: Vec<ListEntry>) -> (s: String)
    ensures
        s@ == listing_of(entry_views(entries@)),
{
    let ghost all = entry_views(entries@);
    let mut out: String = String::new();
    if entries.len() == 0 {
        return out;
    }
    let mut rest: Vec<ListEntry> = entries;
    let mut sorted: Vec<ListEntry> = Vec::new();
    let ghost mut done: int = 0;
    assert(entry_views(sorted@) =~= sorted_entries(all.take(0)));
    assert(all.skip(0) =~= all);
    while rest.len() > 0
        invariant
            0 <= done <= all.len(),
            entry_views(rest@) == all.skip(done),
            entry_views(sorted@) == sorted_entries(all.take(done)),
        decreases rest@.len(),
    {
        let ghost r = entry_views(rest@);
        let e: ListEntry = rest.remove(0);
        proof {
            assert(r.len() == all.len() - done);
            assert(r[0] == e@);
            assert(entry_views(rest@) =~= r.drop_first());
            assert(all.skip(done).drop_first() =~= all.skip(done + 1));
            assert(all.take(done + 1).drop_last() =~= all.take(done));
            assert(all.take(done + 1).last() == e@);
            done = done + 1;
        }
        insert_entry(&mut sorted, e);
    }
    assert(done == all.len()) by {
        assert(all.skip(done).len() == 0);
    }
    assert(all.take(done) =~= all);
    let ghost es = entry_views(sorted@);
    out.append("Active sessions\n");
    assert(out@ =~= "Active sessions\n"@ + entry_lines(es.take(0)));
    let mut i: usize = 0;
    while i < sorted.len()
        invariant
            i <= sorted@.len(),
            es == entry_views(sorted@),
            out@ == "Active sessions\n"@ + entry_lines(es.take(i as int)),
        decreases sorted@.len() - i,
    {
        let ghost before = out@;
        let w = &sorted[i].welcome;
        if !w.child_running {
            out.push('+');
        } else if w.client_count > 0 {
            out.push('*');
        } else {
            out.push(' ');
        }
        out.push(' ');
        let mut pid: String = String::new();
        push_decimal(&mut pid, w.server_pid as u64);
        assert(pid@ =~= crate::text::decimal(w.server_pid as nat));
        let width: usize = pid.as_str().unicode_len();
        if width < 6 {
            push_spaces(&mut out, 6 - width);
        }
        out.append(pid.as_str());
        out.append("  ");
        out.append(sorted[i].name.as_str());
        out.append("\n");
        proof {
            assert(es.take(i + 1).drop_last() =~= es.take(i as int));
            assert(es.take(i + 1).last() == es[i as int]);
            assert(out@ =~= before + entry_line(es[i as int]));
            assert(out@ =~= "Active sessions\n"@ + entry_lines(es.take(i + 1)));
        }
        i = i + 1;
    }
    assert(es.take(i as int) =~= es);
    out
}

/// Names are ordered: of two, one comes first; the order is transitive.
pub proof fn lemma_name_order(a: Seq<char>, b: Seq<char>, c: Seq<char>)
    ensures
        name_le(a, b) || name_le(b, a),
        name_le(a, b) && name_le(b, c) ==> name_le(a, c),
    decreases a.len(),
{
    if a.len() > 0 && b.len() > 0 {
        if c.len() > 0 {
            lemma_name_order(a.drop_first(), b.drop_first(), c.drop_first());
        } else {
            lemma_name_order(a.drop_first(), b.drop_first(), c);
        }
    }
}

/// Of two names that each come before the other, both are the same.
pub proof fn lemma_name_antisymmetric(a: Seq<char>, b: Seq<char>)
    requires
        name_le(a, b),
        name_le(b, a),
    ensures
        a == b,
    decreases a.len(),
{
    if a.len() > 0 && b.len() > 0 {
        lemma_name_antisymmetric(a.drop_first(), b.drop_first());
        assert(a =~= seq![a[0]] + a.drop_first());
        assert(b =~= seq![b[0]] + b.drop_first());
    } else {
        assert(a =~= b);
    }
}

/// Whether entries stand in the order of their names.
pub open spec fn in_order(es: Seq<ListEntryView>) -> bool {
    forall|i: int, j: int|
        0 <= i < j < es.len() ==> name_le((#[trigger] es[i]).name, (#[trigger] es[j]).name)
}

proof fn lemma_inserted(sorted: Seq<ListEntryView>, e: ListEntryView)
    requires
        in_order(sorted),
    ensures
        in_order(inserted(sorted, e)),
        inserted(sorted, e).to_multiset() == sorted.to_multiset().insert(e),
    decreases sorted.len(),
{
    broadcast use vstd::seq_lib::group_to_multiset_ensures;

    if sorted.len() > 0 && !name_le(sorted.last().name, e.name) {
        let init = sorted.drop_last();
        lemma_inserted(init, e);
        lemma_name_order(sorted.last().name, e.name, e.name);
        let part = inserted(init, e);
        assert(sorted =~= init.push(sorted.last()));
        assert forall|i: int| 0 <= i < part.len() implies name_le(
            (#[trigger] part[i]).name,
            sorted.last().name,
        ) by {
            assert(part.to_multiset().count(part[i]) > 0) by {
                assert(part.contains(part[i]));
            }
            if part[i] != e {
                assert(init.to_multiset().count(part[i]) > 0);
                assert(init.contains(part[i]));
                let k = choose|k: int| 0 <= k < init.len() && init[k] == part[i];
                assert(name_le(sorted[k].name, sorted[sorted.len() - 1].name));
            }
        }
        assert(in_order(part.push(sorted.last())));
    } else {
        assert forall|i: int, j: int| 0 <= i < j < sorted.push(e).len() implies name_le(
            (#[trigger] sorted.push(e)[i]).name,
            (#[trigger] sorted.push(e)[j]).name,
        ) by {
            if j == sorted.len() && i < sorted.len() - 1 {
                assert(name_le(sorted[i].name, sorted[sorted.len() - 1].name));
                lemma_name_order(sorted[i].name, sorted.last().name, e.name);
            }
        }
    }
}

/// The listing shows every session once, by name.
pub proof fn law_listing_is_sorted(es: Seq<ListEntryView>)
    ensures
        in_order(sorted_entries(es)),
        sorted_entries(es).to_multiset() == es.to_multiset(),
    decreases es.len(),
{
    broadcast use vstd::seq_lib::group_to_multiset_ensures;

    if es.len() > 0 {
        law_listing_is_sorted(es.drop_last());
        lemma_inserted(sorted_entries(es.drop_last()), es.last());
        assert(es =~= es.drop_last().push(es.last()));
    }
}

// ---------------------------------------------------------------------------
// Arguments, option by option
// ---------------------------------------------------------------------------

/// Whether a word is an option that stands alone.
pub open spec fn stands_alone(word: Seq<char>) -> bool {
    ||| word == "-c"@
    ||| word == "-n"@
    ||| word == "-a"@
    ||| word == "-A"@
    ||| word == "-r"@
    ||| word == "-l"@
    ||| word == "-q"@
    ||| word == "-f"@
}

/// Whether a word is an option that takes the word behind it.
pub open spec fn takes_value(word: Seq<char>) -> bool {
    word == "-e"@ || word == "-s"@
}

/// Whether the option stands among those that are read, which are all in front of the command; the
/// word behind an option that takes one is none. `named` says whether the session's name has been
/// read.
pub open spec fn says(args: Seq<Seq<char>>, named: bool, option: Seq<char>) -> bool
    decreases args.len(),
{
    if args.len() == 0 {
        false
    } else if stands_alone(args[0]) {
        args[0] == option || says(args.drop_first(), named, option)
    } else if takes_value(args[0]) {
        args[0] == option || (args.len() >= 2 && says(args.skip(2), named, option))
    } else {
        !named && says(args.drop_first(), true, option)
    }
}

/// The value of an option among those that are read; where it is given more than once, the last.
pub open spec fn value_said(args: Seq<Seq<char>>, named: bool, option: Seq<char>) -> Option<
    Seq<char>,
>
    decreases args.len(),
{
    if args.len() == 0 {
        None
    } else if stands_alone(args[0]) {
        value_said(args.drop_first(), named, option)
    } else if takes_value(args[0]) {
        if args.len() < 2 {
            None
        } else {
            match value_said(args.skip(2), named, option) {
                Some(v) => Some(v),
                None => if args[0] == option {
                    Some(args[1])
                } else {
                    None
                },
            }
        }
    } else if named {
        None
    } else {
        value_said(args.drop_first(), true, option)
    }
}

/// The last of the options `-c`, `-n`, `-a` and `-A` among those that are read.
pub open spec fn last_action_option(args: Seq<Seq<char>>, named: bool) -> Option<Seq<char>>
    decreases args.len(),
{
    if args.len() == 0 {
        None
    } else if stands_alone(args[0]) {
        match last_action_option(args.drop_first(), named) {
            Some(word) => Some(word),
            None => if args[0] == "-c"@ || args[0] == "-n"@ || args[0] == "-a"@ || args[0]
                == "-A"@ {
                Some(args[0])
            } else {
                None
            },
        }
    } else if takes_value(args[0]) {
        if args.len() < 2 {
            None
        } else {
            last_action_option(args.skip(2), named)
        }
    } else if named {
        None
    } else {
        last_action_option(args.drop_first(), true)
    }
}

/// The words that are neither options nor their values, from the first one on; those behind the
/// second of them are taken as they stand.
pub open spec fn plain_words(args: Seq<Seq<char>>, named: bool) -> Seq<Seq<char>>
    decreases args.len(),
{
    if args.len() == 0 {
        Seq::empty()
    } else if stands_alone(args[0]) {
        plain_words(args.drop_first(), named)
    } else if takes_value(args[0]) {
        if args.len() < 2 {
            Seq::empty()
        } else {
            plain_words(args.skip(2), named)
        }
    } else if named {
        args
    } else {
        seq![args[0]] + plain_words(args.drop_first(), true)
    }
}

/// Whether every option that takes a value has one that it takes.
pub open spec fn values_fit(args: Seq<Seq<char>>, named: bool) -> bool
    decreases args.len(),
{
    if args.len() == 0 {
        true
    } else if stands_alone(args[0]) {
        values_fit(args.drop_first(), named)
    } else if takes_value(args[0]) {
        &&& args.len() >= 2
        &&& args[0] == "-e"@ ==> detach_key_of(args[1]) is Ok
        &&& args[0] == "-s"@ ==> size_of_text(args[1]) is Ok
        &&& values_fit(args.skip(2), named)
    } else {
        named || values_fit(args.drop_first(), true)
    }
}

/// The options are all different.
proof fn lemma_options_differ()
    ensures
        "-c"@.len() == 2 && "-c"@[0] == '-' && "-c"@[1] == 'c',
        "-n"@.len() == 2 && "-n"@[0] == '-' && "-n"@[1] == 'n',
        "-a"@.len() == 2 && "-a"@[0] == '-' && "-a"@[1] == 'a',
        "-A"@.len() == 2 && "-A"@[0] == '-' && "-A"@[1] == 'A',
        "-r"@.len() == 2 && "-r"@[0] == '-' && "-r"@[1] == 'r',
        "-l"@.len() == 2 && "-l"@[0] == '-' && "-l"@[1] == 'l',
        "-q"@.len() == 2 && "-q"@[0] == '-' && "-q"@[1] == 'q',
        "-f"@.len() == 2 && "-f"@[0] == '-' && "-f"@[1] == 'f',
        "-e"@.len() == 2 && "-e"@[0] == '-' && "-e"@[1] == 'e',
        "-s"@.len() == 2 && "-s"@[0] == '-' && "-s"@[1] == 's',
{
    reveal_strlit("-c");
    reveal_strlit("-n");
    reveal_strlit("-a");
    reveal_strlit("-A");
    reveal_strlit("-r");
    reveal_strlit("-l");
    reveal_strlit("-q");
    reveal_strlit("-f");
    reveal_strlit("-e");
    reveal_strlit("-s");
}

/// What reading the first of the arguments leaves to read, and with what.
spec fn first_read(args: Seq<Seq<char>>, acc: CliScan) -> (Seq<Seq<char>>, CliScan) {
    if action_flag(args[0]) is Some {
        (args.drop_first(), CliScan { action: action_flag(args[0]), ..acc })
    } else if args[0] == "-r"@ {
        (args.drop_first(), CliScan { readonly: true, ..acc })
    } else if args[0] == "-l"@ {
        (args.drop_first(), CliScan { low_priority: true, ..acc })
    } else if args[0] == "-q"@ {
        (args.drop_first(), CliScan { quiet: true, ..acc })
    } else if args[0] == "-f"@ {
        (args.drop_first(), CliScan { force: true, ..acc })
    } else if args[0] == "-e"@ {
        (args.skip(2), CliScan { detach_key: detach_key_of(args[1])->Ok_0, ..acc })
    } else if args[0] == "-s"@ {
        (args.skip(2), CliScan { ring_size: Some(size_of_text(args[1])->Ok_0), ..acc })
    } else {
        (args.drop_first(), CliScan { name: Some(args[0]), ..acc })
    }
}

/// Whether an option or a name stands in front that can be read.
spec fn reads_on(args: Seq<Seq<char>>, acc: CliScan) -> bool {
    &&& args.len() > 0
    &&& is_option(args[0]) || acc.name is None
    &&& args[0] == "-e"@ ==> args.len() >= 2 && detach_key_of(args[1]) is Ok
    &&& args[0] == "-s"@ ==> args.len() >= 2 && size_of_text(args[1]) is Ok
}

proof fn lemma_first_read(args: Seq<Seq<char>>, acc: CliScan)
    requires
        reads_on(args, acc),
    ensures
        scan_cli(args, acc) == scan_cli(first_read(args, acc).0, first_read(args, acc).1),
        first_read(args, acc).0.len() < args.len(),
        is_option(args[0]) <==> stands_alone(args[0]) || takes_value(args[0]),
{
    lemma_options_differ();
}

proof fn lemma_scan_switches(args: Seq<Seq<char>>, acc: CliScan)
    ensures
        scan_cli(args, acc) is Ok <==> values_fit(args, acc.name is Some),
        scan_cli(args, acc) matches Ok(scan) ==> {
            let named = acc.name is Some;
            &&& scan.readonly <==> acc.readonly || says(args, named, "-r"@)
            &&& scan.low_priority <==> acc.low_priority || says(args, named, "-l"@)
            &&& scan.quiet <==> acc.quiet || says(args, named, "-q"@)
            &&& scan.force <==> acc.force || says(args, named, "-f"@)
        },
    decreases args.len(),
{
    lemma_options_differ();
    if reads_on(args, acc) {
        lemma_first_read(args, acc);
        lemma_scan_switches(first_read(args, acc).0, first_read(args, acc).1);
    }
}

proof fn lemma_scan_values(args: Seq<Seq<char>>, acc: CliScan)
    ensures
        scan_cli(args, acc) matches Ok(scan) ==> {
            let named = acc.name is Some;
            &&& match value_said(args, named, "-e"@) {
                Some(v) => detach_key_of(v) == Ok::<_, Seq<char>>(scan.detach_key),
                None => scan.detach_key == acc.detach_key,
            }
            &&& match value_said(args, named, "-s"@) {
                Some(v) => scan.ring_size is Some && size_of_text(v) == Ok::<_, Seq<char>>(
                    scan.ring_size->0,
                ),
                None => scan.ring_size == acc.ring_size,
            }
        },
    decreases args.len(),
{
    lemma_options_differ();
    if reads_on(args, acc) {
        lemma_first_read(args, acc);
        lemma_scan_values(first_read(args, acc).0, first_read(args, acc).1);
    }
}

proof fn lemma_scan_words(args: Seq<Seq<char>>, acc: CliScan)
    requires
        acc.command.len() == 0,
    ensures
        scan_cli(args, acc) matches Ok(scan) ==> {
            let named = acc.name is Some;
            let words = plain_words(args, named);
            &&& scan.action == (match last_action_option(args, named) {
                Some(word) => action_flag(word),
                None => acc.action,
            })
            &&& named ==> scan.name == acc.name && scan.command == words
            &&& !named && words.len() == 0 ==> scan.name is None && scan.command.len() == 0
            &&& !named && words.len() > 0 ==> scan.name == Some(words[0]) && scan.command
                == words.drop_first()
        },
    decreases args.len(),
{
    lemma_options_differ();
    if reads_on(args, acc) {
        lemma_first_read(args, acc);
        let rest = first_read(args, acc).0;
        lemma_scan_words(rest, first_read(args, acc).1);
        if !is_option(args[0]) {
            assert((seq![args[0]] + plain_words(rest, true)).drop_first() =~= plain_words(
                rest,
                true,
            ));
        }
    } else if args.len() == 0 {
        assert(acc.command =~= Seq::<Seq<char>>::empty());
    }
}

/// The arguments behind a word for the action, or all of them where there is none.
pub open spec fn behind_the_word(args: Seq<Seq<char>>) -> Seq<Seq<char>> {
    if args.len() > 0 && (args[0] == "create"@ || args[0] == "new"@ || args[0] == "attach"@
        || args[0] == "auto"@ || args[0] == "list"@ || args[0] == "kill"@) {
        args.drop_first()
    } else {
        args
    }
}

proof fn lemma_behind_the_word(args: Seq<Seq<char>>)
    ensures
        ({
            let word = if args.len() > 0 {
                subcommand_of(args[0])
            } else {
                None
            };
            &&& cli_opts_of(args) == (match scan_cli(behind_the_word(args), cli_defaults(word)) {
                Err(e) => Err::<CliOptsView, _>(e),
                Ok(scan) => meaning(scan),
            })
        }),
{
}

/// Each switch of a command line that is accepted is on exactly where its option stands among the
/// options in front of the command, independently of the others: `-r` makes the client read-only,
/// `-l` gives it low priority, `-q` keeps it quiet, `-f` insists.
pub proof fn law_switches_are_their_options(args: Seq<Seq<char>>)
    ensures
        cli_opts_of(args) matches Ok(opts) ==> {
            let rest = behind_the_word(args);
            &&& opts.readonly <==> says(rest, false, "-r"@)
            &&& opts.low_priority <==> says(rest, false, "-l"@)
            &&& opts.quiet <==> says(rest, false, "-q"@)
            &&& opts.force <==> says(rest, false, "-f"@)
        },
{
    lemma_behind_the_word(args);
    let word = if args.len() > 0 {
        subcommand_of(args[0])
    } else {
        None
    };
    lemma_scan_switches(behind_the_word(args), cli_defaults(word));
}

/// The values of a command line that is accepted: the detach key is what the last `-e` names, or
/// Ctrl-backslash; the output that is kept is what the last `-s` names, or 1 MiB; and whether the
/// command line says how much is whether there is a `-s`.
pub proof fn law_values_are_their_options(args: Seq<Seq<char>>)
    ensures
        cli_opts_of(args) matches Ok(opts) ==> {
            let rest = behind_the_word(args);
            &&& match value_said(rest, false, "-e"@) {
                Some(v) => detach_key_of(v) == Ok::<_, Seq<char>>(opts.detach_key),
                None => opts.detach_key == 28,
            }
            &&& match value_said(rest, false, "-s"@) {
                Some(v) => size_of_text(v) == Ok::<_, Seq<char>>(opts.ring_size)
                    && opts.ring_given,
                None => opts.ring_size == 1048576 && !opts.ring_given,
            }
        },
{
    lemma_behind_the_word(args);
    let word = if args.len() > 0 {
        subcommand_of(args[0])
    } else {
        None
    };
    lemma_scan_values(behind_the_word(args), cli_defaults(word));
}

/// What a command line asks to be done: what the last option for an action says, else the word in
/// front, and nothing at all asks for the list.
pub proof fn law_action_is_the_last_named(args: Seq<Seq<char>>)
    ensures
        cli_opts_of(args) matches Ok(opts) ==> match last_action_option(
            behind_the_word(args),
            false,
        ) {
            Some(word) => {
                ||| word == "-c"@ && opts.action == Action::Create
                ||| word == "-n"@ && opts.action == Action::CreateOnly
                ||| word == "-a"@ && opts.action == Action::Attach
                ||| word == "-A"@ && opts.action == Action::AttachOrCreate
            },
            None => {
                ||| args.len() > 0 && args[0] == "create"@ && opts.action == Action::Create
                ||| args.len() > 0 && args[0] == "new"@ && opts.action == Action::CreateOnly
                ||| args.len() > 0 && args[0] == "attach"@ && opts.action == Action::Attach
                ||| args.len() > 0 && args[0] == "auto"@ && opts.action == Action::AttachOrCreate
                ||| args.len() > 0 && args[0] == "list"@ && opts.action == Action::List
                ||| args.len() > 0 && args[0] == "kill"@ && opts.action == Action::Kill
                ||| behind_the_word(args) == args && opts.action == Action::List
            },
        },
{
    lemma_behind_the_word(args);
    lemma_words_differ();
    lemma_options_differ();
    let word = if args.len() > 0 {
        subcommand_of(args[0])
    } else {
        None
    };
    lemma_scan_words(behind_the_word(args), cli_defaults(word));
    lemma_last_action_option(behind_the_word(args), false);
}

proof fn lemma_last_action_option(args: Seq<Seq<char>>, named: bool)
    ensures
        last_action_option(args, named) matches Some(word) ==> word == "-c"@ || word == "-n"@
            || word == "-a"@ || word == "-A"@,
    decreases args.len(),
{
    if args.len() == 0 {
    } else if stands_alone(args[0]) {
        lemma_last_action_option(args.drop_first(), named);
    } else if takes_value(args[0]) {
        if args.len() >= 2 {
            lemma_last_action_option(args.skip(2), named);
        }
    } else {
        lemma_last_action_option(args.drop_first(), true);
    }
}

/// Whether some action is asked for: by a word in front or by an option.
pub open spec fn names_action(args: Seq<Seq<char>>) -> bool {
    behind_the_word(args) != args || last_action_option(behind_the_word(args), false) is Some
}

/// Whether the list is asked for by its word, with no option for another action behind it.
pub open spec fn names_list(args: Seq<Seq<char>>) -> bool {
    args.len() > 0 && args[0] == "list"@ && last_action_option(args.drop_first(), false) is None
}

/// Which command lines are accepted, where every option that takes a value has one: one that asks
/// for nothing, one that asks for the list and names no session, and one that asks for something
/// else and names a session by a valid name. That name is the session's, and what follows it is
/// the command, word for word. Every other one is refused, and the user is told why.
pub proof fn law_which_command_lines(args: Seq<Seq<char>>)
    requires
        values_fit(behind_the_word(args), false),
    ensures
        ({
            let words = plain_words(behind_the_word(args), false);
            if words.len() == 0 {
                if !names_action(args) || names_list(args) {
                    cli_opts_of(args) matches Ok(opts) && opts.action == Action::List
                        && opts.session_name.len() == 0 && opts.command.len() == 0
                } else {
                    cli_opts_of(args) == Err::<CliOptsView, _>("session name required"@)
                }
            } else if !names_action(args) {
                cli_opts_of(args) == Err::<CliOptsView, _>(
                    "unrecognized subcommand '"@ + words[0] + "'; "@
                        + "usage: mneme [-a|-A|-c|-n] [-r] [-q] [-f] [-e key] [-s size] name [command...]"@,
                )
            } else if names_list(args) {
                cli_opts_of(args) == Err::<CliOptsView, _>("unexpected argument: "@ + words[0])
            } else {
                match crate::socket::name_problem(words[0]) {
                    Some(e) => cli_opts_of(args) == Err::<CliOptsView, _>(e.text()),
                    None => cli_opts_of(args) matches Ok(opts) && opts.session_name == words[0]
                        && opts.command == words.drop_first() && opts.action != Action::List,
                }
            }
        }),
{
    lemma_behind_the_word(args);
    lemma_words_differ();
    lemma_options_differ();
    let word = if args.len() > 0 {
        subcommand_of(args[0])
    } else {
        None
    };
    let rest = behind_the_word(args);
    lemma_scan_switches(rest, cli_defaults(word));
    lemma_scan_words(rest, cli_defaults(word));
    lemma_last_action_option(rest, false);
    if word is Some {
        assert(rest.len() < args.len());
    }
}

/// A command line with an option whose value is missing or cannot be read is refused. The user is
/// told of the first such option.
pub proof fn law_values_that_do_not_fit(args: Seq<Seq<char>>)
    requires
        !values_fit(behind_the_word(args), false),
    ensures
        cli_opts_of(args) matches Err(e) && first_bad_value(behind_the_word(args), false) == Some(e),
{
    lemma_behind_the_word(args);
    let word = if args.len() > 0 {
        subcommand_of(args[0])
    } else {
        None
    };
    lemma_scan_switches(behind_the_word(args), cli_defaults(word));
    lemma_first_bad_value(behind_the_word(args), cli_defaults(word));
}

/// What is wrong with the first option whose value is missing or cannot be read.
pub open spec fn first_bad_value(args: Seq<Seq<char>>, named: bool) -> Option<Seq<char>>
    decreases args.len(),
{
    if args.len() == 0 {
        None
    } else if stands_alone(args[0]) {
        first_bad_value(args.drop_first(), named)
    } else if takes_value(args[0]) {
        if args.len() < 2 {
            Some(args[0] + " requires an argument"@)
        } else if args[0] == "-e"@ && detach_key_of(args[1]) is Err {
            Some("invalid detach key: "@ + args[1])
        } else if args[0] == "-s"@ && size_of_text(args[1]) is Err {
            Some("invalid size: "@ + crate::text::trimmed(args[1]))
        } else {
            first_bad_value(args.skip(2), named)
        }
    } else if named {
        None
    } else {
        first_bad_value(args.drop_first(), true)
    }
}

proof fn lemma_first_bad_value(args: Seq<Seq<char>>, acc: CliScan)
    ensures
        scan_cli(args, acc) matches Err(e) ==> first_bad_value(args, acc.name is Some) == Some(e),
    decreases args.len(),
{
    lemma_options_differ();
    if reads_on(args, acc) {
        lemma_first_read(args, acc);
        lemma_first_bad_value(first_read(args, acc).0, first_read(args, acc).1);
    } else if args.len() == 1 && takes_value(args[0]) {
        reveal_strlit(" requires an argument");
        reveal_strlit("-e requires an argument");
        reveal_strlit("-s requires an argument");
        assert("-e"@ + " requires an argument"@ =~= "-e requires an argument"@);
        assert("-s"@ + " requires an argument"@ =~= "-s requires an argument"@);
    }
}

/// A switch in front of the name changes what it is for and nothing else; without any, nothing is
/// switched on. So it is for every session name and every word that takes one.
pub proof fn law_one_switch(word: Seq<char>, action: Action, name: Seq<char>)
    requires
        crate::socket::name_problem(name) is None,
        ({
            ||| word == "create"@ && action == Action::Create
            ||| word == "new"@ && action == Action::CreateOnly
            ||| word == "attach"@ && action == Action::Attach
            ||| word == "auto"@ && action == Action::AttachOrCreate
            ||| word == "kill"@ && action == Action::Kill
        }),
    ensures
        ({
            let plain = CliOptsView {
                action,
                session_name: name,
                command: Seq::empty(),
                detach_key: 28,
                readonly: false,
                low_priority: false,
                quiet: false,
                force: false,
                ring_size: 1048576,
                ring_given: false,
            };
            &&& cli_opts_of(seq![word, name]) == Ok::<_, Seq<char>>(plain)
            &&& cli_opts_of(seq![word, "-r"@, name]) == Ok::<_, Seq<char>>(
                CliOptsView { readonly: true, ..plain },
            )
            &&& cli_opts_of(seq![word, "-l"@, name]) == Ok::<_, Seq<char>>(
                CliOptsView { low_priority: true, ..plain },
            )
            &&& cli_opts_of(seq![word, "-q"@, name]) == Ok::<_, Seq<char>>(
                CliOptsView { quiet: true, ..plain },
            )
            &&& cli_opts_of(seq![word, "-f"@, name]) == Ok::<_, Seq<char>>(
                CliOptsView { force: true, ..plain },
            )
        }),
{
    lemma_words_differ();
    lemma_options_differ();
    let s0 = cli_defaults(Some(action));
    assert(seq![word, name].drop_first() =~= seq![name]);
    lemma_lone_name(name, s0);
    lemma_lone_name(name, CliScan { readonly: true, ..s0 });
    lemma_lone_name(name, CliScan { low_priority: true, ..s0 });
    lemma_lone_name(name, CliScan { quiet: true, ..s0 });
    lemma_lone_name(name, CliScan { force: true, ..s0 });
    lemma_lone_switch("-r"@, name, s0);
    lemma_lone_switch("-l"@, name, s0);
    lemma_lone_switch("-q"@, name, s0);
    lemma_lone_switch("-f"@, name, s0);
    assert(seq![word, "-r"@, name].drop_first() =~= seq!["-r"@, name]);
    assert(seq![word, "-l"@, name].drop_first() =~= seq!["-l"@, name]);
    assert(seq![word, "-q"@, name].drop_first() =~= seq!["-q"@, name]);
    assert(seq![word, "-f"@, name].drop_first() =~= seq!["-f"@, name]);
}

proof fn lemma_lone_name(name: Seq<char>, acc: CliScan)
    requires
        crate::socket::name_problem(name) is None,
        acc.name is None,
    ensures
        scan_cli(seq![name], acc) == Ok::<_, Seq<char>>(CliScan { name: Some(name), ..acc }),
{
    lemma_options_differ();
    crate::socket::law_session_name_is_tame(name);
    assert(!is_option(name));
    assert(seq![name].drop_first() =~= Seq::<Seq<char>>::empty());
    lemma_first_read(seq![name], acc);
}

proof fn lemma_lone_switch(switch: Seq<char>, name: Seq<char>, acc: CliScan)
    requires
        stands_alone(switch),
    ensures
        scan_cli(seq![switch, name], acc) == scan_cli(
            seq![name],
            first_read(seq![switch, name], acc).1,
        ),
{
    lemma_options_differ();
    assert(seq![switch, name].drop_first() =~= seq![name]);
    lemma_first_read(seq![switch, name], acc);
}

// ---------------------------------------------------------------------------
// Values, tasks and words
// ---------------------------------------------------------------------------

proof fn lemma_encoding_is_no_shorter(s: Seq<char>)
    ensures
        vstd::utf8::encode_utf8(s).len() >= s.len(),
    decreases s.len(),
{
    if s.len() > 0 {
        lemma_encoding_is_no_shorter(s.drop_first());
    }
}

proof fn lemma_one_character(c: char)
    ensures
        detach_key_of(seq![c]) is Ok <==> c as u32 <= 127,
        detach_key_of(seq![c]) matches Ok(key) ==> key == c as u32,
{
    let s = seq![c];
    let b = vstd::utf8::encode_utf8(s);
    if c as u32 <= 127 {
        assert(vstd::utf8::is_ascii_chars(s));
        vstd::utf8::is_ascii_chars_encode_utf8(s);
        assert(s[0] as u8 == b[0]);
    } else {
        let n = c as u32;
        let x = ((n >> 6) & 0x1F) as u8;
        assert(0xC0u8 | x != 0x5e) by (bit_vector);
        assert(vstd::utf8::leading_byte_width_2(n) == 0xC0u8 | x);
        assert(s.drop_first() =~= Seq::<char>::empty());
        assert(vstd::utf8::encode_utf8(s.drop_first()).len() == 0);
        assert(b =~= vstd::utf8::encode_scalar(n));
    }
}

proof fn lemma_two_characters(c: char, d: char)
    ensures
        detach_key_of(seq![c, d]) is Ok <==> c == '^' && d as u32 <= 127,
        detach_key_of(seq![c, d]) matches Ok(key) ==> key == d as u32 % 32,
{
    let s = seq![c, d];
    let b = vstd::utf8::encode_utf8(s);
    if c as u32 <= 127 && d as u32 <= 127 {
        assert(vstd::utf8::is_ascii_chars(s));
        vstd::utf8::is_ascii_chars_encode_utf8(s);
        assert(s[0] as u8 == b[0] && s[1] as u8 == b[1]);
        let last = b[1];
        assert(last & 0x1f == last % 32) by (bit_vector);
    } else {
        let rest = s.drop_first();
        assert(rest =~= seq![d]);
        assert(rest.drop_first() =~= Seq::<char>::empty());
        assert(vstd::utf8::encode_utf8(rest) == vstd::utf8::encode_scalar(d as u32)
            + vstd::utf8::encode_utf8(rest.drop_first()));
        assert(b == vstd::utf8::encode_scalar(c as u32) + vstd::utf8::encode_utf8(rest));
        assert(b.len() > 2);
    }
}

/// What names a key: one character of ASCII names itself, and `^` with one behind it names the
/// control key of that character, which is its number without all but the lowest five bits.
/// Nothing else names a key.
pub proof fn law_what_names_a_key(s: Seq<char>)
    ensures
        detach_key_of(s) is Ok <==> (s.len() == 1 && s[0] as u32 <= 127) || (s.len() == 2 && s[0]
            == '^' && s[1] as u32 <= 127),
        detach_key_of(s) matches Ok(key) ==> key == (if s.len() == 1 {
            s[0] as u32
        } else {
            s[1] as u32 % 32
        }),
        detach_key_of(s) matches Err(e) ==> e == "invalid detach key: "@ + s,
{
    lemma_encoding_is_no_shorter(s);
    if s.len() == 1 {
        assert(s =~= seq![s[0]]);
        lemma_one_character(s[0]);
    } else if s.len() == 2 {
        assert(s =~= seq![s[0], s[1]]);
        lemma_two_characters(s[0], s[1]);
    }
}

/// What a size means: a number is so many bytes, with a `K` behind so many times 1024 and with an
/// `M` so many times 1048576, in either case of the letter. One that no machine word holds is
/// refused.
pub proof fn law_sizes(n: nat)
    requires
        n <= usize::MAX,
    ensures
        ({
            let text = crate::text::decimal(n);
            &&& size_of_text(text) == Ok::<_, Seq<char>>(n as usize)
            &&& n * 1024 <= usize::MAX ==> size_of_text(text.push('K')) == Ok::<_, Seq<char>>(
                (n * 1024) as usize,
            ) && size_of_text(text.push('k')) == Ok::<_, Seq<char>>((n * 1024) as usize)
            &&& n * 1048576 <= usize::MAX ==> size_of_text(text.push('M')) == Ok::<_, Seq<char>>(
                (n * 1048576) as usize,
            ) && size_of_text(text.push('m')) == Ok::<_, Seq<char>>((n * 1048576) as usize)
            &&& n * 1024 > usize::MAX ==> size_of_text(text.push('K')) is Err && size_of_text(
                text.push('k'),
            ) is Err
            &&& n * 1048576 > usize::MAX ==> size_of_text(text.push('M')) is Err && size_of_text(
                text.push('m'),
            ) is Err
        }),
{
    let text = crate::text::decimal(n);
    crate::text::law_decimal_round_trip(n, usize::MAX as nat);
    crate::text::lemma_decimal_digits(n, usize::MAX as nat);
    assert(crate::text::is_digit(text[0]));
    assert(crate::text::is_digit(text.last()));
    lemma_size(text, text, 1, n);
    lemma_size_with_letter(text, 'K', 1024, n);
    lemma_size_with_letter(text, 'k', 1024, n);
    lemma_size_with_letter(text, 'M', 1048576, n);
    lemma_size_with_letter(text, 'm', 1048576, n);
}

proof fn lemma_size(s: Seq<char>, number: Seq<char>, unit: nat, n: nat)
    requires
        s.len() > 0,
        !crate::text::is_space(s[0]),
        !crate::text::is_space(s.last()),
        size_parts(s) == (number, unit),
        crate::text::unsigned_value(number, usize::MAX as nat) == Ok::<
            nat,
            crate::text::IntError,
        >(n),
    ensures
        n * unit <= usize::MAX ==> size_of_text(s) == Ok::<_, Seq<char>>((n * unit) as usize),
        n * unit > usize::MAX ==> size_of_text(s) is Err,
{
    assert(crate::text::trimmed_start(s) == s);
    assert(crate::text::trimmed(s) == s);
}

proof fn lemma_size_with_letter(text: Seq<char>, letter: char, unit: nat, n: nat)
    requires
        text.len() > 0,
        crate::text::is_digit(text[0]),
        crate::text::unsigned_value(text, usize::MAX as nat) == Ok::<nat, crate::text::IntError>(n),
        (letter == 'K' || letter == 'k') && unit == 1024 || (letter == 'M' || letter == 'm') && unit
            == 1048576,
    ensures
        n * unit <= usize::MAX ==> size_of_text(text.push(letter)) == Ok::<_, Seq<char>>(
            (n * unit) as usize,
        ),
        n * unit > usize::MAX ==> size_of_text(text.push(letter)) is Err,
{
    let s = text.push(letter);
    assert(s[0] == text[0]);
    assert(s.last() == letter);
    assert(s.drop_last() =~= text);
    lemma_size(s, text, unit, n);
}

/// A size is read from what stands between white space, and is refused with those words. What is
/// read is the number in front of the letter, whatever its form, times what the letter stands for.
pub proof fn law_reading_a_size(text: Seq<char>)
    ensures
        ({
            let s = crate::text::trimmed(text);
            let unit = if s.len() > 0 && (s.last() == 'K' || s.last() == 'k') {
                1024nat
            } else if s.len() > 0 && (s.last() == 'M' || s.last() == 'm') {
                1048576nat
            } else {
                1nat
            };
            let number = if unit == 1 {
                s
            } else {
                s.drop_last()
            };
            match size_of_text(text) {
                Ok(n) => crate::text::unsigned_value(number, usize::MAX as nat) matches Ok(v) && v
                    * unit == n,
                Err(e) => e == "invalid size: "@ + s && (crate::text::unsigned_value(
                    number,
                    usize::MAX as nat,
                ) matches Ok(v) ==> v * unit > usize::MAX),
            }
        }),
{
}

/// How much a session keeps where the command line does not say: what the environment says, which
/// is read like any size, else 1 MiB.
pub proof fn law_scrollback_by_default(text: Seq<char>)
    ensures
        scrollback_of(None) == Ok::<_, Seq<char>>(1048576usize),
        scrollback_of(Some(text)) == size_of_text(text),
{
}

/// What follows what: looking for a session leads to attaching where it is there and to creating it
/// where it is not; creating leads to attaching, except for who asked only to create; nothing
/// follows listing, ending or attaching.
pub proof fn law_what_follows_what(action: Action, exists_already: bool)
    ensures
        task_after(action, Task::CheckExists, true) == Some(Task::Attach),
        task_after(action, Task::CheckExists, false) == Some(Task::Create),
        task_after(action, Task::Create, exists_already) is None <==> action == Action::CreateOnly,
        action != Action::CreateOnly ==> task_after(action, Task::Create, exists_already) == Some(
            Task::Attach,
        ),
        task_after(action, Task::List, exists_already) is None,
        task_after(action, Task::Kill, exists_already) is None,
        task_after(action, Task::Attach, exists_already) is None,
{
}

/// Which entry belongs to which session: a socket of any name to the session of that name, another
/// entry to the session whose name stands in front of `.lock`, and nothing else to any.
pub proof fn law_entries_of_sessions(entry: Seq<char>, name: Seq<char>)
    ensures
        session_of(entry, true) == Some(entry),
        session_of(entry, false) == Some(name) <==> name.len() > 0 && entry == name + ".lock"@,
{
    reveal_strlit(".lock");
    if session_of(entry, false) == Some(name) {
        assert(entry =~= entry.take(entry.len() - 5) + entry.skip(entry.len() - 5));
    }
    if entry == name + ".lock"@ {
        assert(entry.skip(entry.len() - 5) =~= ".lock"@);
        assert(entry.take(entry.len() - 5) =~= name);
    }
}

/// Ending a session by its name ends that session and no other, whatever else is there.
pub proof fn law_one_name_is_one_session(name: Seq<char>, entries: Seq<(Seq<char>, bool)>)
    requires
        name != "all"@,
    ensures
        targets_of(name, entries).len() == 1,
        targets_of(name, entries)[0] == name,
{
}

/// What a session runs where the user names no command: what the environment names, through
/// `/bin/sh -c`; else the user's shell; else `/bin/sh`.
pub proof fn law_command_by_default(cmd: Seq<char>, shell: Seq<char>, any: Option<Seq<char>>)
    ensures
        default_command_of(Some(cmd), any) == seq!["/bin/sh"@, "-c"@, cmd],
        default_command_of(None, Some(shell)) == seq![shell],
        default_command_of(None, None) == seq!["/bin/sh"@],
{
}

/// How the program ends after an attachment: with 0 where the user detached, with 1 where the
/// connection broke, and where the child exited with its status, of which numbers from 2^31 on
/// count down from below zero. The user is told which session it was and how it ended.
pub proof fn law_how_an_attachment_is_reported(
    name: Seq<char>,
    status: u32,
    reason: crate::client::DisconnectView,
)
    ensures
        attach_code(crate::client::AttachView::Detached) == 0,
        attach_code(crate::client::AttachView::IoError(reason)) == 1,
        status <= 2147483647 ==> attach_code(crate::client::AttachView::Exited(status)) == status,
        status > 2147483647 ==> attach_code(crate::client::AttachView::Exited(status)) == status
            - 4294967296,
        attach_text(name, crate::client::AttachView::Detached) == "mneme: "@ + name + ": "@
            + "detached"@,
        attach_text(name, crate::client::AttachView::Exited(status)) == "mneme: "@ + name + ": "@ + (
        "session terminated with exit status "@ + crate::text::decimal(status as nat)),
        attach_text(name, crate::client::AttachView::IoError(reason)) == "mneme: "@ + name + ": "@
            + "exited due to I/O errors"@,
{
    assert(status > 2147483647 ==> (status as i32) == status - 4294967296) by (bit_vector);
}

/// A message about a session names the program, then the session, then what there is to say.
pub proof fn law_messages_name_the_session(name: Seq<char>, text: Seq<char>)
    ensures
        session_message(name, text) == "mneme: "@ + name + ": "@ + text,
{
}

// ---------------------------------------------------------------------------
// The listing, line by line
// ---------------------------------------------------------------------------

/// The order of names is that of a dictionary: where two names first differ, the one with the lower
/// character comes first; a name comes before those that it begins. Here `i` is where they first
/// differ, or where one of them ends.
pub proof fn law_dictionary_order(a: Seq<char>, b: Seq<char>, i: int)
    requires
        0 <= i <= a.len(),
        i <= b.len(),
        forall|j: int| 0 <= j < i ==> #[trigger] a[j] == b[j],
    ensures
        i < a.len() && i < b.len() && a[i] < b[i] ==> name_le(a, b) && !name_le(b, a),
        i == a.len() ==> name_le(a, b),
        i == a.len() && i < b.len() ==> !name_le(b, a),
    decreases i,
{
    if i > 0 {
        let x = a.drop_first();
        let y = b.drop_first();
        assert(a[0] == b[0]);
        assert forall|j: int| 0 <= j < i - 1 implies #[trigger] x[j] == y[j] by {
            assert(a[j + 1] == b[j + 1]);
        }
        law_dictionary_order(x, y, i - 1);
    }
}

/// The entries of one name, in their order.
pub open spec fn of_name(es: Seq<ListEntryView>, name: Seq<char>) -> Seq<ListEntryView>
    decreases es.len(),
{
    if es.len() == 0 {
        Seq::empty()
    } else if es.last().name == name {
        of_name(es.drop_last(), name).push(es.last())
    } else {
        of_name(es.drop_last(), name)
    }
}

proof fn lemma_inserted_of_name(sorted: Seq<ListEntryView>, e: ListEntryView, name: Seq<char>)
    ensures
        of_name(inserted(sorted, e), name) == (if e.name == name {
            of_name(sorted, name).push(e)
        } else {
            of_name(sorted, name)
        }),
    decreases sorted.len(),
{
    if sorted.len() == 0 || name_le(sorted.last().name, e.name) {
        assert(sorted.push(e).drop_last() =~= sorted);
    } else {
        let part = inserted(sorted.drop_last(), e);
        lemma_inserted_of_name(sorted.drop_last(), e, name);
        lemma_name_order(e.name, e.name, e.name);
        assert(part.push(sorted.last()).drop_last() =~= part);
    }
}

/// Entries of the same name stay in the order in which they came.
pub proof fn law_sorting_keeps_equals_in_order(es: Seq<ListEntryView>, name: Seq<char>)
    ensures
        of_name(sorted_entries(es), name) == of_name(es, name),
    decreases es.len(),
{
    if es.len() > 0 {
        law_sorting_keeps_equals_in_order(es.drop_last(), name);
        lemma_inserted_of_name(sorted_entries(es.drop_last()), es.last(), name);
    }
}

/// The line of a session. It starts with `+` exactly where the session's child does not run, with
/// `*` exactly where it runs and clients are attached, and with a space exactly where it runs and
/// there are none. Then come a space, the server's process id at the right of six columns, two
/// spaces, the name, and the end of the line.
pub proof fn law_line_of_a_session(e: ListEntryView)
    ensures
        ({
            let line = entry_line(e);
            let pid = crate::text::decimal(e.welcome.server_pid as nat);
            let width = if pid.len() < 6 {
                6
            } else {
                pid.len() as int
            };
            &&& line[0] == '+' <==> !e.welcome.child_running
            &&& line[0] == '*' <==> e.welcome.child_running && e.welcome.client_count != 0
            &&& line[0] == ' ' <==> e.welcome.child_running && e.welcome.client_count == 0
            &&& line[1] == ' '
            &&& line.len() == 2 + width + 2 + e.name.len() + 1
            &&& forall|i: int| 2 <= i < 2 + width - pid.len() ==> #[trigger] line[i] == ' '
            &&& line.subrange(2 + width - pid.len(), 2 + width) == pid
            &&& line[2 + width] == ' ' && line[3 + width] == ' '
            &&& line.subrange(4 + width, 4 + width + e.name.len()) == e.name
            &&& line.last() == '\n'
        }),
{
    reveal_strlit("  ");
    reveal_strlit("\n");
    let line = entry_line(e);
    let pid = crate::text::decimal(e.welcome.server_pid as nat);
    let width = if pid.len() < 6 {
        6
    } else {
        pid.len() as int
    };
    assert(right_aligned(pid).len() == width);
    assert(line.subrange(2 + width - pid.len(), 2 + width) =~= pid);
    assert(line.subrange(4 + width, 4 + width + e.name.len()) =~= e.name);
}

proof fn lemma_lines_of_a_beginning(es: Seq<ListEntryView>, i: int)
    requires
        0 <= i <= es.len(),
    ensures
        entry_lines(es.take(i)).len() <= entry_lines(es).len(),
        entry_lines(es).take(entry_lines(es.take(i)).len() as int) == entry_lines(es.take(i)),
    decreases es.len() - i,
{
    if i == es.len() {
        assert(es.take(i) =~= es);
        assert(entry_lines(es).take(entry_lines(es).len() as int) =~= entry_lines(es));
    } else {
        let next = es.take(i + 1);
        lemma_lines_of_a_beginning(es, i + 1);
        assert(next.drop_last() =~= es.take(i));
        let n = entry_lines(es.take(i)).len() as int;
        assert(entry_lines(es).take(entry_lines(next).len() as int).take(n) =~= entry_lines(es).take(
            n,
        ));
        assert(entry_lines(next).take(n) =~= entry_lines(es.take(i)));
    }
}

/// The listing has a heading and then one line for each session, in the order of the names, and
/// nothing else; without sessions there is no listing at all. The line of the session at index `i`
/// stands at the index that is returned, at the start of a line, and its first character says how
/// the session is: `+` exactly where its child does not run, `*` exactly where it runs and clients
/// are attached, a space exactly where it runs and there are none.
pub proof fn law_listing_line_by_line(es: Seq<ListEntryView>, i: int) -> (at: int)
    requires
        0 <= i < es.len(),
    ensures
        listing_of(Seq::empty()).len() == 0,
        sorted_entries(es).len() == es.len(),
        ({
            let listing = listing_of(es);
            let e = sorted_entries(es)[i];
            let line = entry_line(e);
            &&& listing.len() > 16 && listing.take(16) == "Active sessions\n"@
            &&& 16 <= at && at + line.len() <= listing.len()
            &&& listing[at - 1] == '\n'
            &&& i == 0 ==> at == 16
            &&& i == es.len() - 1 ==> at + line.len() == listing.len()
            &&& listing.subrange(at, at + line.len()) == line
            &&& listing[at] == '+' <==> !e.welcome.child_running
            &&& listing[at] == '*' <==> e.welcome.child_running && e.welcome.client_count != 0
            &&& listing[at] == ' ' <==> e.welcome.child_running && e.welcome.client_count == 0
        }),
{
    let listing = listing_of(es);
    let sorted = sorted_entries(es);
    let heading = "Active sessions\n"@;
    reveal_strlit("Active sessions\n");
    assert(heading.len() == 16 && heading[15] == '\n');
    lemma_sorted_len(es);
    let e = sorted[i];
    let line = entry_line(e);
    let lines = entry_lines(sorted);
    let before = entry_lines(sorted.take(i)).len() as int;
    law_line_of_a_session(e);
    lemma_line_stands(sorted, i);
    assert(listing == heading + lines);
    assert(listing.take(16) =~= heading);
    let at = 16 + before;
    let shown = listing.subrange(at, at + line.len());
    assert(shown =~= lines.subrange(before, before + line.len()));
    assert(shown[0] == listing[at]);
    if i > 0 {
        assert(listing[at - 1] == lines[before - 1]);
    }
    at
}

proof fn lemma_line_stands(es: Seq<ListEntryView>, i: int)
    requires
        0 <= i < es.len(),
    ensures
        ({
            let before = entry_lines(es.take(i)).len() as int;
            let line = entry_line(es[i]);
            let lines = entry_lines(es);
            &&& before + line.len() <= lines.len()
            &&& lines.subrange(before, before + line.len()) == line
            &&& i == 0 ==> before == 0
            &&& i > 0 ==> before > 0 && lines[before - 1] == '\n'
            &&& i == es.len() - 1 ==> before + line.len() == lines.len()
        }),
{
    let line = entry_line(es[i]);
    let lines = entry_lines(es);
    let before = entry_lines(es.take(i));
    let upto = entry_lines(es.take(i + 1));
    let n = before.len() as int;
    lemma_lines_of_a_beginning(es, i + 1);
    assert(es.take(i + 1).drop_last() =~= es.take(i));
    assert(es.take(i + 1).last() == es[i]);
    assert(upto == before + line);
    assert(lines.take(upto.len() as int) == upto);
    assert(lines.subrange(n, n + line.len()) =~= lines.take(upto.len() as int).subrange(
        n,
        n + line.len(),
    ));
    assert(upto.subrange(n, n + line.len()) =~= line);
    if i > 0 {
        let part = es.take(i);
        law_line_of_a_session(part.last());
        assert(before == entry_lines(part.drop_last()) + entry_line(part.last()));
        assert(before.last() == '\n');
        assert(upto[n - 1] == before[n - 1]);
        assert(lines.take(upto.len() as int)[n - 1] == lines[n - 1]);
    }
    if i == es.len() - 1 {
        assert(es.take(i + 1) =~= es);
    }
}

proof fn lemma_sorted_len(es: Seq<ListEntryView>)
    ensures
        sorted_entries(es).len() == es.len(),
    decreases es.len(),
{
    if es.len() > 0 {
        lemma_sorted_len(es.drop_last());
        lemma_inserted_len(sorted_entries(es.drop_last()), es.last());
    }
}

proof fn lemma_inserted_len(sorted: Seq<ListEntryView>, e: ListEntryView)
    ensures
        inserted(sorted, e).len() == sorted.len() + 1,
    decreases sorted.len(),
{
    if sorted.len() > 0 {
        lemma_inserted_len(sorted.drop_last(), e);
    }
}

/// Lines follow one another: those of more sessions are those of the first ones and then those of
/// the others.
pub proof fn law_lines_follow_one_another(a: Seq<ListEntryView>, b: Seq<ListEntryView>)
    ensures
        entry_lines(a + b) == entry_lines(a) + entry_lines(b),
    decreases b.len(),
{
    if b.len() == 0 {
        assert(a + b =~= a);
        assert(entry_lines(a) + entry_lines(b) =~= entry_lines(a));
    } else {
        law_lines_follow_one_another(a, b.drop_last());
        assert((a + b).drop_last() =~= a + b.drop_last());
        assert((a + b).last() == b.last());
        assert(entry_lines(a + b) =~= entry_lines(a) + entry_lines(b));
    }
}

/// Options are seen as they are, field by field.
pub proof fn law_options_as_seen(opts: CliOpts)
    ensures
        opts@.action == opts.action,
        opts@.session_name == opts.session_name@,
        opts@.command == crate::text::strings(opts.command@),
        opts@.detach_key == opts.detach_key,
        opts@.readonly == opts.readonly,
        opts@.low_priority == opts.low_priority,
        opts@.quiet == opts.quiet,
        opts@.force == opts.force,
        opts@.ring_size == opts.ring_size,
        opts@.ring_given == opts.ring_given,
{
}

/// Sessions of a listing and entries of a directory are seen as they are, one by one.
pub proof fn law_entries_as_seen(es: Seq<ListEntry>, entries: Seq<(String, bool)>, i: int)
    ensures
        entry_views(es).len() == es.len(),
        0 <= i < es.len() ==> entry_views(es)[i].name == es[i].name@ && entry_views(es)[i].welcome
            == es[i].welcome,
        entries_seen(entries).len() == entries.len(),
        0 <= i < entries.len() ==> entries_seen(entries)[i] == (entries[i].0@, entries[i].1),
{
}

/// A server that was told to end is looked at again every 20 milliseconds, for five seconds.
pub proof fn law_how_long_ending_may_take()
    ensures
        TERMINATE_POLL_MS == 20,
        TERMINATE_LIMIT_MS == 5000,
{
}

} // verus!
