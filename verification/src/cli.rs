//! What `sd` is asked to do, from its command-line arguments.
//!
//! `--help`/`-h` (or no argument) shows the help, `--list` lists stacks, a
//! known subcommand is parsed as such, and a bare `<stack> [flags]` is
//! shorthand for `rebase <stack> [flags]`.
use vstd::prelude::*;
use crate::text::views;

verus! {

/// The names of the subcommands.
pub open spec fn is_subcommand(a: Seq<char>) -> bool {
    ||| a == "init"@
    ||| a == "add"@
    ||| a == "rm"@
    ||| a == "show"@
    ||| a == "status"@
    ||| a == "rebase"@
    ||| a == "push"@
    ||| a == "sync"@
    ||| a == "completions"@
}

/// Why the arguments were refused.
pub enum ArgError {
    /// A flag that `sd` does not know.
    UnknownFlag { flag: String },
    /// `--remote` was the last argument.
    RemoteNeedsValue,
    /// A second positional argument after the stack's name.
    UnexpectedPositional { arg: String, stack: String },
}

/// What to do.
pub enum Invocation {
    Help,
    List,
    /// A subcommand: its arguments are parsed by the subcommand parser.
    Subcommand,
    /// `sd <stack> [flags]`: rebase (or, with `--abort`, abort) the stack.
    Rebase { stack: String, fetch: bool, remote: String, abort: bool },
    Refused { error: ArgError },
}

/// The outcome of parsing, as a mathematical value.
pub enum Dispatch {
    Help,
    List,
    Subcommand,
    Rebase { stack: Seq<char>, fetch: bool, remote: Seq<char>, abort: bool },
    UnknownFlag { flag: Seq<char> },
    RemoteNeedsValue,
    UnexpectedPositional { arg: Seq<char>, stack: Seq<char> },
}

pub open spec fn dispatch_of(i: Invocation) -> Dispatch {
    match i {
        Invocation::Help => Dispatch::Help,
        Invocation::List => Dispatch::List,
        Invocation::Subcommand => Dispatch::Subcommand,
        Invocation::Rebase { stack, fetch, remote, abort } => Dispatch::Rebase {
            stack: stack@,
            fetch,
            remote: remote@,
            abort,
        },
        Invocation::Refused { error } => match error {
            ArgError::UnknownFlag { flag } => Dispatch::UnknownFlag { flag: flag@ },
            ArgError::RemoteNeedsValue => Dispatch::RemoteNeedsValue,
            ArgError::UnexpectedPositional { arg, stack } => Dispatch::UnexpectedPositional {
                arg: arg@,
                stack: stack@,
            },
        },
    }
}

pub open spec fn is_flag(a: Seq<char>) -> bool {
    a.len() > 0 && a[0] == '-'
}

/// The flags after a bare stack name, read from position `i` on: `--no-fetch`
/// and `--fetch` turn fetching off and on, `--abort` asks for an abort, and
/// `--remote NAME` picks the remote; the last one given wins.
pub open spec fn parse_rebase_flags(
    stack: Seq<char>,
    rest: Seq<Seq<char>>,
    i: int,
    fetch: bool,
    remote: Seq<char>,
    abort: bool,
) -> Dispatch
    decreases rest.len() - i,
{
    if i < 0 || i >= rest.len() {
        Dispatch::Rebase { stack, fetch, remote, abort }
    } else {
        let a = rest[i];
        if a == "--no-fetch"@ {
            parse_rebase_flags(stack, rest, i + 1, false, remote, abort)
        } else if a == "--fetch"@ {
            parse_rebase_flags(stack, rest, i + 1, true, remote, abort)
        } else if a == "--abort"@ {
            parse_rebase_flags(stack, rest, i + 1, fetch, remote, true)
        } else if a == "--remote"@ {
            if i + 1 >= rest.len() {
                Dispatch::RemoteNeedsValue
            } else {
                parse_rebase_flags(stack, rest, i + 2, fetch, rest[i + 1], abort)
            }
        } else if is_flag(a) {
            Dispatch::UnknownFlag { flag: a }
        } else {
            Dispatch::UnexpectedPositional { arg: a, stack }
        }
    }
}

/// What the arguments (after the program's name) ask for.
pub open spec fn spec_dispatch(args: Seq<Seq<char>>) -> Dispatch {
    if args.len() == 0 {
        Dispatch::Help
    } else {
        let first = args[0];
        if first == "--help"@ || first == "-h"@ {
            Dispatch::Help
        } else if first == "--list"@ {
            Dispatch::List
        } else if is_flag(first) && !is_subcommand(first) {
            Dispatch::UnknownFlag { flag: first }
        } else if is_subcommand(first) {
            Dispatch::Subcommand
        } else {
            parse_rebase_flags(first, args.drop_first(), 0, true, "origin"@, false)
        }
    }
}

/// A flag that may follow a bare stack name, as a value.
pub enum RebaseFlag {
    NoFetch,
    Fetch,
    Abort,
    Remote(Seq<char>),
}

/// The arguments that spell a flag: `--remote` takes the next one as its value.
pub open spec fn flag_tokens(f: RebaseFlag) -> Seq<Seq<char>> {
    match f {
        RebaseFlag::NoFetch => seq!["--no-fetch"@],
        RebaseFlag::Fetch => seq!["--fetch"@],
        RebaseFlag::Abort => seq!["--abort"@],
        RebaseFlag::Remote(x) => seq!["--remote"@, x],
    }
}

/// The arguments that spell a sequence of flags.
pub open spec fn render_flags(fs: Seq<RebaseFlag>) -> Seq<Seq<char>>
    decreases fs.len(),
{
    if fs.len() == 0 {
        Seq::empty()
    } else {
        flag_tokens(fs[0]) + render_flags(fs.drop_first())
    }
}

/// The settings `(fetch, remote, abort)` once the flags are applied in
/// order to `(fetch, remote, abort)`: the last one of each kind wins.
pub open spec fn apply_flags(fs: Seq<RebaseFlag>, fetch: bool, remote: Seq<char>, abort: bool) -> (bool, Seq<char>, bool)
    decreases fs.len(),
{
    if fs.len() == 0 {
        (fetch, remote, abort)
    } else {
        let rest = fs.drop_first();
        match fs[0] {
            RebaseFlag::NoFetch => apply_flags(rest, false, remote, abort),
            RebaseFlag::Fetch => apply_flags(rest, true, remote, abort),
            RebaseFlag::Abort => apply_flags(rest, fetch, remote, true),
            RebaseFlag::Remote(x) => apply_flags(rest, fetch, x, abort),
        }
    }
}

proof fn lemma_parse_rendered(
    stack: Seq<char>,
    pre: Seq<Seq<char>>,
    fs: Seq<RebaseFlag>,
    fetch: bool,
    remote: Seq<char>,
    abort: bool,
)
    ensures
        ({
            let (f, r, a) = apply_flags(fs, fetch, remote, abort);
            parse_rebase_flags(stack, pre + render_flags(fs), pre.len() as int, fetch, remote, abort)
                == Dispatch::Rebase { stack, fetch: f, remote: r, abort: a }
        }),
    decreases fs.len(),
{
    reveal_strlit("--no-fetch");
    reveal_strlit("--fetch");
    reveal_strlit("--abort");
    reveal_strlit("--remote");
    let all = pre + render_flags(fs);
    let i = pre.len() as int;
    if fs.len() == 0 {
        assert(all.len() == i);
    } else {
        let toks = flag_tokens(fs[0]);
        let pre2 = pre + toks;
        assert(all =~= pre2 + render_flags(fs.drop_first()));
        assert(all[i] == toks[0]);
        lemma_parse_rendered(stack, pre2, fs.drop_first(), match fs[0] {
            RebaseFlag::NoFetch => false,
            RebaseFlag::Fetch => true,
            _ => fetch,
        }, match fs[0] {
            RebaseFlag::Remote(x) => x,
            _ => remote,
        }, match fs[0] {
            RebaseFlag::Abort => true,
            _ => abort,
        });
        match fs[0] {
            RebaseFlag::NoFetch => {
                assert(all[i] =~= "--no-fetch"@);
            },
            RebaseFlag::Fetch => {
                assert(all[i] =~= "--fetch"@);
                assert(all[i] != "--no-fetch"@);
            },
            RebaseFlag::Abort => {
                assert(all[i] =~= "--abort"@);
                assert(all[i] != "--no-fetch"@);
                assert(all[i][2] == 'a' && "--fetch"@[2] == 'f');
                assert(all[i] != "--fetch"@);
            },
            RebaseFlag::Remote(x) => {
                assert(all[i] =~= "--remote"@);
                assert(all[i] != "--no-fetch"@);
                assert(all[i][2] == 'r' && "--fetch"@[2] == 'f');
                assert(all[i] != "--fetch"@);
                assert(all[i] != "--abort"@);
                assert(all[i + 1] == x);
            },
        }
    }
}

/// Law of the bare form: `sd <stack> <flags>` rebases `<stack>` with the
/// settings its flags give, applied in order from fetching, the remote
/// `origin` and no abort, so that the last flag of each kind wins.
pub proof fn law_bare_stack_is_rebase(stack: Seq<char>, fs: Seq<RebaseFlag>)
    requires
        !is_flag(stack),
        !is_subcommand(stack),
    ensures
        ({
            let (f, r, a) = apply_flags(fs, true, "origin"@, false);
            spec_dispatch(seq![stack] + render_flags(fs)) == Dispatch::Rebase { stack, fetch: f, remote: r, abort: a }
        }),
{
    reveal_strlit("--help");
    reveal_strlit("-h");
    reveal_strlit("--list");
    let args = seq![stack] + render_flags(fs);
    assert(args[0] == stack);
    assert(stack != "--help"@ && stack != "-h"@ && stack != "--list"@) by {
        if stack.len() > 0 {
            assert("--help"@[0] == '-');
        }
    }
    assert(args.drop_first() =~= Seq::<Seq<char>>::empty() + render_flags(fs));
    lemma_parse_rendered(stack, Seq::empty(), fs, true, "origin"@, false);
}

fn is(a: &String, lit: &str) -> (r: bool)
    ensures
        r == (a@ == lit@),
{
    *a == lit.to_owned()
}

fn starts_with_dash(a: &String) -> (r: bool)
    ensures
        r == is_flag(a@),
{
    let s = a.as_str();
    if s.unicode_len() == 0 {
        false
    } else {
        s.get_char(0) == '-'
    }
}

fn is_subcommand_name(a: &String) -> (r: bool)
    ensures
        r == is_subcommand(a@),
{
    is(a, "init") || is(a, "add") || is(a, "rm") || is(a, "show") || is(a, "status") || is(
        a,
        "rebase",
    ) || is(a, "push") || is(a, "sync") || is(a, "completions")
}

/// Reads the command line (without the program's name).
pub fn classify(args: &Vec<String>) -> (r: Invocation)
    ensures
        dispatch_of(r) == spec_dispatch(views(args@)),
{
    if args.len() == 0 {
        return Invocation::Help;
    }
    let first = &args[0];
    proof {
        assert(views(args@)[0] == first@);
    }
    if is(first, "--help") || is(first, "-h") {
        return Invocation::Help;
    }
    if is(first, "--list") {
        return Invocation::List;
    }
    let sub = is_subcommand_name(first);
    if starts_with_dash(first) && !sub {
        return Invocation::Refused { error: ArgError::UnknownFlag { flag: first.clone() } };
    }
    if sub {
        return Invocation::Subcommand;
    }
    let ghost rest = views(args@).drop_first();
    let mut fetch = true;
    let mut remote = "origin".to_owned();
    let mut abort = false;
    let mut i: usize = 1;
    while i < args.len()
        invariant
            rest == views(args@).drop_first(),
            args@.len() >= 1,
            1 <= i <= args@.len() + 1,
            first@ == views(args@)[0],
            spec_dispatch(views(args@)) == parse_rebase_flags(first@, rest, 0, true, "origin"@, false),
            parse_rebase_flags(first@, rest, 0, true, "origin"@, false) == parse_rebase_flags(
                first@,
                rest,
                i - 1,
                fetch,
                remote@,
                abort,
            ),
        decreases args@.len() + 1 - i,
    {
        let a = &args[i];
        proof {
            assert(rest[i - 1] == a@);
        }
        if is(a, "--no-fetch") {
            fetch = false;
        } else if is(a, "--fetch") {
            fetch = true;
        } else if is(a, "--abort") {
            abort = true;
        } else if is(a, "--remote") {
            if i + 1 >= args.len() {
                return Invocation::Refused { error: ArgError::RemoteNeedsValue };
            }
            proof {
                assert(rest[i as int] == args@[i + 1]@);
            }
            remote = args[i + 1].clone();
            i += 1;
        } else if starts_with_dash(a) {
            return Invocation::Refused { error: ArgError::UnknownFlag { flag: a.clone() } };
        } else {
            return Invocation::Refused {
                error: ArgError::UnexpectedPositional { arg: a.clone(), stack: first.clone() },
            };
        }
        i += 1;
    }
    Invocation::Rebase { stack: first.clone(), fetch, remote, abort }
}

} // verus!
