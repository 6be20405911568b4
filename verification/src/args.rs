//! The command specification and invocation handling.
//!
//! The supervisor is invoked as `<tool> [CMD] [ARGS..]`.  [`parse_args`]
//! classifies the invocation arguments (everything after the program name):
//! none at all asks for the usage text and a failure exit, a lone help flag
//! (`-h` or `--help`, case-insensitively) asks for the usage text and a
//! success exit, and anything else is the command to supervise with its
//! arguments.  [`announcement`] builds the one-line text announced on every
//! spawn of that command.

use vstd::prelude::*;
use vstd::string::StrSliceExecFns;
use vstd::string::StringExecFns;

verus! {

/// The command the supervisor runs: an executable name and its ordered
/// arguments, fixed for the supervisor's whole lifetime and used identically
/// on every (re)spawn.
pub struct CommandSpec {
    pub cmd: String,
    pub args: Vec<String>,
}

/// What an invocation asks for: the usage text with exit code 1 (no
/// arguments), the usage text with exit code 0 (a lone help flag), or a
/// supervised run of the given command.
pub enum ArgsOutcome {
    NoCommand,
    Help,
    Run(CommandSpec),
}

/// Two characters match ignoring ASCII case: equal outright, or the same
/// letter with one of the two in upper case.
pub open spec fn chars_eq_nocase(a: char, b: char) -> bool {
    ||| a == b
    ||| (65 <= a as int <= 90 && a as int + 32 == b as int)
    ||| (65 <= b as int <= 90 && b as int + 32 == a as int)
}

/// Two character sequences match ignoring ASCII case.
pub open spec fn seq_eq_nocase(s: Seq<char>, t: Seq<char>) -> bool {
    s.len() == t.len() && forall|i: int| 0 <= i < s.len() ==> chars_eq_nocase(#[trigger] s[i], t[i])
}

/// A lone argument that asks for the usage text: `-h` or `--help` in any
/// case.
pub open spec fn is_help_flag(s: Seq<char>) -> bool {
    seq_eq_nocase(s, "-h"@) || seq_eq_nocase(s, "--help"@)
}

/// Compare two characters ignoring ASCII case.
fn chars_eq_nocase_exec(a: char, b: char) -> (r: bool)
    ensures
        r == chars_eq_nocase(a, b),
{
    let au = a as u32;
    let bu = b as u32;
    au == bu || (65 <= au && au <= 90 && au + 32 == bu) || (65 <= bu && bu <= 90 && bu + 32 == au)
}

/// Compare two strings ignoring ASCII case.
fn eq_nocase(s: &str, t: &str) -> (r: bool)
    ensures
        r == seq_eq_nocase(s@, t@),
{
    let sl = s.unicode_len();
    let tl = t.unicode_len();
    if sl != tl {
        return false;
    }
    let mut i: usize = 0;
    while i < sl
        invariant
            sl == s@.len(),
            tl == t@.len(),
            sl == tl,
            i <= sl,
            forall|k: int| 0 <= k < i ==> chars_eq_nocase(#[trigger] s@[k], t@[k]),
        decreases sl - i,
    {
        if !chars_eq_nocase_exec(s.get_char(i), t.get_char(i)) {
            assert(!chars_eq_nocase(s@[i as int], t@[i as int]));
            return false;
        }
        i += 1;
    }
    true
}

/// Whether one argument is a help flag.
pub fn is_help_arg(s: &String) -> (r: bool)
    ensures
        r == is_help_flag(s@),
{
    eq_nocase(s.as_str(), "-h") || eq_nocase(s.as_str(), "--help")
}

/// Classify the invocation arguments (the program name already removed):
/// no arguments ask for usage and a failure exit, exactly one argument that
/// is a help flag asks for usage and a success exit, and anything else
/// names the command to supervise — the first argument — followed by the
/// command's own arguments in their given order.
pub fn parse_args(args: Vec<String>) -> (r: ArgsOutcome)
    ensures
        args@.len() == 0 ==> r is NoCommand,
        args@.len() == 1 && is_help_flag(args@[0]@) ==> r is Help,
        args@.len() >= 1 && !(args@.len() == 1 && is_help_flag(args@[0]@)) ==> ({
            &&& r matches ArgsOutcome::Run(cs)
            &&& cs.cmd@ == args@[0]@
            &&& cs.args@.len() == args@.len() - 1
            &&& forall|i: int|
                0 <= i < args@.len() - 1 ==> (#[trigger] cs.args@[i])@ == args@[i + 1]@
        }),
{
    let ghost orig = args@;
    let mut args = args;
    if args.len() == 0 {
        return ArgsOutcome::NoCommand;
    }
    if args.len() == 1 && is_help_arg(&args[0]) {
        return ArgsOutcome::Help;
    }
    let cmd = args.remove(0);
    proof {
        assert(args@ =~= orig.subrange(1, orig.len() as int));
    }
    ArgsOutcome::Run(CommandSpec { cmd, args })
}

/// The separator and layout of the spawn announcement: the arguments joined
/// by single spaces.
pub open spec fn spec_joined(args: Seq<Seq<char>>) -> Seq<char>
    decreases args.len(),
{
    if args.len() == 0 {
        Seq::empty()
    } else if args.len() == 1 {
        args[0]
    } else {
        spec_joined(args.drop_last()) + seq![' '] + args.last()
    }
}

/// The one-line spawn announcement: the command, a space, and the joined
/// arguments.
pub open spec fn spec_announcement(cmd: Seq<char>, args: Seq<Seq<char>>) -> Seq<char> {
    cmd + seq![' '] + spec_joined(args)
}

/// Build the line announced on every spawn of the command.
pub fn announcement(cs: &CommandSpec) -> (r: String)
    ensures
        r@ == spec_announcement(cs.cmd@, cs.args@.map_values(|a: String| a@)),
{
    let ghost mapped = cs.args@.map_values(|a: String| a@);
    let mut r = cs.cmd.clone();
    r.append(" ");
    proof {
        reveal_strlit(" ");
        assert(" "@ =~= seq![' ']);
        assert(mapped.take(0) =~= Seq::<Seq<char>>::empty());
    }
    let mut i: usize = 0;
    while i < cs.args.len()
        invariant
            i <= cs.args@.len(),
            mapped == cs.args@.map_values(|a: String| a@),
            mapped.len() == cs.args@.len(),
            r@ == cs.cmd@ + seq![' '] + spec_joined(mapped.take(i as int)),
        decreases cs.args@.len() - i,
    {
        if i > 0 {
            r.append(" ");
        }
        r.append(cs.args[i].as_str());
        proof {
            reveal_strlit(" ");
            assert(" "@ =~= seq![' ']);
            assert(mapped.take(i + 1).drop_last() =~= mapped.take(i as int));
            assert(mapped.take(i + 1).last() == mapped[i as int]);
            assert(mapped[i as int] == cs.args@[i as int]@);
            if i == 0 {
                assert(spec_joined(mapped.take(1)) == mapped[0]);
            }
        }
        i += 1;
    }
    proof {
        assert(mapped.take(mapped.len() as int) =~= mapped);
    }
    r
}

} // verus!
