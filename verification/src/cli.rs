//! The command line of the server.

use vstd::prelude::*;
use crate::text::{chars_of, str_eq};

verus! {

/// What the command line asks for.
#[derive(Debug, PartialEq, Eq)]
pub enum CliAction {
    /// Serve the protocol on standard input and output.
    Serve,
    /// Print the version.
    Version,
    /// Print the usage.
    Help,
    /// An option that is not known.
    Unknown(String),
}

/// What one argument asks for: `--version`/`-V` and `--help`/`-h` stop the
/// scan, as does any other argument starting with `-` except `--stdio`;
/// anything else is passed over (none).
pub open spec fn arg_action(a: Seq<char>) -> Option<CliAction> {
    if a == "--version"@ || a == "-V"@ {
        Some(CliAction::Version)
    } else if a == "--help"@ || a == "-h"@ {
        Some(CliAction::Help)
    } else if a == "--stdio"@ {
        None
    } else if a.len() > 0 && a[0] == '-' {
        Some(CliAction::Unknown(arbitrary()))
    } else {
        None
    }
}

/// The action of the first argument that has one; serving where none has.
pub open spec fn spec_cli_action(args: Seq<Seq<char>>) -> Option<(int, CliAction)>
    decreases args.len(),
{
    if args.len() == 0 {
        None
    } else {
        match spec_cli_action(args.drop_last()) {
            Some(r) => Some(r),
            None => match arg_action(args.last()) {
                Some(a) => Some((args.len() - 1, a)),
                None => None,
            },
        }
    }
}

pub open spec fn same_action(a: CliAction, b: CliAction) -> bool {
    match (a, b) {
        (CliAction::Serve, CliAction::Serve) => true,
        (CliAction::Version, CliAction::Version) => true,
        (CliAction::Help, CliAction::Help) => true,
        (CliAction::Unknown(_), CliAction::Unknown(_)) => true,
        _ => false,
    }
}

fn action_of(a: &str) -> (r: Option<CliAction>)
    ensures
        match arg_action(a@) {
            Some(x) => r is Some && same_action(r->0, x) && (r->0 matches CliAction::Unknown(s)
                ==> s@ == a@),
            None => r is None,
        },
{
    proof {
        reveal_strlit("--version");
        reveal_strlit("-V");
        reveal_strlit("--help");
        reveal_strlit("-h");
        reveal_strlit("--stdio");
    }
    if str_eq(a, "--version") || str_eq(a, "-V") {
        Some(CliAction::Version)
    } else if str_eq(a, "--help") || str_eq(a, "-h") {
        Some(CliAction::Help)
    } else if str_eq(a, "--stdio") {
        None
    } else {
        let c = chars_of(a);
        if c.len() > 0 && c[0] == '-' {
            Some(CliAction::Unknown(a.to_string()))
        } else {
            None
        }
    }
}

/// What the arguments (without the program name) ask for: the action of
/// the first argument that has one, serving where none has. An unknown
/// option carries its text.
pub fn cli_action(args: &Vec<String>) -> (r: CliAction)
    ensures
        match spec_cli_action(args@.map_values(|s: String| s@)) {
            Some((i, x)) => same_action(r, x) && (r matches CliAction::Unknown(s) ==> s@ == args@[i]@),
            None => r == CliAction::Serve,
        },
{
    let ghost v = args@.map_values(|s: String| s@);
    let mut i: usize = 0;
    while i < args.len()
        invariant
            i <= args@.len(),
            v == args@.map_values(|s: String| s@),
            spec_cli_action(v.take(i as int)) is None,
        decreases args@.len() - i,
    {
        assert(v.take(i + 1).drop_last() =~= v.take(i as int));
        assert(v.take(i + 1).last() == args@[i as int]@);
        match action_of(args[i].as_str()) {
            Some(a) => {
                proof {
                    lemma_cli_prefix(v, i + 1);
                }
                return a;
            },
            None => {},
        }
        i = i + 1;
    }
    assert(v.take(v.len() as int) =~= v);
    CliAction::Serve
}

/// The first action found in a prefix is the action of the whole.
proof fn lemma_cli_prefix(v: Seq<Seq<char>>, k: int)
    requires
        0 <= k <= v.len(),
        spec_cli_action(v.take(k)) is Some,
    ensures
        spec_cli_action(v) == spec_cli_action(v.take(k)),
    decreases v.len() - k,
{
    if k < v.len() {
        assert(v.take(k + 1).drop_last() =~= v.take(k));
        lemma_cli_prefix(v, k + 1);
    } else {
        assert(v.take(k) =~= v);
    }
}

} // verus!
