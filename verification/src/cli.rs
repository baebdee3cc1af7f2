//! Reading the command line: positional source and destination, an
//! optional `--` separator ahead of flags passed through to the copy
//! tool, and a `--version` switch honoured among the first three
//! arguments.

use vstd::prelude::*;
use vstd::string::*;
use crate::text::str_eq;

verus! {

/// What one invocation asks for, as mathematical values.
pub enum CliPlan {
    ShowVersion,
    Transfer { source: Seq<char>, destination: Seq<char>, passthrough: Seq<Seq<char>> },
    TooManyArguments,
    TooFewArguments { given: int },
}

/// A requested transfer: where from, where to, and what to hand the copy
/// tool verbatim.
pub struct TransferArgs {
    pub source: String,
    pub destination: String,
    pub passthrough: Vec<String>,
}

/// One invocation's parsed command line.
pub enum CliRequest {
    ShowVersion,
    Transfer(TransferArgs),
    TooManyArguments,
    TooFewArguments(usize),
}

impl View for CliRequest {
    type V = CliPlan;

    open spec fn view(&self) -> CliPlan {
        match self {
            CliRequest::ShowVersion => CliPlan::ShowVersion,
            CliRequest::Transfer(t) => CliPlan::Transfer {
                source: t.source@,
                destination: t.destination@,
                passthrough: t.passthrough.deep_view(),
            },
            CliRequest::TooManyArguments => CliPlan::TooManyArguments,
            CliRequest::TooFewArguments(n) => CliPlan::TooFewArguments { given: *n as int },
        }
    }
}

/// How the command line is read, in the order the arguments stand:
/// `--version` among the first three wins; otherwise the first two
/// arguments name the source and destination, a third must be the literal
/// `--`, and whatever follows it is passed through.
pub open spec fn cli_plan(args: Seq<Seq<char>>) -> CliPlan {
    if args.len() > 0 && args[0] == "--version"@ {
        CliPlan::ShowVersion
    } else if args.len() > 1 && args[1] == "--version"@ {
        CliPlan::ShowVersion
    } else if args.len() > 2 && args[2] == "--version"@ {
        CliPlan::ShowVersion
    } else if args.len() > 2 && args[2] != "--"@ {
        CliPlan::TooManyArguments
    } else if args.len() < 2 {
        CliPlan::TooFewArguments { given: args.len() as int }
    } else {
        CliPlan::Transfer {
            source: args[0],
            destination: args[1],
            passthrough: if args.len() >= 3 {
                args.skip(3)
            } else {
                Seq::empty()
            },
        }
    }
}

/// Read the arguments after the program name into a request.
pub fn read_arguments(args: &Vec<String>) -> (r: CliRequest)
    ensures
        r@ == cli_plan(args.deep_view()),
{
    let n = args.len();
    if n > 0 && str_eq(args[0].as_str(), "--version") {
        return CliRequest::ShowVersion;
    }
    if n > 1 && str_eq(args[1].as_str(), "--version") {
        return CliRequest::ShowVersion;
    }
    if n > 2 && str_eq(args[2].as_str(), "--version") {
        return CliRequest::ShowVersion;
    }
    if n > 2 && !str_eq(args[2].as_str(), "--") {
        return CliRequest::TooManyArguments;
    }
    if n < 2 {
        return CliRequest::TooFewArguments(n);
    }
    let mut passthrough: Vec<String> = Vec::new();
    if n > 3 {
        let mut i: usize = 3;
        while i < n
            invariant
                3 <= i <= n,
                n == args@.len(),
                passthrough@ =~= args@.subrange(3, i as int),
            decreases n - i,
        {
            passthrough.push(args[i].clone());
            proof {
                assert(passthrough@ =~= args@.subrange(3, i + 1));
            }
            i += 1;
        }
    }
    proof {
        if args@.len() >= 3 {
            assert(passthrough@ =~= args@.skip(3));
            assert forall|j: int| 0 <= j < passthrough.deep_view().len() implies
                passthrough.deep_view()[j] == args.deep_view().skip(3)[j] by {
                assert(passthrough@[j] == args@[3 + j]);
                assert(args.deep_view()[3 + j] == args@[3 + j]@);
            }
            assert(passthrough.deep_view() =~= args.deep_view().skip(3));
        } else {
            assert(passthrough.deep_view() =~= Seq::<Seq<char>>::empty());
        }
    }
    CliRequest::Transfer(
        TransferArgs {
            source: args[0].clone(),
            destination: args[1].clone(),
            passthrough,
        },
    )
}

/// The argument list handed to the copy tool: the progress flag, the
/// source and destination as `if=`/`of=` pairs, then the pass-through
/// flags verbatim.
pub open spec fn copy_tool_args(
    source: Seq<char>,
    destination: Seq<char>,
    passthrough: Seq<Seq<char>>,
) -> Seq<Seq<char>> {
    seq!["status=progress"@, "if="@ + source, "of="@ + destination] + passthrough
}

/// Build the copy tool's argument list for a requested transfer.
pub fn build_copy_tool_args(t: &TransferArgs) -> (r: Vec<String>)
    ensures
        r.deep_view() == copy_tool_args(t.source@, t.destination@, t.passthrough.deep_view()),
{
    let mut out: Vec<String> = Vec::new();
    out.push(String::from_str("status=progress"));
    out.push(String::from_str("if=").concat(t.source.as_str()));
    out.push(String::from_str("of=").concat(t.destination.as_str()));
    let ghost head = out@;
    proof {
        assert(head.len() == 3);
        assert(head[0]@ == "status=progress"@);
        assert(head[1]@ == "if="@ + t.source@);
        assert(head[2]@ == "of="@ + t.destination@);
    }
    let n = t.passthrough.len();
    let mut i: usize = 0;
    while i < n
        invariant
            0 <= i <= n,
            n == t.passthrough@.len(),
            out@.len() == 3 + i,
            out@.take(3) =~= head,
            head.len() == 3,
            head[0]@ == "status=progress"@,
            head[1]@ == "if="@ + t.source@,
            head[2]@ == "of="@ + t.destination@,
            out@.skip(3) =~= t.passthrough@.take(i as int),
        decreases n - i,
    {
        out.push(t.passthrough[i].clone());
        proof {
            assert(out@.take(3) =~= head);
            assert(out@.skip(3) =~= t.passthrough@.take(i + 1));
        }
        i += 1;
    }
    proof {
        let goal = copy_tool_args(t.source@, t.destination@, t.passthrough.deep_view());
        assert(goal.len() == 3 + n);
        assert forall|j: int| 0 <= j < out.deep_view().len() implies out.deep_view()[j] == goal[j]
            by {
            assert(out.deep_view()[j] == out@[j]@);
            if j < 3 {
                assert(out@[j] == head[j]);
            } else {
                assert(out@[j] == out@.skip(3)[j - 3]);
                assert(out@[j] == t.passthrough@[j - 3]);
                assert(t.passthrough.deep_view()[j - 3] == t.passthrough@[j - 3]@);
            }
        }
        assert(out.deep_view() =~= goal);
    }
    out
}

} // verus!
