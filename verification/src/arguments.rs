//! Arguments of a command line that are options, some with a value behind them.
use vstd::prelude::*;

verus! {

/// The value that stands behind the first argument.
pub open spec fn value_behind(args: Seq<Seq<char>>) -> Option<Seq<char>> {
    if args.len() > 1 {
        Some(args[1])
    } else {
        None
    }
}

/// The arguments behind the first one and, if it has one, its value.
pub open spec fn behind(args: Seq<Seq<char>>, has_value: bool) -> Seq<Seq<char>> {
    if has_value && args.len() > 1 {
        args.skip(2)
    } else {
        args.skip(1)
    }
}

// ---- where options stand ----

/// Whether argument `i` is the value of the option before it, where the options
/// in `valued` have one. Every other argument stands for an option.
pub open spec fn is_value(args: Seq<Seq<char>>, valued: Set<Seq<char>>, i: int) -> bool
    decreases i,
{
    i > 0 && !is_value(args, valued, i - 1) && valued.contains(args[i - 1])
}

/// Where an option stands among the first `n` arguments.
pub open spec fn places(
    args: Seq<Seq<char>>,
    valued: Set<Seq<char>>,
    option: Seq<char>,
    n: int,
) -> Seq<int>
    decreases n,
{
    if n <= 0 {
        seq![]
    } else if args[n - 1] == option && !is_value(args, valued, n - 1) {
        places(args, valued, option, n - 1).push(n - 1)
    } else {
        places(args, valued, option, n - 1)
    }
}

/// The argument behind place `i`, if there is one.
pub open spec fn argument_behind(args: Seq<Seq<char>>, i: int) -> Option<Seq<char>> {
    if i + 1 < args.len() {
        Some(args[i + 1])
    } else {
        None
    }
}

/// The argument behind the last of the places, if there is one.
pub open spec fn last_argument(args: Seq<Seq<char>>, places: Seq<int>) -> Option<Seq<char>> {
    if places.len() > 0 {
        argument_behind(args, places.last())
    } else {
        None
    }
}

} // verus!
