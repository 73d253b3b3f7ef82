//! Selection of the display mode from the command line, and the
//! diagnostic for a call with too many arguments.

use vstd::prelude::*;
use vstd::string::*;
use crate::entry::DisplayMode;
use crate::strutil::str_eq;

verus! {

/// The mode a single flag token selects; any unrecognized token falls
/// back to the normal mode.
pub open spec fn spec_mode_of(flag: Seq<char>) -> DisplayMode {
    if flag == "-l"@ {
        DisplayMode::Long
    } else if flag == "-a"@ {
        DisplayMode::All
    } else if flag == "-R"@ {
        DisplayMode::Recursive
    } else if flag == "-lh"@ {
        DisplayMode::HumanReadable
    } else {
        DisplayMode::Normal
    }
}

/// The mode of a whole argument vector (program name included): the
/// single flag's mode when one was given, else the normal mode.
pub open spec fn spec_invocation_mode(args: Seq<String>) -> DisplayMode {
    if args.len() == 2 {
        spec_mode_of(args[1]@)
    } else {
        DisplayMode::Normal
    }
}

/// The diagnostic printed when a second positional argument is given.
pub open spec fn spec_arg_error(extra: Seq<char>) -> Seq<char> {
    "ls: cannot access '"@ + extra + "'"@
}

/// Decide the display mode from the argument vector, program name
/// included. More than one positional argument is refused with the
/// access diagnostic naming the second one.
pub fn parse_invocation(args: &Vec<String>) -> (r: Result<DisplayMode, String>)
    ensures
        args@.len() <= 2 ==> r is Ok && r->Ok_0 == spec_invocation_mode(args@),
        args@.len() > 2 ==> r is Err && r->Err_0@ == spec_arg_error(args@[2]@),
{
    if args.len() > 2 {
        let mut m = String::from_str("ls: cannot access '");
        m.append(args[2].as_str());
        m.append("'");
        proof {
            assert(m@ =~= spec_arg_error(args@[2]@));
        }
        return Err(m);
    }
    if args.len() == 2 {
        let flag = args[1].as_str();
        let mode = if str_eq(flag, "-l") {
            DisplayMode::Long
        } else if str_eq(flag, "-a") {
            DisplayMode::All
        } else if str_eq(flag, "-R") {
            DisplayMode::Recursive
        } else if str_eq(flag, "-lh") {
            DisplayMode::HumanReadable
        } else {
            DisplayMode::Normal
        };
        Ok(mode)
    } else {
        Ok(DisplayMode::Normal)
    }
}

} // verus!
