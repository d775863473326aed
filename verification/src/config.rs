//! The server's configuration, as the command line gives it.

use vstd::prelude::*;

verus! {

/// The flag that precedes the base directory on the command line.
pub const FLAG_DIRECTORY: &'static str = "--directory";

/// The base directory that the arguments `args` configure, the program's
/// name among them: the third, where there are exactly three and the second
/// is the flag `--directory`. Every other shape of arguments configures
/// none.
pub open spec fn configured_directory(args: Seq<String>) -> Option<String> {
    if args.len() == 3 && args[1]@ == FLAG_DIRECTORY@ {
        Some(args[2])
    } else {
        None
    }
}

/// Takes the base directory from the arguments of the command line.
pub fn parse_directory(args: &Vec<String>) -> (directory: Option<String>)
    ensures
        directory == configured_directory(args@),
{
    if args.len() == 3 {
        let flag = FLAG_DIRECTORY.to_owned();
        if args[1] == flag {
            Some(args[2].clone())
        } else {
            None
        }
    } else {
        None
    }
}

} // verus!
