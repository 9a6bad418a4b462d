//! The server's command line: its options, and the arguments and flags that
//! plugins register, read back by id.
use crate::text::str_eq;
use vstd::prelude::*;

verus! {

/// The server's own options.
#[derive(Clone, Debug)]
pub struct Cli {
    /// Save logs to the filesystem
    pub save_logs: bool,
    /// Number of milliseconds to wait before forcefully shutting down (and possibly losing data) (neg. to disable)
    pub shutdown_timeout: i32,
    /// Number of tokio worker threads for networking
    pub net_workers: usize,
    /// Port on which to start the server
    pub port: u16,
}

impl Default for Cli {
    /// The options when none is given.
    fn default() -> (res: Self)
        ensures
            !res.save_logs,
            res.shutdown_timeout == 5000,
            res.net_workers == 4,
            res.port == 25565,
    {
        Cli { save_logs: false, shutdown_timeout: 5000, net_workers: 4, port: 25565 }
    }
}

/// The command line as parsed: each registered argument with its first value
/// if it was given, and each registered flag with whether it was set.
#[derive(Clone, Debug)]
pub struct CmdMatches {
    pub args: Vec<(String, Option<String>)>,
    pub flags: Vec<(String, bool)>,
}

/// Whether an argument with this id was registered.
pub open spec fn arg_registered(args: Seq<(String, Option<String>)>, id: Seq<char>) -> bool {
    exists|i: int| 0 <= i < args.len() && (#[trigger] args[i]).0@ == id
}

/// The value of the first registered argument with this id.
pub open spec fn arg_value(args: Seq<(String, Option<String>)>, id: Seq<char>) -> Option<Seq<char>>
    decreases args.len(),
{
    if args.len() == 0 {
        None
    } else if args[0].0@ == id {
        match args[0].1 {
            Some(v) => Some(v@),
            None => None,
        }
    } else {
        arg_value(args.skip(1), id)
    }
}

pub open spec fn flag_registered(flags: Seq<(String, bool)>, id: Seq<char>) -> bool {
    exists|i: int| 0 <= i < flags.len() && (#[trigger] flags[i]).0@ == id
}

/// Whether the first registered flag with this id was set.
pub open spec fn flag_value(flags: Seq<(String, bool)>, id: Seq<char>) -> bool
    decreases flags.len(),
{
    if flags.len() == 0 {
        false
    } else if flags[0].0@ == id {
        flags[0].1
    } else {
        flag_value(flags.skip(1), id)
    }
}

/// Retrieves a command line argument, if it was set. Asking for an argument
/// that was never registered is a mistake of the caller.
pub fn get_arg<'a>(matches: &'a CmdMatches, arg: &str) -> (res: Option<&'a str>)
    requires
        arg_registered(matches.args@, arg@),
    ensures
        match res {
            Some(v) => arg_value(matches.args@, arg@) == Some(v@),
            None => arg_value(matches.args@, arg@) is None,
        },
{
    let args = &matches.args;
    let mut i: usize = 0;
    assert(args@.skip(0) =~= args@);
    while i < args.len()
        invariant
            i <= args@.len(),
            args@ == matches.args@,
            arg_value(args@, arg@) == arg_value(args@.skip(i as int), arg@),
            exists|j: int| i <= j < args@.len() && (#[trigger] args@[j]).0@ == arg@,
        decreases args@.len() - i,
    {
        let ghost rest = args@.skip(i as int);
        assert(rest[0] == args@[i as int]);
        assert(rest.skip(1) =~= args@.skip(i + 1));
        if str_eq(args[i].0.as_str(), arg) {
            return match &args[i].1 {
                Some(v) => Some(v.as_str()),
                None => None,
            };
        }
        i = i + 1;
    }
    None
}

/// Checks if a command line flag was set. Asking for a flag that was never
/// registered is a mistake of the caller.
pub fn get_flag(matches: &CmdMatches, arg: &str) -> (res: bool)
    requires
        flag_registered(matches.flags@, arg@),
    ensures
        res == flag_value(matches.flags@, arg@),
{
    let flags = &matches.flags;
    let mut i: usize = 0;
    assert(flags@.skip(0) =~= flags@);
    while i < flags.len()
        invariant
            i <= flags@.len(),
            flags@ == matches.flags@,
            flag_value(flags@, arg@) == flag_value(flags@.skip(i as int), arg@),
            exists|j: int| i <= j < flags@.len() && (#[trigger] flags@[j]).0@ == arg@,
        decreases flags@.len() - i,
    {
        let ghost rest = flags@.skip(i as int);
        assert(rest[0] == flags@[i as int]);
        assert(rest.skip(1) =~= flags@.skip(i + 1));
        if str_eq(flags[i].0.as_str(), arg) {
            return flags[i].1;
        }
        i = i + 1;
    }
    false
}

} // verus!
