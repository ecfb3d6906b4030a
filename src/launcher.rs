//! The launcher: what this process does with its configuration, and the
//! plan for starting the forwarder and replacing itself with the target.
use vstd::prelude::*;
use libc::pid_t;
use crate::config::{resolved_args, Args, ConfigError, WatchdogVar};
use crate::forwarder::{started, Forwarder};
use crate::text::{int_text, pid_text};

verus! {

/// How the launcher starts the forwarder and becomes the target program.
#[derive(Clone, Debug, PartialEq, Eq)]
pub struct LaunchPlan {
    /// The identifier of this process, which the forwarder watches.
    pub pid: pid_t,
    /// The arguments that start this program again as the forwarder;
    /// absent when no supervisor watches, and then no forwarder is started.
    pub helper_args: Option<Vec<String>>,
    /// The target program.
    pub program: String,
    /// The target program's arguments.
    pub program_args: Vec<String>,
}

/// What this process does.
#[derive(Clone, Debug, PartialEq, Eq)]
pub enum Role {
    /// Print the usage text and exit successfully.
    Help,
    /// Run the forwarder.
    Forward(Forwarder),
    /// The forwarder was asked for, but no supervisor watches: exit
    /// successfully without forwarding anything.
    Unsupervised,
    /// Start the forwarder if needed, then become the target program.
    Launch(LaunchPlan),
}

/// The arguments that make this program the forwarder of process `pid`.
pub open spec fn helper_argv(healthcheck: Seq<char>, pid: pid_t) -> Seq<Seq<char>> {
    seq!["--healthcheck"@, healthcheck, "--pid"@, int_text(pid as int)]
}

/// The texts of a sequence of strings.
pub open spec fn views(v: Seq<String>) -> Seq<Seq<char>> {
    v.map_values(|s: String| s@)
}

/// Whether `p` is the plan for process `pid` that runs `free` as the target
/// with the given health check and interval.
pub open spec fn is_launch_plan(
    p: LaunchPlan,
    healthcheck: String,
    interval: Option<u64>,
    free: Seq<String>,
    pid: pid_t,
) -> bool {
    &&& free.len() > 0
    &&& p.pid == pid
    &&& p.program == free[0]
    &&& p.program_args@ == free.drop_first()
    &&& (p.helper_args is Some <==> interval is Some)
    &&& p.helper_args is Some ==> views(p.helper_args->Some_0@) == helper_argv(healthcheck@, pid)
}

/// Plans the launch of `free` from process `pid`. A missing target command
/// is an error; when `interval` is absent no forwarder is planned.
pub fn plan_launch(healthcheck: String, interval: Option<u64>, free: Vec<String>, pid: pid_t) -> (r:
    Result<LaunchPlan, ConfigError>)
    ensures
        free@.len() == 0 ==> r == Err::<LaunchPlan, ConfigError>(ConfigError::MissingCommand),
        free@.len() > 0 ==> r is Ok && is_launch_plan(r->Ok_0, healthcheck, interval, free@, pid),
{
    let mut free = free;
    if free.len() == 0 {
        return Err(ConfigError::MissingCommand);
    }
    let ghost all = free@;
    let program = free.remove(0);
    let helper_args = match interval {
        Some(_) => {
            let mut v: Vec<String> = Vec::new();
            let flag = "--healthcheck".to_string();
            let pid_flag = "--pid".to_string();
            proof {
                broadcast use vstd::string::to_string_from_display_ensures_for_str;
            }
            v.push(flag);
            v.push(healthcheck);
            v.push(pid_flag);
            v.push(pid_text(pid));
            assert(views(v@) =~= helper_argv(healthcheck@, pid));
            Some(v)
        },
        None => None,
    };
    assert(free@ =~= all.drop_first());
    Ok(LaunchPlan { pid, helper_args, program, program_args: free })
}

/// Relies on nix::unistd::getpid: the identifier of this process. It
/// depends on the system, so nothing is stated of it.
#[verifier::external_body]
fn own_pid() -> pid_t {
    nix::unistd::getpid().as_raw()
}

/// Decides what this process does: the usage text when it is asked for,
/// the forwarder when a watched process is given, else the launch of the
/// target program on behalf of this process.
pub fn choose_role(args: Args) -> (r: Result<Role, ConfigError>)
    ensures
        args.help ==> r == Ok::<Role, ConfigError>(Role::Help),
        !args.help && args.pid is Some ==> r == Ok::<Role, ConfigError>(
            match args.interval {
                Some(t) => Role::Forward(started(args.pid->Some_0, t)),
                None => Role::Unsupervised,
            },
        ),
        !args.help && args.pid is None && args.free@.len() == 0 ==> r == Err::<Role, ConfigError>(
            ConfigError::MissingCommand,
        ),
        !args.help && args.pid is None && args.free@.len() > 0 ==> r is Ok && r->Ok_0 is Launch
            && is_launch_plan(
            r->Ok_0->Launch_0,
            args.healthcheck,
            args.interval,
            args.free@,
            r->Ok_0->Launch_0.pid,
        ),
{
    if args.help {
        return Ok(Role::Help);
    }
    match args.pid {
        Some(p) => match args.interval {
            Some(t) => Ok(Role::Forward(Forwarder::new(p, t))),
            None => Ok(Role::Unsupervised),
        },
        None => {
            let pid = own_pid();
            match plan_launch(args.healthcheck, args.interval, args.free, pid) {
                Ok(plan) => Ok(Role::Launch(plan)),
                Err(e) => Err(e),
            }
        },
    }
}

/// Without a heartbeat variable no interval is derived, and the launch goes
/// straight to the target program without starting a forwarder.
pub proof fn absent_heartbeat_skips_forwarder(
    healthcheck: String,
    free: Vec<String>,
    plan: LaunchPlan,
    pid: pid_t,
)
    requires
        is_launch_plan(plan, healthcheck, None, free@, pid),
    ensures
        resolved_args(None, healthcheck, false, free, WatchdogVar::Absent) == Ok::<Args, ConfigError>(
            Args { pid: None, healthcheck, help: false, free, interval: None },
        ),
        plan.helper_args is None,
        plan.program == free@[0],
        plan.program_args@ == free@.drop_first(),
{
}

} // verus!
