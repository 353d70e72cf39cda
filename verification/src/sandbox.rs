//! The confinement of a child process between its creation and the program that
//! it runs: one system call after another, each of which must succeed.
//!
//! The steps allocate nothing, as they are taken where only system calls are
//! safe.

use crate::os::SandboxPolicy;
use vstd::prelude::*;

verus! {

/// Every access to files that the ruleset handles: what no rule allows is
/// refused.
pub const HANDLED_ACCESS: u64 = 0x1fff;

/// Reading files and directories, and running programs.
pub const READ_AND_RUN: u64 = 13;

/// The number of the limit on CPU seconds.
pub const RLIMIT_CPU: u32 = 0;

/// The number of the limit on the size of files.
pub const RLIMIT_FSIZE: u32 = 1;

/// The number of the limit on processes.
pub const RLIMIT_NPROC: u32 = 6;

/// How many system directories a child may read and run programs from.
pub const SYSTEM_DIRS: usize = 4;

/// The path of a system directory, ended by a zero byte.
pub fn system_dir(i: usize) -> (r: &'static str)
    requires
        i < SYSTEM_DIRS,
    ensures
        r@ == system_path(i as int),
{
    if i == 0 {
        "/usr\0"
    } else if i == 1 {
        "/bin\0"
    } else if i == 2 {
        "/lib\0"
    } else {
        "/lib64\0"
    }
}

/// The paths of the system directories, each ended by a zero byte.
pub open spec fn system_path(i: int) -> Seq<char> {
    if i == 0 {
        "/usr\0"@
    } else if i == 1 {
        "/bin\0"@
    } else if i == 2 {
        "/lib\0"@
    } else {
        "/lib64\0"@
    }
}

/// What is to be asked of the kernel next.
#[derive(Clone, Copy, PartialEq, Eq, Debug, Structural)]
pub enum SandboxOp {
    /// No program that is run may gain privileges.
    NoNewPrivs,
    /// Both limits of a resource are set to this value.
    Limit { resource: u32, value: u64 },
    /// A ruleset for these accesses is made.
    CreateRuleset { handled: u64 },
    /// A rule: below this directory these accesses are allowed.
    AllowBelow { ruleset: i32, dir: i32, access: u64 },
    /// A system directory is opened for use in a rule.
    OpenSystemDir(usize),
    /// A descriptor is closed.
    Close(i32),
    /// The ruleset is put in force.
    Restrict(i32),
    /// The working directory is set by descriptor.
    Enter(i32),
    /// Descriptors from this one on are closed when the program is run.
    CloseOnExec(u32),
    /// The filter on system calls is installed.
    InstallFilter,
    /// All supplementary groups are dropped.
    ClearGroups,
    /// The group is set.
    SetGid(u32),
    /// The user is set.
    SetUid(u32),
}

/// Why a child is not run.
#[derive(Clone, Copy, PartialEq, Eq, Debug, Structural)]
pub enum SandboxError {
    /// The kernel gave this error number.
    Os(i32),
    /// A step was refused.
    Denied,
}

/// Which step is next.
#[derive(Clone, Copy, PartialEq, Eq, Debug, Structural)]
pub enum Stage {
    NoNewPrivs,
    Nproc,
    Fsize,
    Cpu,
    Create,
    AllowCwd,
    OpenSys,
    AllowSys,
    CloseSys(bool),
    Restrict,
    CloseRuleset,
    Enter,
    CloseOnExec,
    Filter,
    Groups,
    Gid,
    Uid,
    Done,
}

/// The confinement of one child: what it is to be, and how far it has come.
#[derive(Clone, Copy, PartialEq, Eq, Debug, Structural)]
pub struct Sandbox {
    pub policy: SandboxPolicy,
    pub cwd: i32,
    pub ruleset: i32,
    pub dir: i32,
    pub sys: usize,
    pub stage: Stage,
}

/// The step for the limit on CPU time, or what comes after it.
pub open spec fn from_cpu(p: SandboxPolicy) -> Stage {
    if p.rlimit_cpu_secs is Some {
        Stage::Cpu
    } else {
        Stage::Create
    }
}

/// The step for the limit on file sizes, or what comes after it.
pub open spec fn from_fsize(p: SandboxPolicy) -> Stage {
    if p.rlimit_fsize_bytes is Some {
        Stage::Fsize
    } else {
        from_cpu(p)
    }
}

/// The step for the limit on processes, or what comes after it.
pub open spec fn from_nproc(p: SandboxPolicy) -> Stage {
    if p.rlimit_nproc is Some {
        Stage::Nproc
    } else {
        from_fsize(p)
    }
}

/// The step for the user, or what comes after it.
pub open spec fn from_uid(p: SandboxPolicy) -> Stage {
    if p.drop_uid is Some {
        Stage::Uid
    } else {
        Stage::Done
    }
}

/// The step for the group, or what comes after it.
pub open spec fn from_gid(p: SandboxPolicy) -> Stage {
    if p.drop_gid is Some {
        Stage::Gid
    } else {
        from_uid(p)
    }
}

/// The step for the supplementary groups, or what comes after it.
pub open spec fn from_groups(p: SandboxPolicy) -> Stage {
    if p.drop_gid is Some || p.drop_uid is Some {
        Stage::Groups
    } else {
        Stage::Done
    }
}

/// What is asked of the kernel at a step.
pub open spec fn op_of(s: Sandbox) -> Option<SandboxOp> {
    match s.stage {
        Stage::NoNewPrivs => Some(SandboxOp::NoNewPrivs),
        Stage::Nproc => Some(SandboxOp::Limit { resource: RLIMIT_NPROC, value: s.policy.rlimit_nproc->0 }),
        Stage::Fsize => Some(
            SandboxOp::Limit { resource: RLIMIT_FSIZE, value: s.policy.rlimit_fsize_bytes->0 },
        ),
        Stage::Cpu => Some(SandboxOp::Limit { resource: RLIMIT_CPU, value: s.policy.rlimit_cpu_secs->0 }),
        Stage::Create => Some(SandboxOp::CreateRuleset { handled: HANDLED_ACCESS }),
        Stage::AllowCwd => Some(
            SandboxOp::AllowBelow { ruleset: s.ruleset, dir: s.cwd, access: READ_AND_RUN },
        ),
        Stage::OpenSys => Some(SandboxOp::OpenSystemDir(s.sys)),
        Stage::AllowSys => Some(
            SandboxOp::AllowBelow { ruleset: s.ruleset, dir: s.dir, access: READ_AND_RUN },
        ),
        Stage::CloseSys(_) => Some(SandboxOp::Close(s.dir)),
        Stage::Restrict => Some(SandboxOp::Restrict(s.ruleset)),
        Stage::CloseRuleset => Some(SandboxOp::Close(s.ruleset)),
        Stage::Enter => Some(SandboxOp::Enter(s.cwd)),
        Stage::CloseOnExec => Some(SandboxOp::CloseOnExec(3)),
        Stage::Filter => Some(SandboxOp::InstallFilter),
        Stage::Groups => Some(SandboxOp::ClearGroups),
        Stage::Gid => Some(SandboxOp::SetGid(s.policy.drop_gid->0)),
        Stage::Uid => Some(SandboxOp::SetUid(s.policy.drop_uid->0)),
        Stage::Done => None,
    }
}

/// The error for what the kernel returned.
pub open spec fn os_error(ret: i32) -> SandboxError {
    SandboxError::Os(
        if ret < 0 {
            (-ret) as i32
        } else {
            1
        },
    )
}

/// The confinement at another step.
pub open spec fn at(s: Sandbox, stage: Stage) -> Sandbox {
    Sandbox { stage, ..s }
}

/// On to the next system directory, or past them.
pub open spec fn next_sys(s: Sandbox) -> Sandbox {
    if s.sys + 1 < SYSTEM_DIRS {
        Sandbox { sys: (s.sys + 1) as usize, stage: Stage::OpenSys, ..s }
    } else {
        at(s, Stage::Restrict)
    }
}

/// What the kernel's answer at a step comes to: the next step, or why the child
/// is not run. A system directory that cannot be opened is passed over; any
/// other failure ends it.
pub open spec fn after(s: Sandbox, ret: i32) -> Result<Sandbox, SandboxError> {
    match s.stage {
        Stage::NoNewPrivs => if ret != 0 {
            Err(os_error(ret))
        } else {
            Ok(at(s, from_nproc(s.policy)))
        },
        Stage::Nproc => if ret != 0 {
            Err(SandboxError::Denied)
        } else {
            Ok(at(s, from_fsize(s.policy)))
        },
        Stage::Fsize => if ret != 0 {
            Err(SandboxError::Denied)
        } else {
            Ok(at(s, from_cpu(s.policy)))
        },
        Stage::Cpu => if ret != 0 {
            Err(SandboxError::Denied)
        } else {
            Ok(at(s, Stage::Create))
        },
        Stage::Create => if ret < 0 {
            Err(os_error(ret))
        } else {
            Ok(Sandbox { ruleset: ret, stage: Stage::AllowCwd, ..s })
        },
        Stage::AllowCwd => if ret != 0 {
            Err(SandboxError::Denied)
        } else {
            Ok(Sandbox { sys: 0, stage: Stage::OpenSys, ..s })
        },
        Stage::OpenSys => if ret < 0 {
            Ok(next_sys(s))
        } else {
            Ok(Sandbox { dir: ret, stage: Stage::AllowSys, ..s })
        },
        Stage::AllowSys => Ok(at(s, Stage::CloseSys(ret == 0))),
        Stage::CloseSys(ok) => if !ok {
            Err(SandboxError::Denied)
        } else {
            Ok(next_sys(s))
        },
        Stage::Restrict => if ret != 0 {
            Err(SandboxError::Denied)
        } else {
            Ok(at(s, Stage::CloseRuleset))
        },
        Stage::CloseRuleset => Ok(at(s, Stage::Enter)),
        Stage::Enter => if ret != 0 {
            Err(os_error(ret))
        } else {
            Ok(at(s, Stage::CloseOnExec))
        },
        Stage::CloseOnExec => if ret != 0 {
            Err(os_error(ret))
        } else {
            Ok(at(s, Stage::Filter))
        },
        Stage::Filter => if ret != 0 {
            Err(SandboxError::Denied)
        } else {
            Ok(at(s, from_groups(s.policy)))
        },
        Stage::Groups => if ret != 0 {
            Err(SandboxError::Denied)
        } else {
            Ok(at(s, from_gid(s.policy)))
        },
        Stage::Gid => if ret != 0 {
            Err(SandboxError::Denied)
        } else {
            Ok(at(s, from_uid(s.policy)))
        },
        Stage::Uid => if ret != 0 {
            Err(SandboxError::Denied)
        } else {
            Ok(at(s, Stage::Done))
        },
        Stage::Done => Ok(s),
    }
}

/// The confinement before its first step.
pub open spec fn begun(policy: SandboxPolicy, cwd: i32) -> Sandbox {
    Sandbox { policy, cwd, ruleset: 0, dir: 0, sys: 0, stage: Stage::NoNewPrivs }
}

impl Sandbox {
    /// A step for a limit or an identity only comes where that is set, and the
    /// system directory is one of those there are.
    pub open spec fn wf(&self) -> bool {
        &&& self.stage is Nproc ==> self.policy.rlimit_nproc is Some
        &&& self.stage is Fsize ==> self.policy.rlimit_fsize_bytes is Some
        &&& self.stage is Cpu ==> self.policy.rlimit_cpu_secs is Some
        &&& self.stage is Gid ==> self.policy.drop_gid is Some
        &&& self.stage is Uid ==> self.policy.drop_uid is Some
        &&& self.sys < SYSTEM_DIRS
    }

    /// Begins the confinement of a child that works in the directory `cwd`.
    pub fn apply(cwd: i32, policy: SandboxPolicy) -> (r: Sandbox)
        ensures
            r == begun(policy, cwd),
            r.wf(),
    {
        Sandbox { policy, cwd, ruleset: 0, dir: 0, sys: 0, stage: Stage::NoNewPrivs }
    }

    /// What to ask of the kernel next; nothing once the child is confined.
    pub fn next_op(&self) -> (r: Option<SandboxOp>)
        requires
            self.wf(),
        ensures
            r == op_of(*self),
    {
        match self.stage {
            Stage::NoNewPrivs => Some(SandboxOp::NoNewPrivs),
            Stage::Nproc => match self.policy.rlimit_nproc {
                Some(value) => Some(SandboxOp::Limit { resource: RLIMIT_NPROC, value }),
                None => None,
            },
            Stage::Fsize => match self.policy.rlimit_fsize_bytes {
                Some(value) => Some(SandboxOp::Limit { resource: RLIMIT_FSIZE, value }),
                None => None,
            },
            Stage::Cpu => match self.policy.rlimit_cpu_secs {
                Some(value) => Some(SandboxOp::Limit { resource: RLIMIT_CPU, value }),
                None => None,
            },
            Stage::Create => Some(SandboxOp::CreateRuleset { handled: HANDLED_ACCESS }),
            Stage::AllowCwd => Some(
                SandboxOp::AllowBelow { ruleset: self.ruleset, dir: self.cwd, access: READ_AND_RUN },
            ),
            Stage::OpenSys => Some(SandboxOp::OpenSystemDir(self.sys)),
            Stage::AllowSys => Some(
                SandboxOp::AllowBelow { ruleset: self.ruleset, dir: self.dir, access: READ_AND_RUN },
            ),
            Stage::CloseSys(_) => Some(SandboxOp::Close(self.dir)),
            Stage::Restrict => Some(SandboxOp::Restrict(self.ruleset)),
            Stage::CloseRuleset => Some(SandboxOp::Close(self.ruleset)),
            Stage::Enter => Some(SandboxOp::Enter(self.cwd)),
            Stage::CloseOnExec => Some(SandboxOp::CloseOnExec(3)),
            Stage::Filter => Some(SandboxOp::InstallFilter),
            Stage::Groups => Some(SandboxOp::ClearGroups),
            Stage::Gid => match self.policy.drop_gid {
                Some(g) => Some(SandboxOp::SetGid(g)),
                None => None,
            },
            Stage::Uid => match self.policy.drop_uid {
                Some(u) => Some(SandboxOp::SetUid(u)),
                None => None,
            },
            Stage::Done => None,
        }
    }

    fn stage_from_cpu(&self) -> (r: Stage)
        ensures
            r == from_cpu(self.policy),
    {
        if self.policy.rlimit_cpu_secs.is_some() {
            Stage::Cpu
        } else {
            Stage::Create
        }
    }

    fn stage_from_fsize(&self) -> (r: Stage)
        ensures
            r == from_fsize(self.policy),
    {
        if self.policy.rlimit_fsize_bytes.is_some() {
            Stage::Fsize
        } else {
            self.stage_from_cpu()
        }
    }

    fn stage_from_nproc(&self) -> (r: Stage)
        ensures
            r == from_nproc(self.policy),
    {
        if self.policy.rlimit_nproc.is_some() {
            Stage::Nproc
        } else {
            self.stage_from_fsize()
        }
    }

    fn stage_from_uid(&self) -> (r: Stage)
        ensures
            r == from_uid(self.policy),
    {
        if self.policy.drop_uid.is_some() {
            Stage::Uid
        } else {
            Stage::Done
        }
    }

    fn stage_from_gid(&self) -> (r: Stage)
        ensures
            r == from_gid(self.policy),
    {
        if self.policy.drop_gid.is_some() {
            Stage::Gid
        } else {
            self.stage_from_uid()
        }
    }

    fn stage_from_groups(&self) -> (r: Stage)
        ensures
            r == from_groups(self.policy),
    {
        if self.policy.drop_gid.is_some() || self.policy.drop_uid.is_some() {
            Stage::Groups
        } else {
            Stage::Done
        }
    }

    fn pass_system_dir(&mut self)
        requires
            old(self).sys < SYSTEM_DIRS,
        ensures
            *final(self) == next_sys(*old(self)),
    {
        if self.sys + 1 < SYSTEM_DIRS {
            self.sys = self.sys + 1;
            self.stage = Stage::OpenSys;
        } else {
            self.stage = Stage::Restrict;
        }
    }

    /// Takes in what the kernel returned for the step that was next.
    pub fn advance(&mut self, ret: i32) -> (r: Result<(), SandboxError>)
        requires
            old(self).wf(),
            ret > i32::MIN,
        ensures
            final(self).wf(),
            match after(*old(self), ret) {
                Ok(s) => r is Ok && *final(self) == s,
                Err(e) => r == Err::<(), SandboxError>(e) && *final(self) == *old(self),
            },
    {
        let os = SandboxError::Os(
            if ret < 0 {
                -ret
            } else {
                1
            },
        );
        match self.stage {
            Stage::NoNewPrivs => {
                if ret != 0 {
                    return Err(os);
                }
                self.stage = self.stage_from_nproc();
            },
            Stage::Nproc => {
                if ret != 0 {
                    return Err(SandboxError::Denied);
                }
                self.stage = self.stage_from_fsize();
            },
            Stage::Fsize => {
                if ret != 0 {
                    return Err(SandboxError::Denied);
                }
                self.stage = self.stage_from_cpu();
            },
            Stage::Cpu => {
                if ret != 0 {
                    return Err(SandboxError::Denied);
                }
                self.stage = Stage::Create;
            },
            Stage::Create => {
                if ret < 0 {
                    return Err(os);
                }
                self.ruleset = ret;
                self.stage = Stage::AllowCwd;
            },
            Stage::AllowCwd => {
                if ret != 0 {
                    return Err(SandboxError::Denied);
                }
                self.sys = 0;
                self.stage = Stage::OpenSys;
            },
            Stage::OpenSys => {
                if ret < 0 {
                    self.pass_system_dir();
                } else {
                    self.dir = ret;
                    self.stage = Stage::AllowSys;
                }
            },
            Stage::AllowSys => {
                self.stage = Stage::CloseSys(ret == 0);
            },
            Stage::CloseSys(ok) => {
                if !ok {
                    return Err(SandboxError::Denied);
                }
                self.pass_system_dir();
            },
            Stage::Restrict => {
                if ret != 0 {
                    return Err(SandboxError::Denied);
                }
                self.stage = Stage::CloseRuleset;
            },
            Stage::CloseRuleset => {
                self.stage = Stage::Enter;
            },
            Stage::Enter => {
                if ret != 0 {
                    return Err(os);
                }
                self.stage = Stage::CloseOnExec;
            },
            Stage::CloseOnExec => {
                if ret != 0 {
                    return Err(os);
                }
                self.stage = Stage::Filter;
            },
            Stage::Filter => {
                if ret != 0 {
                    return Err(SandboxError::Denied);
                }
                self.stage = self.stage_from_groups();
            },
            Stage::Groups => {
                if ret != 0 {
                    return Err(SandboxError::Denied);
                }
                self.stage = self.stage_from_gid();
            },
            Stage::Gid => {
                if ret != 0 {
                    return Err(SandboxError::Denied);
                }
                self.stage = self.stage_from_uid();
            },
            Stage::Uid => {
                if ret != 0 {
                    return Err(SandboxError::Denied);
                }
                self.stage = Stage::Done;
            },
            Stage::Done => {},
        }
        Ok(())
    }
}

/// How far a step is along, the system directories counted.
pub open spec fn rank(s: Sandbox) -> int {
    match s.stage {
        Stage::NoNewPrivs => 0,
        Stage::Nproc => 1,
        Stage::Fsize => 2,
        Stage::Cpu => 3,
        Stage::Create => 4,
        Stage::AllowCwd => 5,
        Stage::OpenSys => 6 + 3 * s.sys,
        Stage::AllowSys => 7 + 3 * s.sys,
        Stage::CloseSys(_) => 8 + 3 * s.sys,
        Stage::Restrict => 20,
        Stage::CloseRuleset => 21,
        Stage::Enter => 22,
        Stage::CloseOnExec => 23,
        Stage::Filter => 24,
        Stage::Groups => 25,
        Stage::Gid => 26,
        Stage::Uid => 27,
        Stage::Done => 28,
    }
}

/// Every step that succeeds leads further along, so each is taken at most once
/// and the confinement comes to an end.
pub proof fn law_steps_lead_on(s: Sandbox, ret: i32)
    requires
        s.wf(),
        s.stage !is Done,
        after(s, ret) is Ok,
    ensures
        after(s, ret)->Ok_0.wf(),
        rank(s) < rank(after(s, ret)->Ok_0) <= 28,
{
}

/// What a run asked of the kernel, given what the kernel returned each time, and
/// where it came to.
pub open spec fn run(policy: SandboxPolicy, cwd: i32, rets: Seq<i32>) -> (
    Seq<SandboxOp>,
    Result<Sandbox, SandboxError>,
)
    decreases rets.len(),
{
    if rets.len() == 0 {
        (Seq::empty(), Ok(begun(policy, cwd)))
    } else {
        let (ops, s) = run(policy, cwd, rets.drop_last());
        match s {
            Err(e) => (ops, Err(e)),
            Ok(s) => match op_of(s) {
                None => (ops, Ok(s)),
                Some(op) => (ops.push(op), after(s, rets.last())),
            },
        }
    }
}

/// What must have been asked of the kernel, and granted, before a step.
pub open spec fn granted_before(s: Sandbox, ops: Seq<SandboxOp>) -> bool {
    let p = s.policy;
    &&& rank(s) > 0 ==> ops.contains(SandboxOp::NoNewPrivs)
    &&& rank(s) > 1 && p.rlimit_nproc is Some ==> ops.contains(
        SandboxOp::Limit { resource: RLIMIT_NPROC, value: p.rlimit_nproc->0 },
    )
    &&& rank(s) > 2 && p.rlimit_fsize_bytes is Some ==> ops.contains(
        SandboxOp::Limit { resource: RLIMIT_FSIZE, value: p.rlimit_fsize_bytes->0 },
    )
    &&& rank(s) > 3 && p.rlimit_cpu_secs is Some ==> ops.contains(
        SandboxOp::Limit { resource: RLIMIT_CPU, value: p.rlimit_cpu_secs->0 },
    )
    &&& rank(s) > 4 ==> ops.contains(SandboxOp::CreateRuleset { handled: HANDLED_ACCESS })
    &&& rank(s) > 5 ==> ops.contains(
        SandboxOp::AllowBelow { ruleset: s.ruleset, dir: s.cwd, access: READ_AND_RUN },
    )
    &&& rank(s) > 20 ==> ops.contains(SandboxOp::Restrict(s.ruleset))
    &&& rank(s) > 22 ==> ops.contains(SandboxOp::Enter(s.cwd))
    &&& rank(s) > 23 ==> ops.contains(SandboxOp::CloseOnExec(3))
    &&& rank(s) > 24 ==> ops.contains(SandboxOp::InstallFilter)
    &&& rank(s) > 25 && (p.drop_gid is Some || p.drop_uid is Some) ==> ops.contains(SandboxOp::ClearGroups)
    &&& rank(s) > 26 && p.drop_gid is Some ==> ops.contains(SandboxOp::SetGid(p.drop_gid->0))
    &&& rank(s) > 27 && p.drop_uid is Some ==> ops.contains(SandboxOp::SetUid(p.drop_uid->0))
}

proof fn lemma_step_granted(s: Sandbox, ops: Seq<SandboxOp>, ret: i32)
    requires
        s.wf(),
        granted_before(s, ops),
        op_of(s) is Some,
        after(s, ret) is Ok,
    ensures
        granted_before(after(s, ret)->Ok_0, ops.push(op_of(s)->0)),
{
    let op = op_of(s)->0;
    let more = ops.push(op);
    assert forall|x: SandboxOp| ops.contains(x) implies #[trigger] more.contains(x) by {
        let i = ops.index_of(x);
        assert(more[i] == x);
    }
    assert(more.last() == op);
    assert(more.contains(op));
}

/// At every point of every run all earlier steps were granted: the child gets its
/// new identity only under the filter and the ruleset, and once a run is done
/// nothing that the policy sets was left out.
pub proof fn law_run_grants_in_order(policy: SandboxPolicy, cwd: i32, rets: Seq<i32>)
    ensures
        run(policy, cwd, rets).1 matches Ok(s) ==> s.policy == policy && s.cwd == cwd && s.wf()
            && granted_before(s, run(policy, cwd, rets).0),
    decreases rets.len(),
{
    if rets.len() > 0 {
        law_run_grants_in_order(policy, cwd, rets.drop_last());
        let (ops, s) = run(policy, cwd, rets.drop_last());
        match s {
            Ok(s) => {
                if op_of(s) is Some && after(s, rets.last()) is Ok {
                    lemma_step_granted(s, ops, rets.last());
                }
            },
            Err(_) => {},
        }
    }
}

} // verus!
