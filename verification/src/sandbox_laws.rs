//! What holds of every run of the confinement: which system calls it makes, in
//! which order, with which descriptors, and what each of them must have returned.

use crate::os::SandboxPolicy;
use crate::sandbox;
use crate::sandbox::{Sandbox, SandboxError, SandboxOp, Stage};
use vstd::prelude::*;

verus! {

/// Whether a system directory was dealt with: it was opened, and unless that failed
/// the rule on the descriptor that came back was the next thing asked, and granted.
pub open spec fn dealt_with(ops: Seq<SandboxOp>, rets: Seq<i32>, i: usize, ruleset: i32) -> bool {
    exists|k: int|
        0 <= k < ops.len() && #[trigger] ops[k] == SandboxOp::OpenSystemDir(i) && (rets[k] < 0 || (k + 1
            < ops.len() && ops[k + 1] == (SandboxOp::AllowBelow { ruleset, dir: rets[k], access: 13 })
            && rets[k + 1] == 0))
}

proof fn lemma_dealt_with_stays(ops: Seq<SandboxOp>, rets: Seq<i32>, op: SandboxOp, ret: i32, i: usize, ruleset: i32)
    requires
        ops.len() == rets.len(),
        dealt_with(ops, rets, i, ruleset),
    ensures
        dealt_with(ops.push(op), rets.push(ret), i, ruleset),
{
    let k = choose|k: int|
        0 <= k < ops.len() && #[trigger] ops[k] == SandboxOp::OpenSystemDir(i) && (rets[k] < 0 || (k + 1
            < ops.len() && ops[k + 1] == (SandboxOp::AllowBelow { ruleset, dir: rets[k], access: 13 })
            && rets[k + 1] == 0));
    assert(ops.push(op)[k] == SandboxOp::OpenSystemDir(i));
}

/// How many system directories a run has dealt with where it stands.
spec fn dirs_behind(s: Sandbox) -> int {
    match s.stage {
        Stage::OpenSys | Stage::AllowSys | Stage::CloseSys(_) => s.sys as int,
        _ => if sandbox::rank(s) >= 20 {
            4
        } else {
            0
        },
    }
}

spec fn dirs_hold(s: Sandbox, ops: Seq<SandboxOp>, rets: Seq<i32>) -> bool {
    let n = ops.len() as int;
    &&& n <= rets.len()
    &&& s.stage !is Done ==> n == rets.len()
    &&& forall|i: usize| i < dirs_behind(s) ==> #[trigger] dealt_with(ops, rets, i, s.ruleset)
    &&& s.stage is AllowSys ==> n > 0 && ops[n - 1] == SandboxOp::OpenSystemDir(s.sys) && rets[n - 1] == s.dir
        && s.dir >= 0
    &&& s.stage is CloseSys ==> n > 1 && ops[n - 2] == SandboxOp::OpenSystemDir(s.sys) && rets[n - 2] == s.dir
        && s.dir >= 0 && ops[n - 1] == (SandboxOp::AllowBelow { ruleset: s.ruleset, dir: s.dir, access: 13 })
        && (s.stage == Stage::CloseSys(true) <==> rets[n - 1] == 0)
}

proof fn lemma_dirs_step(s: Sandbox, ops: Seq<SandboxOp>, rets: Seq<i32>, ret: i32)
    requires
        s.wf(),
        dirs_hold(s, ops, rets),
        s.stage !is Done,
        sandbox::after(s, ret) is Ok,
    ensures
        dirs_hold(sandbox::after(s, ret)->Ok_0, ops.push(sandbox::op_of(s)->0), rets.push(ret)),
{
    let t = sandbox::after(s, ret)->Ok_0;
    let more = ops.push(sandbox::op_of(s)->0);
    let got = rets.push(ret);
    let n = ops.len() as int;
    assert forall|i: usize| i < dirs_behind(t) implies #[trigger] dealt_with(more, got, i, t.ruleset) by {
        if i < dirs_behind(s) {
            lemma_dealt_with_stays(ops, rets, sandbox::op_of(s)->0, ret, i, s.ruleset);
        } else if s.stage is OpenSys {
            assert(more[n] == SandboxOp::OpenSystemDir(i));
        } else {
            assert(more[n - 2] == SandboxOp::OpenSystemDir(i));
        }
    }
}

/// Before the ruleset is put in force, and so in every run that is done, each of
/// the four system directories was opened, and the descriptor that came back was put
/// under a rule of that ruleset to read and run; one is passed over only where it
/// could not be opened.
pub proof fn law_system_dirs_are_allowed(policy: SandboxPolicy, cwd: i32, rets: Seq<i32>)
    ensures
        ({
            let (ops, end) = sandbox::run(policy, cwd, rets);
            &&& ops.len() <= rets.len()
            &&& end matches Ok(s) ==> sandbox::op_of(s) is None || sandbox::op_of(s)->0 is Restrict ==> forall|i: usize|
                i < 4 ==> #[trigger] dealt_with(ops, rets, i, s.ruleset)
            &&& end matches Ok(s) ==> sandbox::op_of(s) matches Some(SandboxOp::Restrict(r)) ==> r == s.ruleset
        }),
    decreases rets.len(),
{
    lemma_dirs_hold(policy, cwd, rets);
}

proof fn lemma_dirs_hold(policy: SandboxPolicy, cwd: i32, rets: Seq<i32>)
    ensures
        sandbox::run(policy, cwd, rets).0.len() <= rets.len(),
        sandbox::run(policy, cwd, rets).1 matches Ok(s) ==> s.wf() && dirs_hold(
            s,
            sandbox::run(policy, cwd, rets).0,
            rets,
        ),
    decreases rets.len(),
{
    if rets.len() > 0 {
        lemma_dirs_hold(policy, cwd, rets.drop_last());
        let (ops, s) = sandbox::run(policy, cwd, rets.drop_last());
        let ret = rets.last();
        assert(rets.drop_last().push(ret) =~= rets);
        match s {
            Ok(s) => {
                if s.stage is Done {
                    assert forall|i: usize| i < 4 implies #[trigger] dealt_with(ops, rets, i, s.ruleset) by {
                        assert(dealt_with(ops, rets.drop_last(), i, s.ruleset));
                        let before = rets.drop_last();
                        let k = choose|k: int|
                            0 <= k < ops.len() && #[trigger] ops[k] == SandboxOp::OpenSystemDir(i) && (
                            before[k] < 0 || (k + 1 < ops.len() && ops[k + 1] == (SandboxOp::AllowBelow {
                                ruleset: s.ruleset,
                                dir: before[k],
                                access: 13,
                            }) && before[k + 1] == 0));
                        assert(ops[k] == SandboxOp::OpenSystemDir(i));
                    }
                } else if sandbox::after(s, ret) is Ok {
                    lemma_dirs_step(s, ops, rets.drop_last(), ret);
                }
            },
            Err(_) => {},
        }
    }
}

/// The call that sets a limit, where there is one to set.
pub open spec fn limit_ops(resource: u32, value: Option<u64>) -> Seq<SandboxOp> {
    match value {
        Some(value) => seq![SandboxOp::Limit { resource, value }],
        None => Seq::empty(),
    }
}

/// The calls for one system directory, given what opening it returned.
pub open spec fn dir_ops(i: usize, ruleset: i32, opened: i32) -> Seq<SandboxOp> {
    if opened < 0 {
        seq![SandboxOp::OpenSystemDir(i)]
    } else {
        seq![
            SandboxOp::OpenSystemDir(i),
            SandboxOp::AllowBelow { ruleset, dir: opened, access: 13 },
            SandboxOp::Close(opened),
        ]
    }
}

/// The calls for the first system directories, given what opening each returned.
pub open spec fn dirs_ops(ruleset: i32, opened: Seq<i32>) -> Seq<SandboxOp>
    decreases opened.len(),
{
    if opened.len() == 0 {
        Seq::empty()
    } else {
        dirs_ops(ruleset, opened.drop_last()) + dir_ops((opened.len() - 1) as usize, ruleset, opened.last())
    }
}

/// The calls that change the identity, where the policy asks for it: groups, group,
/// user.
pub open spec fn identity_ops(gid: Option<u32>, uid: Option<u32>) -> Seq<SandboxOp> {
    match (gid, uid) {
        (Some(g), Some(u)) => seq![SandboxOp::ClearGroups, SandboxOp::SetGid(g), SandboxOp::SetUid(u)],
        (Some(g), None) => seq![SandboxOp::ClearGroups, SandboxOp::SetGid(g)],
        (None, Some(u)) => seq![SandboxOp::ClearGroups, SandboxOp::SetUid(u)],
        (None, None) => Seq::empty(),
    }
}

spec fn limits_ops(p: SandboxPolicy) -> Seq<SandboxOp> {
    seq![SandboxOp::NoNewPrivs] + limit_ops(6, p.rlimit_nproc) + limit_ops(1, p.rlimit_fsize_bytes) + limit_ops(
        0,
        p.rlimit_cpu_secs,
    )
}

spec fn head_ops(p: SandboxPolicy, cwd: i32, ruleset: i32) -> Seq<SandboxOp> {
    limits_ops(p) + seq![
        SandboxOp::CreateRuleset { handled: 0x1fff },
        SandboxOp::AllowBelow { ruleset, dir: cwd, access: 13 },
    ]
}

spec fn tail_ops(cwd: i32, ruleset: i32) -> Seq<SandboxOp> {
    seq![
        SandboxOp::Restrict(ruleset),
        SandboxOp::Close(ruleset),
        SandboxOp::Enter(cwd),
        SandboxOp::CloseOnExec(3),
        SandboxOp::InstallFilter,
    ]
}

/// What a run has asked where it stands, given what opening the system directories
/// returned.
spec fn asked_so_far(s: Sandbox, opened: Seq<i32>) -> Seq<SandboxOp> {
    let p = s.policy;
    let head = head_ops(p, s.cwd, s.ruleset);
    let dirs = head + dirs_ops(s.ruleset, opened);
    let tail = tail_ops(s.cwd, s.ruleset);
    let open = SandboxOp::OpenSystemDir(s.sys);
    let allow = SandboxOp::AllowBelow { ruleset: s.ruleset, dir: s.dir, access: 13 };
    match s.stage {
        Stage::NoNewPrivs => Seq::empty(),
        Stage::Nproc => seq![SandboxOp::NoNewPrivs],
        Stage::Fsize => seq![SandboxOp::NoNewPrivs] + limit_ops(6, p.rlimit_nproc),
        Stage::Cpu => seq![SandboxOp::NoNewPrivs] + limit_ops(6, p.rlimit_nproc) + limit_ops(
            1,
            p.rlimit_fsize_bytes,
        ),
        Stage::Create => limits_ops(p),
        Stage::AllowCwd => limits_ops(p) + seq![SandboxOp::CreateRuleset { handled: 0x1fff }],
        Stage::OpenSys => dirs,
        Stage::AllowSys => head + dirs_ops(s.ruleset, opened.drop_last()) + seq![open],
        Stage::CloseSys(_) => head + dirs_ops(s.ruleset, opened.drop_last()) + seq![open, allow],
        Stage::Restrict => dirs,
        Stage::CloseRuleset => dirs + tail.take(1),
        Stage::Enter => dirs + tail.take(2),
        Stage::CloseOnExec => dirs + tail.take(3),
        Stage::Filter => dirs + tail.take(4),
        Stage::Groups => dirs + tail,
        Stage::Gid => dirs + tail + seq![SandboxOp::ClearGroups],
        Stage::Uid => dirs + tail + seq![SandboxOp::ClearGroups] + match p.drop_gid {
            Some(g) => seq![SandboxOp::SetGid(g)],
            None => Seq::empty(),
        },
        Stage::Done => dirs + tail + identity_ops(p.drop_gid, p.drop_uid),
    }
}

/// Whether a call returned what it must have for the run to go on and what was
/// opened is what came back.
spec fn answered(s: Sandbox, op: SandboxOp, ret: i32, opened: Seq<i32>) -> bool {
    match op {
        SandboxOp::CreateRuleset { .. } => ret >= 0 && ret == s.ruleset,
        SandboxOp::OpenSystemDir(i) => i < opened.len() && opened[i as int] == ret,
        SandboxOp::Close(_) => true,
        _ => ret == 0,
    }
}

spec fn script_holds(s: Sandbox, ops: Seq<SandboxOp>, rets: Seq<i32>, opened: Seq<i32>) -> bool {
    let n = ops.len() as int;
    &&& n <= rets.len()
    &&& s.stage !is Done ==> n == rets.len()
    &&& ops == asked_so_far(s, opened)
    &&& opened.len() == match s.stage {
        Stage::OpenSys => s.sys as int,
        Stage::AllowSys | Stage::CloseSys(_) => s.sys + 1,
        _ => if sandbox::rank(s) >= 20 {
            4
        } else {
            0
        },
    }
    &&& (s.stage is AllowSys || s.stage is CloseSys) ==> opened.last() == s.dir && s.dir >= 0
    &&& s.stage is Gid ==> s.policy.drop_gid is Some
    &&& s.stage is Uid ==> s.policy.drop_uid is Some
    &&& (s.stage is Groups) ==> s.policy.drop_gid is Some || s.policy.drop_uid is Some
    &&& forall|k: int|
        0 <= k < n && !(s.stage == Stage::CloseSys(false) && k == n - 1) ==> answered(s, #[trigger] ops[k], rets[k], opened)
}

proof fn lemma_grown(a: Seq<SandboxOp>, b: Seq<SandboxOp>, x: SandboxOp)
    ensures
        a.push(x) == a + seq![x],
        a + Seq::<SandboxOp>::empty() == a,
        (a + b).push(x) == a + b.push(x),
{
    assert(a.push(x) =~= a + seq![x]);
    assert(a + Seq::<SandboxOp>::empty() =~= a);
    assert((a + b).push(x) =~= a + b.push(x));
}

proof fn lemma_tail_grows(cwd: i32, ruleset: i32)
    ensures
        ({
            let tail = tail_ops(cwd, ruleset);
            &&& tail.take(1) == seq![SandboxOp::Restrict(ruleset)]
            &&& tail.take(1).push(SandboxOp::Close(ruleset)) == tail.take(2)
            &&& tail.take(2).push(SandboxOp::Enter(cwd)) == tail.take(3)
            &&& tail.take(3).push(SandboxOp::CloseOnExec(3)) == tail.take(4)
            &&& tail.take(4).push(SandboxOp::InstallFilter) == tail
        }),
{
    let tail = tail_ops(cwd, ruleset);
    assert(tail.take(1) =~= seq![SandboxOp::Restrict(ruleset)]);
    assert(tail.take(1).push(tail[1]) =~= tail.take(2));
    assert(tail.take(2).push(tail[2]) =~= tail.take(3));
    assert(tail.take(3).push(tail[3]) =~= tail.take(4));
    assert(tail.take(4).push(tail[4]) =~= tail);
}

proof fn lemma_limits_asked(s: Sandbox, opened: Seq<i32>, ret: i32)
    requires
        s.wf(),
        sandbox::rank(s) < 4,
        sandbox::after(s, ret) is Ok,
    ensures
        asked_so_far(s, opened).push(sandbox::op_of(s)->0) == asked_so_far(sandbox::after(s, ret)->Ok_0, opened),
{
    let p = s.policy;
    let op = sandbox::op_of(s)->0;
    let one = seq![SandboxOp::NoNewPrivs];
    let two = one + limit_ops(6, p.rlimit_nproc);
    let three = two + limit_ops(1, p.rlimit_fsize_bytes);
    lemma_grown(one, one, op);
    lemma_grown(two, one, op);
    lemma_grown(three, one, op);
    assert(Seq::<SandboxOp>::empty().push(SandboxOp::NoNewPrivs) =~= one);
}

proof fn lemma_asked_step(s: Sandbox, opened: Seq<i32>, ret: i32)
    requires
        s.wf(),
        s.stage !is Done,
        sandbox::after(s, ret) is Ok,
        sandbox::rank(s) < 6 ==> opened.len() == 0,
        s.stage is OpenSys ==> opened.len() == s.sys,
        s.stage is AllowSys || s.stage is CloseSys ==> opened.len() == s.sys + 1 && opened.last() == s.dir && s.dir
            >= 0,
        s.stage is Gid ==> s.policy.drop_gid is Some,
        s.stage is Uid ==> s.policy.drop_uid is Some,
        s.stage is Groups ==> s.policy.drop_gid is Some || s.policy.drop_uid is Some,
    ensures
        ({
            let more = if s.stage is OpenSys {
                opened.push(ret)
            } else {
                opened
            };
            asked_so_far(s, opened).push(sandbox::op_of(s)->0) == asked_so_far(sandbox::after(s, ret)->Ok_0, more)
        }),
{
    let p = s.policy;
    let op = sandbox::op_of(s)->0;
    let none = Seq::<SandboxOp>::empty();
    let limits = limits_ops(p);
    let head = head_ops(p, s.cwd, s.ruleset);
    let dirs = head + dirs_ops(s.ruleset, opened);
    let tail = tail_ops(s.cwd, s.ruleset);
    if sandbox::rank(s) < 4 {
        lemma_limits_asked(s, opened, ret);
    } else if sandbox::rank(s) < 6 {
        lemma_grown(limits, none, op);
        assert(seq![SandboxOp::CreateRuleset { handled: 0x1fff }].push(op) =~= seq![
            SandboxOp::CreateRuleset { handled: 0x1fff },
            op,
        ]);
        lemma_grown(limits, seq![SandboxOp::CreateRuleset { handled: 0x1fff }], op);
        lemma_grown(head, none, op);
        lemma_grown(asked_so_far(sandbox::after(s, ret)->Ok_0, opened), none, op);
    } else if s.stage is OpenSys {
        let more = opened.push(ret);
        assert(more.drop_last() =~= opened);
        lemma_grown(dirs, none, op);
        lemma_grown(head, dirs_ops(s.ruleset, opened), op);
        lemma_grown(dirs_ops(s.ruleset, opened), none, op);
    } else if sandbox::rank(s) < 20 {
        let behind = dirs_ops(s.ruleset, opened.drop_last());
        let open = SandboxOp::OpenSystemDir(s.sys);
        let allow = SandboxOp::AllowBelow { ruleset: s.ruleset, dir: s.dir, access: 13 };
        assert(seq![open].push(allow) =~= seq![open, allow]);
        assert(seq![open, allow].push(op) =~= seq![open, allow, op]);
        lemma_grown(head + behind, seq![open], op);
        lemma_grown(head + behind, seq![open, allow], op);
        assert(head + behind + seq![open, allow, op] =~= head + (behind + seq![open, allow, op]));
    } else if sandbox::rank(s) < 25 {
        lemma_tail_grows(s.cwd, s.ruleset);
        lemma_grown(dirs, none, op);
        lemma_grown(dirs, tail.take(1), op);
        lemma_grown(dirs, tail.take(2), op);
        lemma_grown(dirs, tail.take(3), op);
        lemma_grown(dirs, tail.take(4), op);
        lemma_grown(dirs + tail, none, op);
    } else {
        let all = dirs + tail;
        let one = seq![SandboxOp::ClearGroups];
        lemma_grown(all, none, op);
        lemma_grown(all, one, op);
        lemma_grown(all + one, none, op);
        if p.drop_gid is Some {
            let two = seq![SandboxOp::SetGid(p.drop_gid->0)];
            assert(all + one + two =~= all + (one + two));
            assert(one + two =~= seq![SandboxOp::ClearGroups, SandboxOp::SetGid(p.drop_gid->0)]);
            if p.drop_uid is Some {
                lemma_grown(all, one + two, op);
                assert((one + two).push(SandboxOp::SetUid(p.drop_uid->0)) =~= identity_ops(p.drop_gid, p.drop_uid));
            }
        } else {
            assert(one.push(SandboxOp::SetUid(p.drop_uid->0)) =~= identity_ops(p.drop_gid, p.drop_uid));
        }
    }
}

proof fn lemma_no_ruleset_yet(s: Sandbox, opened: Seq<i32>, k: int)
    requires
        sandbox::rank(s) <= 4,
        0 <= k < asked_so_far(s, opened).len(),
    ensures
        asked_so_far(s, opened)[k] !is CreateRuleset,
{
}

proof fn lemma_script_step(s: Sandbox, ops: Seq<SandboxOp>, rets: Seq<i32>, opened: Seq<i32>, ret: i32) -> (more:
    Seq<i32>)
    requires
        s.wf(),
        script_holds(s, ops, rets, opened),
        s.stage !is Done,
        sandbox::after(s, ret) is Ok,
    ensures
        script_holds(sandbox::after(s, ret)->Ok_0, ops.push(sandbox::op_of(s)->0), rets.push(ret), more),
{
    let t = sandbox::after(s, ret)->Ok_0;
    let op = sandbox::op_of(s)->0;
    let more = if s.stage is OpenSys {
        opened.push(ret)
    } else {
        opened
    };
    lemma_asked_step(s, opened, ret);
    assert forall|k: int| 0 <= k < ops.len() + 1 && !(t.stage == Stage::CloseSys(false) && k == ops.len()) implies answered(
        t,
        #[trigger] ops.push(op)[k],
        rets.push(ret)[k],
        more,
    ) by {
        if k < ops.len() {
            assert(answered(s, ops[k], rets[k], opened));
            if sandbox::rank(s) <= 4 {
                lemma_no_ruleset_yet(s, opened, k);
            }
        }
    }
    more
}

proof fn lemma_script(policy: SandboxPolicy, cwd: i32, rets: Seq<i32>) -> (opened: Seq<i32>)
    ensures
        sandbox::run(policy, cwd, rets).1 matches Ok(s) ==> s.wf() && s.policy == policy && s.cwd == cwd
            && script_holds(s, sandbox::run(policy, cwd, rets).0, rets, opened),
    decreases rets.len(),
{
    if rets.len() == 0 {
        Seq::empty()
    } else {
        let opened = lemma_script(policy, cwd, rets.drop_last());
        let (ops, s) = sandbox::run(policy, cwd, rets.drop_last());
        let ret = rets.last();
        assert(rets.drop_last().push(ret) =~= rets);
        if s is Ok && s->Ok_0.stage !is Done && sandbox::after(s->Ok_0, ret) is Ok {
            lemma_script_step(s->Ok_0, ops, rets.drop_last(), opened, ret)
        } else {
            if s is Ok && s->Ok_0.stage is Done {
                let before = rets.drop_last();
                assert forall|k: int| 0 <= k < ops.len() implies answered(s->Ok_0, #[trigger] ops[k], rets[k], opened) by {
                    assert(answered(s->Ok_0, ops[k], before[k], opened));
                }
            }
            opened
        }
    }
}

/// A run that is done has made these calls and no others, in this order: privileges
/// are given up for good, the limits that the policy has are set, the ruleset over all
/// accesses to files is made and filled with the working directory and the system
/// directories, put in force and closed, the working directory is entered,
/// descriptors from the fourth on are marked, the filter is installed, and last the
/// identity changes where the policy asks for it. Each descriptor in a rule is the one
/// that its own call returned, and of the other calls each but a closing one
/// returned success.
pub proof fn law_done_run_asks_exactly(policy: SandboxPolicy, cwd: i32, rets: Seq<i32>) -> (r: (i32, Seq<i32>))
    requires
        sandbox::run(policy, cwd, rets).1 is Ok,
        sandbox::op_of(sandbox::run(policy, cwd, rets).1->Ok_0) is None,
    ensures
        ({
            let ops = sandbox::run(policy, cwd, rets).0;
            let (ruleset, opened) = r;
            &&& opened.len() == 4
            &&& ops == seq![SandboxOp::NoNewPrivs] + limit_ops(6, policy.rlimit_nproc) + limit_ops(
                1,
                policy.rlimit_fsize_bytes,
            ) + limit_ops(0, policy.rlimit_cpu_secs) + seq![
                SandboxOp::CreateRuleset { handled: 0x1fff },
                SandboxOp::AllowBelow { ruleset, dir: cwd, access: 13 },
            ] + dirs_ops(ruleset, opened) + seq![
                SandboxOp::Restrict(ruleset),
                SandboxOp::Close(ruleset),
                SandboxOp::Enter(cwd),
                SandboxOp::CloseOnExec(3),
                SandboxOp::InstallFilter,
            ] + identity_ops(policy.drop_gid, policy.drop_uid)
            &&& ops.len() <= rets.len()
            &&& forall|k: int|
                0 <= k < ops.len() ==> match #[trigger] ops[k] {
                    SandboxOp::CreateRuleset { .. } => rets[k] >= 0 && rets[k] == ruleset,
                    SandboxOp::OpenSystemDir(i) => i < 4 && rets[k] == opened[i as int],
                    SandboxOp::Close(_) => true,
                    _ => rets[k] == 0,
                }
        }),
{
    let opened = lemma_script(policy, cwd, rets);
    let (ops, end) = sandbox::run(policy, cwd, rets);
    let s = end->Ok_0;
    assert forall|k: int| 0 <= k < ops.len() implies match #[trigger] ops[k] {
        SandboxOp::CreateRuleset { .. } => rets[k] >= 0 && rets[k] == s.ruleset,
        SandboxOp::OpenSystemDir(i) => i < 4 && rets[k] == opened[i as int],
        SandboxOp::Close(_) => true,
        _ => rets[k] == 0,
    } by {
        assert(answered(s, ops[k], rets[k], opened));
    }
    (s.ruleset, opened)
}

/// A run goes on exactly while no call fails that must not: opening a system directory
/// and closing a descriptor may fail, a ruleset is any number that is not negative, a
/// refused rule on a system directory ends the run once its descriptor is closed, and
/// every other call must return zero.
pub proof fn law_failure_ends_a_run(policy: SandboxPolicy, cwd: i32, rets: Seq<i32>, ret: i32)
    requires
        sandbox::run(policy, cwd, rets).1 is Ok,
        sandbox::op_of(sandbox::run(policy, cwd, rets).1->Ok_0) is Some,
    ensures
        ({
            let (ops, before) = sandbox::run(policy, cwd, rets);
            let (more, end) = sandbox::run(policy, cwd, rets.push(ret));
            let op = sandbox::op_of(before->Ok_0)->0;
            let refused_rule = ops.len() > 0 && ops.last() is AllowBelow && rets[ops.len() - 1] != 0;
            &&& more == ops.push(op)
            &&& match op {
                SandboxOp::NoNewPrivs | SandboxOp::Enter(_) | SandboxOp::CloseOnExec(_) => if ret == 0 {
                    end is Ok
                } else if ret < 0 {
                    end == Err::<Sandbox, SandboxError>(SandboxError::Os((-ret) as i32))
                } else {
                    end == Err::<Sandbox, SandboxError>(SandboxError::Os(1))
                },
                SandboxOp::CreateRuleset { .. } => if ret >= 0 {
                    end is Ok
                } else {
                    end == Err::<Sandbox, SandboxError>(SandboxError::Os((-ret) as i32))
                },
                SandboxOp::OpenSystemDir(_) => end is Ok,
                SandboxOp::Close(_) => if refused_rule {
                    end == Err::<Sandbox, SandboxError>(SandboxError::Denied)
                } else {
                    end is Ok
                },
                SandboxOp::AllowBelow { .. } => if ops.last() is OpenSystemDir || ret == 0 {
                    end is Ok
                } else {
                    end == Err::<Sandbox, SandboxError>(SandboxError::Denied)
                },
                _ => if ret == 0 {
                    end is Ok
                } else {
                    end == Err::<Sandbox, SandboxError>(SandboxError::Denied)
                },
            }
        }),
{
    let (ops, before) = sandbox::run(policy, cwd, rets);
    let opened = lemma_script(policy, cwd, rets);
    let s = before->Ok_0;
    assert(rets.push(ret).drop_last() =~= rets);
    lemma_dirs_hold(policy, cwd, rets);
    if s.stage is AllowCwd {
        assert(ops.last() is CreateRuleset);
    } else if s.stage is CloseRuleset {
        assert(ops.last() == tail_ops(s.cwd, s.ruleset)[0]);
    }
}

/// The system directories are `/usr`, `/bin`, `/lib` and `/lib64`, each path ended by
/// a zero byte and by nothing before it.
pub proof fn law_system_dirs_end_once(i: int)
    requires
        0 <= i < 4,
    ensures
        sandbox::SYSTEM_DIRS == 4,
        sandbox::system_path(i).drop_last() == seq!["/usr"@, "/bin"@, "/lib"@, "/lib64"@][i],
        sandbox::system_path(i).last() == '\0',
        !sandbox::system_path(i).drop_last().contains('\0'),
{
    reveal_strlit("/usr");
    reveal_strlit("/bin");
    reveal_strlit("/lib");
    reveal_strlit("/lib64");
    reveal_strlit("/usr\0");
    reveal_strlit("/bin\0");
    reveal_strlit("/lib\0");
    reveal_strlit("/lib64\0");
    let all = seq!["/usr"@, "/bin"@, "/lib"@, "/lib64"@];
    assert(sandbox::system_path(i).drop_last() =~= all[i]);
}

} // verus!
