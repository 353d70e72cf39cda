//! The use of capabilities: reading, listing, running, requesting, sending and
//! posting. An action with an effect outside is first put to the policy and
//! puts its intent on the trail; what it needs of the host is released only once
//! the host has made the intent durable.

use crate::audit;
use crate::audit::digest_text;
use crate::cap::{CapKind, PostedMsg};
use crate::label::{has_op, Op, Taint};
use crate::net;
use crate::net::{
    build_request, canonical_request_target, parse_http_response, path_matches, refuse_metadata,
    resolve_checked, HostAddr,
};
use crate::os::SandboxPolicy;
use crate::path::{is_secret_path, safe_join};
use crate::policy::{ConsentLedger, ConsentOutcome, Decision, CONSENT_REQUIRED};
use crate::session;
use crate::session::Session;
use crate::show;
use crate::show::{brief, canon_list, safe_display, short};
use crate::state;
use crate::state::{FetchError, FetchV, LookupV, ReadV, RunV, SessionV};
use crate::text;
use crate::text::{
    clone_list, contains_char, debug_string, dec_string, join, lossy_string, split, split_once, starts_with,
    str_eq, string_of_range,
};
use vstd::prelude::*;
use vstd::utf8::*;

verus! {

/// Signs an action: the digest of its parts, each with its length before it.
fn action_sig(parts: &[String]) -> (r: String)
    ensures
        r@ == state::signature(text::views(parts@)),
{
    let ghost all = text::views(parts@);
    let mut s = "capsig:v1".to_string();
    let mut i: usize = 0;
    assert(all.take(0) =~= Seq::empty());
    while i < parts.len()
        invariant
            i <= parts@.len(),
            all == text::views(parts@),
            s@ == state::sig_text(all.take(i as int)),
        decreases parts@.len() - i,
    {
        assert(all.take(i + 1).drop_last() =~= all.take(i as int));
        assert(all.take(i + 1).last() == parts@[i as int]@);
        let p = parts[i].as_str();
        let n: usize = p.as_bytes().len();
        s.push('|');
        s.append(dec_string(n as u64).as_str());
        s.append(":");
        s.append(p);
        i += 1;
    }
    assert(all.take(parts@.len() as int) =~= all);
    digest_text(s.as_str())
}

/// What the requester of an action that waits for consent is told.
fn hint_text(verb: &str, kind: &str, r: &str) -> (s: String)
    requires
        show::showable(r@),
    ensures
        s@ == state::hint(verb@, kind@, r@),
{
    "需审批 ".to_string().concat(verb).concat(" on ").concat(kind).concat(" ").concat(
        short(r).as_str(),
    ).concat("(详情见 control CONSENT_DESCRIBE)")
}

/// What the trail records of a refusal.
fn deny_text(e: &str) -> (r: String)
    ensures
        r@ == "deny:"@ + e@,
{
    "deny:".to_string().concat(e)
}

impl Session {
    /// Puts a risky action to the policy.
    fn gate(&mut self, ledger: &mut ConsentLedger, verb: &str, sig: &str, hint: &str, detail: &str) -> (res: Result<
        (),
        String,
    >)
        requires
            old(self).wf(),
            old(ledger).wf(),
            old(ledger)@.issued < u64::MAX,
        ensures
            final(self).wf(),
            final(ledger).wf(),
            (final(self)@, final(ledger)@, session::unit_view(res)) == old(self)@.gate(
                old(ledger)@,
                verb@,
                sig@,
                hint@,
                detail@,
            ),
    {
        match self.decide(verb) {
            Decision::Allow => Ok(()),
            Decision::Deny => {
                self.audit("policy.deny", sig, "deny");
                Err("L5 策略拒绝动作 ".to_string().concat(verb))
            },
            Decision::Prompt => {
                if !self.asks_consent() {
                    let e = "L5 需 JIT consent 但无 consent 账本,fail-closed 拒绝".to_string();
                    self.refuse("policy.consent", sig, e.as_str());
                    return Err(e);
                }
                let key = self.session_key();
                match ledger.request_or_check(sig, key.as_str(), detail) {
                    ConsentOutcome::Approved => {
                        self.audit("policy.consent", sig, "approved");
                        Ok(())
                    },
                    ConsentOutcome::Denied => {
                        self.audit("policy.consent", sig, "denied");
                        Err("JIT consent 被拒:".to_string().concat(verb))
                    },
                    ConsentOutcome::Pending(id) => {
                        let d = sig.to_string().concat(" id=").concat(id.as_str());
                        self.audit("policy.consent", d.as_str(), "pending");
                        Err(
                            CONSENT_REQUIRED.to_string().concat("\t").concat(id.as_str()).concat("\t").concat(
                                hint,
                            ),
                        )
                    },
                }
            },
        }
    }
}

/// A read or a listing that the host is to carry out below a held directory.
pub struct ReadPlan {
    r: String,
    rel: String,
    fd: u64,
    taint: Taint,
}

impl View for ReadPlan {
    type V = ReadV;

    closed spec fn view(&self) -> ReadV {
        ReadV { r: self.r@, rel: self.rel@, fd: self.fd, taint: self.taint }
    }
}

impl ReadPlan {
    /// The held directory.
    pub fn fd(&self) -> (r: u64)
        ensures
            r == self@.fd,
    {
        self.fd
    }

    /// What is to be read below it.
    pub fn rel(&self) -> (r: &str)
        ensures
            r@ == self@.rel,
    {
        self.rel.as_str()
    }
}

/// Data that was read and waits until the trail is durable.
pub struct HeldRead {
    taint: Taint,
    data: Vec<u8>,
}

impl View for HeldRead {
    type V = (Taint, Seq<u8>);

    closed spec fn view(&self) -> (Taint, Seq<u8>) {
        (self.taint, self.data@)
    }
}

/// Bytes or an error from the host, as contracts speak of it.
pub open spec fn bytes_view(r: Result<Vec<u8>, String>) -> Result<Seq<u8>, Seq<char>> {
    match r {
        Ok(b) => Ok(b@),
        Err(e) => Err(e@),
    }
}

/// Names or an error from the host, as contracts speak of it.
pub open spec fn names_view(r: Result<Vec<String>, String>) -> Result<Seq<Seq<char>>, Seq<char>> {
    match r {
        Ok(v) => Ok(text::views(v@)),
        Err(e) => Err(e@),
    }
}

/// What was read with its taint, or an error, as contracts speak of it.
pub open spec fn tainted_view(r: Result<(Taint, Vec<u8>), String>) -> Result<(Taint, Seq<u8>), Seq<char>> {
    match r {
        Ok((t, b)) => Ok((t, b@)),
        Err(e) => Err(e@),
    }
}

impl Session {
    /// What reading below a directory needs of the host.
    fn read_i(&self, r: &str, rel: &str) -> (res: Result<ReadPlan, String>)
        requires
            self.wf(),
            self@.broken || show::showable(r@),
        ensures
            match res {
                Ok(p) => self@.read_check(r@, rel@) == Ok::<ReadV, Seq<char>>(p@),
                Err(e) => self@.read_check(r@, rel@) == Err::<ReadV, Seq<char>>(e@),
            },
    {
        match self.get_active(r) {
            Err(e) => Err(e),
            Ok(c) => {
                if !has_op(c.ops.as_slice(), Op::Read) {
                    return Err("DirCap ".to_string().concat(short(r).as_str()).concat(" 无 Read"));
                }
                match safe_join(c.root.as_str(), rel) {
                    Err(e) => {
                        return Err(e);
                    },
                    Ok(_) => {},
                }
                match c.dir_fd {
                    None => Err("DirCap 无 root fd(打开失败)".to_string()),
                    Some(fd) => {
                        let whole = c.root.clone().concat("/").concat(rel);
                        let taint = if is_secret_path(whole.as_str()) {
                            Taint::Secret
                        } else {
                            c.taint
                        };
                        Ok(ReadPlan { r: r.to_string(), rel: rel.to_string(), fd, taint })
                    },
                }
            },
        }
    }

    /// Begins to read `rel` below a directory: what the host is to do, or why it
    /// is refused, which goes on the trail.
    pub fn read(&mut self, r: &str, rel: &str) -> (res: Result<ReadPlan, String>)
        requires
            old(self).wf(),
            show::showable(r@),
        ensures
            final(self).wf(),
            match res {
                Ok(p) => old(self)@.read_begun(r@, rel@) == (final(self)@, Ok::<ReadV, Seq<char>>(p@)),
                Err(e) => old(self)@.read_begun(r@, rel@) == (final(self)@, Err::<ReadV, Seq<char>>(e@)),
            },
    {
        match self.read_i(r, rel) {
            Ok(p) => Ok(p),
            Err(e) => {
                let d = short(r).concat(" ").concat(rel);
                self.audit("read", d.as_str(), deny_text(e.as_str()).as_str());
                Err(e)
            },
        }
    }

    /// Takes in what the host read and puts it on the trail. The data is held
    /// until the trail is durable.
    pub fn read_done(&mut self, p: ReadPlan, data: Result<Vec<u8>, String>) -> (res: Result<HeldRead, String>)
        requires
            old(self).wf(),
            show::showable(p@.r),
        ensures
            final(self).wf(),
            final(self)@ == old(self)@.read_noted(p@, bytes_view(data)),
            match (res, data) {
                (Ok(h), Ok(b)) => h@ == (p@.taint, b@),
                (Err(e), Err(f)) => e@ == f@,
                _ => false,
            },
    {
        let d = short(p.r.as_str()).concat(" ").concat(p.rel.as_str());
        match data {
            Ok(b) => {
                self.audit("read", d.as_str(), "allow");
                Ok(HeldRead { taint: p.taint, data: b })
            },
            Err(e) => {
                self.audit("read", d.as_str(), deny_text(e.as_str()).as_str());
                Err(e)
            },
        }
    }

    /// Hands out data that was read, if the trail is durable.
    pub fn read_release(&self, h: HeldRead) -> (res: Result<(Taint, Vec<u8>), String>)
        ensures
            tainted_view(res) == (if self@.durable() {
                Ok::<(Taint, Seq<u8>), Seq<char>>(h@)
            } else {
                Err("read 结果未能持久审计,fail-closed 拒绝返回"@)
            }),
    {
        if !self.durable() {
            return Err("read 结果未能持久审计,fail-closed 拒绝返回".to_string());
        }
        Ok((h.taint, h.data))
    }

    /// What listing below a directory needs of the host.
    fn list_i(&self, r: &str, rel: &str) -> (res: Result<ReadPlan, String>)
        requires
            self.wf(),
            self@.broken || show::showable(r@),
        ensures
            match res {
                Ok(p) => self@.list_check(r@, rel@) == Ok::<ReadV, Seq<char>>(p@),
                Err(e) => self@.list_check(r@, rel@) == Err::<ReadV, Seq<char>>(e@),
            },
    {
        match self.get_active(r) {
            Err(e) => Err(e),
            Ok(c) => {
                if !has_op(c.ops.as_slice(), Op::List) {
                    return Err("DirCap ".to_string().concat(short(r).as_str()).concat(" 无 List"));
                }
                match safe_join(c.root.as_str(), rel) {
                    Err(e) => {
                        return Err(e);
                    },
                    Ok(_) => {},
                }
                match c.dir_fd {
                    None => Err("DirCap 无 root fd(打开失败)".to_string()),
                    Some(fd) => Ok(
                        ReadPlan { r: r.to_string(), rel: rel.to_string(), fd, taint: c.taint },
                    ),
                }
            },
        }
    }

    /// Begins to list `rel` below a directory: what the host is to do, or why it
    /// is refused, which goes on the trail.
    pub fn list(&mut self, r: &str, rel: &str) -> (res: Result<ReadPlan, String>)
        requires
            old(self).wf(),
            show::showable(r@),
        ensures
            final(self).wf(),
            match res {
                Ok(p) => old(self)@.list_begun(r@, rel@) == (final(self)@, Ok::<ReadV, Seq<char>>(p@)),
                Err(e) => old(self)@.list_begun(r@, rel@) == (final(self)@, Err::<ReadV, Seq<char>>(e@)),
            },
    {
        match self.list_i(r, rel) {
            Ok(p) => Ok(p),
            Err(e) => {
                let d = short(r).concat(" ").concat(rel);
                self.audit("list", d.as_str(), deny_text(e.as_str()).as_str());
                Err(e)
            },
        }
    }

    /// Takes in the names that the host found and puts it on the trail. They are
    /// held, one to a line, until the trail is durable.
    pub fn list_done(&mut self, p: ReadPlan, names: Result<Vec<String>, String>) -> (res: Result<
        HeldRead,
        String,
    >)
        requires
            old(self).wf(),
            show::showable(p@.r),
        ensures
            final(self).wf(),
            final(self)@ == old(self)@.list_noted(p@, names_view(names)),
            match (res, names) {
                (Ok(h), Ok(v)) => h@ == (
                    p@.taint,
                    encode_utf8(text::join_with(text::views(v@), "\n"@)),
                ),
                (Err(e), Err(f)) => e@ == f@,
                _ => false,
            },
    {
        let d = short(p.r.as_str()).concat(" ").concat(p.rel.as_str());
        match names {
            Ok(v) => {
                self.audit("list", d.as_str(), "allow");
                let all = join(v.as_slice(), "\n");
                Ok(HeldRead { taint: p.taint, data: vstd::slice::slice_to_vec(all.as_str().as_bytes()) })
            },
            Err(e) => {
                self.audit("list", d.as_str(), deny_text(e.as_str()).as_str());
                Err(e)
            },
        }
    }

    /// Hands out a listing, if the trail is durable.
    pub fn list_release(&self, h: HeldRead) -> (res: Result<Vec<u8>, String>)
        ensures
            bytes_view(res) == (if self@.durable() {
                Ok::<Seq<u8>, Seq<char>>(h@.1)
            } else {
                Err("list 结果未能持久审计,fail-closed 拒绝返回"@)
            }),
    {
        if !self.durable() {
            return Err("list 结果未能持久审计,fail-closed 拒绝返回".to_string());
        }
        Ok(h.data)
    }
}

/// The intent to run a command, on the trail but perhaps not yet durable.
pub struct ExecIntent {
    r: String,
}

impl View for ExecIntent {
    type V = Seq<char>;

    closed spec fn view(&self) -> Seq<char> {
        self.r@
    }
}

/// A command that the host may run.
pub struct RunPlan {
    r: String,
    argv: Vec<String>,
    env: Vec<(String, String)>,
    fd: u64,
    policy: SandboxPolicy,
}

/// Settings of an environment, as contracts speak of them.
pub open spec fn pair_views(v: Seq<(String, String)>) -> Seq<(Seq<char>, Seq<char>)> {
    v.map_values(|t: (String, String)| (t.0@, t.1@))
}

impl View for RunPlan {
    type V = RunV;

    closed spec fn view(&self) -> RunV {
        RunV {
            r: self.r@,
            argv: text::views(self.argv@),
            env: pair_views(self.env@),
            fd: self.fd,
            policy: self.policy,
        }
    }
}

impl RunPlan {
    /// The program and its arguments.
    pub fn argv(&self) -> (r: &[String])
        ensures
            text::views(r@) == self@.argv,
    {
        self.argv.as_slice()
    }

    /// The whole environment.
    pub fn env(&self) -> (r: &[(String, String)])
        ensures
            pair_views(r@) == self@.env,
    {
        self.env.as_slice()
    }

    /// The directory to run in, and to be confined to.
    pub fn fd(&self) -> (r: u64)
        ensures
            r == self@.fd,
    {
        self.fd
    }

    /// The identity and the limits to run under.
    pub fn policy(&self) -> (r: SandboxPolicy)
        ensures
            r == self@.policy,
    {
        self.policy
    }
}

/// The settings of an environment.
fn split_settings(env: &[String]) -> (r: Vec<(String, String)>)
    ensures
        pair_views(r@) == state::settings(text::views(env@)),
{
    let ghost all = text::views(env@);
    let mut out: Vec<(String, String)> = Vec::new();
    let mut i: usize = 0;
    assert(all.take(0) =~= Seq::empty());
    assert(pair_views(out@) =~= Seq::empty());
    while i < env.len()
        invariant
            i <= env@.len(),
            all == text::views(env@),
            pair_views(out@) == state::settings(all.take(i as int)),
        decreases env@.len() - i,
    {
        assert(all.take(i + 1).drop_last() =~= all.take(i as int));
        assert(all.take(i + 1).last() == env@[i as int]@);
        let ghost had = pair_views(out@);
        match split_once(env[i].as_str(), '=') {
            Some(kv) => {
                let ghost p = (kv.0@, kv.1@);
                out.push(kv);
                assert(pair_views(out@) =~= had.push(p));
            },
            None => {},
        }
        i += 1;
    }
    assert(all.take(env@.len() as int) =~= all);
    out
}

/// A list of two texts.
fn pair(a: &str, b: &str) -> (r: Vec<String>)
    ensures
        text::views(r@) == seq![a@, b@],
{
    let mut v: Vec<String> = Vec::new();
    v.push(a.to_string());
    v.push(b.to_string());
    assert(text::views(v@) =~= seq![a@, b@]);
    v
}

/// A list of texts with one more.
fn with(v: Vec<String>, c: &str) -> (r: Vec<String>)
    ensures
        text::views(r@) == text::views(v@).push(c@),
{
    let mut v = v;
    let ghost had = text::views(v@);
    v.push(c.to_string());
    assert(text::views(v@) =~= had.push(c@));
    v
}

impl Session {
    /// What the control side is shown of a command.
    fn exec_detail(&self, r: &str) -> (d: String)
        requires
            self.wf(),
            show::showable(r@),
        ensures
            d@ == self@.exec_detail(r@),
    {
        match self.lookup(r) {
            Some(c) => "执行命令 ".to_string().concat(short(r).as_str()).concat(" cwd=").concat(
                safe_display(c.root.as_str()).as_str(),
            ).concat(" argv=[").concat(canon_list(c.argv.as_slice(), 240).as_str()).concat("] env=[").concat(
                canon_list(c.env.as_slice(), 160).as_str(),
            ).concat("]"),
            None => "执行命令 CommandCap ".to_string().concat(short(r).as_str()),
        }
    }

    /// Asks to run a command. Where it may pass, the intent is on the trail, to be
    /// made durable before anything is run.
    pub fn exec(&mut self, ledger: &mut ConsentLedger, r: &str) -> (res: Result<ExecIntent, String>)
        requires
            old(self).wf(),
            old(ledger).wf(),
            old(ledger)@.issued < u64::MAX,
            show::showable(r@),
        ensures
            final(self).wf(),
            final(ledger).wf(),
            match res {
                Ok(i) => i@ == r@ && old(self)@.exec_begun(old(ledger)@, r@) == (
                    final(self)@,
                    final(ledger)@,
                    Ok::<(), Seq<char>>(()),
                ),
                Err(e) => old(self)@.exec_begun(old(ledger)@, r@) == (
                    final(self)@,
                    final(ledger)@,
                    Err::<(), Seq<char>>(e@),
                ),
            },
    {
        reveal(SessionV::exec_begun);
        let detail = self.exec_detail(r);
        let hint = hint_text("exec", "CommandCap", r);
        let sig = action_sig(pair("exec", r).as_slice());
        match self.gate(ledger, "exec", sig.as_str(), hint.as_str(), detail.as_str()) {
            Err(e) => Err(e),
            Ok(_) => {
                self.audit("exec.intent", short(r).as_str(), "attempt");
                Ok(ExecIntent { r: r.to_string() })
            },
        }
    }

    /// What running a command needs of the host.
    fn exec_i(&self, r: &str) -> (res: Result<RunPlan, String>)
        requires
            self.wf(),
            self@.broken || show::showable(r@),
        ensures
            match res {
                Ok(p) => self@.exec_check(r@) == Ok::<RunV, Seq<char>>(p@),
                Err(e) => self@.exec_check(r@) == Err::<RunV, Seq<char>>(e@),
            },
    {
        match self.get_active(r) {
            Err(e) => Err(e),
            Ok(c) => {
                if !has_op(c.ops.as_slice(), Op::Exec) {
                    return Err("CommandCap ".to_string().concat(short(r).as_str()).concat(" 无 Exec"));
                }
                if c.argv.len() == 0 {
                    return Err("CommandCap argv 为空".to_string());
                }
                match c.dir_fd {
                    None => Err("CommandCap 无 cwd fd,fail-closed 拒绝执行".to_string()),
                    Some(fd) => Ok(
                        RunPlan {
                            r: r.to_string(),
                            argv: clone_list(c.argv.as_slice()),
                            env: split_settings(c.env.as_slice()),
                            fd,
                            policy: self.command_policy(),
                        },
                    ),
                }
            },
        }
    }

    /// Releases the command to the host, if the intent was made durable.
    pub fn exec_plan(&mut self, i: ExecIntent) -> (res: Result<RunPlan, String>)
        requires
            old(self).wf(),
            show::showable(i@),
        ensures
            final(self).wf(),
            match res {
                Ok(p) => old(self)@.exec_planned(i@) == (final(self)@, Ok::<RunV, Seq<char>>(p@)),
                Err(e) => old(self)@.exec_planned(i@) == (final(self)@, Err::<RunV, Seq<char>>(e@)),
            },
    {
        if !self.durable() {
            return Err("exec 前置审计失败,fail-closed 不执行".to_string());
        }
        match self.exec_i(i.r.as_str()) {
            Ok(p) => Ok(p),
            Err(e) => {
                self.audit("exec.result", short(i.r.as_str()).as_str(), deny_text(e.as_str()).as_str());
                Err(e)
            },
        }
    }

    /// Takes in what the command printed, or why it could not be run.
    pub fn exec_done(&mut self, p: RunPlan, out: Result<Vec<u8>, String>) -> (res: Result<Vec<u8>, String>)
        requires
            old(self).wf(),
            show::showable(p@.r),
        ensures
            final(self).wf(),
            (final(self)@, bytes_view(res)) == old(self)@.exec_done(p@.r, bytes_view(out)),
    {
        let d = short(p.r.as_str());
        match out {
            Ok(b) => {
                self.audit("exec.result", d.as_str(), "allow");
                Ok(b)
            },
            Err(e) => {
                let e = "exec failed: ".to_string().concat(e.as_str());
                self.audit("exec.result", d.as_str(), deny_text(e.as_str()).as_str());
                Err(e)
            },
        }
    }
}

/// The intent to make a request, on the trail but perhaps not yet durable.
pub struct HttpIntent {
    r: String,
    path: String,
}

impl View for HttpIntent {
    type V = (Seq<char>, Seq<char>);

    closed spec fn view(&self) -> (Seq<char>, Seq<char>) {
        (self.r@, self.path@)
    }
}

/// A host name that the host may resolve.
pub struct LookupPlan {
    r: String,
    path: String,
    host: String,
    port: u16,
    target: String,
    max_bytes: usize,
}

impl View for LookupPlan {
    type V = LookupV;

    closed spec fn view(&self) -> LookupV {
        LookupV {
            r: self.r@,
            path: self.path@,
            host: self.host@,
            port: self.port,
            target: self.target@,
            max_bytes: self.max_bytes,
        }
    }
}

impl LookupPlan {
    /// The name to resolve.
    pub fn host(&self) -> (r: &str)
        ensures
            r@ == self@.host,
    {
        self.host.as_str()
    }

    /// The port to resolve it with.
    pub fn port(&self) -> (r: u16)
        ensures
            r == self@.port,
    {
        self.port
    }
}

/// A request that the host may send.
pub struct FetchPlan {
    r: String,
    path: String,
    addr: HostAddr,
    request: String,
    max_bytes: usize,
}

impl View for FetchPlan {
    type V = FetchV;

    closed spec fn view(&self) -> FetchV {
        FetchV {
            r: self.r@,
            path: self.path@,
            addr: self.addr,
            request: self.request@,
            max_bytes: self.max_bytes,
        }
    }
}

impl FetchPlan {
    /// The address to connect to; the name is not to be resolved again.
    pub fn addr(&self) -> (r: &HostAddr)
        ensures
            *r == self@.addr,
    {
        &self.addr
    }

    /// The text to send.
    pub fn request(&self) -> (r: &str)
        ensures
            r@ == self@.request,
    {
        self.request.as_str()
    }

    /// How much of the answer to take.
    pub fn max_bytes(&self) -> (r: usize)
        ensures
            r == self@.max_bytes,
    {
        self.max_bytes
    }
}

/// How a request is put on the trail.
fn http_line(r: &str, path: &str) -> (d: String)
    requires
        show::showable(r@),
    ensures
        d@ == SessionV::http_line(r@, path@),
{
    short(r).concat(" GET ").concat(path)
}

/// Tells whether a text is in a list.
fn in_list(v: &[String], s: &str) -> (r: bool)
    ensures
        r == text::views(v@).contains(s@),
{
    let ghost all = text::views(v@);
    let mut i: usize = 0;
    while i < v.len()
        invariant
            i <= v@.len(),
            all == text::views(v@),
            forall|j: int| 0 <= j < i ==> all[j] != s@,
        decreases v@.len() - i,
    {
        assert(all[i as int] == v@[i as int]@);
        if str_eq(v[i].as_str(), s) {
            return true;
        }
        i += 1;
    }
    false
}

/// Tells whether a path matches one of the patterns.
fn covered(v: &[String], path: &str) -> (r: bool)
    ensures
        r == net::any_covers(text::views(v@), path@),
{
    let ghost all = text::views(v@);
    let mut i: usize = 0;
    while i < v.len()
        invariant
            i <= v@.len(),
            all == text::views(v@),
            forall|j: int| 0 <= j < i ==> !net::path_covered(#[trigger] all[j], path@),
        decreases v@.len() - i,
    {
        assert(all[i as int] == v@[i as int]@);
        if path_matches(v[i].as_str(), path) {
            return true;
        }
        i += 1;
    }
    false
}

/// The authority of a request.
fn authority_text(host: &str, port: u16) -> (r: String)
    ensures
        r@ == state::authority(host@, port),
{
    let part = if contains_char(host, ':') && !starts_with(host, "[") {
        "[".to_string().concat(host).concat("]")
    } else {
        host.to_string()
    };
    if port == 80 {
        part
    } else {
        part.concat(":").concat(dec_string(port as u64).as_str())
    }
}

impl Session {
    /// Asks for a request to the network. Where it may pass, the intent is on the
    /// trail, to be made durable before anything is sent.
    pub fn http_get(&mut self, ledger: &mut ConsentLedger, r: &str, path: &str) -> (res: Result<
        HttpIntent,
        String,
    >)
        requires
            old(self).wf(),
            old(ledger).wf(),
            old(ledger)@.issued < u64::MAX,
            show::showable(r@),
        ensures
            final(self).wf(),
            final(ledger).wf(),
            match res {
                Ok(i) => i@ == (r@, path@) && old(self)@.http_begun(old(ledger)@, r@, path@) == (
                    final(self)@,
                    final(ledger)@,
                    Ok::<(), Seq<char>>(()),
                ),
                Err(e) => old(self)@.http_begun(old(ledger)@, r@, path@) == (
                    final(self)@,
                    final(ledger)@,
                    Err::<(), Seq<char>>(e@),
                ),
            },
    {
        reveal(SessionV::http_begun);
        let hint = hint_text("http_get", "HttpCap", r);
        let detail = "HTTP GET ".to_string().concat(short(r).as_str()).concat(" path=").concat(
            safe_display(path).as_str(),
        );
        let parts = with(pair("http_get", r), path);
        assert(text::views(parts@) =~= seq!["http_get"@, r@, path@]);
        let sig = action_sig(parts.as_slice());
        match self.gate(ledger, "http_get", sig.as_str(), hint.as_str(), detail.as_str()) {
            Err(e) => Err(e),
            Ok(_) => {
                self.audit("http.intent", http_line(r, path).as_str(), "attempt");
                Ok(HttpIntent { r: r.to_string(), path: path.to_string() })
            },
        }
    }

    /// What a request needs looked up.
    fn http_get_i(&self, r: &str, path: &str) -> (res: Result<LookupPlan, String>)
        requires
            self.wf(),
            self@.broken || show::showable(r@),
        ensures
            match res {
                Ok(p) => self@.http_check(r@, path@) == Ok::<LookupV, Seq<char>>(p@),
                Err(e) => self@.http_check(r@, path@) == Err::<LookupV, Seq<char>>(e@),
            },
    {
        let c = match self.get_active(r) {
            Err(e) => {
                return Err(e);
            },
            Ok(c) => c,
        };
        match &c.http {
            None => Err("cap 不是 HttpCap".to_string()),
            Some(h) => {
                let target = match canonical_request_target(path) {
                    Err(e) => {
                        return Err(e);
                    },
                    Ok(t) => t,
                };
                let parts = split(target.as_str(), '?');
                assert(text::views(parts@)[0] == parts@[0]@);
                let plain = parts[0].as_str();
                if !in_list(h.methods.as_slice(), "GET") {
                    return Err("HttpCap 未授权 GET".to_string());
                }
                if !covered(h.paths.as_slice(), plain) {
                    return Err(
                        "canonical path ".to_string().concat(plain).concat(" 不在 HttpCap allowlist"),
                    );
                }
                if !str_eq(h.scheme.as_str(), "http") {
                    return Err("目前仅支持 http://(https 需 TLS,后续)".to_string());
                }
                match refuse_metadata(h.host.as_str()) {
                    Err(e) => {
                        return Err(e);
                    },
                    Ok(_) => {},
                }
                Ok(
                    LookupPlan {
                        r: r.to_string(),
                        path: path.to_string(),
                        host: h.host.clone(),
                        port: h.port,
                        target,
                        max_bytes: h.max_bytes,
                    },
                )
            },
        }
    }

    /// Releases the lookup to the host, if the intent was made durable.
    pub fn http_plan(&mut self, i: HttpIntent) -> (res: Result<LookupPlan, String>)
        requires
            old(self).wf(),
            show::showable(i@.0),
        ensures
            final(self).wf(),
            match res {
                Ok(p) => old(self)@.http_planned(i@.0, i@.1) == (
                    final(self)@,
                    Ok::<LookupV, Seq<char>>(p@),
                ),
                Err(e) => old(self)@.http_planned(i@.0, i@.1) == (
                    final(self)@,
                    Err::<LookupV, Seq<char>>(e@),
                ),
            },
    {
        if !self.durable() {
            return Err("http 前置审计失败,fail-closed 不请求".to_string());
        }
        match self.http_get_i(i.r.as_str(), i.path.as_str()) {
            Ok(p) => Ok(p),
            Err(e) => {
                let d = http_line(i.r.as_str(), i.path.as_str());
                self.audit("http.result", d.as_str(), deny_text(e.as_str()).as_str());
                Err(e)
            },
        }
    }

    /// Takes in what the host name was resolved to, and releases the request to
    /// the first address if all are within bounds.
    pub fn http_lookup(&mut self, p: LookupPlan, found: Result<Vec<HostAddr>, String>) -> (res: Result<
        FetchPlan,
        String,
    >)
        requires
            old(self).wf(),
            show::showable(p@.r),
        ensures
            final(self).wf(),
            match res {
                Ok(f) => old(self)@.http_found(p@, found) == (final(self)@, Ok::<FetchV, Seq<char>>(f@)),
                Err(e) => old(self)@.http_found(p@, found) == (final(self)@, Err::<FetchV, Seq<char>>(e@)),
            },
    {
        let a = authority_text(p.host.as_str(), p.port);
        let d = http_line(p.r.as_str(), p.path.as_str());
        proof {
            if net::lookup_check(p@.host, found) is Ok {
                net::law_checked_addresses_in_bounds(p@.host, found);
            }
        }
        let mut addrs = match resolve_checked(p.host.as_str(), found) {
            Err(e) => {
                self.audit("http.result", d.as_str(), deny_text(e.as_str()).as_str());
                return Err(e);
            },
            Ok(v) => v,
        };
        match build_request(a.as_str(), p.target.as_str()) {
            Err(e) => {
                self.audit("http.result", d.as_str(), deny_text(e.as_str()).as_str());
                Err(e)
            },
            Ok(request) => {
                let addr = addrs.swap_remove(0);
                Ok(FetchPlan { r: p.r, path: p.path, addr, request, max_bytes: p.max_bytes })
            },
        }
    }

    /// Takes in the answer, as far as it was taken, or why there is none. What
    /// came from the network is marked as external.
    pub fn http_done(&mut self, p: FetchPlan, raw: Result<Vec<u8>, FetchError>) -> (res: Result<
        (Taint, Vec<u8>),
        String,
    >)
        requires
            old(self).wf(),
            show::showable(p@.r),
        ensures
            final(self).wf(),
            (final(self)@, tainted_view(res)) == old(self)@.http_done(p@, raw),
    {
        let d = http_line(p.r.as_str(), p.path.as_str());
        let outcome = match raw {
            Err(e) => Err(
                match e {
                    FetchError::Connect(m) => "connect 失败: ".to_string().concat(m.as_str()),
                    FetchError::Write(m) => "write 失败: ".to_string().concat(m.as_str()),
                    FetchError::Read(m) => "read 失败: ".to_string().concat(m.as_str()),
                },
            ),
            Ok(b) => parse_http_response(b.as_slice()),
        };
        match outcome {
            Err(e) => {
                self.audit("http.result", d.as_str(), deny_text(e.as_str()).as_str());
                Err(e)
            },
            Ok(h) => {
                self.audit("http.result", d.as_str(), "allow");
                Ok((Taint::External, h.body))
            },
        }
    }
}

/// The intent to send, on the trail but perhaps not yet durable.
pub struct SendIntent {
    r: String,
    taint: Taint,
}

impl View for SendIntent {
    type V = (Seq<char>, Taint);

    closed spec fn view(&self) -> (Seq<char>, Taint) {
        (self.r@, self.taint)
    }
}

/// How sending is put on the trail.
fn send_line(r: &str, taint: Taint) -> (d: String)
    requires
        show::showable(r@),
    ensures
        d@ == SessionV::send_line(r@, taint),
{
    short(r).concat(" taint=").concat(taint.as_str())
}

impl Session {
    /// Asks to send data to a sink: the intent is put on the trail, to be made
    /// durable first.
    pub fn send(&mut self, r: &str, taint: Taint, _data: &[u8]) -> (i: SendIntent)
        requires
            old(self).wf(),
            show::showable(r@),
        ensures
            final(self).wf(),
            i@ == (r@, taint),
            final(self)@ == old(self)@.send_begun(r@, taint),
    {
        self.audit("send.intent", send_line(r, taint).as_str(), "attempt");
        SendIntent { r: r.to_string(), taint }
    }

    /// Tells whether data may go to a sink.
    fn send_i(&self, r: &str, taint: Taint) -> (res: Result<(), String>)
        requires
            self.wf(),
            self@.broken || show::showable(r@),
        ensures
            session::unit_view(res) == self@.send_check(r@, taint),
    {
        match self.get_active(r) {
            Err(e) => Err(e),
            Ok(c) => {
                if c.kind != CapKind::Sink {
                    return Err("cap ".to_string().concat(short(r).as_str()).concat(" 不是 sink"));
                }
                if taint.is_sensitive() {
                    return Err(
                        "IFC violation: secret 污点数据不能流入外发 sink ".to_string().concat(
                            short(r).as_str(),
                        ).concat("(").concat(c.name.as_str()).concat("). next: declassify."),
                    );
                }
                Ok(())
            },
        }
    }

    /// Sends, if the intent was made durable: data that is secret never goes
    /// out.
    pub fn send_done(&mut self, i: SendIntent) -> (res: Result<(), String>)
        requires
            old(self).wf(),
            show::showable(i@.0),
        ensures
            final(self).wf(),
            (final(self)@, session::unit_view(res)) == old(self)@.send_done(i@.0, i@.1),
    {
        if !self.durable() {
            return Err("send 前置审计失败,fail-closed 不发送".to_string());
        }
        let d = send_line(i.r.as_str(), i.taint);
        match self.send_i(i.r.as_str(), i.taint) {
            Ok(_) => {
                self.audit("send.result", d.as_str(), "allow");
                Ok(())
            },
            Err(e) => {
                self.audit("send.result", d.as_str(), deny_text(e.as_str()).as_str());
                Err(e)
            },
        }
    }
}

/// The intent to post a text, on the trail but perhaps not yet durable.
pub struct PostIntent {
    r: String,
    subject: String,
    body: String,
}

impl View for PostIntent {
    type V = (Seq<char>, Seq<char>, Seq<char>);

    closed spec fn view(&self) -> (Seq<char>, Seq<char>, Seq<char>) {
        (self.r@, self.subject@, self.body@)
    }
}

/// The intent to forward a file as a message, on the trail but perhaps not yet
/// durable.
pub struct ForwardIntent {
    r: String,
    subject: String,
    src: String,
    rel: String,
}

/// An intent to forward, as contracts speak of it.
#[verifier::ext_equal]
pub struct ForwardV {
    pub r: Seq<char>,
    pub subject: Seq<char>,
    pub src: Seq<char>,
    pub rel: Seq<char>,
}

impl View for ForwardIntent {
    type V = ForwardV;

    closed spec fn view(&self) -> ForwardV {
        ForwardV { r: self.r@, subject: self.subject@, src: self.src@, rel: self.rel@ }
    }
}

/// The file that the host is to read for a message.
pub struct ForwardPlan {
    r: String,
    subject: String,
    source: ReadPlan,
}

impl View for ForwardPlan {
    type V = (Seq<char>, Seq<char>, ReadV);

    closed spec fn view(&self) -> (Seq<char>, Seq<char>, ReadV) {
        (self.r@, self.subject@, self.source@)
    }
}

impl ForwardPlan {
    /// The held directory that the file is below.
    pub fn fd(&self) -> (r: u64)
        ensures
            r == self@.2.fd,
    {
        self.source.fd()
    }

    /// The file below it.
    pub fn rel(&self) -> (r: &str)
        ensures
            r@ == self@.2.rel,
    {
        self.source.rel()
    }
}

/// Messages that were read and wait until the trail is durable.
pub struct HeldInbox {
    msgs: Vec<(String, Taint, String)>,
}

impl View for HeldInbox {
    type V = Seq<(Seq<char>, Taint, Seq<char>)>;

    closed spec fn view(&self) -> Seq<(Seq<char>, Taint, Seq<char>)> {
        session::inbox_views(self.msgs@)
    }
}

/// How a literal post is put on the trail.
fn post_line(r: &str, subject: &str) -> (d: String)
    requires
        show::showable(r@),
    ensures
        d@ == SessionV::post_line(r@, subject@),
{
    short(r).concat(" subj=").concat(subject).concat(" src=literal")
}

/// How a forwarding post is put on the trail.
fn forward_line(r: &str, subject: &str, src: &str, rel: &str) -> (d: String)
    requires
        show::showable(r@),
        show::showable(src@),
    ensures
        d@ == SessionV::forward_line(r@, subject@, src@, rel@),
{
    short(r).concat(" subj=").concat(subject).concat(" src=").concat(short(src).as_str()).concat(" ").concat(
        rel,
    )
}

impl Session {
    /// Posts to the mailbox behind a facet. The taint is the broker's finding,
    /// never the requester's word.
    fn post_bytes(&mut self, r: &str, subject: &str, taint: Taint, body: &str) -> (res: Result<(), String>)
        requires
            old(self).wf(),
            old(self)@.broken || show::showable(r@),
        ensures
            final(self).wf(),
            (final(self)@, session::unit_view(res)) == old(self)@.posted(r@, subject@, taint, body@),
    {
        let m = match self.get_msg(r) {
            Err(e) => {
                return Err(e);
            },
            Ok(m) => m,
        };
        if taint.is_sensitive() {
            return Err(
                "IFC violation: secret 污点数据不能经 MessageCap ".to_string().concat(
                    short(r).as_str(),
                ).concat(" 外发. next: declassify."),
            );
        }
        if !starts_with(subject, m.subject_prefix.as_str()) {
            return Err(
                "衰减违规:subject ".to_string().concat(debug_string(subject).as_str()).concat(
                    " 不在该 facet 的主题命名空间 ",
                ).concat(debug_string(m.subject_prefix.as_str()).as_str()).concat(" 内"),
            );
        }
        let msg = PostedMsg {
            subject: subject.to_string(),
            body: body.to_string(),
            taint,
            from_session: self.session_key(),
        };
        proof {
            state::lemma_usable(self@, r@);
        }
        if !self.put_message(m.mailbox.as_str(), msg) {
            return Err("mailbox 不存在(已被回收)".to_string());
        }
        if m.one_shot {
            self.mark_revoked(r);
        }
        Ok(())
    }

    /// Asks to post a text that the requester gives. The signature of the action
    /// binds the text, so that consent to one text is no consent to another.
    pub fn post(&mut self, ledger: &mut ConsentLedger, r: &str, subject: &str, body: &str) -> (res: Result<
        PostIntent,
        String,
    >)
        requires
            old(self).wf(),
            old(ledger).wf(),
            old(ledger)@.issued < u64::MAX,
            show::showable(r@),
        ensures
            final(self).wf(),
            final(ledger).wf(),
            match res {
                Ok(i) => i@ == (r@, subject@, body@) && old(self)@.post_begun(
                    old(ledger)@,
                    r@,
                    subject@,
                    body@,
                ) == (final(self)@, final(ledger)@, Ok::<(), Seq<char>>(())),
                Err(e) => old(self)@.post_begun(old(ledger)@, r@, subject@, body@) == (
                    final(self)@,
                    final(ledger)@,
                    Err::<(), Seq<char>>(e@),
                ),
            },
    {
        reveal(SessionV::post_begun);
        let digest = digest_text(body);
        proof {
            crate::sha256::lemma_digest_shape(encode_utf8(body@));
        }
        let dv = text::chars_of(digest.as_str());
        let start = string_of_range(dv.as_slice(), 0, 12);
        assert(start@ =~= audit::text_digest(body@).take(12));
        let hint = hint_text("post", "MessageCap", r);
        let detail = "投递 ".to_string().concat(short(r).as_str()).concat(" subj=").concat(
            safe_display(subject).as_str(),
        ).concat(" body#").concat(start.as_str());
        let parts = with(with(pair("post", r), subject), digest.as_str());
        assert(text::views(parts@) =~= seq!["post"@, r@, subject@, digest@]);
        let sig = action_sig(parts.as_slice());
        match self.gate(ledger, "post", sig.as_str(), hint.as_str(), detail.as_str()) {
            Err(e) => Err(e),
            Ok(_) => {
                self.audit("post.intent", post_line(r, subject).as_str(), "attempt");
                Ok(PostIntent { r: r.to_string(), subject: subject.to_string(), body: body.to_string() })
            },
        }
    }

    /// Posts a text that the requester gives: only the owner of the mailbox may.
    fn post_literal_owner_only(&mut self, r: &str, subject: &str, body: &str) -> (res: Result<(), String>)
        requires
            old(self).wf(),
            old(self)@.broken || show::showable(r@),
        ensures
            final(self).wf(),
            (final(self)@, session::unit_view(res)) == old(self)@.posted_literal(r@, subject@, body@),
    {
        match self.get_msg(r) {
            Err(e) => Err(e),
            Ok(m) => {
                if !m.can_receive {
                    return Err(
                        "委托(只投递)facet ".to_string().concat(short(r).as_str()).concat(
                            " 禁止字面投递(防 taint 洗白);请用 post_from 由 broker 判定 taint",
                        ),
                    );
                }
                self.post_bytes(r, subject, Taint::Green, body)
            },
        }
    }

    /// Puts the outcome of a post on the trail.
    fn note_post(&mut self, line: &str, res: &Result<(), String>)
        requires
            old(self).wf(),
        ensures
            final(self).wf(),
            final(self)@ == old(self)@.noted("post.result"@, line@, state::verdict(session::unit_view(*res))),
    {
        match res {
            Ok(_) => self.audit("post.result", line, "allow"),
            Err(e) => self.audit("post.result", line, deny_text(e.as_str()).as_str()),
        }
    }

    /// Posts the text, if the intent was made durable.
    pub fn post_done(&mut self, i: PostIntent) -> (res: Result<(), String>)
        requires
            old(self).wf(),
            show::showable(i@.0),
        ensures
            final(self).wf(),
            (final(self)@, session::unit_view(res)) == old(self)@.post_done(i@.0, i@.1, i@.2),
    {
        if !self.durable() {
            return Err("post 前置审计失败,fail-closed 不投递".to_string());
        }
        let res = self.post_literal_owner_only(i.r.as_str(), i.subject.as_str(), i.body.as_str());
        let line = post_line(i.r.as_str(), i.subject.as_str());
        self.note_post(line.as_str(), &res);
        res
    }

    /// Asks to forward a file as a message. The signature of the action binds the
    /// subject and the source.
    pub fn post_from(&mut self, ledger: &mut ConsentLedger, r: &str, subject: &str, src: &str, rel: &str) -> (res: Result<
        ForwardIntent,
        String,
    >)
        requires
            old(self).wf(),
            old(ledger).wf(),
            old(ledger)@.issued < u64::MAX,
            show::showable(r@),
            show::showable(src@),
        ensures
            final(self).wf(),
            final(ledger).wf(),
            match res {
                Ok(i) => i@ == (ForwardV { r: r@, subject: subject@, src: src@, rel: rel@ })
                    && old(self)@.forward_begun(old(ledger)@, r@, subject@, src@, rel@) == (
                    final(self)@,
                    final(ledger)@,
                    Ok::<(), Seq<char>>(()),
                ),
                Err(e) => old(self)@.forward_begun(old(ledger)@, r@, subject@, src@, rel@) == (
                    final(self)@,
                    final(ledger)@,
                    Err::<(), Seq<char>>(e@),
                ),
            },
    {
        reveal(SessionV::forward_begun);
        let hint = hint_text("post_from", "MessageCap", r);
        let detail = "转发投递 ".to_string().concat(short(r).as_str()).concat(" subj=").concat(
            safe_display(subject).as_str(),
        ).concat(" <- ").concat(short(src).as_str()).concat(" ").concat(safe_display(rel).as_str());
        let parts = with(with(with(pair("post_from", r), subject), src), rel);
        assert(text::views(parts@) =~= seq!["post_from"@, r@, subject@, src@, rel@]);
        let sig = action_sig(parts.as_slice());
        match self.gate(ledger, "post_from", sig.as_str(), hint.as_str(), detail.as_str()) {
            Err(e) => Err(e),
            Ok(_) => {
                self.audit("post.intent", forward_line(r, subject, src, rel).as_str(), "attempt");
                Ok(
                    ForwardIntent {
                        r: r.to_string(),
                        subject: subject.to_string(),
                        src: src.to_string(),
                        rel: rel.to_string(),
                    },
                )
            },
        }
    }

    /// Releases the read of the file to the host, if the intent was made durable.
    pub fn post_from_plan(&mut self, i: ForwardIntent) -> (res: Result<ForwardPlan, String>)
        requires
            old(self).wf(),
            show::showable(i@.r),
            show::showable(i@.src),
        ensures
            final(self).wf(),
            match res {
                Ok(p) => p@.0 == i@.r && p@.1 == i@.subject && old(self)@.forward_planned(
                    i@.r,
                    i@.subject,
                    i@.src,
                    i@.rel,
                ) == (final(self)@, Ok::<ReadV, Seq<char>>(p@.2)),
                Err(e) => old(self)@.forward_planned(i@.r, i@.subject, i@.src, i@.rel) == (
                    final(self)@,
                    Err::<ReadV, Seq<char>>(e@),
                ),
            },
    {
        if !self.durable() {
            return Err("post 前置审计失败,fail-closed 不投递".to_string());
        }
        match self.read_i(i.src.as_str(), i.rel.as_str()) {
            Ok(p) => Ok(ForwardPlan { r: i.r, subject: i.subject, source: p }),
            Err(e) => {
                let line = forward_line(i.r.as_str(), i.subject.as_str(), i.src.as_str(), i.rel.as_str());
                self.audit("post.result", line.as_str(), deny_text(e.as_str()).as_str());
                Err(e)
            },
        }
    }

    /// Takes in what the host read and posts it with the taint that the broker
    /// found: what is secret is refused.
    pub fn post_from_done(&mut self, p: ForwardPlan, data: Result<Vec<u8>, String>) -> (res: Result<(), String>)
        requires
            old(self).wf(),
            show::showable(p@.0),
            show::showable(p@.2.r),
        ensures
            final(self).wf(),
            (final(self)@, session::unit_view(res)) == old(self)@.forward_done(
                p@.0,
                p@.1,
                p@.2,
                bytes_view(data),
            ),
    {
        let line = forward_line(
            p.r.as_str(),
            p.subject.as_str(),
            p.source.r.as_str(),
            p.source.rel.as_str(),
        );
        let res = match data {
            Err(e) => Err(e),
            Ok(b) => {
                let body = lossy_string(b.as_slice());
                self.post_bytes(p.r.as_str(), p.subject.as_str(), p.source.taint, body.as_str())
            },
        };
        self.note_post(line.as_str(), &res);
        res
    }

    /// Begins to read a mailbox. What is in it is held until the trail is
    /// durable.
    pub fn mailbox_read(&mut self, r: &str) -> (res: Result<HeldInbox, String>)
        requires
            old(self).wf(),
            old(self)@.broken || show::showable(r@),
        ensures
            final(self).wf(),
            match old(self)@.inbox_begun(r@) {
                (s, Ok(msgs)) => final(self)@ == s && res is Ok && res->Ok_0@ == session::shown_messages(
                    msgs,
                ),
                (s, Err(e)) => final(self)@ == s && res is Err && res->Err_0@ == e,
            },
    {
        match self.get_msg(r) {
            Err(e) => {
                self.refuse("mailbox_read", brief(r).as_str(), e.as_str());
                Err(e)
            },
            Ok(m) => {
                if !m.can_receive {
                    let e = "cap ".to_string().concat(short(r).as_str()).concat(
                        " 是只投递 facet,无收件权限",
                    );
                    self.refuse("mailbox_read", brief(r).as_str(), e.as_str());
                    return Err(e);
                }
                let msgs = self.messages(m.mailbox.as_str());
                self.audit("mailbox_read", short(r).as_str(), "allow");
                Ok(HeldInbox { msgs })
            },
        }
    }

    /// Hands out the messages, if the trail is durable.
    pub fn mailbox_release(&self, h: HeldInbox) -> (res: Result<Vec<(String, Taint, String)>, String>)
        ensures
            res is Ok <==> self@.durable(),
            res is Ok ==> session::inbox_views(res->Ok_0@) == h@,
            res is Err ==> res->Err_0@ == "mailbox_read 未能持久审计,fail-closed 拒绝披露收件箱"@,
    {
        if !self.durable() {
            return Err("mailbox_read 未能持久审计,fail-closed 拒绝披露收件箱".to_string());
        }
        Ok(h.msgs)
    }
}

} // verus!
