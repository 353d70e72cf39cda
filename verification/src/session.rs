//! A session: its registry of capabilities, its trail, and the operations on
//! them. Where an operation needs the outside world, it stops and hands the host
//! what is to be done; the host hands back what came of it.

use crate::audit;
use crate::audit::{make_event, verify_chain, AuditEvent};
use crate::cap::{Cap, CapKind, CapRef, HttpSpec, Mailbox, MsgSpec, PostedMsg, PostedV};
use crate::label::{clone_ops, Op, Taint};
use crate::net::valid_host;
use crate::os::SandboxPolicy;
use crate::path::safe_join;
use crate::policy;
use crate::policy::{ConsentLedger, Decision, PolicyEngine};
use crate::session_laws;
use crate::show;
use crate::show::{brief, short};
use crate::state;
use crate::state::SessionV;
use crate::table::Table;
use crate::text;
use crate::text::{dec_string, hex_string, join};
use vstd::prelude::*;

verus! {

/// A session of one connection.
pub struct Session {
    pub key: String,
    caps: Table<Cap>,
    audit: Vec<AuditEvent>,
    sink: bool,
    unsettled: usize,
    last_ok: bool,
    bootstrap: Option<CapRef>,
    audit_broken: bool,
    exec_policy: SandboxPolicy,
    mailboxes: Table<Mailbox>,
    l5: PolicyEngine,
    consent: bool,
    mitigation_reduced: bool,
    repeated: Ghost<bool>,
}

impl View for Session {
    type V = SessionV;

    closed spec fn view(&self) -> SessionV {
        SessionV {
            key: self.key@,
            caps: self.caps@,
            audit: audit::event_views(self.audit@),
            sink: self.sink,
            unsettled: self.unsettled as nat,
            last_ok: self.last_ok,
            bootstrap: match self.bootstrap {
                Some(b) => Some(b@),
                None => None,
            },
            broken: self.audit_broken,
            exec_policy: self.exec_policy,
            mailboxes: self.mailboxes@,
            l5: self.l5,
            consent: self.consent,
            reduced: self.mitigation_reduced,
            repeated: self.repeated@,
        }
    }
}

/// Writes fresh random bytes in hexadecimal: what session keys and references
/// are made of.
pub fn rand_hex(entropy: &[u8]) -> (r: String)
    ensures
        r@ == text::hex(entropy@),
{
    hex_string(entropy)
}

/// The state of a new session.
pub open spec fn fresh(entropy: Seq<u8>, sink: bool) -> SessionV {
    SessionV {
        key: text::hex(entropy),
        caps: Map::empty(),
        audit: Seq::empty(),
        sink,
        unsettled: 0,
        last_ok: true,
        bootstrap: None,
        broken: false,
        exec_policy: SandboxPolicy {
            drop_uid: None,
            drop_gid: None,
            rlimit_nproc: Some(256),
            rlimit_fsize_bytes: Some(0x1000_0000),
            rlimit_cpu_secs: Some(60),
        },
        mailboxes: Map::empty(),
        l5: PolicyEngine {
            deny_exec: false,
            prompt_exec: false,
            prompt_http: false,
            prompt_post: false,
        },
        consent: false,
        reduced: false,
        repeated: false,
    }
}

impl Session {
    /// The registry and the mailboxes are sound, and what holds of every session
    /// holds.
    pub closed spec fn wf(&self) -> bool {
        self.caps.wf() && self.mailboxes.wf() && self@.inv()
    }

    /// What holds of every session holds of a well-formed one.
    pub proof fn lemma_wf(&self)
        requires
            self.wf(),
        ensures
            self@.inv(),
    {
    }

    fn make(entropy: &[u8], sink: bool) -> (r: Session)
        ensures
            r.wf(),
            r@ == fresh(entropy@, sink),
    {
        let r = Session {
            key: rand_hex(entropy),
            caps: Table::new(),
            audit: Vec::new(),
            sink,
            unsettled: 0,
            last_ok: true,
            bootstrap: None,
            audit_broken: false,
            exec_policy: SandboxPolicy::default_limits(),
            mailboxes: Table::new(),
            l5: PolicyEngine::allow_all(),
            consent: false,
            mitigation_reduced: false,
            repeated: Ghost(false),
        };
        assert(r@ =~= fresh(entropy@, sink));
        r
    }

    /// A session whose trail is kept in memory only. Its key is made from fresh
    /// random bytes.
    pub fn new(entropy: &[u8]) -> (r: Session)
        ensures
            r.wf(),
            r@ == fresh(entropy@, false),
    {
        Session::make(entropy, false)
    }

    /// A session each of whose events the host is to make durable.
    pub fn with_sink(entropy: &[u8]) -> (r: Session)
        ensures
            r.wf(),
            r@ == fresh(entropy@, true),
    {
        Session::make(entropy, true)
    }

    /// Puts an event on the trail.
    pub(crate) fn audit(&mut self, op: &str, detail: &str, dec: &str)
        requires
            old(self).wf(),
        ensures
            final(self).wf(),
            final(self)@ == old(self)@.noted(op@, detail@, dec@),
    {
        let ghost before = self@;
        let e = make_event(self.audit.as_slice(), op, detail, dec);
        proof {
            audit::lemma_chain_grows(before.audit, op@, detail@, dec@);
        }
        self.audit.push(e);
        assert(self@.audit =~= before.audit.push(e@));
        let n: usize = self.audit.len();
        if self.sink && self.unsettled < n {
            self.unsettled = self.unsettled + 1;
        }
        assert(self@ =~= before.noted(op@, detail@, dec@));
    }

    /// Puts a refusal on the trail.
    pub(crate) fn refuse(&mut self, op: &str, detail: &str, e: &str)
        requires
            old(self).wf(),
        ensures
            final(self).wf(),
            final(self)@ == old(self)@.refused(op@, detail@, e@),
    {
        self.audit(op, detail, "deny:".to_string().concat(e).as_str());
    }

    /// The oldest event that the host has not reported on. It is to be recorded
    /// in the service's log under this session's key.
    pub fn next_unsettled(&self) -> (r: Option<&AuditEvent>)
        requires
            self.wf(),
        ensures
            match r {
                Some(e) => self@.unsettled > 0 && e@ == self@.audit[self@.audit.len() - self@.unsettled],
                None => self@.unsettled == 0,
            },
    {
        if self.unsettled == 0 {
            return None;
        }
        let i: usize = self.audit.len() - self.unsettled;
        assert(audit::event_views(self.audit@)[i as int] == self.audit@[i as int]@);
        Some(&self.audit[i])
    }

    /// Takes in the host's report on the oldest event that it had not reported
    /// on: whether it was made durable. One that was not breaks the session.
    pub fn settle(&mut self, ok: bool)
        requires
            old(self).wf(),
            old(self)@.unsettled > 0,
        ensures
            final(self).wf(),
            final(self)@ == old(self)@.settled(ok),
    {
        let ghost before = self@;
        self.unsettled = self.unsettled - 1;
        self.last_ok = ok;
        if !ok {
            self.audit_broken = true;
        }
        assert(self@ =~= before.settled(ok));
    }

    /// Tells whether the last event was made durable and no report is owed.
    pub(crate) fn durable(&self) -> (r: bool)
        ensures
            r == self@.durable(),
    {
        self.unsettled == 0 && self.last_ok
    }

    /// Tells whether an event could not be made durable at some time.
    pub(crate) fn is_broken(&self) -> (r: bool)
        ensures
            r == self@.broken,
    {
        self.audit_broken
    }

    /// The trail.
    pub fn audit_log(&self) -> (r: &[AuditEvent])
        ensures
            audit::event_views(r@) == self@.audit,
    {
        self.audit.as_slice()
    }

    /// Tells whether the trail is whole, computing every digest anew. It always
    /// is.
    pub fn verify_audit(&self) -> (r: bool)
        requires
            self.wf(),
        ensures
            r == audit::chain_ok(self@.audit),
            r,
    {
        verify_chain(self.audit.as_slice())
    }

    /// Tells whether a capability is there and neither it nor any that it was
    /// derived from was revoked.
    pub fn is_active(&self, r: &str) -> (b: bool)
        requires
            self.wf(),
        ensures
            b == state::active(self@.caps, r@),
    {
        let ghost caps = self@.caps;
        let n: usize = self.caps.len();
        let mut cur = r.to_string();
        let mut i: usize = 0;
        let ghost mut xs = seq![r@];
        loop
            invariant
                self.wf(),
                caps == self@.caps,
                n == self.caps.order().len(),
                i <= n,
                xs.len() == i + 1,
                xs[0] == r@,
                xs.last() == cur@,
                state::climbs(caps, xs),
                state::active(caps, r@) == state::active(caps, cur@),
            decreases n - i,
        {
            let next = match self.caps.get(cur.as_str()) {
                None => {
                    proof {
                        state::lemma_not_active(caps, cur@);
                    }
                    return false;
                },
                Some(c) => {
                    if c.revoked {
                        proof {
                            state::lemma_not_active(caps, cur@);
                        }
                        return false;
                    }
                    proof {
                        state::lemma_active_step(caps, cur@);
                    }
                    match &c.parent {
                        None => {
                            return true;
                        },
                        Some(p) => p.clone(),
                    }
                },
            };
            proof {
                let ys = xs.push(next@);
                assert forall|k: int| 0 <= k < ys.len() - 1 implies caps.contains_key(#[trigger] ys[k])
                    && !caps[ys[k]].revoked && caps[ys[k]].parent == Some(ys[k + 1]) by {
                    if k < xs.len() - 1 {
                        assert(ys[k] == xs[k]);
                        assert(ys[k + 1] == xs[k + 1]);
                    }
                }
                xs = ys;
            }
            cur = next;
            if i == n {
                proof {
                    self.caps.lemma_order();
                    self.caps.order().unique_seq_to_set();
                    vstd::seq_lib::seq_to_set_is_finite(self.caps.order());
                    if state::active(caps, r@) {
                        state::lemma_climb_bounded(caps, xs);
                    }
                }
                return false;
            }
            i += 1;
        }
    }

    /// The capability behind a reference, if it can be used.
    pub fn get_active(&self, r: &str) -> (res: Result<&Cap, String>)
        requires
            self.wf(),
            self@.broken || show::showable(r@),
        ensures
            match res {
                Ok(c) => self@.usable(r@) == Ok::<_, Seq<char>>(c@) && self@.caps.contains_key(r@) && c@
                    == self@.caps[r@] && !self@.broken && state::active(self@.caps, r@),
                Err(e) => self@.usable(r@) == Err::<crate::cap::CapV, Seq<char>>(e@),
            },
    {
        if self.audit_broken {
            return Err("审计 sink 写失败,fail-closed 拒绝后续敏感操作".to_string());
        }
        if !self.is_active(r) {
            return Err("cap ".to_string().concat(short(r).as_str()).concat(" 无效/已撤销(ENOTCAPABLE)"));
        }
        match self.caps.get(r) {
            Some(c) => Ok(c),
            None => {
                proof {
                    state::lemma_not_active(self@.caps, r@);
                }
                Err("cap ".to_string().concat(short(r).as_str()).concat(" 未知(脱离 registry 上下文不可调用)"))
            },
        }
    }

    /// Puts a capability into the registry.
    fn insert(&mut self, cap: Cap)
        requires
            old(self).wf(),
            state::cap_ok(cap@.id, cap@),
            cap@.parent is Some ==> old(self)@.caps.contains_key(cap@.parent->0)
                && old(self)@.caps[cap@.parent->0].kind == cap@.kind,
            cap@.msg is Some ==> old(self)@.mailboxes.contains_key(cap@.msg->0.mailbox),
            old(self)@.reduced ==> cap@.kind != CapKind::Http,
        ensures
            final(self).wf(),
            final(self)@ == old(self)@.with_cap(cap@),
    {
        let ghost before = self@;
        let ghost c = cap@;
        proof {
            self.repeated@ = before.repeated || before.caps.contains_key(c.id);
        }
        self.caps.insert(cap.id.clone(), cap);
        assert(self@ =~= before.with_cap(c));
        assert forall|id: Seq<char>| #[trigger]
            self@.caps.contains_key(id) && self@.caps[id].msg is Some implies self@.mailboxes.contains_key(
            self@.caps[id].msg->0.mailbox,
        ) by {
            if id != c.id {
                assert(before.caps.contains_key(id));
            }
        }
        proof {
            if !self@.repeated {
                assert forall|id: Seq<char>| #[trigger]
                    self@.caps.contains_key(id)
                        && self@.caps[id].parent is Some implies self@.caps[self@.caps[id].parent->0].kind
                    == self@.caps[id].kind by {
                    if id != c.id {
                        assert(before.caps.contains_key(id));
                    }
                }
            }
        }
        assert forall|id: Seq<char>| #[trigger] self@.caps.contains_key(id) implies state::cap_ok(
            id,
            self@.caps[id],
        ) by {
            if id != c.id {
                assert(before.caps.contains_key(id));
            }
        }
        if self.mitigation_reduced {
            assert forall|id: Seq<char>| #[trigger]
                self@.caps.contains_key(id) && self@.caps[id].kind
                    == CapKind::Http implies self@.caps[id].revoked by {
                assert(before.caps.contains_key(id));
            }
        }
    }

    /// Grants a directory. `opened` is what opening it gave the host: the number
    /// by which it finds the open directory, or its error.
    pub fn grant_dir(
        &mut self,
        root: &str,
        ops: Vec<Op>,
        taint: Taint,
        opened: Result<u64, String>,
        entropy: &[u8],
    ) -> (r: Result<CapRef, String>)
        requires
            old(self).wf(),
        ensures
            final(self).wf(),
            (final(self)@, text::result_view(r)) == old(self)@.granted_dir(
                root@,
                ops@,
                taint,
                number_view(opened),
                entropy@,
            ),
    {
        let fd: u64 = match opened {
            Err(e) => {
                let e = "打开目录 ".to_string().concat(root).concat(" 失败: ").concat(e.as_str());
                let d = "root=".to_string().concat(root).concat(" taint=").concat(taint.as_str());
                self.refuse("grant_dir", d.as_str(), e.as_str());
                return Err(e);
            },
            Ok(fd) => fd,
        };
        let id = new_ref(entropy);
        let mut cap = Cap::new(id.clone(), CapKind::Dir, taint);
        cap.root = root.to_string();
        cap.ops = ops;
        cap.dir_fd = Some(fd);
        self.insert(cap);
        let d = short(id.as_str()).concat(" root=").concat(root).concat(" taint=").concat(taint.as_str());
        self.audit("grant_dir", d.as_str(), "allow");
        Ok(id)
    }

    /// Grants a sink that data may be sent to.
    pub fn grant_sink(&mut self, name: &str, entropy: &[u8]) -> (r: CapRef)
        requires
            old(self).wf(),
        ensures
            final(self).wf(),
            (final(self)@, r@) == old(self)@.granted_sink(name@, entropy@),
    {
        let id = new_ref(entropy);
        let mut cap = Cap::new(id.clone(), CapKind::Sink, Taint::Green);
        cap.name = name.to_string();
        self.insert(cap);
        let d = short(id.as_str()).concat(" ").concat(name);
        self.audit("grant_sink", d.as_str(), "allow");
        id
    }

    /// Grants a message capability with a new mailbox. Its holder owns the
    /// mailbox: it may read it and post to it. To let another post, derive a
    /// facet; handing over the reference itself hands over everything.
    pub fn grant_message(&mut self, recipient: &str, mailbox_entropy: &[u8], entropy: &[u8]) -> (r: CapRef)
        requires
            old(self).wf(),
        ensures
            final(self).wf(),
            (final(self)@, r@) == old(self)@.granted_message(recipient@, mailbox_entropy@, entropy@),
    {
        let ghost before = self@;
        let mailbox = "mbox_".to_string().concat(hex_string(mailbox_entropy).as_str());
        let ghost mid = mailbox@;
        let empty = Mailbox { msgs: Vec::new() };
        assert(empty@ =~= Seq::empty());
        self.mailboxes.insert(mailbox.clone(), empty);
        assert(self@ =~= SessionV { mailboxes: before.mailboxes.insert(mid, Seq::empty()), ..before });
        assert forall|m: Seq<char>| #[trigger] self@.mailboxes.contains_key(m) implies state::no_secret(
            self@.mailboxes[m],
        ) by {
            if m != mid {
                assert(before.mailboxes.contains_key(m));
            }
        }
        let id = new_ref(entropy);
        let mut cap = Cap::new(id.clone(), CapKind::Message, Taint::Green);
        cap.name = recipient.to_string();
        cap.msg = Some(
            MsgSpec { mailbox, subject_prefix: String::new(), one_shot: false, can_receive: true },
        );
        self.insert(cap);
        let d = short(id.as_str()).concat(" to=").concat(recipient);
        self.audit("grant_message", d.as_str(), "allow");
        id
    }
}

impl Session {
    /// What a message capability allows, if the reference can be used and is
    /// one.
    pub(crate) fn get_msg(&self, r: &str) -> (res: Result<MsgSpec, String>)
        requires
            self.wf(),
            self@.broken || show::showable(r@),
        ensures
            match res {
                Ok(m) => self@.usable_msg(r@) == Ok::<_, Seq<char>>(m@),
                Err(e) => self@.usable_msg(r@) == Err::<crate::cap::MsgV, Seq<char>>(e@),
            },
    {
        match self.get_active(r) {
            Err(e) => Err(e),
            Ok(c) => match &c.msg {
                Some(m) => Ok(m.clone()),
                None => Err("cap ".to_string().concat(short(r).as_str()).concat(" 不是 message")),
            },
        }
    }

    /// Derives a facet that may only post.
    fn insert_msg_facet(&mut self, r: &str, more: &str, one_shot: bool, entropy: &[u8]) -> (res: Result<
        CapRef,
        String,
    >)
        requires
            old(self).wf(),
            old(self)@.broken || show::showable(r@),
        ensures
            final(self).wf(),
            (final(self)@, text::result_view(res)) == old(self)@.derived_msg(r@, more@, one_shot, entropy@),
    {
        let m = match self.get_msg(r) {
            Err(e) => {
                self.refuse("derive_message", brief(r).as_str(), e.as_str());
                return Err(e);
            },
            Ok(m) => m,
        };
        proof {
            state::lemma_usable(self@, r@);
        }
        let id = new_ref(entropy);
        let mut cap = Cap::new(id.clone(), CapKind::Message, Taint::Green);
        cap.msg = Some(
            MsgSpec {
                mailbox: m.mailbox,
                subject_prefix: m.subject_prefix.concat(more),
                one_shot: one_shot || m.one_shot,
                can_receive: false,
            },
        );
        cap.parent = Some(r.to_string());
        self.insert(cap);
        self.audit("derive_message", short(id.as_str()).as_str(), "allow");
        Ok(id)
    }

    /// Derives a facet that may only post, and only under a longer prefix. One
    /// derived from a facet that serves once serves once.
    pub fn derive_msg_prefix(&mut self, r: &str, add_prefix: &str, entropy: &[u8]) -> (res: Result<CapRef, String>)
        requires
            old(self).wf(),
            old(self)@.broken || show::showable(r@),
        ensures
            final(self).wf(),
            (final(self)@, text::result_view(res)) == old(self)@.derived_msg(
                r@,
                add_prefix@,
                false,
                entropy@,
            ),
    {
        self.insert_msg_facet(r, add_prefix, false, entropy)
    }

    /// Derives a facet that may only post, and only once.
    pub fn derive_msg_oneshot(&mut self, r: &str, entropy: &[u8]) -> (res: Result<CapRef, String>)
        requires
            old(self).wf(),
            old(self)@.broken || show::showable(r@),
        ensures
            final(self).wf(),
            (final(self)@, text::result_view(res)) == old(self)@.derived_msg(
                r@,
                Seq::empty(),
                true,
                entropy@,
            ),
    {
        proof {
            reveal_strlit("");
            assert(""@ =~= Seq::empty());
        }
        self.insert_msg_facet(r, "", true, entropy)
    }

    /// Grants a command that runs in the directory behind `cwd_ref`, with
    /// nothing in its environment but the search path.
    pub fn grant_command(&mut self, cwd_ref: &str, argv: Vec<String>, entropy: &[u8]) -> (res: Result<
        CapRef,
        String,
    >)
        requires
            old(self).wf(),
            old(self)@.broken || show::showable(cwd_ref@),
        ensures
            final(self).wf(),
            (final(self)@, text::result_view(res)) == old(self)@.granted_command(
                cwd_ref@,
                text::views(argv@),
                entropy@,
            ),
    {
        let name = join(argv.as_slice(), " ");
        let found = match self.get_active(cwd_ref) {
            Err(e) => Err(e),
            Ok(d) => {
                if d.kind != CapKind::Dir {
                    Err("grant command 的 cwd 必须是 DirCap".to_string())
                } else {
                    Ok((d.root.clone(), d.dir_fd))
                }
            },
        };
        let (cwd, cwd_fd) = match found {
            Err(e) => {
                let d = brief(cwd_ref).concat(" [").concat(name.as_str()).concat("]");
                self.refuse("grant_cmd", d.as_str(), e.as_str());
                return Err(e);
            },
            Ok(x) => x,
        };
        let id = new_ref(entropy);
        let d = short(id.as_str()).concat(" [").concat(name.as_str()).concat("]");
        let mut env: Vec<String> = Vec::new();
        env.push("PATH=/usr/bin:/bin:/usr/local/bin".to_string());
        assert(text::views(env@) =~= seq!["PATH=/usr/bin:/bin:/usr/local/bin"@]);
        let mut ops: Vec<Op> = Vec::new();
        ops.push(Op::Exec);
        assert(ops@ =~= seq![Op::Exec]);
        let mut cap = Cap::new(id.clone(), CapKind::Command, Taint::Yellow);
        cap.root = cwd;
        cap.ops = ops;
        cap.name = name;
        cap.argv = argv;
        cap.env = env;
        cap.dir_fd = cwd_fd;
        self.insert(cap);
        self.audit("grant_cmd", d.as_str(), "allow");
        Ok(id)
    }

    /// Grants requests to one origin: by method, by path and up to a size. A
    /// subject with lowered safeguards gets none.
    pub fn grant_http(
        &mut self,
        scheme: &str,
        host: &str,
        port: u16,
        methods: Vec<String>,
        paths: Vec<String>,
        max_bytes: usize,
        entropy: &[u8],
    ) -> (res: Result<CapRef, String>)
        requires
            old(self).wf(),
        ensures
            final(self).wf(),
            (final(self)@, text::result_view(res)) == old(self)@.granted_http(
                (crate::cap::HttpV {
                    scheme: scheme@,
                    host: host@,
                    port,
                    methods: text::views(methods@),
                    paths: text::views(paths@),
                    max_bytes,
                }),
                entropy@,
            ),
    {
        if self.mitigation_reduced {
            self.audit("grant_http", host, "deny:mitigation_reduced");
            return Err("mitigation reduced: subject cannot hold network authority (E1)".to_string());
        }
        match valid_host(host) {
            Err(e) => {
                self.refuse("grant_http", host, e.as_str());
                return Err(e);
            },
            Ok(_) => {},
        }
        let id = new_ref(entropy);
        let root = scheme.to_string().concat("://").concat(host).concat(":").concat(
            dec_string(port as u64).as_str(),
        );
        let d = short(id.as_str()).concat(" ").concat(root.as_str());
        let mut cap = Cap::new(id.clone(), CapKind::Http, Taint::External);
        cap.root = root;
        cap.http = Some(
            HttpSpec {
                scheme: scheme.to_string(),
                host: host.to_string(),
                port,
                methods,
                paths,
                max_bytes,
            },
        );
        self.insert(cap);
        self.audit("grant_http", d.as_str(), "allow");
        Ok(id)
    }

    /// The held directory from which a subdirectory is to be opened.
    fn sub_parent(&self, r: &str) -> (res: Result<u64, String>)
        requires
            self.wf(),
            self@.broken || show::showable(r@),
        ensures
            match res {
                Ok(fd) => self@.sub_parent(r@) is Ok && self@.sub_parent(r@)->Ok_0.1 == fd,
                Err(e) => self@.sub_parent(r@) is Err && self@.sub_parent(r@)->Err_0 == e@,
            },
    {
        match self.get_active(r) {
            Err(e) => Err(e),
            Ok(c) => {
                if c.kind != CapKind::Dir {
                    return Err("sub 只适用于 DirCap".to_string());
                }
                match c.dir_fd {
                    None => Err("DirCap 无 root fd".to_string()),
                    Some(fd) => Ok(fd),
                }
            },
        }
    }

    /// Begins to derive a capability for the subdirectory `seg`: the held
    /// directory from which the host is to open it.
    pub fn sub_plan(&mut self, r: &str, seg: &str) -> (res: Result<u64, String>)
        requires
            old(self).wf(),
            old(self)@.broken || show::showable(r@),
        ensures
            final(self).wf(),
            (final(self)@, number_view(res)) == old(self)@.sub_begun(r@, seg@),
    {
        match self.sub_parent(r) {
            Err(e) => {
                self.refuse_sub(r, seg, e.as_str());
                Err(e)
            },
            Ok(fd) => Ok(fd),
        }
    }

    /// Puts it on the trail that no subdirectory was derived.
    fn refuse_sub(&mut self, r: &str, seg: &str, e: &str)
        requires
            old(self).wf(),
        ensures
            final(self).wf(),
            final(self)@ == old(self)@.refused("derive_sub"@, state::sub_line(r@, seg@), e@),
    {
        let d = brief(r).concat(" /").concat(seg);
        self.refuse("derive_sub", d.as_str(), e);
    }

    /// Derives a capability for the subdirectory `seg`. `opened` is what opening
    /// it below the held directory gave the host.
    pub fn derive_sub(&mut self, r: &str, seg: &str, opened: Result<u64, String>, entropy: &[u8]) -> (res: Result<
        CapRef,
        String,
    >)
        requires
            old(self).wf(),
            old(self)@.broken || show::showable(r@),
        ensures
            final(self).wf(),
            (final(self)@, text::result_view(res)) == old(self)@.derived_sub(
                r@,
                seg@,
                number_view(opened),
                entropy@,
            ),
    {
        let found = match self.sub_parent(r) {
            Err(e) => Err(e),
            Ok(_) => match self.get_active(r) {
                Err(e) => Err(e),
                Ok(c) => match opened {
                    Err(e) => Err(e),
                    Ok(fd) => match safe_join(c.root.as_str(), seg) {
                        Err(e) => Err(e),
                        Ok(root) => Ok((root, clone_ops(c.ops.as_slice()), c.taint, fd)),
                    },
                },
            },
        };
        let (root, ops, taint, fd) = match found {
            Err(e) => {
                self.refuse_sub(r, seg, e.as_str());
                return Err(e);
            },
            Ok(x) => x,
        };
        let id = new_ref(entropy);
        let mut cap = Cap::new(id.clone(), CapKind::Dir, taint);
        cap.root = root;
        cap.ops = ops;
        cap.dir_fd = Some(fd);
        cap.parent = Some(r.to_string());
        self.insert(cap);
        let d = short(id.as_str()).concat(" <- ").concat(short(r).as_str()).concat(" /").concat(seg);
        self.audit("derive_sub", d.as_str(), "allow");
        Ok(id)
    }

    /// Derives a capability that only reads and lists, as far as its origin does.
    pub fn derive_readonly(&mut self, r: &str, entropy: &[u8]) -> (res: Result<CapRef, String>)
        requires
            old(self).wf(),
            old(self)@.broken || show::showable(r@),
        ensures
            final(self).wf(),
            (final(self)@, text::result_view(res)) == old(self)@.derived_readonly(r@, entropy@),
    {
        let found = match self.get_active(r) {
            Err(e) => Err(e),
            Ok(c) => Ok((c.root.clone(), reading_ops(c.ops.as_slice()), c.taint, c.kind, c.dir_fd)),
        };
        let (root, ops, taint, kind, fd) = match found {
            Err(e) => {
                self.refuse("derive_readonly", brief(r).as_str(), e.as_str());
                return Err(e);
            },
            Ok(x) => x,
        };
        proof {
            if self@.reduced && kind == CapKind::Http {
                state::lemma_not_active(self@.caps, r@);
            }
        }
        let id = new_ref(entropy);
        let mut cap = Cap::new(id.clone(), kind, taint);
        cap.root = root;
        cap.ops = ops;
        cap.dir_fd = fd;
        cap.parent = Some(r.to_string());
        self.insert(cap);
        let d = short(id.as_str()).concat(" <- ").concat(short(r).as_str());
        self.audit("derive_readonly", d.as_str(), "allow");
        Ok(id)
    }

    /// Marks a capability as revoked.
    pub(crate) fn mark_revoked(&mut self, r: &str)
        requires
            old(self).wf(),
            old(self)@.caps.contains_key(r@),
        ensures
            final(self).wf(),
            final(self)@ == old(self)@.without(r@),
    {
        let ghost before = self@;
        match self.caps.remove(r) {
            None => {},
            Some(mut c) => {
                c.revoked = true;
                self.caps.insert(r.to_string(), c);
            },
        }
        assert(self@.caps =~= before.without(r@).caps);
        assert(self@ =~= before.without(r@));
        assert forall|id: Seq<char>| #[trigger] self@.caps.contains_key(id) implies state::cap_ok(
            id,
            self@.caps[id],
        ) by {
            assert(before.caps.contains_key(id));
        }
        assert forall|id: Seq<char>| #[trigger]
            self@.caps.contains_key(id) && self@.reduced && self@.caps[id].kind
                == CapKind::Http implies self@.caps[id].revoked by {
            assert(before.caps.contains_key(id));
        }
        assert forall|id: Seq<char>| #[trigger]
            self@.caps.contains_key(id) && self@.caps[id].msg is Some implies self@.mailboxes.contains_key(
            self@.caps[id].msg->0.mailbox,
        ) by {
            assert(before.caps.contains_key(id));
        }
        proof {
            if !self@.repeated {
                assert forall|id: Seq<char>| #[trigger]
                    self@.caps.contains_key(id)
                        && self@.caps[id].parent is Some implies self@.caps[self@.caps[id].parent->0].kind
                    == self@.caps[id].kind by {
                    assert(before.caps.contains_key(id));
                    assert(before.caps.contains_key(before.caps[id].parent->0));
                }
            }
        }
    }

    /// Revokes a capability, and with it all that were derived from it.
    pub fn revoke(&mut self, r: &str) -> (res: Result<(), String>)
        requires
            old(self).wf(),
            show::showable(r@),
        ensures
            final(self).wf(),
            (final(self)@, unit_view(res)) == old(self)@.revoked(r@),
    {
        let s = short(r);
        let known = self.caps.get(r).is_some();
        if known {
            self.mark_revoked(r);
            self.audit("revoke", s.as_str(), "allow");
            Ok(())
        } else {
            let e = "cap ".to_string().concat(s.as_str()).concat(" 未知");
            self.audit("revoke", s.as_str(), "deny:".to_string().concat(e.as_str()).as_str());
            Err(e)
        }
    }

    /// The capabilities that reach out and were not revoked.
    fn egress(&self) -> (r: Vec<String>)
        requires
            self.wf(),
        ensures
            self@.lists_egress(text::views(r@)),
    {
        let mut out: Vec<String> = Vec::new();
        let mut i: usize = 0;
        let ghost all = self.caps.order();
        proof {
            self.caps.lemma_order();
        }
        while i < self.caps.len()
            invariant
                self.wf(),
                all == self.caps.order(),
                all.no_duplicates(),
                i <= all.len(),
                text::views(out@).no_duplicates(),
                forall|id: Seq<char>| #[trigger]
                    text::views(out@).contains(id) <==> all.take(i as int).contains(id)
                        && self@.reaches_out(id),
            decreases all.len() - i,
        {
            let ghost had = text::views(out@);
            let id = self.caps.key_at(i);
            let ghost key = id@;
            assert(all.take(i + 1) =~= all.take(i as int).push(key));
            assert(!all.take(i as int).contains(key)) by {
                if all.take(i as int).contains(key) {
                    let j = all.take(i as int).index_of(key);
                    assert(all[j] == all[i as int]);
                }
            }
            assert forall|x: Seq<char>| #[trigger] all.take(i + 1).contains(x) <==> all.take(
                i as int,
            ).contains(x) || x == key by {
                let a = all.take(i as int);
                assert(a.push(key).last() == key);
                if a.contains(x) {
                    assert(a.push(key)[a.index_of(x)] == x);
                }
            }
            let c = self.caps.value_at(i);
            if !c.revoked && (c.kind == CapKind::Http || c.kind == CapKind::Message) {
                out.push(id.clone());
                let ghost now = text::views(out@);
                assert(now =~= had.push(key));
                assert forall|x: Seq<char>| #[trigger] now.contains(x) <==> had.contains(x) || x == key by {
                    assert(now.last() == key);
                    if had.contains(x) {
                        assert(now[had.index_of(x)] == x);
                    }
                }
                assert(!had.contains(key));
            }
            i += 1;
        }
        assert(all.take(all.len() as int) =~= all);
        out
    }

    /// Notes that the subject runs with its safeguards lowered, or no longer
    /// does. Lowering them revokes every capability that reaches out, and while
    /// they are lowered no network capability is granted. No policy changes
    /// this.
    pub fn set_mitigation_reduced(&mut self, reduced: bool)
        requires
            old(self).wf(),
        ensures
            final(self).wf(),
            reduced ==> exists|rs: Seq<Seq<char>>|
                #![trigger old(self)@.lists_egress(rs)]
                old(self)@.lists_egress(rs) && final(self)@ == (SessionV {
                    reduced: true,
                    ..old(self)@.revoked_all(rs)
                }).noted("mitigation"@, "reduced: egress caps revoked"@, "allow"@),
            !reduced ==> final(self)@ == (SessionV { reduced: false, ..old(self)@ }).noted(
                "mitigation"@,
                "full"@,
                "allow"@,
            ),
            reduced ==> forall|r: Seq<char>| #[trigger]
                old(self)@.caps.contains_key(r) ==> if old(self)@.caps[r].kind == CapKind::Http
                    || old(self)@.caps[r].kind == CapKind::Message {
                    !state::active(final(self)@.caps, r)
                } else {
                    !old(self)@.repeated ==> state::active(final(self)@.caps, r) == state::active(
                        old(self)@.caps,
                        r,
                    )
                },
    {
        if reduced {
            let list = self.egress();
            let ghost rs = text::views(list@);
            let ghost before = self@;
            let mut i: usize = 0;
            assert(rs.take(0) =~= Seq::empty());
            while i < list.len()
                invariant
                    self.wf(),
                    i <= list@.len(),
                    rs == text::views(list@),
                    before == old(self)@,
                    before.inv(),
                    before.lists_egress(rs),
                    self@ == before.revoked_all(rs.take(i as int)),
                decreases list@.len() - i,
            {
                assert(rs.take(i + 1).drop_last() =~= rs.take(i as int));
                assert(rs.take(i + 1).last() == list@[i as int]@);
                assert(rs.contains(rs[i as int]));
                assert(before.reaches_out(rs[i as int]));
                let _ = self.revoke(list[i].as_str());
                i += 1;
            }
            assert(rs.take(rs.len() as int) =~= rs);
            proof {
                state::lemma_revoked_all(before, rs);
                assert forall|id: Seq<char>| #[trigger]
                    self@.caps.contains_key(id) && self@.caps[id].kind
                        == CapKind::Http implies self@.caps[id].revoked by {
                    if !before.caps[id].revoked {
                        assert(before.reaches_out(id));
                    }
                }
            }
            self.mitigation_reduced = true;
            assert(self@ =~= SessionV { reduced: true, ..before.revoked_all(rs) });
            self.audit("mitigation", "reduced: egress caps revoked", "allow");
            proof {
                assert forall|r: Seq<char>| #[trigger] before.caps.contains_key(r) implies if before.caps[r].kind
                    == CapKind::Http || before.caps[r].kind == CapKind::Message {
                    !state::active(self@.caps, r)
                } else {
                    !before.repeated ==> state::active(self@.caps, r) == state::active(before.caps, r)
                } by {
                    assert(self@.caps.contains_key(r));
                    if self@.caps[r].revoked {
                        state::lemma_not_active(self@.caps, r);
                    } else if before.caps[r].kind == CapKind::Http || before.caps[r].kind
                        == CapKind::Message {
                        assert(before.reaches_out(r));
                    }
                    if !before.repeated {
                        session_laws::law_lowering_revokes_egress(before, rs, r);
                    }
                }
            }
        } else {
            let ghost before = self@;
            self.mitigation_reduced = false;
            assert(self@ =~= SessionV { reduced: false, ..before });
            self.audit("mitigation", "full", "allow");
        }
    }

    /// The capability under a reference, usable or not.
    pub(crate) fn lookup(&self, r: &str) -> (res: Option<&Cap>)
        requires
            self.wf(),
        ensures
            match res {
                Some(c) => self@.caps.contains_key(r@) && c@ == self@.caps[r@],
                None => !self@.caps.contains_key(r@),
            },
    {
        self.caps.get(r)
    }

    /// Whether the session may ask for consent.
    pub(crate) fn asks_consent(&self) -> (r: bool)
        ensures
            r == self@.consent,
    {
        self.consent
    }

    /// What the policy says of an action.
    pub(crate) fn decide(&self, verb: &str) -> (r: Decision)
        ensures
            r == policy::decided(self@.l5, verb@),
    {
        self.l5.decide(verb)
    }

    /// The session's key.
    pub(crate) fn session_key(&self) -> (r: String)
        ensures
            r@ == self@.key,
    {
        self.key.clone()
    }

    /// The identity and limits of the commands that are run.
    pub(crate) fn command_policy(&self) -> (r: SandboxPolicy)
        ensures
            r == self@.exec_policy,
    {
        self.exec_policy
    }

    /// Puts a message into a mailbox; tells whether there is such a mailbox.
    pub(crate) fn put_message(&mut self, mailbox: &str, msg: PostedMsg) -> (r: bool)
        requires
            old(self).wf(),
            msg@.taint != Taint::Secret,
        ensures
            final(self).wf(),
            r == old(self)@.mailboxes.contains_key(mailbox@),
            final(self)@ == (if r {
                SessionV {
                    mailboxes: old(self)@.mailboxes.insert(
                        mailbox@,
                        old(self)@.mailboxes[mailbox@].push(msg@),
                    ),
                    ..old(self)@
                }
            } else {
                old(self)@
            }),
    {
        let ghost before = self@;
        let ghost mv = msg@;
        match self.mailboxes.remove(mailbox) {
            None => {
                assert(self@ =~= before);
                false
            },
            Some(mut b) => {
                let ghost had = b@;
                b.msgs.push(msg);
                assert(b@ =~= had.push(mv));
                self.mailboxes.insert(mailbox.to_string(), b);
                assert(self@.mailboxes =~= before.mailboxes.insert(mailbox@, had.push(mv)));
                assert(self@ =~= SessionV {
                    mailboxes: before.mailboxes.insert(mailbox@, had.push(mv)),
                    ..before
                });
                assert forall|m: Seq<char>| #[trigger]
                    self@.mailboxes.contains_key(m) implies state::no_secret(self@.mailboxes[m]) by {
                    assert(before.mailboxes.contains_key(m));
                    assert(state::no_secret(before.mailboxes[m]));
                }
                true
            },
        }
    }

    /// The messages in a mailbox: subject, taint and body of each.
    pub(crate) fn messages(&self, mailbox: &str) -> (r: Vec<(String, Taint, String)>)
        requires
            self.wf(),
        ensures
            inbox_views(r@) == shown_messages(
                if self@.mailboxes.contains_key(mailbox@) {
                    self@.mailboxes[mailbox@]
                } else {
                    Seq::empty()
                },
            ),
    {
        let mut out: Vec<(String, Taint, String)> = Vec::new();
        match self.mailboxes.get(mailbox) {
            None => {},
            Some(b) => {
                let ghost all = shown_messages(b@);
                let mut i: usize = 0;
                while i < b.msgs.len()
                    invariant
                        i <= b.msgs@.len(),
                        all == shown_messages(b@),
                        all.len() == b.msgs@.len(),
                        inbox_views(out@) == all.take(i as int),
                    decreases b.msgs@.len() - i,
                {
                    let ghost had = inbox_views(out@);
                    let m = &b.msgs[i];
                    out.push((m.subject.clone(), m.taint, m.body.clone()));
                    assert(inbox_views(out@) =~= had.push(all[i as int]));
                    assert(all.take(i + 1) =~= all.take(i as int).push(all[i as int]));
                    i += 1;
                }
                assert(all.take(all.len() as int) =~= all);
            },
        }
        assert(out@.len() == 0 ==> inbox_views(out@) =~= Seq::empty());
        assert(shown_messages(Seq::empty()) =~= Seq::empty());
        out
    }

    /// Describes a capability: its kind, its root, its taint, and whether it was
    /// revoked.
    pub fn describe(&self, r: &str) -> (res: Result<String, String>)
        requires
            self.wf(),
            show::showable(r@),
        ensures
            text::result_view(res) == self@.described(r@),
    {
        match self.caps.get(r) {
            None => Err("cap ".to_string().concat(short(r).as_str()).concat(" 未知")),
            Some(c) => {
                let end = if self.is_active(r) {
                    ""
                } else {
                    " REVOKED"
                };
                Ok(
                    "<".to_string().concat(short(r).as_str()).concat(" ").concat(c.kind.as_str()).concat(
                        " root=",
                    ).concat(c.root.as_str()).concat(" taint=").concat(c.taint.as_str()).concat(end).concat(
                        ">",
                    ),
                )
            },
        }
    }
}

impl Session {
    /// Sets the policy over the use of capabilities.
    pub fn set_policy(&mut self, p: PolicyEngine)
        requires
            old(self).wf(),
        ensures
            final(self).wf(),
            final(self)@ == (SessionV { l5: p, ..old(self)@ }),
    {
        let ghost before = self@;
        self.l5 = p;
        assert(self@ =~= SessionV { l5: p, ..before });
    }

    /// Lets the session ask the service's ledger for consent.
    pub fn set_consent(&mut self)
        requires
            old(self).wf(),
        ensures
            final(self).wf(),
            final(self)@ == (SessionV { consent: true, ..old(self)@ }),
    {
        let ghost before = self@;
        self.consent = true;
        assert(self@ =~= SessionV { consent: true, ..before });
    }

    /// Sets the identity and limits of the commands that are run.
    pub fn set_exec_policy(&mut self, p: SandboxPolicy)
        requires
            old(self).wf(),
        ensures
            final(self).wf(),
            final(self)@ == (SessionV { exec_policy: p, ..old(self)@ }),
    {
        let ghost before = self@;
        self.exec_policy = p;
        assert(self@ =~= SessionV { exec_policy: p, ..before });
    }

    /// Grants the workspace to begin with, to be taken once. Where it could not
    /// be opened there is nothing to take.
    pub fn set_bootstrap(&mut self, workspace: &str, opened: Result<u64, String>, entropy: &[u8])
        requires
            old(self).wf(),
        ensures
            final(self).wf(),
            final(self)@ == ({
                let (s, res) = old(self)@.granted_dir(
                    workspace@,
                    seq![Op::Read, Op::List],
                    Taint::Project,
                    number_view(opened),
                    entropy@,
                );
                SessionV {
                    bootstrap: match res {
                        Ok(id) => Some(id),
                        Err(_) => None,
                    },
                    ..s
                }
            }),
            final(self)@ == bootstrapped(old(self)@, workspace@, number_view(opened), entropy@),
    {
        let mut ops: Vec<Op> = Vec::new();
        ops.push(Op::Read);
        ops.push(Op::List);
        assert(ops@ =~= seq![Op::Read, Op::List]);
        let granted = self.grant_dir(workspace, ops, Taint::Project, opened, entropy);
        let ghost mid = self@;
        self.bootstrap = match granted {
            Ok(id) => Some(id),
            Err(_) => None,
        };
        assert(self@ =~= SessionV { bootstrap: self@.bootstrap, ..mid });
    }

    /// Takes the capability to begin with. It can be taken once.
    pub fn take_bootstrap(&mut self) -> (res: Result<CapRef, String>)
        requires
            old(self).wf(),
        ensures
            final(self).wf(),
            final(self)@ == (SessionV { bootstrap: None, ..old(self)@ }),
            text::result_view(res) == (match old(self)@.bootstrap {
                Some(id) => Ok::<Seq<char>, Seq<char>>(id),
                None => Err("BOOTSTRAP 已被消费或不可用(guest 无预注入根)"@),
            }),
    {
        let ghost before = self@;
        let taken = self.bootstrap.take();
        assert(self@ =~= SessionV { bootstrap: None, ..before });
        match taken {
            Some(id) => Ok(id),
            None => Err("BOOTSTRAP 已被消费或不可用(guest 无预注入根)".to_string()),
        }
    }

    /// Approves a request for consent, from the control side.
    pub fn consent_approve(&mut self, ledger: &mut ConsentLedger, id: &str) -> (res: Result<String, String>)
        requires
            old(self).wf(),
            old(ledger).wf(),
        ensures
            final(self).wf(),
            final(ledger).wf(),
            (final(self)@, final(ledger)@, text::result_view(res)) == old(self)@.consent_settled(
                old(ledger)@,
                id@,
                true,
            ),
    {
        if !self.consent {
            self.audit("consent.approve", id, "deny");
            return Err("无 consent 账本".to_string());
        }
        let res = ledger.approve(id);
        self.audit(
            "consent.approve",
            id,
            if res.is_ok() {
                "allow"
            } else {
                "deny"
            },
        );
        res
    }

    /// Refuses a request for consent, from the control side.
    pub fn consent_deny(&mut self, ledger: &mut ConsentLedger, id: &str) -> (res: Result<String, String>)
        requires
            old(self).wf(),
            old(ledger).wf(),
        ensures
            final(self).wf(),
            final(ledger).wf(),
            (final(self)@, final(ledger)@, text::result_view(res)) == old(self)@.consent_settled(
                old(ledger)@,
                id@,
                false,
            ),
    {
        if !self.consent {
            self.audit("consent.deny", id, "deny");
            return Err("无 consent 账本".to_string());
        }
        let res = ledger.deny(id);
        self.audit(
            "consent.deny",
            id,
            if res.is_ok() {
                "allow"
            } else {
                "deny"
            },
        );
        res
    }

    /// The whole detail of a request for consent. Only the control side may see
    /// it.
    pub fn consent_describe(&self, ledger: &ConsentLedger, id: &str) -> (res: Result<String, String>)
        requires
            ledger.wf(),
        ensures
            text::result_view(res) == self@.consent_detail(ledger@, id@),
    {
        if !self.consent {
            return Err("无 consent 账本".to_string());
        }
        match ledger.describe(id) {
            Some(s) => Ok(s),
            None => Err("consent ".to_string().concat(id).concat(" 不存在")),
        }
    }

    /// The requests that wait for consent, with their details. Only the control
    /// side may see them.
    pub fn consent_list(&self, ledger: &ConsentLedger) -> (r: Vec<(String, String, String)>)
        requires
            ledger.wf(),
        ensures
            policy::triple_views(r@) == self@.consent_waiting(ledger@),
    {
        if self.consent {
            ledger.list_pending()
        } else {
            let r: Vec<(String, String, String)> = Vec::new();
            assert(policy::triple_views(r@) =~= Seq::empty());
            r
        }
    }
}

/// The state of a session once it was given its workspace to begin with: a directory that it
/// may read and list, where the host could open it.
pub open spec fn bootstrapped(
    s: SessionV,
    workspace: Seq<char>,
    opened: Result<u64, Seq<char>>,
    entropy: Seq<u8>,
) -> SessionV {
    let (t, res) = s.granted_dir(workspace, seq![Op::Read, Op::List], Taint::Project, opened, entropy);
    SessionV {
        bootstrap: match res {
            Ok(id) => Some(id),
            Err(_) => None,
        },
        ..t
    }
}

/// Messages read from a mailbox, as contracts speak of them.
pub open spec fn inbox_views(v: Seq<(String, Taint, String)>) -> Seq<(Seq<char>, Taint, Seq<char>)> {
    v.map_values(|t: (String, Taint, String)| (t.0@, t.1, t.2@))
}

/// What the reader of a mailbox sees of its messages: subject, taint and body.
pub open spec fn shown_messages(v: Seq<PostedV>) -> Seq<(Seq<char>, Taint, Seq<char>)> {
    v.map_values(|m: PostedV| (m.subject, m.taint, m.body))
}

/// An outcome without a value, as contracts speak of it.
pub open spec fn unit_view(r: Result<(), String>) -> Result<(), Seq<char>> {
    match r {
        Ok(_) => Ok(()),
        Err(e) => Err(e@),
    }
}

/// A number from the host or its error, as contracts speak of it.
pub open spec fn number_view(r: Result<u64, String>) -> Result<u64, Seq<char>> {
    match r {
        Ok(n) => Ok(n),
        Err(e) => Err(e@),
    }
}

/// The operations among some that only read.
fn reading_ops(ops: &[Op]) -> (r: Vec<Op>)
    ensures
        r@ == state::reading(ops@),
{
    let mut out: Vec<Op> = Vec::new();
    let mut i: usize = 0;
    proof {
        reveal(Seq::filter);
        assert(ops@.take(0) =~= Seq::empty());
    }
    while i < ops.len()
        invariant
            i <= ops@.len(),
            out@ == state::reading(ops@.take(i as int)),
        decreases ops@.len() - i,
    {
        proof {
            reveal(Seq::filter);
            assert(ops@.take(i + 1).drop_last() =~= ops@.take(i as int));
        }
        let op = ops[i];
        if op == Op::Read || op == Op::List {
            out.push(op);
        }
        i += 1;
    }
    assert(ops@.take(ops@.len() as int) =~= ops@);
    out
}

/// Makes a reference from fresh random bytes.
fn new_ref(entropy: &[u8]) -> (r: CapRef)
    ensures
        r@ == state::cap_id(entropy@),
        show::showable(r@),
{
    let r = "cap_".to_string().concat(hex_string(entropy).as_str());
    proof {
        state::lemma_cap_id(entropy@);
    }
    r
}

} // verus!
