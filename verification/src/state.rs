//! The state of a session as a mathematical value, and what each operation
//! makes of it. The contracts of the session speak in these terms.

use crate::audit;
use crate::audit::EventV;
use crate::cap;
use crate::cap::{CapKind, CapV, HttpV, MsgV, PostedV};
use crate::label;
use crate::label::{Op, Taint};
use crate::net;
use crate::net::HostAddr;
use crate::os::SandboxPolicy;
use crate::path;
use crate::policy;
use crate::policy::{Decision, LedgerV, OutcomeV, PolicyEngine};
use crate::show;
use crate::text;
use vstd::prelude::*;
use vstd::utf8::*;

verus! {

/// The state of a session.
#[verifier::ext_equal]
pub struct SessionV {
    /// What names the session.
    pub key: Seq<char>,
    /// The capabilities under their references.
    pub caps: Map<Seq<char>, CapV>,
    /// The trail of events.
    pub audit: Seq<EventV>,
    /// Whether events are also to be made durable by the host.
    pub sink: bool,
    /// How many events at the end of the trail the host has not reported on.
    pub unsettled: nat,
    /// Whether the last event that the host reported on was made durable.
    pub last_ok: bool,
    /// The capability that a guest is given to begin with.
    pub bootstrap: Option<Seq<char>>,
    /// Whether an event could not be made durable at some time.
    pub broken: bool,
    /// The identity and limits of the commands that are run.
    pub exec_policy: SandboxPolicy,
    /// The mailboxes under their ids.
    pub mailboxes: Map<Seq<char>, Seq<PostedV>>,
    /// The policy over the use of capabilities.
    pub l5: PolicyEngine,
    /// Whether the session may ask the service's ledger for consent.
    pub consent: bool,
    /// Whether the subject runs with its safeguards lowered.
    pub reduced: bool,
    /// Whether a reference was made that was there already. Fresh random bytes
    /// make none.
    pub repeated: bool,
}

/// Whether a capability can be traced to its origin in fewer than `n` steps
/// without meeting one that was revoked or is not there.
pub open spec fn active_within(caps: Map<Seq<char>, CapV>, r: Seq<char>, n: nat) -> bool
    decreases n,
{
    n > 0 && caps.contains_key(r) && !caps[r].revoked && (caps[r].parent is None || active_within(
        caps,
        caps[r].parent->0,
        (n - 1) as nat,
    ))
}

/// Whether a capability is there, was not revoked, and neither was any that it
/// was derived from.
pub open spec fn active(caps: Map<Seq<char>, CapV>, r: Seq<char>) -> bool {
    exists|n: nat| active_within(caps, r, n)
}

/// An active capability stays so when more steps are allowed.
pub proof fn lemma_active_more(caps: Map<Seq<char>, CapV>, r: Seq<char>, n: nat, m: nat)
    requires
        active_within(caps, r, n),
        n <= m,
    ensures
        active_within(caps, r, m),
    decreases n,
{
    if caps[r].parent is Some {
        lemma_active_more(caps, caps[r].parent->0, (n - 1) as nat, (m - 1) as nat);
    }
}

/// A capability that is there and was not revoked is active just where the one
/// that it was derived from is.
pub proof fn lemma_active_step(caps: Map<Seq<char>, CapV>, r: Seq<char>)
    requires
        caps.contains_key(r),
        !caps[r].revoked,
    ensures
        caps[r].parent is None ==> active(caps, r),
        caps[r].parent is Some ==> active(caps, r) == active(caps, caps[r].parent->0),
{
    if caps[r].parent is None {
        assert(active_within(caps, r, 1));
    } else {
        let p = caps[r].parent->0;
        if active(caps, r) {
            let n = choose|n: nat| active_within(caps, r, n);
            assert(active_within(caps, p, (n - 1) as nat));
        }
        if active(caps, p) {
            let n = choose|n: nat| active_within(caps, p, n);
            assert(active_within(caps, r, n + 1));
        }
    }
}

/// A capability that is not there or was revoked is not active.
pub proof fn lemma_not_active(caps: Map<Seq<char>, CapV>, r: Seq<char>)
    requires
        !caps.contains_key(r) || caps[r].revoked,
    ensures
        !active(caps, r),
{
}

/// Whether a list goes from each capability to the one that it was derived from,
/// each there and not revoked but perhaps the last.
pub open spec fn climbs(caps: Map<Seq<char>, CapV>, xs: Seq<Seq<char>>) -> bool {
    forall|k: int|
        0 <= k < xs.len() - 1 ==> caps.contains_key(#[trigger] xs[k]) && !caps[xs[k]].revoked
            && caps[xs[k]].parent == Some(xs[k + 1])
}

/// The number of steps to the origin falls by one with each step up.
proof fn lemma_depth(caps: Map<Seq<char>, CapV>, xs: Seq<Seq<char>>, n: nat, i: int)
    requires
        climbs(caps, xs),
        0 <= i < xs.len(),
        active_within(caps, xs[0], n),
        n > 0 ==> !active_within(caps, xs[0], (n - 1) as nat),
    ensures
        i < n,
        active_within(caps, xs[i], (n - i) as nat),
        !active_within(caps, xs[i], (n - i - 1) as nat),
    decreases i,
{
    if i > 0 {
        lemma_depth(caps, xs, n, i - 1);
        let x = xs[i - 1];
        assert(caps[x].parent == Some(xs[i]));
        assert(active_within(caps, x, (n - i + 1) as nat));
        assert(active_within(caps, xs[i], ((n - i + 1) as nat - 1) as nat));
        if active_within(caps, xs[i], (n - i - 1) as nat) {
            assert(active_within(caps, x, (n - i) as nat));
        }
    }
}

/// No climb from an active capability meets the same one twice, so it is no
/// longer than there are capabilities.
pub proof fn lemma_climb_bounded(caps: Map<Seq<char>, CapV>, xs: Seq<Seq<char>>)
    requires
        climbs(caps, xs),
        xs.len() > 0,
        caps.dom().finite(),
        active(caps, xs[0]),
    ensures
        xs.len() - 1 <= caps.dom().len(),
{
    let some = choose|n: nat| active_within(caps, xs[0], n);
    let n = least_steps(caps, xs[0], some);
    lemma_least_steps(caps, xs[0], some);
    let ys = xs.drop_last();
    assert forall|i: int, j: int| 0 <= i < j < ys.len() implies ys[i] != ys[j] by {
        lemma_depth(caps, xs, n, i);
        lemma_depth(caps, xs, n, j);
        if ys[i] == ys[j] {
            lemma_active_more(caps, xs[j], (n - j) as nat, (n - i - 1) as nat);
        }
    }
    assert(ys.no_duplicates());
    ys.unique_seq_to_set();
    assert forall|x: Seq<char>| ys.to_set().contains(x) implies caps.dom().contains(x) by {
        let k = ys.index_of(x);
        assert(xs[k] == x);
    }
    vstd::set_lib::lemma_len_subset(ys.to_set(), caps.dom());
}

/// The fewest steps, of at most `n`, in which a capability is traced to its
/// origin.
spec fn least_steps(caps: Map<Seq<char>, CapV>, r: Seq<char>, n: nat) -> nat
    decreases n,
{
    if n > 0 && active_within(caps, r, (n - 1) as nat) {
        least_steps(caps, r, (n - 1) as nat)
    } else {
        n
    }
}

proof fn lemma_least_steps(caps: Map<Seq<char>, CapV>, r: Seq<char>, n: nat)
    requires
        active_within(caps, r, n),
    ensures
        active_within(caps, r, least_steps(caps, r, n)),
        least_steps(caps, r, n) > 0 ==> !active_within(caps, r, (least_steps(caps, r, n) - 1) as nat),
    decreases n,
{
    if n > 0 && active_within(caps, r, (n - 1) as nat) {
        lemma_least_steps(caps, r, (n - 1) as nat);
    }
}

/// The outcome of an operation as the trail records it.
pub open spec fn verdict<T>(r: Result<T, Seq<char>>) -> Seq<char> {
    match r {
        Ok(_) => "allow"@,
        Err(e) => "deny:"@ + e,
    }
}

/// The reference made from fresh random bytes.
pub open spec fn cap_id(entropy: Seq<u8>) -> Seq<char> {
    "cap_"@ + text::hex(entropy)
}

/// A reference made from random bytes is ASCII and can be shortened.
pub proof fn lemma_cap_id(entropy: Seq<u8>)
    ensures
        is_ascii_chars(cap_id(entropy)),
        show::showable(cap_id(entropy)),
{
    reveal_strlit("cap_");
    text::lemma_hex_shape(entropy);
    let id = cap_id(entropy);
    assert forall|i: int| 0 <= i < id.len() implies '\0' <= #[trigger] id[i] <= '\u{7f}' by {
        if i >= 4 {
            assert(text::is_hex_char(text::hex(entropy)[i - 4]));
        }
    }
    show::lemma_ascii_showable(id);
}

/// The mailbox id made from fresh random bytes.
pub open spec fn mailbox_id(entropy: Seq<u8>) -> Seq<char> {
    "mbox_"@ + text::hex(entropy)
}

/// The text whose digest signs an action: each part with its length in bytes
/// before it.
pub open spec fn sig_text(parts: Seq<Seq<char>>) -> Seq<char>
    decreases parts.len(),
{
    if parts.len() == 0 {
        "capsig:v1"@
    } else {
        sig_text(parts.drop_last()).push('|') + text::dec(text::byte_len(parts.last())) + ":"@ + parts.last()
    }
}

/// How deriving a subdirectory is put on the trail where it is refused.
pub open spec fn sub_line(r: Seq<char>, seg: Seq<char>) -> Seq<char> {
    show::briefed(r) + " /"@ + seg
}

/// The signature of an action.
pub open spec fn signature(parts: Seq<Seq<char>>) -> Seq<char> {
    audit::text_digest(sig_text(parts))
}

/// What the requester of an action that waits for consent is told: the action
/// and the capability, and nothing of what is behind it.
pub open spec fn hint(verb: Seq<char>, kind: Seq<char>, r: Seq<char>) -> Seq<char> {
    "需审批 "@ + verb + " on "@ + kind + " "@ + show::shorted(r) + "(详情见 control CONSENT_DESCRIBE)"@
}

/// What holds of every capability of a session.
pub open spec fn cap_ok(id: Seq<char>, c: CapV) -> bool {
    &&& c.id == id
    &&& show::showable(id)
    &&& c.msg is Some ==> c.kind == CapKind::Message
    &&& c.http is Some ==> c.kind == CapKind::Http
    &&& c.argv.len() > 0 ==> c.kind == CapKind::Command
    &&& c.kind == CapKind::Dir || c.kind == CapKind::Command ==> c.dir_fd is Some
    &&& c.parent is Some && c.msg is Some ==> !c.msg->0.can_receive
}

/// Whether no message carries secret data.
pub open spec fn no_secret(msgs: Seq<PostedV>) -> bool {
    forall|i: int| 0 <= i < msgs.len() ==> (#[trigger] msgs[i]).taint != Taint::Secret
}

/// Whether every message capability has its mailbox.
pub open spec fn has_mailboxes(caps: Map<Seq<char>, CapV>, mailboxes: Map<Seq<char>, Seq<PostedV>>) -> bool {
    forall|id: Seq<char>| #[trigger]
        caps.contains_key(id) && caps[id].msg is Some ==> mailboxes.contains_key(caps[id].msg->0.mailbox)
}

/// Whether every derived capability is of the kind of the one that it was derived
/// from.
pub open spec fn keeps_kinds(caps: Map<Seq<char>, CapV>) -> bool {
    forall|id: Seq<char>| #[trigger]
        caps.contains_key(id) && caps[id].parent is Some ==> caps[caps[id].parent->0].kind == caps[id].kind
}

/// The operations among some that only read.
pub open spec fn reading(ops: Seq<Op>) -> Seq<Op> {
    ops.filter(|op: Op| op == Op::Read || op == Op::List)
}

impl SessionV {
    /// What holds of every session: the trail is whole; a capability stands under
    /// its own reference, has a message or network specification only where it is
    /// of that kind, holds a directory where it is one or runs in one, and if it
    /// was derived cannot receive and comes from one that is there; no mailbox
    /// holds secret data; where the safeguards are lowered every network
    /// capability was revoked; every message capability has its mailbox; and
    /// unless a reference was repeated a derived capability is of the kind of the
    /// one that it comes from.
    pub open spec fn inv(self) -> bool {
        &&& audit::chain_ok(self.audit)
        &&& self.unsettled <= self.audit.len()
        &&& !self.sink ==> self.unsettled == 0 && self.last_ok && !self.broken
        &&& forall|id: Seq<char>| #[trigger] self.caps.contains_key(id) ==> cap_ok(id, self.caps[id])
        &&& forall|id: Seq<char>| #[trigger]
            self.caps.contains_key(id) && self.caps[id].parent is Some ==> self.caps.contains_key(
                self.caps[id].parent->0,
            )
        &&& forall|m: Seq<char>| #[trigger] self.mailboxes.contains_key(m) ==> no_secret(self.mailboxes[m])
        &&& self.reduced ==> forall|id: Seq<char>| #[trigger]
            self.caps.contains_key(id) && self.caps[id].kind == CapKind::Http ==> self.caps[id].revoked
        &&& has_mailboxes(self.caps, self.mailboxes)
        &&& !self.repeated ==> keeps_kinds(self.caps)
    }

    /// The state with one more event on the trail.
    pub open spec fn noted(self, op: Seq<char>, detail: Seq<char>, decision: Seq<char>) -> SessionV {
        SessionV {
            audit: self.audit.push(audit::next_event(self.audit, op, detail, decision)),
            unsettled: if self.sink {
                self.unsettled + 1
            } else {
                self.unsettled
            },
            ..self
        }
    }

    /// The state with one more capability, or another in its place.
    pub open spec fn with_cap(self, c: CapV) -> SessionV {
        SessionV {
            caps: self.caps.insert(c.id, c),
            repeated: self.repeated || self.caps.contains_key(c.id),
            ..self
        }
    }

    /// The state with a refusal on the trail.
    pub open spec fn refused(self, op: Seq<char>, detail: Seq<char>, e: Seq<char>) -> SessionV {
        self.noted(op, detail, "deny:"@ + e)
    }

    /// Whether the host has made the last event durable and owes no report.
    pub open spec fn durable(self) -> bool {
        self.unsettled == 0 && self.last_ok
    }

    /// The state after the host reported on the oldest event that it had not.
    pub open spec fn settled(self, ok: bool) -> SessionV {
        SessionV {
            unsettled: (self.unsettled - 1) as nat,
            last_ok: ok,
            broken: self.broken || !ok,
            ..self
        }
    }

    /// What using a reference comes to: the capability, or why not. Once an
    /// event could not be made durable no capability can be used.
    pub open spec fn usable(self, r: Seq<char>) -> Result<CapV, Seq<char>> {
        if self.broken {
            Err("审计 sink 写失败,fail-closed 拒绝后续敏感操作"@)
        } else if !active(self.caps, r) {
            Err("cap "@ + show::shorted(r) + " 无效/已撤销(ENOTCAPABLE)"@)
        } else {
            Ok(self.caps[r])
        }
    }

    /// What using a reference to a message capability comes to.
    pub open spec fn usable_msg(self, r: Seq<char>) -> Result<MsgV, Seq<char>> {
        match self.usable(r) {
            Err(e) => Err(e),
            Ok(c) => match c.msg {
                Some(m) => Ok(m),
                None => Err("cap "@ + show::shorted(r) + " 不是 message"@),
            },
        }
    }

    /// Putting a risky action to the policy: it passes, is refused, or waits for
    /// consent. What is decided goes on the trail, unless the policy lets it pass
    /// outright. What the requester is told is the hint; the detail goes to the
    /// ledger, which only the control side reads.
    pub open spec fn gate(
        self,
        l: LedgerV,
        verb: Seq<char>,
        sig: Seq<char>,
        hint: Seq<char>,
        detail: Seq<char>,
    ) -> (SessionV, LedgerV, Result<(), Seq<char>>) {
        match policy::decided(self.l5, verb) {
            Decision::Allow => (self, l, Ok(())),
            Decision::Deny => (
                self.noted("policy.deny"@, sig, "deny"@),
                l,
                Err("L5 策略拒绝动作 "@ + verb),
            ),
            Decision::Prompt => if !self.consent {
                let e = "L5 需 JIT consent 但无 consent 账本,fail-closed 拒绝"@;
                (self.refused("policy.consent"@, sig, e), l, Err(e))
            } else {
                let (l2, outcome) = l.consult(sig, self.key, detail);
                match outcome {
                    OutcomeV::Approved => (
                        self.noted("policy.consent"@, sig, "approved"@),
                        l2,
                        Ok(()),
                    ),
                    OutcomeV::Denied => (
                        self.noted("policy.consent"@, sig, "denied"@),
                        l2,
                        Err("JIT consent 被拒:"@ + verb),
                    ),
                    OutcomeV::Pending(id) => (
                        self.noted("policy.consent"@, sig + " id="@ + id, "pending"@),
                        l2,
                        Err(policy::CONSENT_REQUIRED@ + "\t"@ + id + "\t"@ + hint),
                    ),
                }
            },
        }
    }

    /// Granting a directory that the host has opened.
    pub open spec fn granted_dir(
        self,
        root: Seq<char>,
        ops: Seq<Op>,
        taint: Taint,
        opened: Result<u64, Seq<char>>,
        entropy: Seq<u8>,
    ) -> (SessionV, Result<Seq<char>, Seq<char>>) {
        match opened {
            Err(e) => {
                let e = "打开目录 "@ + root + " 失败: "@ + e;
                (
                    self.refused("grant_dir"@, "root="@ + root + " taint="@ + label::taint_text(taint), e),
                    Err(e),
                )
            },
            Ok(fd) => {
                let id = cap_id(entropy);
                let c = CapV { root, ops, dir_fd: Some(fd), ..cap::bare(id, CapKind::Dir, taint) };
                (
                    self.with_cap(c).noted(
                        "grant_dir"@,
                        show::shorted(id) + " root="@ + root + " taint="@ + label::taint_text(taint),
                        "allow"@,
                    ),
                    Ok(id),
                )
            },
        }
    }

    /// Granting a sink.
    pub open spec fn granted_sink(self, name: Seq<char>, entropy: Seq<u8>) -> (SessionV, Seq<char>) {
        let id = cap_id(entropy);
        let c = CapV { name, ..cap::bare(id, CapKind::Sink, Taint::Green) };
        (
            self.with_cap(c).noted("grant_sink"@, show::shorted(id) + " "@ + name, "allow"@),
            id,
        )
    }

    /// Granting a message capability with a new mailbox: its owner may read and
    /// post.
    pub open spec fn granted_message(
        self,
        recipient: Seq<char>,
        mailbox_entropy: Seq<u8>,
        entropy: Seq<u8>,
    ) -> (SessionV, Seq<char>) {
        let mailbox = mailbox_id(mailbox_entropy);
        let id = cap_id(entropy);
        let m = MsgV { mailbox, subject_prefix: Seq::empty(), one_shot: false, can_receive: true };
        let c = CapV { name: recipient, msg: Some(m), ..cap::bare(id, CapKind::Message, Taint::Green) };
        let s = SessionV { mailboxes: self.mailboxes.insert(mailbox, Seq::empty()), ..self };
        (
            s.with_cap(c).noted("grant_message"@, show::shorted(id) + " to="@ + recipient, "allow"@),
            id,
        )
    }

    /// Deriving a facet that may only post: the prefix grows by `more`, and it
    /// serves once where `one_shot` says so or its origin does.
    pub open spec fn derived_msg(
        self,
        r: Seq<char>,
        more: Seq<char>,
        one_shot: bool,
        entropy: Seq<u8>,
    ) -> (SessionV, Result<Seq<char>, Seq<char>>) {
        match self.usable_msg(r) {
            Err(e) => (self.refused("derive_message"@, show::briefed(r), e), Err(e)),
            Ok(m) => {
                let id = cap_id(entropy);
                let facet = MsgV {
                    mailbox: m.mailbox,
                    subject_prefix: m.subject_prefix + more,
                    one_shot: one_shot || m.one_shot,
                    can_receive: false,
                };
                let c = CapV {
                    msg: Some(facet),
                    parent: Some(r),
                    ..cap::bare(id, CapKind::Message, Taint::Green)
                };
                (self.with_cap(c).noted("derive_message"@, show::shorted(id), "allow"@), Ok(id))
            },
        }
    }

    /// Granting a command that runs in a granted directory.
    pub open spec fn granted_command(
        self,
        cwd_ref: Seq<char>,
        argv: Seq<Seq<char>>,
        entropy: Seq<u8>,
    ) -> (SessionV, Result<Seq<char>, Seq<char>>) {
        let name = text::join_with(argv, " "@);
        let line = show::briefed(cwd_ref) + " ["@ + name + "]"@;
        match self.usable(cwd_ref) {
            Err(e) => (self.refused("grant_cmd"@, line, e), Err(e)),
            Ok(d) => if d.kind != CapKind::Dir {
                let e = "grant command 的 cwd 必须是 DirCap"@;
                (self.refused("grant_cmd"@, line, e), Err(e))
            } else {
                let id = cap_id(entropy);
                let c = CapV {
                    root: d.root,
                    ops: seq![Op::Exec],
                    name,
                    argv,
                    env: seq!["PATH=/usr/bin:/bin:/usr/local/bin"@],
                    dir_fd: d.dir_fd,
                    ..cap::bare(id, CapKind::Command, Taint::Yellow)
                };
                (
                    self.with_cap(c).noted(
                        "grant_cmd"@,
                        show::shorted(id) + " ["@ + name + "]"@,
                        "allow"@,
                    ),
                    Ok(id),
                )
            },
        }
    }

    /// Granting a network capability. A subject with lowered safeguards gets
    /// none, whatever the policy.
    pub open spec fn granted_http(self, h: HttpV, entropy: Seq<u8>) -> (
        SessionV,
        Result<Seq<char>, Seq<char>>,
    ) {
        if self.reduced {
            (
                self.noted("grant_http"@, h.host, "deny:mitigation_reduced"@),
                Err("mitigation reduced: subject cannot hold network authority (E1)"@),
            )
        } else {
            match net::host_check(h.host) {
                Err(e) => (self.refused("grant_http"@, h.host, e), Err(e)),
                Ok(_) => {
                    let id = cap_id(entropy);
                    let root = h.scheme + "://"@ + h.host + ":"@ + text::dec(h.port as nat);
                    let c = CapV {
                        root,
                        http: Some(h),
                        ..cap::bare(id, CapKind::Http, Taint::External)
                    };
                    (
                        self.with_cap(c).noted("grant_http"@, show::shorted(id) + " "@ + root, "allow"@),
                        Ok(id),
                    )
                },
            }
        }
    }

    /// The directory from which a subdirectory is to be opened.
    pub open spec fn sub_parent(self, r: Seq<char>) -> Result<(CapV, u64), Seq<char>> {
        match self.usable(r) {
            Err(e) => Err(e),
            Ok(c) => if c.kind != CapKind::Dir {
                Err("sub 只适用于 DirCap"@)
            } else {
                match c.dir_fd {
                    None => Err("DirCap 无 root fd"@),
                    Some(fd) => Ok((c, fd)),
                }
            },
        }
    }

    /// Beginning to derive a capability for a subdirectory. A refusal goes on the
    /// trail.
    pub open spec fn sub_begun(self, r: Seq<char>, seg: Seq<char>) -> (SessionV, Result<u64, Seq<char>>) {
        match self.sub_parent(r) {
            Err(e) => (self.refused("derive_sub"@, sub_line(r, seg), e), Err(e)),
            Ok((_, fd)) => (self, Ok(fd)),
        }
    }

    /// Deriving a capability for a subdirectory that the host has opened.
    pub open spec fn derived_sub(
        self,
        r: Seq<char>,
        seg: Seq<char>,
        opened: Result<u64, Seq<char>>,
        entropy: Seq<u8>,
    ) -> (SessionV, Result<Seq<char>, Seq<char>>) {
        let line = sub_line(r, seg);
        match self.sub_parent(r) {
            Err(e) => (self.refused("derive_sub"@, line, e), Err(e)),
            Ok((p, _)) => match opened {
                Err(e) => (self.refused("derive_sub"@, line, e), Err(e)),
                Ok(fd) => match path::joined(p.root, seg) {
                    Err(e) => (self.refused("derive_sub"@, line, e), Err(e)),
                    Ok(root) => {
                        let id = cap_id(entropy);
                        let c = CapV {
                            root,
                            ops: p.ops,
                            dir_fd: Some(fd),
                            parent: Some(r),
                            ..cap::bare(id, CapKind::Dir, p.taint)
                        };
                        (
                            self.with_cap(c).noted(
                                "derive_sub"@,
                                show::shorted(id) + " <- "@ + show::shorted(r) + " /"@ + seg,
                                "allow"@,
                            ),
                            Ok(id),
                        )
                    },
                },
            },
        }
    }

    /// Deriving a capability that only reads: of what its origin allows, reading
    /// and listing stay.
    pub open spec fn derived_readonly(self, r: Seq<char>, entropy: Seq<u8>) -> (
        SessionV,
        Result<Seq<char>, Seq<char>>,
    ) {
        match self.usable(r) {
            Err(e) => (self.refused("derive_readonly"@, show::briefed(r), e), Err(e)),
            Ok(p) => {
                let id = cap_id(entropy);
                let c = CapV {
                    root: p.root,
                    ops: reading(p.ops),
                    dir_fd: p.dir_fd,
                    parent: Some(r),
                    ..cap::bare(id, p.kind, p.taint)
                };
                (
                    self.with_cap(c).noted(
                        "derive_readonly"@,
                        show::shorted(id) + " <- "@ + show::shorted(r),
                        "allow"@,
                    ),
                    Ok(id),
                )
            },
        }
    }

    /// The state with a capability marked as revoked.
    pub open spec fn without(self, r: Seq<char>) -> SessionV {
        SessionV { caps: self.caps.insert(r, CapV { revoked: true, ..self.caps[r] }), ..self }
    }

    /// Revoking a capability.
    pub open spec fn revoked(self, r: Seq<char>) -> (SessionV, Result<(), Seq<char>>) {
        if self.caps.contains_key(r) {
            (self.without(r).noted("revoke"@, show::shorted(r), "allow"@), Ok(()))
        } else {
            let e = "cap "@ + show::shorted(r) + " 未知"@;
            (self.noted("revoke"@, show::shorted(r), "deny:"@ + e), Err(e))
        }
    }

    /// Revoking capabilities one after another.
    pub open spec fn revoked_all(self, rs: Seq<Seq<char>>) -> SessionV
        decreases rs.len(),
    {
        if rs.len() == 0 {
            self
        } else {
            self.revoked_all(rs.drop_last()).revoked(rs.last()).0
        }
    }

    /// Whether a capability reaches out of the session and was not revoked.
    pub open spec fn reaches_out(self, r: Seq<char>) -> bool {
        self.caps.contains_key(r) && !self.caps[r].revoked && (self.caps[r].kind == CapKind::Http
            || self.caps[r].kind == CapKind::Message)
    }

    /// Whether a list names each capability that reaches out, once.
    pub open spec fn lists_egress(self, rs: Seq<Seq<char>>) -> bool {
        rs.no_duplicates() && forall|r: Seq<char>| #[trigger] rs.contains(r) <==> self.reaches_out(r)
    }

    /// What describing a capability says.
    pub open spec fn described(self, r: Seq<char>) -> Result<Seq<char>, Seq<char>> {
        if !self.caps.contains_key(r) {
            Err("cap "@ + show::shorted(r) + " 未知"@)
        } else {
            let c = self.caps[r];
            Ok(
                "<"@ + show::shorted(r) + " "@ + cap::kind_text(c.kind) + " root="@ + c.root + " taint="@
                    + label::taint_text(c.taint) + if active(self.caps, r) {
                    ""@
                } else {
                    " REVOKED"@
                } + ">"@,
            )
        }
    }
}

/// What can be used is in the registry.
pub proof fn lemma_usable(s: SessionV, r: Seq<char>)
    requires
        s.usable(r) is Ok,
    ensures
        s.caps.contains_key(r),
        !s.caps[r].revoked,
        active(s.caps, r),
        !s.broken,
{
    if !s.caps.contains_key(r) || s.caps[r].revoked {
        lemma_not_active(s.caps, r);
    }
}

/// Revoking a list of capabilities marks those, and changes no other and nothing
/// else about them.
pub proof fn lemma_revoked_all(s: SessionV, rs: Seq<Seq<char>>)
    ensures
        s.revoked_all(rs).caps.dom() == s.caps.dom(),
        forall|id: Seq<char>| #[trigger]
            s.revoked_all(rs).caps.contains_key(id) ==> s.revoked_all(rs).caps[id] == (CapV {
                revoked: s.caps[id].revoked || rs.contains(id),
                ..s.caps[id]
            }),
    decreases rs.len(),
{
    if rs.len() > 0 {
        let front = rs.drop_last();
        lemma_revoked_all(s, front);
        let t = s.revoked_all(front);
        let after = s.revoked_all(rs);
        assert(after.caps.dom() =~= s.caps.dom());
        assert forall|id: Seq<char>| #[trigger] after.caps.contains_key(id) implies after.caps[id] == (CapV {
            revoked: s.caps[id].revoked || rs.contains(id),
            ..s.caps[id]
        }) by {
            assert(t.caps.contains_key(id));
            assert(rs.contains(id) <==> (front.contains(id) || id == rs.last())) by {
                if front.contains(id) {
                    let k = front.index_of(id);
                    assert(rs[k] == id);
                }
                if rs.contains(id) {
                    let k = rs.index_of(id);
                    if k < front.len() {
                        assert(front[k] == id);
                    }
                }
            }
        }
    }
}

/// A file or directory that the host is to read below a held directory.
#[verifier::ext_equal]
pub struct ReadV {
    pub r: Seq<char>,
    pub rel: Seq<char>,
    pub fd: u64,
    pub taint: Taint,
}

/// A command that the host is to run.
#[verifier::ext_equal]
pub struct RunV {
    pub r: Seq<char>,
    pub argv: Seq<Seq<char>>,
    pub env: Seq<(Seq<char>, Seq<char>)>,
    pub fd: u64,
    pub policy: SandboxPolicy,
}

/// A host name that the host is to resolve, and the request that is to follow.
#[verifier::ext_equal]
pub struct LookupV {
    pub r: Seq<char>,
    pub path: Seq<char>,
    pub host: Seq<char>,
    pub port: u16,
    pub target: Seq<char>,
    pub max_bytes: usize,
}

/// A request that the host is to send.
#[verifier::ext_equal]
pub struct FetchV {
    pub r: Seq<char>,
    pub path: Seq<char>,
    pub addr: HostAddr,
    pub request: Seq<char>,
    pub max_bytes: usize,
}

/// Why a request could not be carried out.
pub enum FetchError {
    Connect(String),
    Write(String),
    Read(String),
}

/// What the caller is told of it.
pub open spec fn fetch_error_text(e: FetchError) -> Seq<char> {
    match e {
        FetchError::Connect(m) => "connect 失败: "@ + m@,
        FetchError::Write(m) => "write 失败: "@ + m@,
        FetchError::Read(m) => "read 失败: "@ + m@,
    }
}

/// The settings of an environment, those without an equals sign left out.
pub open spec fn settings(env: Seq<Seq<char>>) -> Seq<(Seq<char>, Seq<char>)>
    decreases env.len(),
{
    if env.len() == 0 {
        Seq::empty()
    } else {
        match text::cut(env.last(), '=') {
            Some(kv) => settings(env.drop_last()).push(kv),
            None => settings(env.drop_last()),
        }
    }
}

/// The host part of a request: an IPv6 address in brackets.
pub open spec fn host_part(host: Seq<char>) -> Seq<char> {
    if host.contains(':') && !text::starts(host, "["@) {
        "["@ + host + "]"@
    } else {
        host
    }
}

/// The authority of a request: the host, and the port unless it is the usual
/// one.
pub open spec fn authority(host: Seq<char>, port: u16) -> Seq<char> {
    if port == 80 {
        host_part(host)
    } else {
        host_part(host) + ":"@ + text::dec(port as nat)
    }
}

impl SessionV {
    /// What reading `rel` below a directory needs of the host, or why it is
    /// refused. A path that holds secrets marks what is read as secret, whatever
    /// the capability says.
    pub open spec fn read_check(self, r: Seq<char>, rel: Seq<char>) -> Result<ReadV, Seq<char>> {
        match self.usable(r) {
            Err(e) => Err(e),
            Ok(c) => if !c.ops.contains(Op::Read) {
                Err("DirCap "@ + show::shorted(r) + " 无 Read"@)
            } else {
                match path::joined(c.root, rel) {
                    Err(e) => Err(e),
                    Ok(_) => match c.dir_fd {
                        None => Err("DirCap 无 root fd(打开失败)"@),
                        Some(fd) => Ok(
                            ReadV {
                                r,
                                rel,
                                fd,
                                taint: if path::secret_path(c.root + "/"@ + rel) {
                                    Taint::Secret
                                } else {
                                    c.taint
                                },
                            },
                        ),
                    },
                }
            },
        }
    }

    /// Beginning to read. A refusal goes on the trail.
    pub open spec fn read_begun(self, r: Seq<char>, rel: Seq<char>) -> (SessionV, Result<ReadV, Seq<char>>) {
        match self.read_check(r, rel) {
            Err(e) => (
                self.noted("read"@, show::shorted(r) + " "@ + rel, "deny:"@ + e),
                Err(e),
            ),
            Ok(p) => (self, Ok(p)),
        }
    }

    /// The state once the host has read: the outcome is on the trail.
    pub open spec fn read_noted(self, p: ReadV, data: Result<Seq<u8>, Seq<char>>) -> SessionV {
        self.noted("read"@, show::shorted(p.r) + " "@ + p.rel, verdict(data))
    }

    /// What listing `rel` below a directory needs of the host, or why it is
    /// refused.
    pub open spec fn list_check(self, r: Seq<char>, rel: Seq<char>) -> Result<ReadV, Seq<char>> {
        match self.usable(r) {
            Err(e) => Err(e),
            Ok(c) => if !c.ops.contains(Op::List) {
                Err("DirCap "@ + show::shorted(r) + " 无 List"@)
            } else {
                match path::joined(c.root, rel) {
                    Err(e) => Err(e),
                    Ok(_) => match c.dir_fd {
                        None => Err("DirCap 无 root fd(打开失败)"@),
                        Some(fd) => Ok(ReadV { r, rel, fd, taint: c.taint }),
                    },
                }
            },
        }
    }

    /// Beginning to list. A refusal goes on the trail.
    pub open spec fn list_begun(self, r: Seq<char>, rel: Seq<char>) -> (SessionV, Result<ReadV, Seq<char>>) {
        match self.list_check(r, rel) {
            Err(e) => (
                self.noted("list"@, show::shorted(r) + " "@ + rel, "deny:"@ + e),
                Err(e),
            ),
            Ok(p) => (self, Ok(p)),
        }
    }

    /// The state once the host has listed: the outcome is on the trail.
    pub open spec fn list_noted(self, p: ReadV, names: Result<Seq<Seq<char>>, Seq<char>>) -> SessionV {
        self.noted("list"@, show::shorted(p.r) + " "@ + p.rel, verdict(names))
    }

    /// What the control side is shown of a command.
    pub open spec fn exec_detail(self, r: Seq<char>) -> Seq<char> {
        if self.caps.contains_key(r) {
            let c = self.caps[r];
            "执行命令 "@ + show::shorted(r) + " cwd="@ + show::displayed(c.root) + " argv=["@
                + show::listed(c.argv, 240) + "] env=["@ + show::listed(c.env, 160) + "]"@
        } else {
            "执行命令 CommandCap "@ + show::shorted(r)
        }
    }

    /// Asking to run a command: the policy's decision, and the intent on the trail.
    #[verifier::opaque]
    pub open spec fn exec_begun(self, l: LedgerV, r: Seq<char>) -> (
        SessionV,
        LedgerV,
        Result<(), Seq<char>>,
    ) {
        let (s, l2, res) = self.gate(
            l,
            "exec"@,
            signature(seq!["exec"@, r]),
            hint("exec"@, "CommandCap"@, r),
            self.exec_detail(r),
        );
        match res {
            Err(e) => (s, l2, Err(e)),
            Ok(_) => (s.noted("exec.intent"@, show::shorted(r), "attempt"@), l2, Ok(())),
        }
    }

    /// What running a command needs of the host, or why it is refused.
    pub open spec fn exec_check(self, r: Seq<char>) -> Result<RunV, Seq<char>> {
        match self.usable(r) {
            Err(e) => Err(e),
            Ok(c) => if !c.ops.contains(Op::Exec) {
                Err("CommandCap "@ + show::shorted(r) + " 无 Exec"@)
            } else if c.argv.len() == 0 {
                Err("CommandCap argv 为空"@)
            } else {
                match c.dir_fd {
                    None => Err("CommandCap 无 cwd fd,fail-closed 拒绝执行"@),
                    Some(fd) => Ok(
                        RunV { r, argv: c.argv, env: settings(c.env), fd, policy: self.exec_policy },
                    ),
                }
            },
        }
    }

    /// The command that the host may run now that the intent is on the trail: it
    /// is released only where the intent was made durable.
    pub open spec fn exec_planned(self, r: Seq<char>) -> (SessionV, Result<RunV, Seq<char>>) {
        if !self.durable() {
            (self, Err("exec 前置审计失败,fail-closed 不执行"@))
        } else {
            match self.exec_check(r) {
                Err(e) => (self.noted("exec.result"@, show::shorted(r), "deny:"@ + e), Err(e)),
                Ok(p) => (self, Ok(p)),
            }
        }
    }

    /// What a command came to.
    pub open spec fn exec_done(self, r: Seq<char>, out: Result<Seq<u8>, Seq<char>>) -> (
        SessionV,
        Result<Seq<u8>, Seq<char>>,
    ) {
        let res = match out {
            Ok(b) => Ok(b),
            Err(e) => Err("exec failed: "@ + e),
        };
        (self.noted("exec.result"@, show::shorted(r), verdict(res)), res)
    }

    /// How a request is put on the trail.
    pub open spec fn http_line(r: Seq<char>, path: Seq<char>) -> Seq<char> {
        show::shorted(r) + " GET "@ + path
    }

    /// Asking for a request to the network: the policy's decision, and the intent on the
    /// trail.
    #[verifier::opaque]
    pub open spec fn http_begun(self, l: LedgerV, r: Seq<char>, path: Seq<char>) -> (
        SessionV,
        LedgerV,
        Result<(), Seq<char>>,
    ) {
        let (s, l2, res) = self.gate(
            l,
            "http_get"@,
            signature(seq!["http_get"@, r, path]),
            hint("http_get"@, "HttpCap"@, r),
            "HTTP GET "@ + show::shorted(r) + " path="@ + show::displayed(path),
        );
        match res {
            Err(e) => (s, l2, Err(e)),
            Ok(_) => (s.noted("http.intent"@, Self::http_line(r, path), "attempt"@), l2, Ok(())),
        }
    }

    /// What a request needs looked up, or why it is refused: the target must be
    /// in its one form, the method and the path allowed, the scheme supported,
    /// and the host none that serves metadata.
    pub open spec fn http_check(self, r: Seq<char>, path: Seq<char>) -> Result<LookupV, Seq<char>> {
        match self.usable(r) {
            Err(e) => Err(e),
            Ok(c) => match c.http {
                None => Err("cap 不是 HttpCap"@),
                Some(h) => match net::canonical(path) {
                    Err(e) => Err(e),
                    Ok(target) => {
                        let plain = text::split_on(target, '?')[0];
                        if !h.methods.contains("GET"@) {
                            Err("HttpCap 未授权 GET"@)
                        } else if !net::any_covers(h.paths, plain) {
                            Err("canonical path "@ + plain + " 不在 HttpCap allowlist"@)
                        } else if h.scheme != "http"@ {
                            Err("目前仅支持 http://(https 需 TLS,后续)"@)
                        } else if net::metadata_host(h.host) {
                            Err("egress 拒绝:metadata 主机 "@ + h.host)
                        } else {
                            Ok(
                                LookupV {
                                    r,
                                    path,
                                    host: h.host,
                                    port: h.port,
                                    target,
                                    max_bytes: h.max_bytes,
                                },
                            )
                        }
                    },
                },
            },
        }
    }

    /// The lookup that the host may make now that the intent is on the trail.
    pub open spec fn http_planned(self, r: Seq<char>, path: Seq<char>) -> (
        SessionV,
        Result<LookupV, Seq<char>>,
    ) {
        if !self.durable() {
            (self, Err("http 前置审计失败,fail-closed 不请求"@))
        } else {
            match self.http_check(r, path) {
                Err(e) => (
                    self.noted("http.result"@, Self::http_line(r, path), "deny:"@ + e),
                    Err(e),
                ),
                Ok(p) => (self, Ok(p)),
            }
        }
    }

    /// The request that the host may send to the first address found, or why
    /// not.
    pub open spec fn http_found(self, p: LookupV, found: Result<Vec<HostAddr>, String>) -> (
        SessionV,
        Result<FetchV, Seq<char>>,
    ) {
        let a = authority(p.host, p.port);
        let res = match net::lookup_check(p.host, found) {
            Err(e) => Err(e),
            Ok(addrs) => if net::request_fit(a, p.target) {
                Ok(
                    FetchV {
                        r: p.r,
                        path: p.path,
                        addr: addrs[0],
                        request: net::request_text(a, p.target),
                        max_bytes: p.max_bytes,
                    },
                )
            } else {
                Err("fetch_get 拒绝:path/authority 含控制字符(注入防护)"@)
            },
        };
        match res {
            Err(e) => (
                self.noted("http.result"@, Self::http_line(p.r, p.path), "deny:"@ + e),
                Err(e),
            ),
            Ok(f) => (self, Ok(f)),
        }
    }

    /// What a request came to: what comes from the network is marked so.
    pub open spec fn http_done(self, p: FetchV, raw: Result<Vec<u8>, FetchError>) -> (
        SessionV,
        Result<(Taint, Seq<u8>), Seq<char>>,
    ) {
        let res = match raw {
            Err(e) => Err(fetch_error_text(e)),
            Ok(b) => match net::response_of(b@) {
                Err(e) => Err(e),
                Ok((_, body)) => Ok((Taint::External, body)),
            },
        };
        (self.noted("http.result"@, Self::http_line(p.r, p.path), verdict(res)), res)
    }

    /// How sending is put on the trail.
    pub open spec fn send_line(r: Seq<char>, taint: Taint) -> Seq<char> {
        show::shorted(r) + " taint="@ + label::taint_text(taint)
    }

    /// Asking to send: the intent on the trail.
    pub open spec fn send_begun(self, r: Seq<char>, taint: Taint) -> SessionV {
        self.noted("send.intent"@, Self::send_line(r, taint), "attempt"@)
    }

    /// Whether data may go to a sink: secret data may not.
    pub open spec fn send_check(self, r: Seq<char>, taint: Taint) -> Result<(), Seq<char>> {
        match self.usable(r) {
            Err(e) => Err(e),
            Ok(c) => if c.kind != CapKind::Sink {
                Err("cap "@ + show::shorted(r) + " 不是 sink"@)
            } else if taint == Taint::Secret {
                Err(
                    "IFC violation: secret 污点数据不能流入外发 sink "@ + show::shorted(r) + "("@ + c.name
                        + "). next: declassify."@,
                )
            } else {
                Ok(())
            },
        }
    }

    /// What sending came to.
    pub open spec fn send_done(self, r: Seq<char>, taint: Taint) -> (SessionV, Result<(), Seq<char>>) {
        if !self.durable() {
            (self, Err("send 前置审计失败,fail-closed 不发送"@))
        } else {
            let res = self.send_check(r, taint);
            (self.noted("send.result"@, Self::send_line(r, taint), verdict(res)), res)
        }
    }

    /// Posting a message: the facet must be usable, secret data is refused, and
    /// the subject must be within the facet's prefix. A facet that serves once is
    /// revoked by it.
    pub open spec fn posted(
        self,
        r: Seq<char>,
        subject: Seq<char>,
        taint: Taint,
        body: Seq<char>,
    ) -> (SessionV, Result<(), Seq<char>>) {
        match self.usable_msg(r) {
            Err(e) => (self, Err(e)),
            Ok(m) => if taint == Taint::Secret {
                (
                    self,
                    Err(
                        "IFC violation: secret 污点数据不能经 MessageCap "@ + show::shorted(r)
                            + " 外发. next: declassify."@,
                    ),
                )
            } else if !text::starts(subject, m.subject_prefix) {
                (
                    self,
                    Err(
                        "衰减违规:subject "@ + text::debug_text(subject) + " 不在该 facet 的主题命名空间 "@
                            + text::debug_text(m.subject_prefix) + " 内"@,
                    ),
                )
            } else if !self.mailboxes.contains_key(m.mailbox) {
                (self, Err("mailbox 不存在(已被回收)"@))
            } else {
                let msg = PostedV { subject, body, taint, from_session: self.key };
                let s = SessionV {
                    mailboxes: self.mailboxes.insert(m.mailbox, self.mailboxes[m.mailbox].push(msg)),
                    ..self
                };
                (
                    if m.one_shot {
                        s.without(r)
                    } else {
                        s
                    },
                    Ok(()),
                )
            },
        }
    }

    /// How a literal post is put on the trail.
    pub open spec fn post_line(r: Seq<char>, subject: Seq<char>) -> Seq<char> {
        show::shorted(r) + " subj="@ + subject + " src=literal"@
    }

    /// Asking to post a text that the requester gives: the policy's decision, and the intent
    /// on the trail.
    #[verifier::opaque]
    pub open spec fn post_begun(
        self,
        l: LedgerV,
        r: Seq<char>,
        subject: Seq<char>,
        body: Seq<char>,
    ) -> (SessionV, LedgerV, Result<(), Seq<char>>) {
        let digest = audit::text_digest(body);
        let (s, l2, res) = self.gate(
            l,
            "post"@,
            signature(seq!["post"@, r, subject, digest]),
            hint("post"@, "MessageCap"@, r),
            "投递 "@ + show::shorted(r) + " subj="@ + show::displayed(subject) + " body#"@ + digest.take(12),
        );
        match res {
            Err(e) => (s, l2, Err(e)),
            Ok(_) => (s.noted("post.intent"@, Self::post_line(r, subject), "attempt"@), l2, Ok(())),
        }
    }

    /// Posting a text that the requester gives: only the owner of a mailbox may,
    /// and what is posted counts as harmless.
    pub open spec fn posted_literal(self, r: Seq<char>, subject: Seq<char>, body: Seq<char>) -> (
        SessionV,
        Result<(), Seq<char>>,
    ) {
        match self.usable_msg(r) {
            Err(e) => (self, Err(e)),
            Ok(m) => if !m.can_receive {
                (
                    self,
                    Err(
                        "委托(只投递)facet "@ + show::shorted(r)
                            + " 禁止字面投递(防 taint 洗白);请用 post_from 由 broker 判定 taint"@,
                    ),
                )
            } else {
                self.posted(r, subject, Taint::Green, body)
            },
        }
    }

    /// What posting such a text came to.
    pub open spec fn post_done(self, r: Seq<char>, subject: Seq<char>, body: Seq<char>) -> (
        SessionV,
        Result<(), Seq<char>>,
    ) {
        if !self.durable() {
            (self, Err("post 前置审计失败,fail-closed 不投递"@))
        } else {
            let (s, res) = self.posted_literal(r, subject, body);
            (s.noted("post.result"@, Self::post_line(r, subject), verdict(res)), res)
        }
    }

    /// How a forwarding post is put on the trail.
    pub open spec fn forward_line(
        r: Seq<char>,
        subject: Seq<char>,
        src: Seq<char>,
        rel: Seq<char>,
    ) -> Seq<char> {
        show::shorted(r) + " subj="@ + subject + " src="@ + show::shorted(src) + " "@ + rel
    }

    /// Asking to forward a file as a message: the policy's decision, and the intent on the
    /// trail.
    #[verifier::opaque]
    pub open spec fn forward_begun(
        self,
        l: LedgerV,
        r: Seq<char>,
        subject: Seq<char>,
        src: Seq<char>,
        rel: Seq<char>,
    ) -> (SessionV, LedgerV, Result<(), Seq<char>>) {
        let (s, l2, res) = self.gate(
            l,
            "post_from"@,
            signature(seq!["post_from"@, r, subject, src, rel]),
            hint("post_from"@, "MessageCap"@, r),
            "转发投递 "@ + show::shorted(r) + " subj="@ + show::displayed(subject) + " <- "@ + show::shorted(src)
                + " "@ + show::displayed(rel),
        );
        match res {
            Err(e) => (s, l2, Err(e)),
            Ok(_) => (
                s.noted("post.intent"@, Self::forward_line(r, subject, src, rel), "attempt"@),
                l2,
                Ok(()),
            ),
        }
    }

    /// What forwarding needs of the host now that the intent is on the trail.
    pub open spec fn forward_planned(
        self,
        r: Seq<char>,
        subject: Seq<char>,
        src: Seq<char>,
        rel: Seq<char>,
    ) -> (SessionV, Result<ReadV, Seq<char>>) {
        if !self.durable() {
            (self, Err("post 前置审计失败,fail-closed 不投递"@))
        } else {
            match self.read_check(src, rel) {
                Err(e) => (
                    self.noted("post.result"@, Self::forward_line(r, subject, src, rel), "deny:"@ + e),
                    Err(e),
                ),
                Ok(p) => (self, Ok(p)),
            }
        }
    }

    /// What forwarding came to: the file's taint is the broker's finding.
    pub open spec fn forward_done(
        self,
        r: Seq<char>,
        subject: Seq<char>,
        p: ReadV,
        data: Result<Seq<u8>, Seq<char>>,
    ) -> (SessionV, Result<(), Seq<char>>) {
        let (s, res) = match data {
            Err(e) => (self, Err(e)),
            Ok(b) => self.posted(r, subject, p.taint, text::lossy(b)),
        };
        (s.noted("post.result"@, Self::forward_line(r, subject, p.r, p.rel), verdict(res)), res)
    }

    /// The messages that reading a mailbox gives, or why it is refused: only its
    /// owner may read it.
    pub open spec fn inbox(self, r: Seq<char>) -> Result<Seq<PostedV>, Seq<char>> {
        match self.usable_msg(r) {
            Err(e) => Err(e),
            Ok(m) => if !m.can_receive {
                Err("cap "@ + show::shorted(r) + " 是只投递 facet,无收件权限"@)
            } else if self.mailboxes.contains_key(m.mailbox) {
                Ok(self.mailboxes[m.mailbox])
            } else {
                Ok(Seq::empty())
            },
        }
    }

    /// Beginning to read a mailbox: what is read waits until the trail is
    /// durable. A refusal goes on the trail.
    pub open spec fn inbox_begun(self, r: Seq<char>) -> (SessionV, Result<Seq<PostedV>, Seq<char>>) {
        match self.inbox(r) {
            Err(e) => (self.refused("mailbox_read"@, show::briefed(r), e), Err(e)),
            Ok(msgs) => (self.noted("mailbox_read"@, show::shorted(r), "allow"@), Ok(msgs)),
        }
    }

    /// Settling a request for consent from the control side.
    pub open spec fn consent_settled(
        self,
        l: LedgerV,
        id: Seq<char>,
        approve: bool,
    ) -> (SessionV, LedgerV, Result<Seq<char>, Seq<char>>) {
        let op = if approve {
            "consent.approve"@
        } else {
            "consent.deny"@
        };
        if !self.consent {
            (self.noted(op, id, "deny"@), l, Err("无 consent 账本"@))
        } else {
            let status = if approve {
                policy::Status::Approved
            } else {
                policy::Status::Denied
            };
            let res = l.settle_result(id);
            (
                self.noted(
                    op,
                    id,
                    if res is Ok {
                        "allow"@
                    } else {
                        "deny"@
                    },
                ),
                if l.waits(id) {
                    l.settled(id, status)
                } else {
                    l
                },
                res,
            )
        }
    }

    /// The whole detail of a request for consent.
    pub open spec fn consent_detail(self, l: LedgerV, id: Seq<char>) -> Result<Seq<char>, Seq<char>> {
        if !self.consent {
            Err("无 consent 账本"@)
        } else if l.reqs.contains_key(id) {
            Ok(l.reqs[id].summary)
        } else {
            Err("consent "@ + id + " 不存在"@)
        }
    }

    /// The requests that wait for consent.
    pub open spec fn consent_waiting(self, l: LedgerV) -> Seq<(Seq<char>, Seq<char>, Seq<char>)> {
        if self.consent {
            l.waiting_list()
        } else {
            Seq::empty()
        }
    }
}

} // verus!
