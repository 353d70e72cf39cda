//! What holds of sessions whatever is done with them.

use crate::audit;
use crate::cap::{CapKind, CapV, HttpV, MsgV};
use crate::label::{Op, Taint};
use crate::net;
use crate::net::HostAddr;
use crate::path;
use crate::policy;
use crate::policy::{Decision, LedgerV};
use crate::session;
use crate::state;
use crate::state::{FetchError, FetchV, LookupV, ReadV, SessionV};
use crate::text;
use vstd::prelude::*;

verus! {

/// Whether a capability was derived from another in at most `n` steps.
pub open spec fn descends_within(caps: Map<Seq<char>, CapV>, d: Seq<char>, r: Seq<char>, n: nat) -> bool
    decreases n,
{
    n > 0 && caps.contains_key(d) && caps[d].parent is Some && (caps[d].parent->0 == r || descends_within(
        caps,
        caps[d].parent->0,
        r,
        (n - 1) as nat,
    ))
}

/// Whether a capability was derived, directly or over others, from another.
pub open spec fn descends(caps: Map<Seq<char>, CapV>, d: Seq<char>, r: Seq<char>) -> bool {
    exists|n: nat| descends_within(caps, d, r, n)
}

proof fn lemma_cascade(caps: Map<Seq<char>, CapV>, d: Seq<char>, r: Seq<char>, n: nat, k: nat)
    requires
        descends_within(caps, d, r, n),
        !state::active(caps, r),
    ensures
        !state::active_within(caps, d, k),
    decreases n,
{
    if state::active_within(caps, d, k) {
        let p = caps[d].parent->0;
        if p == r {
            assert(state::active_within(caps, r, (k - 1) as nat));
        } else {
            lemma_cascade(caps, p, r, (n - 1) as nat, (k - 1) as nat);
        }
    }
}


/// The lines of descent are those of the registry before one was marked.
proof fn lemma_same_descent(
    caps: Map<Seq<char>, CapV>,
    after: Map<Seq<char>, CapV>,
    d: Seq<char>,
    r: Seq<char>,
    n: nat,
)
    requires
        caps.contains_key(r),
        after == caps.insert(r, CapV { revoked: true, ..caps[r] }),
    ensures
        descends_within(after, d, r, n) == descends_within(caps, d, r, n),
    decreases n,
{
    if n > 0 && caps.contains_key(d) && caps[d].parent is Some {
        lemma_same_descent(caps, after, caps[d].parent->0, r, (n - 1) as nat);
    }
}

/// What does not come from the one that was marked stays as it was.
proof fn lemma_untouched(
    caps: Map<Seq<char>, CapV>,
    after: Map<Seq<char>, CapV>,
    d: Seq<char>,
    r: Seq<char>,
    n: nat,
)
    requires
        caps.contains_key(r),
        after == caps.insert(r, CapV { revoked: true, ..caps[r] }),
        d != r,
        !descends(caps, d, r),
    ensures
        state::active_within(after, d, n) == state::active_within(caps, d, n),
    decreases n,
{
    if n > 0 && caps.contains_key(d) && caps[d].parent is Some {
        let p = caps[d].parent->0;
        assert(p != r) by {
            if p == r {
                assert(descends_within(caps, d, r, 1));
            }
        }
        assert(!descends(caps, p, r)) by {
            if descends(caps, p, r) {
                let m = choose|m: nat| descends_within(caps, p, r, m);
                assert(descends_within(caps, d, r, m + 1));
            }
        }
        lemma_untouched(caps, after, p, r, (n - 1) as nat);
    }
}

/// Revoking a capability takes it away, and with it every one that was derived
/// from it, over however many steps.
pub proof fn law_revocation_cascades(s: SessionV, r: Seq<char>, d: Seq<char>)
    requires
        s.caps.contains_key(r),
        d == r || descends(s.caps, d, r),
    ensures
        !state::active(s.revoked(r).0.caps, d),
        s.revoked(r).0.usable(d) is Err,
{
    let after = s.revoked(r).0.caps;
    state::lemma_not_active(after, r);
    if d != r {
        let n = choose|n: nat| descends_within(s.caps, d, r, n);
        lemma_same_descent(s.caps, after, d, r, n);
        assert forall|k: nat| !#[trigger] state::active_within(after, d, k) by {
            lemma_cascade(after, d, r, n, k);
        }
    }
}

/// Revoking a capability leaves every one that was not derived from it as it
/// was.
pub proof fn law_revocation_spares_others(s: SessionV, r: Seq<char>, d: Seq<char>)
    requires
        d != r,
        !descends(s.caps, d, r),
    ensures
        state::active(s.revoked(r).0.caps, d) == state::active(s.caps, d),
{
    let after = s.revoked(r).0.caps;
    if s.caps.contains_key(r) {
        if state::active(s.caps, d) {
            let n = choose|n: nat| state::active_within(s.caps, d, n);
            lemma_untouched(s.caps, after, d, r, n);
            assert(state::active_within(after, d, n));
        }
        if state::active(after, d) {
            let n = choose|n: nat| state::active_within(after, d, n);
            lemma_untouched(s.caps, after, d, r, n);
            assert(state::active_within(s.caps, d, n));
        }
    }
}

proof fn lemma_new_elsewhere(s: SessionV, c: CapV, x: Seq<char>, n: nat)
    requires
        s.inv(),
        !s.caps.contains_key(c.id),
        s.caps.contains_key(x),
    ensures
        state::active_within(s.with_cap(c).caps, x, n) == state::active_within(s.caps, x, n),
    decreases n,
{
    if n > 0 && s.caps[x].parent is Some {
        lemma_new_elsewhere(s, c, s.caps[x].parent->0, (n - 1) as nat);
    }
}

/// A new capability under a new reference changes nothing for those that are
/// there: what was revoked stays revoked.
pub proof fn law_new_capability_changes_no_other(s: SessionV, c: CapV, x: Seq<char>)
    requires
        s.inv(),
        !s.caps.contains_key(c.id),
        s.caps.contains_key(x),
    ensures
        s.with_cap(c).caps[x] == s.caps[x],
        state::active(s.with_cap(c).caps, x) == state::active(s.caps, x),
{
    let after = s.with_cap(c).caps;
    if state::active(s.caps, x) {
        let n = choose|n: nat| state::active_within(s.caps, x, n);
        lemma_new_elsewhere(s, c, x, n);
        assert(state::active_within(after, x, n));
    }
    if state::active(after, x) {
        let n = choose|n: nat| state::active_within(after, x, n);
        lemma_new_elsewhere(s, c, x, n);
        assert(state::active_within(s.caps, x, n));
    }
}


/// A capability for a subdirectory allows what its origin allows and no more:
/// the same operations under the same taint, below the same root, and it falls
/// with its origin.
pub proof fn law_sub_attenuates(
    s: SessionV,
    r: Seq<char>,
    seg: Seq<char>,
    opened: Result<u64, Seq<char>>,
    entropy: Seq<u8>,
)
    requires
        s.derived_sub(r, seg, opened, entropy).1 is Ok,
    ensures
        ({
            let (t, res) = s.derived_sub(r, seg, opened, entropy);
            let c = t.caps[res->Ok_0];
            &&& s.usable(r) == Ok::<CapV, Seq<char>>(s.caps[r])
            &&& t.caps.contains_key(res->Ok_0)
            &&& c.kind == CapKind::Dir
            &&& c.ops == s.caps[r].ops
            &&& c.taint == s.caps[r].taint
            &&& path::joined(s.caps[r].root, seg) == Ok::<Seq<char>, Seq<char>>(c.root)
            &&& c.dir_fd == Some(opened->Ok_0)
            &&& c.parent == Some(r)
        }),
{
}

/// A capability derived to read allows reading and listing as far as its origin
/// does and nothing else, of what its origin holds and under its taint, and it
/// falls with its origin.
pub proof fn law_readonly_only_reads(s: SessionV, r: Seq<char>, entropy: Seq<u8>, op: Op)
    requires
        s.derived_readonly(r, entropy).1 is Ok,
    ensures
        ({
            let (t, res) = s.derived_readonly(r, entropy);
            let c = t.caps[res->Ok_0];
            &&& t.caps.contains_key(res->Ok_0)
            &&& c.ops.contains(op) <==> (op == Op::Read || op == Op::List) && s.caps[r].ops.contains(op)
            &&& c.kind == s.caps[r].kind
            &&& c.root == s.caps[r].root
            &&& c.dir_fd == s.caps[r].dir_fd
            &&& c.taint == s.caps[r].taint
            &&& c.argv.len() == 0 && c.http is None && c.msg is None
            &&& c.parent == Some(r)
        }),
{
    let p = |op: Op| op == Op::Read || op == Op::List;
    let ops = s.caps[r].ops;
    assert(state::reading(ops) == ops.filter(p));
    if ops.filter(p).contains(op) {
        ops.lemma_filter_contains_rev(p, op);
        ops.lemma_filter_pred(p, ops.filter(p).index_of(op));
    }
    if ops.contains(op) && p(op) {
        ops.lemma_filter_contains(p, ops.index_of(op));
    }
}

/// A capability derived to read allows no operation that its origin does not, and
/// its origin is left as it was.
pub proof fn law_readonly_attenuates(s: SessionV, r: Seq<char>, entropy: Seq<u8>, op: Op)
    requires
        s.derived_readonly(r, entropy).1 is Ok,
        ({
            let (t, res) = s.derived_readonly(r, entropy);
            t.caps[res->Ok_0].ops.contains(op)
        }),
    ensures
        s.caps[r].ops.contains(op),
        r != state::cap_id(entropy) ==> s.derived_readonly(r, entropy).0.caps[r] == s.caps[r],
{
    law_readonly_only_reads(s, r, entropy, op);
}

/// A derived facet posts to the mailbox of its origin, under a prefix at least
/// as long, cannot read the mailbox, serves once where its origin does, and falls
/// with its origin.
pub proof fn law_facet_attenuates(
    s: SessionV,
    r: Seq<char>,
    more: Seq<char>,
    one_shot: bool,
    entropy: Seq<u8>,
)
    requires
        s.derived_msg(r, more, one_shot, entropy).1 is Ok,
    ensures
        ({
            let (t, res) = s.derived_msg(r, more, one_shot, entropy);
            let from = s.caps[r].msg->0;
            let c = t.caps[res->Ok_0];
            let m = c.msg->0;
            &&& s.caps[r].msg is Some
            &&& t.caps.contains_key(res->Ok_0)
            &&& c.msg is Some
            &&& m.mailbox == from.mailbox
            &&& text::starts(m.subject_prefix, from.subject_prefix)
            &&& !m.can_receive
            &&& m.one_shot == (one_shot || from.one_shot)
            &&& from.one_shot ==> m.one_shot
            &&& c.parent == Some(r)
        }),
{
    let from = s.caps[r].msg->0;
    assert((from.subject_prefix + more).take(from.subject_prefix.len() as int) =~= from.subject_prefix);
}

/// A subject that a derived facet may post under, its origin may too.
pub proof fn law_facet_subjects_narrow(from: MsgV, more: Seq<char>, subject: Seq<char>)
    requires
        text::starts(subject, from.subject_prefix + more),
    ensures
        text::starts(subject, from.subject_prefix),
{
    let n = from.subject_prefix.len() as int;
    assert(subject.take((from.subject_prefix + more).len() as int).take(n) =~= subject.take(n));
    assert((from.subject_prefix + more).take(n) =~= from.subject_prefix);
}

/// A facet that serves once cannot be used after it has.
pub proof fn law_one_shot_serves_once(
    s: SessionV,
    r: Seq<char>,
    subject: Seq<char>,
    taint: Taint,
    body: Seq<char>,
)
    requires
        s.posted(r, subject, taint, body).1 is Ok,
        s.usable_msg(r)->Ok_0.one_shot,
    ensures
        s.posted(r, subject, taint, body).0.usable(r) is Err,
{
    let t = s.posted(r, subject, taint, body).0;
    state::lemma_not_active(t.caps, r);
}

/// A message that goes through is the last in the mailbox behind the facet, and
/// no other mailbox changes; one that does not changes nothing.
pub proof fn law_post_arrives(
    s: SessionV,
    r: Seq<char>,
    subject: Seq<char>,
    taint: Taint,
    body: Seq<char>,
)
    ensures
        ({
            let (t, res) = s.posted(r, subject, taint, body);
            let m = s.usable_msg(r)->Ok_0;
            &&& res is Err ==> t == s
            &&& res is Ok ==> t.mailboxes[m.mailbox].len() == s.mailboxes[m.mailbox].len() + 1
                && t.mailboxes[m.mailbox].last().subject == subject && t.mailboxes[m.mailbox].last().body
                == body && t.mailboxes[m.mailbox].last().taint == taint
                && t.mailboxes[m.mailbox].last().from_session == s.key
            &&& res is Ok ==> forall|b: Seq<char>|
                b != m.mailbox && #[trigger] s.mailboxes.contains_key(b) ==> t.mailboxes.contains_key(b)
                    && t.mailboxes[b] == s.mailboxes[b]
        }),
{
}

/// A facet that can be used delivers: whatever is not secret and stands under its
/// prefix goes through.
pub proof fn law_usable_facet_delivers(
    s: SessionV,
    r: Seq<char>,
    subject: Seq<char>,
    taint: Taint,
    body: Seq<char>,
)
    requires
        s.inv(),
        s.usable_msg(r) is Ok,
        taint != Taint::Secret,
        text::starts(subject, s.usable_msg(r)->Ok_0.subject_prefix),
    ensures
        s.posted(r, subject, taint, body).1 is Ok,
{
    state::lemma_usable(s, r);
}

/// Secret data is posted through no facet and sent to no sink.
pub proof fn law_secret_stays(s: SessionV, r: Seq<char>, subject: Seq<char>, body: Seq<char>)
    ensures
        s.posted(r, subject, Taint::Secret, body).1 is Err,
        s.posted(r, subject, Taint::Secret, body).0 == s,
        s.send_check(r, Taint::Secret) is Err,
        s.send_done(r, Taint::Secret).1 is Err,
{
}

/// What is read from a path that holds secrets is secret, whatever taint the
/// capability carries, so that it is not forwarded either.
pub proof fn law_secret_path_is_not_forwarded(
    s: SessionV,
    src: Seq<char>,
    rel: Seq<char>,
    r: Seq<char>,
    subject: Seq<char>,
    data: Result<Seq<u8>, Seq<char>>,
    later: SessionV,
)
    requires
        s.read_check(src, rel) is Ok,
        path::secret_path(s.caps[src].root + "/"@ + rel),
    ensures
        s.read_check(src, rel)->Ok_0.taint == Taint::Secret,
        later.forward_done(r, subject, s.read_check(src, rel)->Ok_0, data).1 is Err,
        later.forward_done(r, subject, s.read_check(src, rel)->Ok_0, data).0.mailboxes == later.mailboxes,
{
}

/// A text that the requester gives is posted only by the owner of a mailbox: no
/// derived facet passes one, and what is posted so counts as harmless.
pub proof fn law_literal_post_is_the_owners(
    s: SessionV,
    r: Seq<char>,
    subject: Seq<char>,
    body: Seq<char>,
)
    requires
        s.inv(),
        s.posted_literal(r, subject, body).1 is Ok,
    ensures
        s.caps.contains_key(r),
        s.caps[r].parent is None,
        s.usable_msg(r)->Ok_0.can_receive,
        s.posted_literal(r, subject, body) == s.posted(r, subject, Taint::Green, body),
{
    state::lemma_usable(s, r);
}

/// A mailbox is read only by its owner.
pub proof fn law_inbox_is_the_owners(s: SessionV, r: Seq<char>)
    requires
        s.inv(),
        s.inbox(r) is Ok,
    ensures
        s.caps.contains_key(r),
        s.caps[r].parent is None,
        s.usable_msg(r)->Ok_0.can_receive,
        state::no_secret(s.inbox(r)->Ok_0),
{
    state::lemma_usable(s, r);
}


/// A reference that is not in the registry of a session cannot be used in it,
/// whatever it stands for in another. A new session knows none.
pub proof fn law_reference_is_the_sessions(s: SessionV, r: Seq<char>, entropy: Seq<u8>, sink: bool)
    requires
        !s.caps.contains_key(r),
    ensures
        s.usable(r) is Err,
        forall|x: Seq<char>| !(#[trigger] session::fresh(entropy, sink).caps.contains_key(x)),
        session::fresh(entropy, sink).inv(),
{
    state::lemma_not_active(s.caps, r);
}

/// Once an event could not be made durable, nothing is read, listed, run,
/// requested, sent, posted, derived or handed out, and no command granted.
pub proof fn law_broken_trail_stops_all(
    s: SessionV,
    r: Seq<char>,
    a: Seq<char>,
    b: Seq<char>,
    taint: Taint,
    argv: Seq<Seq<char>>,
    opened: Result<u64, Seq<char>>,
    entropy: Seq<u8>,
)
    requires
        s.broken,
    ensures
        s.usable(r) is Err,
        s.read_check(r, a) is Err,
        s.list_check(r, a) is Err,
        s.exec_check(r) is Err,
        s.http_check(r, a) is Err,
        s.send_check(r, taint) is Err,
        s.inbox(r) is Err,
        s.posted(r, a, taint, b).1 is Err && s.posted(r, a, taint, b).0 == s,
        s.derived_sub(r, a, opened, entropy).1 is Err,
        s.derived_readonly(r, entropy).1 is Err,
        s.derived_msg(r, a, true, entropy).1 is Err,
        s.derived_msg(r, a, false, entropy).1 is Err,
        s.granted_command(r, argv, entropy).1 is Err,
{
}

/// A broken session stays broken, whatever the host reports later.
pub proof fn law_broken_for_good(s: SessionV, ok: bool)
    requires
        s.broken,
    ensures
        s.settled(ok).broken,
{
}

/// What the host is to do is released only once the intent to do it is durable;
/// until then nothing is done and nothing changes.
pub proof fn law_nothing_before_durable(
    s: SessionV,
    r: Seq<char>,
    a: Seq<char>,
    b: Seq<char>,
    c: Seq<char>,
    taint: Taint,
)
    requires
        !s.durable(),
    ensures
        s.exec_planned(r).1 is Err && s.exec_planned(r).0 == s,
        s.http_planned(r, a).1 is Err && s.http_planned(r, a).0 == s,
        s.send_done(r, taint).1 is Err && s.send_done(r, taint).0 == s,
        s.post_done(r, a, b).1 is Err && s.post_done(r, a, b).0 == s,
        s.forward_planned(r, a, b, c).1 is Err && s.forward_planned(r, a, b, c).0 == s,
{
}

/// An intent that was just put on a trail that is to be made durable is not
/// durable until the host has reported on it.
pub proof fn law_intent_waits_for_host(
    s: SessionV,
    op: Seq<char>,
    detail: Seq<char>,
    decision: Seq<char>,
)
    ensures
        s.sink ==> !s.noted(op, detail, decision).durable(),
        !s.sink ==> s.noted(op, detail, decision).durable() == s.durable(),
{
}

/// Without a ledger to ask, an action that needs consent is refused, and so is one
/// that the policy rules out; either way the refusal goes on the trail.
pub proof fn law_gate_fails_closed(
    s: SessionV,
    l: LedgerV,
    verb: Seq<char>,
    sig: Seq<char>,
    hint: Seq<char>,
    detail: Seq<char>,
)
    requires
        policy::decided(s.l5, verb) != Decision::Allow,
        !s.consent || policy::decided(s.l5, verb) == Decision::Deny,
    ensures
        s.gate(l, verb, sig, hint, detail).2 is Err,
        s.gate(l, verb, sig, hint, detail).1 == l,
        policy::decided(s.l5, verb) == Decision::Prompt ==> s.gate(l, verb, sig, hint, detail).0 == s.refused(
            "policy.consent"@,
            sig,
            s.gate(l, verb, sig, hint, detail).2->Err_0,
        ),
        policy::decided(s.l5, verb) == Decision::Deny ==> s.gate(l, verb, sig, hint, detail).0 == s.noted(
            "policy.deny"@,
            sig,
            "deny"@,
        ),
{
}

/// What the requester is told does not depend on the detail that the control
/// side is shown.
pub proof fn law_requester_sees_no_detail(
    s: SessionV,
    l: LedgerV,
    verb: Seq<char>,
    sig: Seq<char>,
    hint: Seq<char>,
    one: Seq<char>,
    other: Seq<char>,
)
    ensures
        s.gate(l, verb, sig, hint, one).2 == s.gate(l, verb, sig, hint, other).2,
        s.gate(l, verb, sig, hint, one).0 == s.gate(l, verb, sig, hint, other).0,
{
}

/// An action that needs consent waits, passes once after the control side has
/// approved it, and then waits again.
pub proof fn law_consent_passes_once(
    s: SessionV,
    l: LedgerV,
    verb: Seq<char>,
    sig: Seq<char>,
    hint: Seq<char>,
    detail: Seq<char>,
)
    requires
        l.inv(),
        s.consent,
        policy::decided(s.l5, verb) == Decision::Prompt,
        !l.asked(sig, s.key),
    ensures
        ({
            let id = policy::consent_id(l.issued + 1);
            let (s1, l1, r1) = s.gate(l, verb, sig, hint, detail);
            let l2 = l1.settled(id, policy::Status::Approved);
            let (s3, l3, r3) = s1.gate(l2, verb, sig, hint, detail);
            let (_, _, r4) = s3.gate(l3, verb, sig, hint, detail);
            &&& r1 == Err::<(), Seq<char>>(policy::CONSENT_REQUIRED@ + "\t"@ + id + "\t"@ + hint)
            &&& l1.waits(id)
            &&& r3 is Ok
            &&& r4 is Err
        }),
{
    policy::law_approval_is_used_once(l, sig, s.key, detail);
}

/// A subject with lowered safeguards is granted no network capability, whatever
/// the policy, and can use none that it had.
pub proof fn law_reduced_has_no_network(
    s: SessionV,
    h: HttpV,
    entropy: Seq<u8>,
    r: Seq<char>,
    path: Seq<char>,
)
    requires
        s.inv(),
        s.reduced,
    ensures
        s.granted_http(h, entropy).1 is Err,
        s.granted_http(h, entropy).0.caps == s.caps,
        s.http_check(r, path) is Err,
{
    if s.usable(r) is Ok {
        state::lemma_usable(s, r);
    }
}

/// Marking capabilities of the kinds that reach out changes nothing for the
/// others.
proof fn lemma_other_kinds_stay(s: SessionV, rs: Seq<Seq<char>>, r: Seq<char>, n: nat)
    requires
        s.inv(),
        !s.repeated,
        s.lists_egress(rs),
        s.caps.contains_key(r),
        s.caps[r].kind != CapKind::Http,
        s.caps[r].kind != CapKind::Message,
    ensures
        state::active_within(s.revoked_all(rs).caps, r, n) == state::active_within(s.caps, r, n),
    decreases n,
{
    state::lemma_revoked_all(s, rs);
    let t = s.revoked_all(rs);
    assert(t.caps.contains_key(r));
    assert(rs.contains(r) <==> s.reaches_out(r));
    if n > 0 && s.caps[r].parent is Some {
        assert(s.caps.contains_key(s.caps[r].parent->0));
        lemma_other_kinds_stay(s, rs, s.caps[r].parent->0, (n - 1) as nat);
    }
}

/// Lowering the safeguards takes away every capability that reaches out of the
/// session, derived ones too, and leaves every other as active as it was.
/// Restoring them later brings none back. Both go on the trail.
pub proof fn law_lowering_revokes_egress(s: SessionV, rs: Seq<Seq<char>>, r: Seq<char>)
    requires
        s.inv(),
        !s.repeated,
        s.lists_egress(rs),
        s.caps.contains_key(r),
    ensures
        ({
            let u = s.revoked_all(rs);
            let t = (SessionV { reduced: true, ..u }).noted(
                "mitigation"@,
                "reduced: egress caps revoked"@,
                "allow"@,
            );
            let later = (SessionV { reduced: false, ..t }).noted("mitigation"@, "full"@, "allow"@);
            let out = s.caps[r].kind == CapKind::Http || s.caps[r].kind == CapKind::Message;
            &&& out ==> !state::active(t.caps, r) && t.usable(r) is Err
            &&& out ==> !state::active(later.caps, r) && later.usable(r) is Err
            &&& !out ==> t.caps[r] == s.caps[r] && state::active(t.caps, r) == state::active(s.caps, r)
            &&& t.audit == u.audit.push(
                audit::next_event(u.audit, "mitigation"@, "reduced: egress caps revoked"@, "allow"@),
            )
            &&& later.audit == t.audit.push(audit::next_event(t.audit, "mitigation"@, "full"@, "allow"@))
        }),
{
    let t = s.revoked_all(rs);
    state::lemma_revoked_all(s, rs);
    assert(t.caps.contains_key(r));
    assert(rs.contains(r) <==> s.reaches_out(r));
    if t.caps[r].revoked {
        state::lemma_not_active(t.caps, r);
    }
    if s.caps[r].kind != CapKind::Http && s.caps[r].kind != CapKind::Message {
        if state::active(s.caps, r) {
            let n = choose|n: nat| state::active_within(s.caps, r, n);
            lemma_other_kinds_stay(s, rs, r, n);
            assert(state::active_within(t.caps, r, n));
        }
        if state::active(t.caps, r) {
            let n = choose|n: nat| state::active_within(t.caps, r, n);
            lemma_other_kinds_stay(s, rs, r, n);
            assert(state::active_within(s.caps, r, n));
        }
    }
}

/// A request that the host is given to send is a GET whose target is in its one
/// form and, without its query, covered by a pattern of the capability, and it
/// goes to the first address that the capability's host name was resolved to,
/// none of which is out of bounds.
pub proof fn law_request_is_confined(
    s: SessionV,
    later: SessionV,
    r: Seq<char>,
    path: Seq<char>,
    found: Result<Vec<HostAddr>, String>,
)
    requires
        s.http_check(r, path) is Ok,
        later.http_found(s.http_check(r, path)->Ok_0, found).1 is Ok,
    ensures
        ({
            let p = s.http_check(r, path)->Ok_0;
            let f = later.http_found(p, found).1->Ok_0;
            let h = s.caps[r].http->0;
            &&& state::active(s.caps, r)
            &&& s.caps[r].http is Some
            &&& h.methods.contains("GET"@)
            &&& net::canonical(path) == Ok::<Seq<char>, Seq<char>>(p.target)
            &&& net::any_covers(h.paths, text::split_on(p.target, '?')[0])
            &&& h.scheme == "http"@
            &&& !net::metadata_host(h.host)
            &&& p.host == h.host && p.port == h.port
            &&& found is Ok && found->Ok_0@.len() > 0 && f.addr == found->Ok_0@[0]
            &&& forall|i: int| 0 <= i < found->Ok_0@.len() ==> !net::blocked((#[trigger] found->Ok_0@[i]).ip)
            &&& f.request == net::request_text(state::authority(h.host, h.port), p.target)
            &&& f.max_bytes == h.max_bytes
        }),
{
    let p = s.http_check(r, path)->Ok_0;
    state::lemma_usable(s, r);
    net::law_checked_addresses_in_bounds(p.host, found);
}

/// A command runs with the program, the arguments and the settings that it was
/// granted with, in the directory that was held then, under the identity and
/// limits of the session: the requester has no say in any of them.
pub proof fn law_command_is_as_granted(
    s: SessionV,
    cwd: Seq<char>,
    argv: Seq<Seq<char>>,
    entropy: Seq<u8>,
)
    requires
        s.inv(),
        s.granted_command(cwd, argv, entropy).1 is Ok,
        argv.len() > 0,
    ensures
        ({
            let (t, res) = s.granted_command(cwd, argv, entropy);
            let run = t.exec_check(res->Ok_0);
            &&& run is Ok
            &&& run->Ok_0.argv == argv
            &&& Some(run->Ok_0.fd) == s.caps[cwd].dir_fd
            &&& run->Ok_0.env == seq![("PATH"@, "/usr/bin:/bin:/usr/local/bin"@)]
            &&& run->Ok_0.policy == s.exec_policy
        }),
{
    let (t, res) = s.granted_command(cwd, argv, entropy);
    let id = res->Ok_0;
    state::lemma_usable(s, cwd);
    state::lemma_active_step(t.caps, id);
    let e = "PATH=/usr/bin:/bin:/usr/local/bin"@;
    reveal_strlit("PATH=/usr/bin:/bin:/usr/local/bin");
    reveal_strlit("PATH");
    reveal_strlit("/usr/bin:/bin:/usr/local/bin");
    assert(e[4] == '=');
    e.index_of_first_ensures('=');
    assert(e.index_of_first('=')->0 == 4);
    assert(e.take(4) =~= "PATH"@);
    assert(e.skip(5) =~= "/usr/bin:/bin:/usr/local/bin"@);
    let env = seq![e];
    assert(env.drop_last() =~= Seq::empty());
    assert(state::settings(env.drop_last()) =~= Seq::empty());
    assert(state::settings(env) =~= seq![("PATH"@, "/usr/bin:/bin:/usr/local/bin"@)]);
    assert(t.caps[id].ops[0] == Op::Exec);
}

/// Whether a trail is another with one more event, of this kind and outcome.
pub open spec fn one_more(before: SessionV, after: SessionV, op: Seq<char>, decision: Seq<char>) -> bool {
    exists|detail: Seq<char>|
        after.audit == before.audit.push(#[trigger] audit::next_event(before.audit, op, detail, decision))
}

proof fn lemma_noted(
    s: SessionV,
    before: SessionV,
    op: Seq<char>,
    detail: Seq<char>,
    decision: Seq<char>,
)
    requires
        s.audit == before.audit,
    ensures
        one_more(before, s.noted(op, detail, decision), op, decision),
{
    let e = audit::next_event(before.audit, op, detail, decision);
    assert(s.noted(op, detail, decision).audit == before.audit.push(e));
}

proof fn lemma_any_noted(before: SessionV)
    ensures
        forall|s: SessionV, op: Seq<char>, detail: Seq<char>, decision: Seq<char>|
            s.audit == before.audit ==> one_more(
                before,
                #[trigger] s.noted(op, detail, decision),
                op,
                decision,
            ),
{
    assert forall|s: SessionV, op: Seq<char>, detail: Seq<char>, decision: Seq<char>|
        s.audit == before.audit implies one_more(
        before,
        #[trigger] s.noted(op, detail, decision),
        op,
        decision,
    ) by {
        lemma_noted(s, before, op, detail, decision);
    }
}

/// Every grant that can be refused goes on the trail, and so does every refusal.
pub proof fn law_grants_are_recorded(
    s: SessionV,
    root: Seq<char>,
    ops: Seq<Op>,
    taint: Taint,
    opened: Result<u64, Seq<char>>,
    cwd: Seq<char>,
    argv: Seq<Seq<char>>,
    h: HttpV,
    entropy: Seq<u8>,
)
    ensures
        ({
            let (t, res) = s.granted_dir(root, ops, taint, opened, entropy);
            one_more(s, t, "grant_dir"@, state::verdict(res))
        }),
        ({
            let (t, res) = s.granted_command(cwd, argv, entropy);
            one_more(s, t, "grant_cmd"@, state::verdict(res))
        }),
        ({
            let (t, res) = s.granted_http(h, entropy);
            one_more(
                s,
                t,
                "grant_http"@,
                if s.reduced {
                    "deny:mitigation_reduced"@
                } else {
                    state::verdict(res)
                },
            )
        }),
{
    lemma_any_noted(s);
}

/// Every grant that cannot be refused goes on the trail.
pub proof fn law_free_grants_are_recorded(
    s: SessionV,
    name: Seq<char>,
    mailbox_entropy: Seq<u8>,
    entropy: Seq<u8>,
)
    ensures
        one_more(s, s.granted_sink(name, entropy).0, "grant_sink"@, "allow"@),
        one_more(s, s.granted_message(name, mailbox_entropy, entropy).0, "grant_message"@, "allow"@),
{
    lemma_any_noted(s);
}

/// Every derivation and every revocation goes on the trail, and so does every
/// refusal of one.
pub proof fn law_derivations_are_recorded(
    s: SessionV,
    r: Seq<char>,
    seg: Seq<char>,
    opened: Result<u64, Seq<char>>,
    one_shot: bool,
    entropy: Seq<u8>,
)
    ensures
        ({
            let (t, res) = s.derived_sub(r, seg, opened, entropy);
            one_more(s, t, "derive_sub"@, state::verdict(res))
        }),
        ({
            let (t, res) = s.sub_begun(r, seg);
            res is Err ==> one_more(s, t, "derive_sub"@, state::verdict(res))
        }),
        ({
            let (t, res) = s.derived_readonly(r, entropy);
            one_more(s, t, "derive_readonly"@, state::verdict(res))
        }),
        ({
            let (t, res) = s.derived_msg(r, seg, one_shot, entropy);
            one_more(s, t, "derive_message"@, state::verdict(res))
        }),
        ({
            let (t, res) = s.revoked(r);
            one_more(s, t, "revoke"@, state::verdict(res))
        }),
{
    lemma_any_noted(s);
}

/// Every read and listing goes on the trail, and every opening of a mailbox, and so
/// does every refusal of one.
pub proof fn law_reads_are_recorded(
    s: SessionV,
    r: Seq<char>,
    rel: Seq<char>,
    p: ReadV,
    data: Result<Seq<u8>, Seq<char>>,
    names: Result<Seq<Seq<char>>, Seq<char>>,
)
    ensures
        ({
            let (t, res) = s.read_begun(r, rel);
            res is Err ==> one_more(s, t, "read"@, state::verdict(res))
        }),
        one_more(s, s.read_noted(p, data), "read"@, state::verdict(data)),
        ({
            let (t, res) = s.list_begun(r, rel);
            res is Err ==> one_more(s, t, "list"@, state::verdict(res))
        }),
        one_more(s, s.list_noted(p, names), "list"@, state::verdict(names)),
        ({
            let (t, res) = s.inbox_begun(r);
            one_more(s, t, "mailbox_read"@, state::verdict(res))
        }),
{
    lemma_any_noted(s);
}

/// Every decision on a risky action goes on the trail, but for a policy that lets
/// it pass outright, where only the intent does.
pub proof fn law_decisions_are_recorded(
    s: SessionV,
    l: LedgerV,
    verb: Seq<char>,
    sig: Seq<char>,
    hint: Seq<char>,
    detail: Seq<char>,
)
    ensures
        ({
            let (t, _, res) = s.gate(l, verb, sig, hint, detail);
            &&& policy::decided(s.l5, verb) == Decision::Deny ==> one_more(s, t, "policy.deny"@, "deny"@)
            &&& policy::decided(s.l5, verb) == Decision::Prompt && res is Ok ==> one_more(
                s,
                t,
                "policy.consent"@,
                "approved"@,
            )
            &&& policy::decided(s.l5, verb) == Decision::Prompt && res is Err && s.consent ==> one_more(
                s,
                t,
                "policy.consent"@,
                "denied"@,
            ) || one_more(s, t, "policy.consent"@, "pending"@)
            &&& policy::decided(s.l5, verb) == Decision::Prompt && res is Err && !s.consent ==> one_more(
                s,
                t,
                "policy.consent"@,
                state::verdict(res),
            )
            &&& policy::decided(s.l5, verb) == Decision::Allow ==> t == s && res is Ok
        }),
{
    lemma_any_noted(s);
}

/// Every command, request, sending and posting that was let pass goes on the trail
/// with its outcome, and so does every refusal, once its intent is durable.
pub proof fn law_outcomes_are_recorded(
    s: SessionV,
    r: Seq<char>,
    a: Seq<char>,
    b: Seq<char>,
    c: Seq<char>,
    taint: Taint,
    p: ReadV,
    data: Result<Seq<u8>, Seq<char>>,
    q: LookupV,
    found: Result<Vec<HostAddr>, String>,
    f: FetchV,
    raw: Result<Vec<u8>, FetchError>,
)
    requires
        s.durable(),
    ensures
        ({
            let (t, res) = s.exec_planned(r);
            res is Err ==> one_more(s, t, "exec.result"@, state::verdict(res))
        }),
        ({
            let (t, res) = s.exec_done(r, data);
            one_more(s, t, "exec.result"@, state::verdict(res))
        }),
        ({
            let (t, res) = s.http_planned(r, a);
            res is Err ==> one_more(s, t, "http.result"@, state::verdict(res))
        }),
        ({
            let (t, res) = s.http_found(q, found);
            res is Err ==> one_more(s, t, "http.result"@, state::verdict(res))
        }),
        ({
            let (t, res) = s.http_done(f, raw);
            one_more(s, t, "http.result"@, state::verdict(res))
        }),
        ({
            let (t, res) = s.send_done(r, taint);
            one_more(s, t, "send.result"@, state::verdict(res))
        }),
        ({
            let (t, res) = s.post_done(r, a, b);
            one_more(s, t, "post.result"@, state::verdict(res))
        }),
        ({
            let (t, res) = s.forward_planned(r, a, b, c);
            res is Err ==> one_more(s, t, "post.result"@, state::verdict(res))
        }),
        ({
            let (t, res) = s.forward_done(r, a, p, data);
            one_more(s, t, "post.result"@, state::verdict(res))
        }),
{
    lemma_any_noted(s);
}

} // verus!
