//! What holds of the protocol whatever is asked over it.

use crate::cap::CapV;
use crate::policy::{LedgerV, CONSENT_REQUIRED};
use crate::proto;
use crate::proto::{Outcome, StepV, WaitingV};
use crate::request;
use crate::request::RequestV;
use crate::role::Role;
use crate::show;
use crate::state;
use crate::state::SessionV;
use crate::text;
use vstd::prelude::*;
use vstd::utf8::*;

verus! {

/// A refusal whose text does not begin with an underscore is answered as an
/// error.
proof fn lemma_plain_error(e: Seq<char>)
    requires
        e.len() > 0,
        e[0] != '_',
    ensures
        proto::error_reply(e) == "ERR\t"@ + e,
{
    reveal_strlit("__CONSENT__");
    if text::starts(e, CONSENT_REQUIRED@) {
        assert(e.take(CONSENT_REQUIRED@.len() as int)[0] == '_');
    }
}

proof fn lemma_mint_verb(verb: Seq<char>)
    requires
        request::is_mint(verb),
    ensures
        verb.len() > 0,
        verb[0] == 'G',
        verb != "BOOTSTRAP"@,
{
    reveal_strlit("GRANT_DIR");
    reveal_strlit("GRANT_SINK");
    reveal_strlit("GRANT_HTTP");
    reveal_strlit("GRANT_MSG");
    reveal_strlit("GRANT_CMD");
    reveal_strlit("BOOTSTRAP");
    assert("BOOTSTRAP"@[0] == 'B');
}

/// A guest mints nothing: every request to is refused, and changes nothing.
pub proof fn law_guest_mints_nothing(
    s: SessionV,
    l: LedgerV,
    body: Seq<char>,
    entropy: Seq<u8>,
    mailbox_entropy: Seq<u8>,
)
    requires
        request::is_mint(text::split_on(body, '\t')[0]),
    ensures
        proto::handled(s, l, Role::Guest, body, entropy, mailbox_entropy) == (
            s,
            l,
            StepV::Reply("ERR\t"@ + request::no_mint(text::split_on(body, '\t')[0])),
        ),
{
    let verb = text::split_on(body, '\t')[0];
    lemma_mint_verb(verb);
    lemma_plain_error(request::no_mint(verb));
}

/// A guest neither approves, refuses, sees nor lists requests for consent: every
/// such request is refused, and changes nothing.
pub proof fn law_guest_has_no_say(
    s: SessionV,
    l: LedgerV,
    body: Seq<char>,
    entropy: Seq<u8>,
    mailbox_entropy: Seq<u8>,
)
    requires
        request::is_consent(text::split_on(body, '\t')[0]),
    ensures
        ({
            let (t, m, step) = proto::handled(s, l, Role::Guest, body, entropy, mailbox_entropy);
            &&& t == s
            &&& m == l
            &&& step is Reply
            &&& text::starts(step->Reply_0, "ERR\t"@)
        }),
{
    let verb = text::split_on(body, '\t')[0];
    reveal_strlit("CONSENT_APPROVE");
    reveal_strlit("CONSENT_DENY");
    reveal_strlit("CONSENT_DESCRIBE");
    reveal_strlit("CONSENT_LIST");
    reveal_strlit("BOOTSTRAP");
    reveal_strlit("GRANT_DIR");
    reveal_strlit("GRANT_SINK");
    reveal_strlit("GRANT_HTTP");
    reveal_strlit("GRANT_MSG");
    reveal_strlit("GRANT_CMD");
    reveal_strlit("DERIVE");
    reveal_strlit("INVOKE");
    reveal_strlit("REVOKE");
    assert(verb[0] == 'C');
    assert("BOOTSTRAP"@[0] == 'B');
    assert("GRANT_DIR"@[0] == 'G' && "GRANT_SINK"@[0] == 'G' && "GRANT_HTTP"@[0] == 'G');
    assert("GRANT_MSG"@[0] == 'G' && "GRANT_CMD"@[0] == 'G');
    assert("DERIVE"@[0] == 'D' && "INVOKE"@[0] == 'I' && "REVOKE"@[0] == 'R');
    reveal_strlit("consent 审批仅 control 面");
    reveal_strlit("consent 详情仅 control 面(含敏感 env)");
    reveal_strlit("consent 列表仅 control 面");
    let e = request::parsed(Role::Guest, text::split_on(body, '\t'))->Err_0;
    lemma_plain_error(e);
    assert(("ERR\t"@ + e).take("ERR\t"@.len() as int) =~= "ERR\t"@);
}

/// What a guest asks is never a request to mint nor one about consent.
pub proof fn law_guest_requests(f: Seq<Seq<char>>)
    requires
        request::parsed(Role::Guest, f) is Ok,
    ensures
        !proto::mints(request::parsed(Role::Guest, f)->Ok_0),
        !(request::parsed(Role::Guest, f)->Ok_0 is ConsentApprove),
        !(request::parsed(Role::Guest, f)->Ok_0 is ConsentDeny),
        !(request::parsed(Role::Guest, f)->Ok_0 is ConsentDescribe),
        !(request::parsed(Role::Guest, f)->Ok_0 is ConsentList),
{
}

/// What a session is given to begin with is handed out once: asking again gives
/// an error.
pub proof fn law_bootstrap_is_handed_out_once(
    s: SessionV,
    l: LedgerV,
    role: Role,
    entropy: Seq<u8>,
    mailbox_entropy: Seq<u8>,
)
    ensures
        ({
            let (t, m, first) = proto::handled(s, l, role, "BOOTSTRAP"@, entropy, mailbox_entropy);
            let (_, _, second) = proto::handled(t, m, role, "BOOTSTRAP"@, entropy, mailbox_entropy);
            &&& s.bootstrap is Some ==> first == StepV::Reply("CAP\t"@ + s.bootstrap->0)
            &&& second is Reply
            &&& text::starts(second->Reply_0, "ERR\t"@)
        }),
{
    reveal_strlit("BOOTSTRAP");
    assert(!"BOOTSTRAP"@.contains('\t')) by {
        if "BOOTSTRAP"@.contains('\t') {
            let i = "BOOTSTRAP"@.index_of('\t');
            assert("BOOTSTRAP"@[i] == '\t');
        }
    }
    text::lemma_split_on_single("BOOTSTRAP"@, '\t');
    reveal_strlit("BOOTSTRAP 已被消费或不可用(guest 无预注入根)");
    let e = "BOOTSTRAP 已被消费或不可用(guest 无预注入根)"@;
    lemma_plain_error(e);
    assert(("ERR\t"@ + e).take("ERR\t"@.len() as int) =~= "ERR\t"@);
}


/// Whether every capability that is in one session but was not in another was
/// derived from one that was.
pub open spec fn only_derived(s: SessionV, t: SessionV) -> bool {
    forall|id: Seq<char>| #[trigger]
        t.caps.contains_key(id) && !s.caps.contains_key(id) ==> t.caps[id].parent is Some
            && s.caps.contains_key(t.caps[id].parent->0)
}

proof fn lemma_derive_only_derived(s: SessionV, q: RequestV, entropy: Seq<u8>)
    ensures
        only_derived(s, proto::begun_derive(s, q, entropy).0),
{
    match q {
        RequestV::DeriveReadonly { r } => {
            if s.usable(r) is Ok {
                state::lemma_usable(s, r);
            }
        },
        RequestV::DeriveMsgPrefix { r, .. } => {
            if s.usable(r) is Ok {
                state::lemma_usable(s, r);
            }
        },
        RequestV::DeriveMsgOneshot { r } => {
            if s.usable(r) is Ok {
                state::lemma_usable(s, r);
            }
        },
        _ => {},
    }
}

/// Whether a session goes on where another was: under the same key, and with a
/// trail that begins with its trail.
pub open spec fn goes_on(s: SessionV, t: SessionV) -> bool {
    t.key == s.key && s.audit.len() <= t.audit.len() && t.audit.take(s.audit.len() as int) == s.audit
}

proof fn lemma_goes_on(s: SessionV, t: SessionV, op: Seq<char>, detail: Seq<char>, decision: Seq<char>)
    requires
        goes_on(s, t),
    ensures
        goes_on(s, t.noted(op, detail, decision)),
{
    assert(t.noted(op, detail, decision).audit.take(s.audit.len() as int) =~= t.audit.take(
        s.audit.len() as int,
    ));
}

proof fn lemma_any_note_goes_on(s: SessionV)
    ensures
        goes_on(s, s),
        forall|t: SessionV, op: Seq<char>, detail: Seq<char>, decision: Seq<char>|
            goes_on(s, t) ==> goes_on(s, #[trigger] t.noted(op, detail, decision)),
        forall|t: SessionV, c: CapV| goes_on(s, t) ==> goes_on(s, #[trigger] t.with_cap(c)),
        forall|t: SessionV, r: Seq<char>| goes_on(s, t) ==> goes_on(s, #[trigger] t.without(r)),
{
    assert(s.audit.take(s.audit.len() as int) =~= s.audit);
    assert forall|t: SessionV, op: Seq<char>, detail: Seq<char>, decision: Seq<char>|
        goes_on(s, t) implies goes_on(s, #[trigger] t.noted(op, detail, decision)) by {
        lemma_goes_on(s, t, op, detail, decision);
    }
}

/// Whether a session has the capabilities of another and goes on where it was.
spec fn same_caps(s: SessionV, t: SessionV) -> bool {
    t.caps == s.caps && goes_on(s, t)
}

proof fn lemma_exec_begun(s: SessionV, l: LedgerV, r: Seq<char>)
    ensures
        same_caps(s, s.exec_begun(l, r).0),
{
    lemma_any_note_goes_on(s);
    reveal(SessionV::exec_begun);
}

proof fn lemma_http_begun(s: SessionV, l: LedgerV, r: Seq<char>, path: Seq<char>)
    ensures
        same_caps(s, s.http_begun(l, r, path).0),
{
    lemma_any_note_goes_on(s);
    reveal(SessionV::http_begun);
}

proof fn lemma_post_begun(s: SessionV, l: LedgerV, r: Seq<char>, subject: Seq<char>, body: Seq<char>)
    ensures
        same_caps(s, s.post_begun(l, r, subject, body).0),
{
    lemma_any_note_goes_on(s);
    reveal(SessionV::post_begun);
}

proof fn lemma_forward_begun(
    s: SessionV,
    l: LedgerV,
    r: Seq<char>,
    subject: Seq<char>,
    src: Seq<char>,
    rel: Seq<char>,
)
    ensures
        same_caps(s, s.forward_begun(l, r, subject, src, rel).0),
{
    lemma_any_note_goes_on(s);
    reveal(SessionV::forward_begun);
}

proof fn lemma_invoke_keeps_caps(s: SessionV, l: LedgerV, q: RequestV)
    ensures
        same_caps(s, proto::begun_invoke(s, l, q).0),
{
    lemma_any_note_goes_on(s);
    match q {
        RequestV::Exec { r } => lemma_exec_begun(s, l, r),
        RequestV::HttpGet { r, path } => lemma_http_begun(s, l, r, path),
        RequestV::Post { r, subject, body } => lemma_post_begun(s, l, r, subject, body),
        RequestV::PostFrom { r, subject, src, rel } => lemma_forward_begun(s, l, r, subject, src, rel),
        _ => {},
    }
}

/// Whatever a guest asks, the only capabilities that its session gains are
/// derived from those that it had, and it never has the host open a directory to
/// grant.
pub proof fn law_guest_gains_only_derived(
    s: SessionV,
    l: LedgerV,
    body: Seq<char>,
    entropy: Seq<u8>,
    mailbox_entropy: Seq<u8>,
)
    ensures
        ({
            let (t, _, step) = proto::handled(s, l, Role::Guest, body, entropy, mailbox_entropy);
            &&& only_derived(s, t)
            &&& step matches StepV::Wait(w) ==> !(w is OpenDir)
        }),
{
    let f = text::split_on(body, '\t');
    if request::parsed(Role::Guest, f) is Ok {
        let q = request::parsed(Role::Guest, f)->Ok_0;
        law_guest_requests(f);
        lemma_derive_only_derived(s, q, entropy);
        lemma_invoke_keeps_caps(s, l, q);
    }
}

/// What follows when the host has done its part adds to that: where it was not
/// asked to open a directory to grant, only derived capabilities are gained.
pub proof fn law_resuming_gains_only_derived(s: SessionV, w: WaitingV, o: Outcome, entropy: Seq<u8>)
    requires
        !(w is OpenDir),
    ensures
        only_derived(s, proto::resumed(s, w, o, entropy).0),
        proto::resumed(s, w, o, entropy).1 matches StepV::Wait(next) ==> !(next is OpenDir),
{
    match (w, o) {
        (WaitingV::OpenSub { r, .. }, _) => {
            if s.usable(r) is Ok {
                state::lemma_usable(s, r);
            }
        },
        (WaitingV::Post(i), _) => {
            if s.usable(i.0) is Ok {
                state::lemma_usable(s, i.0);
            }
        },
        (WaitingV::Forwarding(p), _) => {
            if s.usable(p.0) is Ok {
                state::lemma_usable(s, p.0);
            }
        },
        _ => {},
    }
}

/// The trail only grows: whatever is asked, what was on it stays there, in its
/// place.
pub proof fn law_trail_only_grows(
    s: SessionV,
    l: LedgerV,
    q: RequestV,
    entropy: Seq<u8>,
    mailbox_entropy: Seq<u8>,
)
    ensures
        goes_on(s, proto::begun(s, l, q, entropy, mailbox_entropy).0),
{
    lemma_any_note_goes_on(s);
    if proto::mints(q) {
        if q is GrantMsg {
            let mailbox = state::mailbox_id(mailbox_entropy);
            let t = SessionV { mailboxes: s.mailboxes.insert(mailbox, Seq::empty()), ..s };
            assert(goes_on(s, t));
        }
    } else if proto::invokes(q) {
        lemma_invoke_keeps_caps(s, l, q);
    } else if q is Bootstrap {
        assert(goes_on(s, SessionV { bootstrap: None, ..s }));
    }
}

/// So it is when the host has done its part.
pub proof fn law_trail_only_grows_on(s: SessionV, w: WaitingV, o: Outcome, entropy: Seq<u8>)
    ensures
        goes_on(s, proto::resumed(s, w, o, entropy).0),
{
    lemma_any_note_goes_on(s);
}

/// Whether a text begins as a reply does: it hands out a capability, says that
/// something was done or hands out data, refuses, or says that consent is needed.
pub open spec fn is_reply(s: Seq<char>) -> bool {
    text::starts(s, "CAP\t"@) || text::starts(s, "OK\t"@) || text::starts(s, "ERR\t"@) || text::starts(
        s,
        "CONSENT"@,
    )
}

proof fn lemma_begins(mark: Seq<char>, rest: Seq<char>)
    ensures
        text::starts(mark + rest, mark),
{
    assert((mark + rest).take(mark.len() as int) =~= mark);
}

proof fn lemma_forms_are_replies()
    ensures
        forall|id: Seq<char>| is_reply(#[trigger] proto::cap_reply(id)),
        forall|taint: Seq<char>, data: Seq<u8>| is_reply(#[trigger] proto::data_reply(taint, data)),
        is_reply(proto::done_reply()),
        forall|d: Seq<char>| is_reply("OK\t\t"@ + d),
        forall|e: Seq<char>| is_reply(#[trigger] proto::error_reply(e)),
{
    assert forall|id: Seq<char>| is_reply(#[trigger] proto::cap_reply(id)) by {
        lemma_begins("CAP\t"@, id);
    }
    assert forall|taint: Seq<char>, data: Seq<u8>| is_reply(#[trigger] proto::data_reply(taint, data)) by {
        let rest = taint + "\t"@ + crate::base64::encoded(data);
        assert(proto::data_reply(taint, data) =~= "OK\t"@ + rest);
        lemma_begins("OK\t"@, rest);
    }
    reveal_strlit("OK\t");
    reveal_strlit("OK\t\t");
    assert(proto::done_reply() =~= "OK\t"@ + seq!['\t']);
    lemma_begins("OK\t"@, seq!['\t']);
    assert forall|d: Seq<char>| is_reply("OK\t\t"@ + d) by {
        assert("OK\t\t"@ + d =~= "OK\t"@ + (seq!['\t'] + d));
        lemma_begins("OK\t"@, seq!['\t'] + d);
    }
    assert forall|e: Seq<char>| is_reply(#[trigger] proto::error_reply(e)) by {
        lemma_begins("ERR\t"@, e);
        lemma_begins("CONSENT"@, e.skip(CONSENT_REQUIRED@.len() as int));
    }
}

/// Whatever is asked, an answer that is given at once begins with one of the four
/// marks of a reply.
pub proof fn law_every_answer_is_a_reply(
    s: SessionV,
    l: LedgerV,
    role: Role,
    body: Seq<char>,
    entropy: Seq<u8>,
    mailbox_entropy: Seq<u8>,
)
    ensures
        proto::handled(s, l, role, body, entropy, mailbox_entropy).2 matches StepV::Reply(r) ==> is_reply(r),
{
    lemma_forms_are_replies();
}

/// So does every answer that is given once the host has done its part.
pub proof fn law_every_later_answer_is_a_reply(s: SessionV, w: WaitingV, o: Outcome, entropy: Seq<u8>)
    requires
        proto::fits(w, o),
    ensures
        proto::resumed(s, w, o, entropy).1 matches StepV::Reply(r) ==> is_reply(r),
{
    lemma_forms_are_replies();
}

/// The references that a request uses.
pub open spec fn references(q: RequestV) -> Seq<Seq<char>> {
    match q {
        RequestV::GrantCmd { cwd, .. } => seq![cwd],
        RequestV::DeriveSub { r, .. } => seq![r],
        RequestV::DeriveReadonly { r } => seq![r],
        RequestV::DeriveMsgPrefix { r, .. } => seq![r],
        RequestV::DeriveMsgOneshot { r } => seq![r],
        RequestV::Read { r, .. } => seq![r],
        RequestV::List { r, .. } => seq![r],
        RequestV::Exec { r } => seq![r],
        RequestV::HttpGet { r, .. } => seq![r],
        RequestV::Send { r, .. } => seq![r],
        RequestV::Post { r, .. } => seq![r],
        RequestV::PostFrom { r, src, .. } => seq![r, src],
        RequestV::MailboxRead { r } => seq![r],
        RequestV::Revoke { r } => seq![r],
        RequestV::Describe { r } => seq![r],
        _ => Seq::empty(),
    }
}

/// A request is always taken whose references are of ASCII, as all that are handed out
/// are, or have at most fourteen bytes.
pub proof fn law_plain_references_are_taken(s: SessionV, q: RequestV)
    requires
        forall|i: int|
            0 <= i < references(q).len() ==> is_ascii_chars(#[trigger] references(q)[i]) || text::byte_len(
                references(q)[i],
            ) <= 14,
    ensures
        proto::refs_showable(s, q),
{
    let rs = references(q);
    assert forall|i: int| 0 <= i < rs.len() implies show::showable(#[trigger] rs[i]) by {
        if is_ascii_chars(rs[i]) {
            show::lemma_ascii_showable(rs[i]);
        }
    }
    if rs.len() > 0 {
        assert(show::showable(rs[0]));
    }
    if rs.len() > 1 {
        assert(show::showable(rs[1]));
    }
}

} // verus!
