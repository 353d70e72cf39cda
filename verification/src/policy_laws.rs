//! What holds of the policy, of the ledger of consent, and of what an action is told
//! that was put to them.

use crate::audit;
use crate::order;
use crate::policy;
use crate::policy::{Decision, LedgerV, OutcomeV, PolicyEngine, Status};
use crate::show;
use crate::state;
use crate::state::SessionV;
use crate::text;
use crate::use_laws;
use vstd::prelude::*;

verus! {

proof fn lemma_verbs()
    ensures
        "exec"@[0] == 'e',
        "http_get"@[0] == 'h',
        "post"@[0] == 'p' && "post"@.len() == 4,
        "post_from"@[0] == 'p' && "post_from"@.len() == 9,
{
    reveal_strlit("exec");
    reveal_strlit("http_get");
    reveal_strlit("post");
    reveal_strlit("post_from");
}

/// Each setting of the policy is over its own actions: running commands may be refused
/// or made to wait, and a refusal goes first; requests to the network and the two ways
/// of posting may be made to wait; every other action passes.
pub proof fn law_policy_table(p: PolicyEngine, verb: Seq<char>)
    ensures
        p.deny_exec ==> policy::decided(p, "exec"@) == Decision::Deny,
        !p.deny_exec && p.prompt_exec ==> policy::decided(p, "exec"@) == Decision::Prompt,
        !p.deny_exec && !p.prompt_exec ==> policy::decided(p, "exec"@) == Decision::Allow,
        policy::decided(p, "http_get"@) == if p.prompt_http {
            Decision::Prompt
        } else {
            Decision::Allow
        },
        policy::decided(p, "post"@) == if p.prompt_post {
            Decision::Prompt
        } else {
            Decision::Allow
        },
        policy::decided(p, "post_from"@) == policy::decided(p, "post"@),
        verb != "exec"@ && verb != "http_get"@ && verb != "post"@ && verb != "post_from"@ ==> policy::decided(p, verb)
            == Decision::Allow,
{
    lemma_verbs();
}

/// Asking for an action that was not asked for before enters it as waiting, under an id
/// made of the next number, with the action, the session and what the control side is to
/// be shown. No other request changes.
pub proof fn law_first_asking_enters(
    l: LedgerV,
    sig: Seq<char>,
    session: Seq<char>,
    summary: Seq<char>,
    other: Seq<char>,
)
    requires
        l.inv(),
        forall|id: Seq<char>| #[trigger]
            l.reqs.contains_key(id) ==> l.reqs[id].sig != sig || l.reqs[id].session != session,
    ensures
        ({
            let (m, o) = l.consult(sig, session, summary);
            let id = "consent_"@ + text::dec(l.issued + 1);
            let q = m.reqs[id];
            &&& o == OutcomeV::Pending(id)
            &&& m.issued == l.issued + 1
            &&& m.reqs.contains_key(id) && !l.reqs.contains_key(id)
            &&& q.sig == sig && q.session == session && q.summary == summary && q.status == Status::Pending
            &&& l.reqs.contains_key(other) ==> m.reqs.contains_key(other) && m.reqs[other] == l.reqs[other]
            &&& other != id ==> (m.reqs.contains_key(other) <==> l.reqs.contains_key(other))
        }),
{
    policy::law_next_id_is_new(l);
    if l.asked(sig, session) {
        let id = l.id_for(sig, session);
        assert(l.is_for(id, sig, session));
    }
}

/// Asking for an action that was asked for before is answered by where its request
/// stands: an approval lets it pass and is used up, a refusal stands, and a request that
/// waits goes on waiting. No other request changes.
pub proof fn law_later_asking_is_answered(
    l: LedgerV,
    id: Seq<char>,
    summary: Seq<char>,
    other: Seq<char>,
)
    requires
        l.inv(),
        l.reqs.contains_key(id),
    ensures
        ({
            let q = l.reqs[id];
            let (m, o) = l.consult(q.sig, q.session, summary);
            &&& q.status == Status::Approved ==> o is Approved && !m.reqs.contains_key(id)
            &&& q.status == Status::Denied ==> o is Denied && m == l
            &&& q.status == Status::Pending ==> o == OutcomeV::Pending(id) && m == l
            &&& m.issued == l.issued
            &&& other != id ==> (m.reqs.contains_key(other) <==> l.reqs.contains_key(other))
            &&& other != id && l.reqs.contains_key(other) ==> m.reqs[other] == l.reqs[other]
        }),
{
    let q = l.reqs[id];
    assert(l.is_for(id, q.sig, q.session));
    policy::lemma_id_for(l, id, q.sig, q.session);
}

/// The control side settles a request just where it waits: it is then approved or refused
/// as was said, keeps its action, its session and what was shown, and no other request
/// changes. What was shown is handed back.
pub proof fn law_settling(s: SessionV, l: LedgerV, id: Seq<char>, approve: bool, other: Seq<char>)
    requires
        s.consent,
    ensures
        ({
            let (t, m, res) = s.consent_settled(l, id, approve);
            let waited = l.reqs.contains_key(id) && l.reqs[id].status == Status::Pending;
            &&& res is Ok <==> waited
            &&& waited ==> res->Ok_0 == l.reqs[id].summary
            &&& waited ==> m.reqs.contains_key(id) && m.reqs[id].status == if approve {
                Status::Approved
            } else {
                Status::Denied
            }
            &&& waited ==> m.reqs[id].sig == l.reqs[id].sig && m.reqs[id].session == l.reqs[id].session
                && m.reqs[id].summary == l.reqs[id].summary
            &&& other != id ==> (m.reqs.contains_key(other) <==> l.reqs.contains_key(other))
            &&& other != id && l.reqs.contains_key(other) ==> m.reqs[other] == l.reqs[other]
            &&& m.issued == l.issued
            &&& !waited ==> m == l
            &&& use_laws::only_trail(s, t)
            &&& use_laws::trail_grew(
                s,
                t,
                if approve {
                    "consent.approve"@
                } else {
                    "consent.deny"@
                },
                id,
                if waited {
                    "allow"@
                } else {
                    "deny"@
                },
            )
        }),
{
}

/// Without a ledger nothing is settled, described or listed.
pub proof fn law_no_ledger_no_consent(s: SessionV, l: LedgerV, id: Seq<char>, approve: bool)
    requires
        !s.consent,
    ensures
        s.consent_settled(l, id, approve).2 is Err,
        s.consent_settled(l, id, approve).1 == l,
        s.consent_detail(l, id) is Err,
        s.consent_waiting(l).len() == 0,
{
}

/// Describing a request gives all that the control side was to be shown, whether it
/// still waits or not.
pub proof fn law_describing_consent(s: SessionV, l: LedgerV, id: Seq<char>)
    requires
        s.consent,
    ensures
        s.consent_detail(l, id) is Ok <==> l.reqs.contains_key(id),
        s.consent_detail(l, id) is Ok ==> s.consent_detail(l, id)->Ok_0 == l.reqs[id].summary,
{
}

/// The list of requests holds each that waits once, with its session and what is shown of
/// it, and none that does not; they come in the order of their ids.
pub proof fn law_waiting_list(s: SessionV, l: LedgerV, q: (Seq<char>, Seq<char>, Seq<char>))
    requires
        s.consent,
        l.reqs.dom().finite(),
    ensures
        ({
            let all = s.consent_waiting(l);
            &&& all.contains(q) <==> l.reqs.contains_key(q.0) && l.reqs[q.0].status == Status::Pending && q.1
                == l.reqs[q.0].session && q.2 == l.reqs[q.0].summary
            &&& forall|i: int, j: int|
                #![trigger all[i], all[j]]
                0 <= i < j < all.len() ==> all[i].0 != all[j].0 && order::no_later(all[i].0, all[j].0)
        }),
{
    let all = s.consent_waiting(l);
    let ids = l.waiting().to_seq();
    let sorted = order::in_order(ids);
    l.reqs.dom().lemma_len_filter(|id: Seq<char>| l.waits(id));
    order::law_set_in_order(l.waiting());
    order::law_in_order(ids);
    assert forall|id: Seq<char>| #[trigger] sorted.contains(id) <==> l.waits(id) by {
        assert(l.waiting().contains(id) <==> l.waits(id));
    }
    if all.contains(q) {
        let k = all.index_of(q);
        assert(all[k] == q);
        assert(q.0 == sorted[k]);
        assert(sorted.contains(sorted[k]));
    }
    if l.waits(q.0) && q.1 == l.reqs[q.0].session && q.2 == l.reqs[q.0].summary {
        assert(sorted.contains(q.0));
        let k = sorted.index_of(q.0);
        assert(sorted[k] == q.0);
        assert(all[k] == q);
    }
    assert forall|i: int, j: int|
        #![trigger all[i], all[j]]
        0 <= i < j < all.len() implies all[i].0 != all[j].0 && order::no_later(all[i].0, all[j].0) by {
        assert(all[i].0 == sorted[i] && all[j].0 == sorted[j]);
    }
}

/// An action that needs consent is put to the ledger under its own signature, for the
/// session that asks, with the detail for the control side; an answer that has to wait
/// names the request and gives the hint.
pub proof fn law_gate_asks_ledger(
    s: SessionV,
    l: LedgerV,
    verb: Seq<char>,
    sig: Seq<char>,
    hint: Seq<char>,
    detail: Seq<char>,
)
    requires
        s.consent,
        policy::decided(s.l5, verb) == Decision::Prompt,
    ensures
        ({
            let (t, m, res) = s.gate(l, verb, sig, hint, detail);
            let (after, o) = l.consult(sig, s.key, detail);
            &&& m == after
            &&& use_laws::only_trail(s, t)
            &&& o is Approved ==> res is Ok && use_laws::trail_grew(s, t, "policy.consent"@, sig, "approved"@)
            &&& o is Denied ==> res == Err::<(), Seq<char>>("JIT consent 被拒:"@ + verb) && use_laws::trail_grew(
                s,
                t,
                "policy.consent"@,
                sig,
                "denied"@,
            )
            &&& o is Pending ==> res == Err::<(), Seq<char>>(
                "__CONSENT__"@ + "\t"@ + o->Pending_0 + "\t"@ + hint,
            ) && use_laws::trail_grew(s, t, "policy.consent"@, sig + " id="@ + o->Pending_0, "pending"@)
        }),
{
}

/// An action that the policy refuses is told so, by name, and nothing but the trail
/// changes; one that it lets pass changes nothing.
pub proof fn law_gate_without_ledger(
    s: SessionV,
    l: LedgerV,
    verb: Seq<char>,
    sig: Seq<char>,
    hint: Seq<char>,
    detail: Seq<char>,
)
    ensures
        ({
            let (t, m, res) = s.gate(l, verb, sig, hint, detail);
            &&& policy::decided(s.l5, verb) == Decision::Allow ==> t == s && m == l && res is Ok
            &&& policy::decided(s.l5, verb) == Decision::Deny ==> res == Err::<(), Seq<char>>(
                "L5 策略拒绝动作 "@ + verb,
            ) && m == l && use_laws::only_trail(s, t)
            &&& policy::decided(s.l5, verb) == Decision::Prompt && !s.consent ==> res is Err && m == l
                && use_laws::only_trail(s, t)
        }),
{
}

/// What is asked for a command: the decision on `exec`, under a signature over the
/// capability; where it passes, the intent goes on the trail, and where it does not,
/// nothing more does.
pub proof fn law_exec_is_put_to_policy(s: SessionV, l: LedgerV, r: Seq<char>)
    ensures
        ({
            let (t, m, res) = s.exec_begun(l, r);
            let hint = "需审批 exec on CommandCap "@ + show::shorted(r) + "(详情见 control CONSENT_DESCRIBE)"@;
            let (u, n, gate) = s.gate(l, "exec"@, state::signature(seq!["exec"@, r]), hint, s.exec_detail(r));
            &&& m == n && res == gate
            &&& res is Err ==> t == u
            &&& res is Ok ==> use_laws::only_trail(u, t) && use_laws::trail_grew(
                u,
                t,
                "exec.intent"@,
                show::shorted(r),
                "attempt"@,
            )
        }),
{
    reveal(SessionV::exec_begun);
    lemma_hint("exec"@, "CommandCap"@, r);
    reveal_strlit("需审批 ");
    reveal_strlit("exec");
    reveal_strlit(" on ");
    reveal_strlit("CommandCap");
    reveal_strlit(" ");
    reveal_strlit("需审批 exec on CommandCap ");
    assert("需审批 "@ + "exec"@ + " on "@ + "CommandCap"@ + " "@ =~= "需审批 exec on CommandCap "@);
}

proof fn lemma_hint(verb: Seq<char>, kind: Seq<char>, r: Seq<char>)
    ensures
        state::hint(verb, kind, r) == ("需审批 "@ + verb + " on "@ + kind + " "@) + show::shorted(r)
            + "(详情见 control CONSENT_DESCRIBE)"@,
{
}

/// What is asked for a request to the network: the decision on `http_get`, under a
/// signature over the capability and the path as it was given.
pub proof fn law_http_is_put_to_policy(s: SessionV, l: LedgerV, r: Seq<char>, path: Seq<char>)
    ensures
        ({
            let (t, m, res) = s.http_begun(l, r, path);
            let hint = "需审批 http_get on HttpCap "@ + show::shorted(r) + "(详情见 control CONSENT_DESCRIBE)"@;
            let detail = "HTTP GET "@ + show::shorted(r) + " path="@ + show::displayed(path);
            let (u, n, gate) = s.gate(l, "http_get"@, state::signature(seq!["http_get"@, r, path]), hint, detail);
            &&& m == n && res == gate
            &&& res is Err ==> t == u
            &&& res is Ok ==> use_laws::only_trail(u, t) && use_laws::trail_grew(
                u,
                t,
                "http.intent"@,
                show::shorted(r) + " GET "@ + path,
                "attempt"@,
            )
        }),
{
    reveal(SessionV::http_begun);
    lemma_hint("http_get"@, "HttpCap"@, r);
    reveal_strlit("需审批 ");
    reveal_strlit("http_get");
    reveal_strlit(" on ");
    reveal_strlit("HttpCap");
    reveal_strlit(" ");
    reveal_strlit("需审批 http_get on HttpCap ");
    assert("需审批 "@ + "http_get"@ + " on "@ + "HttpCap"@ + " "@ =~= "需审批 http_get on HttpCap "@);
}

/// What is asked for a post: the decision on `post`, under a signature over the facet, the
/// subject and the digest of the text.
pub proof fn law_post_is_put_to_policy(
    s: SessionV,
    l: LedgerV,
    r: Seq<char>,
    subject: Seq<char>,
    body: Seq<char>,
)
    ensures
        ({
            let (t, m, res) = s.post_begun(l, r, subject, body);
            let hint = "需审批 post on MessageCap "@ + show::shorted(r) + "(详情见 control CONSENT_DESCRIBE)"@;
            let digest = audit::text_digest(body);
            let detail = "投递 "@ + show::shorted(r) + " subj="@ + show::displayed(subject) + " body#"@ + digest.take(
                12,
            );
            let sig = state::signature(seq!["post"@, r, subject, digest]);
            let (u, n, gate) = s.gate(l, "post"@, sig, hint, detail);
            &&& m == n && res == gate
            &&& res is Err ==> t == u
            &&& res is Ok ==> use_laws::only_trail(u, t) && use_laws::trail_grew(
                u,
                t,
                "post.intent"@,
                show::shorted(r) + " subj="@ + subject + " src=literal"@,
                "attempt"@,
            )
        }),
{
    reveal(SessionV::post_begun);
    lemma_hint("post"@, "MessageCap"@, r);
    reveal_strlit("需审批 ");
    reveal_strlit("post");
    reveal_strlit(" on ");
    reveal_strlit("MessageCap");
    reveal_strlit(" ");
    reveal_strlit("需审批 post on MessageCap ");
    assert("需审批 "@ + "post"@ + " on "@ + "MessageCap"@ + " "@ =~= "需审批 post on MessageCap "@);
}

/// What is asked for a forwarding post: the decision on `post_from`, under a signature
/// over the facet, the subject, the source and the path below it.
pub proof fn law_forward_is_put_to_policy(
    s: SessionV,
    l: LedgerV,
    r: Seq<char>,
    subject: Seq<char>,
    src: Seq<char>,
    rel: Seq<char>,
)
    ensures
        ({
            let (t, m, res) = s.forward_begun(l, r, subject, src, rel);
            let hint = "需审批 post_from on MessageCap "@ + show::shorted(r) + "(详情见 control CONSENT_DESCRIBE)"@;
            let detail = "转发投递 "@ + show::shorted(r) + " subj="@ + show::displayed(subject) + " <- "@ + show::shorted(
                src,
            ) + " "@ + show::displayed(rel);
            let sig = state::signature(seq!["post_from"@, r, subject, src, rel]);
            let (u, n, gate) = s.gate(l, "post_from"@, sig, hint, detail);
            &&& m == n && res == gate
            &&& res is Err ==> t == u
            &&& res is Ok ==> use_laws::only_trail(u, t) && use_laws::trail_grew(
                u,
                t,
                "post.intent"@,
                show::shorted(r) + " subj="@ + subject + " src="@ + show::shorted(src) + " "@ + rel,
                "attempt"@,
            )
        }),
{
    reveal(SessionV::forward_begun);
    lemma_hint("post_from"@, "MessageCap"@, r);
    reveal_strlit("需审批 ");
    reveal_strlit("post_from");
    reveal_strlit(" on ");
    reveal_strlit("MessageCap");
    reveal_strlit(" ");
    reveal_strlit("需审批 post_from on MessageCap ");
    assert("需审批 "@ + "post_from"@ + " on "@ + "MessageCap"@ + " "@ =~= "需审批 post_from on MessageCap "@);
}

/// What the control side is shown of a command: the directory, the arguments and the
/// settings that it was granted with.
pub proof fn law_command_is_shown(s: SessionV, r: Seq<char>)
    requires
        s.caps.contains_key(r),
    ensures
        s.exec_detail(r) == "执行命令 "@ + show::shorted(r) + " cwd="@ + show::displayed(s.caps[r].root) + " argv=["@
            + show::listed(s.caps[r].argv, 240) + "] env=["@ + show::listed(s.caps[r].env, 160) + "]"@,
{
}

} // verus!
