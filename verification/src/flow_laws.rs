//! What holds of a request from what was asked to what is answered: which steps it takes,
//! what each hands on, and how the answer is written.

use crate::audit;
use crate::audit::EventV;
use crate::base64;
use crate::cap::HttpV;
use crate::label;
use crate::label::{Op, Taint};
use crate::net::HostAddr;
use crate::policy::LedgerV;
use crate::proto;
use crate::proto::{Outcome, StepV, WaitingV};
use crate::request;
use crate::request::RequestV;
use crate::role::Role;
use crate::session;
use crate::state::{FetchError, FetchV, LookupV, ReadV, RunV, SessionV};
use crate::text;
use vstd::prelude::*;
use vstd::utf8::*;

verus! {

/// Whether a refusal says that an action waits for consent.
pub open spec fn awaits_consent(e: Seq<char>) -> bool {
    e.len() >= 11 && e.take(11) == "__CONSENT__"@
}

/// How answers are written: a capability as its reference, data as its taint and base64,
/// what was merely done as two empty fields, and a refusal as its text; an action that
/// waits for consent is answered with the id of the request and the hint.
pub proof fn law_reply_forms(
    id: Seq<char>,
    taint: Seq<char>,
    data: Seq<u8>,
    e: Seq<char>,
    hint: Seq<char>,
)
    ensures
        proto::cap_result(Ok(id)) == "CAP\t"@ + id,
        proto::data_reply(taint, data) == "OK\t"@ + taint + "\t"@ + base64::encoded(data),
        proto::unit_result(Ok(())) == "OK\t\t"@,
        !awaits_consent(e) ==> proto::error_reply(e) == "ERR\t"@ + e,
        proto::cap_result(Err(e)) == proto::error_reply(e),
        proto::unit_result(Err(e)) == proto::error_reply(e),
        proto::text_result(Err(e)) == proto::error_reply(e),
        proto::text_result(Ok(e)) == "OK\t\t"@ + base64::encoded(encode_utf8(e)),
        proto::error_reply("__CONSENT__"@ + "\t"@ + id + "\t"@ + hint) == "CONSENT\t"@ + id + "\t"@ + hint,
{
    reveal_strlit("__CONSENT__");
    reveal_strlit("CONSENT");
    reveal_strlit("\t");
    reveal_strlit("OK\t");
    reveal_strlit("OK\t\t");
    reveal_strlit("CONSENT\t");
    let w = "__CONSENT__"@ + "\t"@ + id + "\t"@ + hint;
    assert(w.take(11) =~= "__CONSENT__"@);
    assert(w.skip(11) =~= "\t"@ + id + "\t"@ + hint);
    assert("CONSENT"@ + ("\t"@ + id + "\t"@ + hint) =~= "CONSENT\t"@ + id + "\t"@ + hint);
    assert("OK\t"@ + Seq::<char>::empty() + "\t"@ + base64::encoded(encode_utf8(e)) =~= "OK\t\t"@ + base64::encoded(
        encode_utf8(e),
    ));
}

/// A request that its words do not make out is refused with the reason and changes nothing;
/// any other is taken up as what it asks.
pub proof fn law_requests_are_taken_up(
    s: SessionV,
    l: LedgerV,
    role: Role,
    body: Seq<char>,
    entropy: Seq<u8>,
    mailbox_entropy: Seq<u8>,
)
    ensures
        ({
            let asked = request::parsed(role, text::split_on(body, '\t'));
            let h = proto::handled(s, l, role, body, entropy, mailbox_entropy);
            &&& asked is Err ==> h.0 == s && h.1 == l && h.2 == StepV::Reply(proto::error_reply(asked->Err_0))
            &&& asked is Ok ==> h == proto::begun(s, l, asked->Ok_0, entropy, mailbox_entropy)
        }),
{
}

/// To read: what is let pass waits for the host, is put on the trail, and is answered with
/// the taint that was found and the very bytes, but only once the trail is durable.
pub proof fn law_read_flow(
    s: SessionV,
    l: LedgerV,
    r: Seq<char>,
    rel: Seq<char>,
    x: Seq<u8>,
    y: Seq<u8>,
    p: ReadV,
    b: Vec<u8>,
    e: String,
    o: Outcome,
    later: SessionV,
)
    ensures
        ({
            let (t, m, step) = proto::begun(s, l, RequestV::Read { r, rel }, x, y);
            let (u, res) = s.read_begun(r, rel);
            &&& t == u && m == l
            &&& res is Ok ==> step == StepV::Wait(WaitingV::Reading(res->Ok_0))
            &&& res is Err ==> step == StepV::Reply(proto::error_reply(res->Err_0))
        }),
        proto::resumed(s, WaitingV::Reading(p), Outcome::Bytes(Ok(b)), x) == (
            s.read_noted(p, Ok(b@)),
            StepV::Wait(WaitingV::ReadHeld((p.taint, b@))),
        ),
        proto::resumed(s, WaitingV::Reading(p), Outcome::Bytes(Err(e)), x) == (
            s.read_noted(p, Err(e@)),
            StepV::Reply(proto::error_reply(e@)),
        ),
        later.unsettled == 0 && later.last_ok ==> proto::resumed(later, WaitingV::ReadHeld((p.taint, b@)), o, x) == (
            later,
            StepV::Reply("OK\t"@ + label::taint_text(p.taint) + "\t"@ + base64::encoded(b@)),
        ),
        !(later.unsettled == 0 && later.last_ok) ==> proto::resumed(later, WaitingV::ReadHeld((p.taint, b@)), o, x) == (
            later,
            StepV::Reply("ERR\t"@ + "read 结果未能持久审计,fail-closed 拒绝返回"@),
        ),
{
    reveal_strlit("read 结果未能持久审计,fail-closed 拒绝返回");
    lemma_not_consent("read 结果未能持久审计,fail-closed 拒绝返回"@, 'r');
}

proof fn lemma_not_consent(e: Seq<char>, first: char)
    ensures
        e.len() > 0 && e[0] == first && first != '_' ==> proto::error_reply(e) == "ERR\t"@ + e,
{
    reveal_strlit("__CONSENT__");
    if text::starts(e, "__CONSENT__"@) {
        assert(e.take(11)[0] == e[0]);
    }
}

/// To list: the names come back one to a line, always as the project's.
pub proof fn law_list_flow(
    s: SessionV,
    l: LedgerV,
    r: Seq<char>,
    rel: Seq<char>,
    x: Seq<u8>,
    y: Seq<u8>,
    p: ReadV,
    v: Vec<String>,
    e: String,
    t: Taint,
    data: Seq<u8>,
    o: Outcome,
    later: SessionV,
)
    ensures
        ({
            let (u, m, step) = proto::begun(s, l, RequestV::List { r, rel }, x, y);
            let (w, res) = s.list_begun(r, rel);
            &&& u == w && m == l
            &&& res is Ok ==> step == StepV::Wait(WaitingV::Listing(res->Ok_0))
            &&& res is Err ==> step == StepV::Reply(proto::error_reply(res->Err_0))
        }),
        proto::resumed(s, WaitingV::Listing(p), Outcome::Names(Ok(v)), x) == (
            s.list_noted(p, Ok(text::views(v@))),
            StepV::Wait(WaitingV::ListHeld((p.taint, encode_utf8(text::join_with(text::views(v@), "\n"@))))),
        ),
        proto::resumed(s, WaitingV::Listing(p), Outcome::Names(Err(e)), x) == (
            s.list_noted(p, Err(e@)),
            StepV::Reply(proto::error_reply(e@)),
        ),
        later.durable() ==> proto::resumed(later, WaitingV::ListHeld((t, data)), o, x) == (
            later,
            StepV::Reply("OK\tproject\t"@ + base64::encoded(data)),
        ),
        !later.durable() ==> proto::resumed(later, WaitingV::ListHeld((t, data)), o, x) == (
            later,
            StepV::Reply("ERR\t"@ + "list 结果未能持久审计,fail-closed 拒绝返回"@),
        ),
{
    reveal_strlit("list 结果未能持久审计,fail-closed 拒绝返回");
    lemma_not_consent("list 结果未能持久审计,fail-closed 拒绝返回"@, 'l');
    reveal_strlit("OK\t");
    reveal_strlit("project");
    reveal_strlit("\t");
    reveal_strlit("OK\tproject\t");
    assert("OK\t"@ + "project"@ + "\t"@ =~= "OK\tproject\t"@);
}

/// To run a command: once let pass and durable, the plan goes to the host, and what it
/// printed comes back as suspect.
pub proof fn law_exec_flow(
    s: SessionV,
    l: LedgerV,
    r: Seq<char>,
    x: Seq<u8>,
    y: Seq<u8>,
    p: RunV,
    out: Result<Vec<u8>, String>,
    o: Outcome,
)
    ensures
        ({
            let (t, m, step) = proto::begun(s, l, RequestV::Exec { r }, x, y);
            let (u, n, res) = s.exec_begun(l, r);
            &&& t == u && m == n
            &&& res is Ok ==> step == StepV::Wait(WaitingV::Exec(r))
            &&& res is Err ==> step == StepV::Reply(proto::error_reply(res->Err_0))
        }),
        ({
            let (t, step) = proto::resumed(s, WaitingV::Exec(r), o, x);
            let (u, res) = s.exec_planned(r);
            &&& t == u
            &&& res is Ok ==> step == StepV::Wait(WaitingV::Running(res->Ok_0))
            &&& res is Err ==> step == StepV::Reply(proto::error_reply(res->Err_0))
        }),
        ({
            let (t, step) = proto::resumed(s, WaitingV::Running(p), Outcome::Bytes(out), x);
            &&& out matches Ok(b) ==> t == s.exec_done(p.r, Ok(b@)).0 && step == StepV::Reply(
                "OK\tyellow\t"@ + base64::encoded(b@),
            )
            &&& out matches Err(e) ==> t == s.exec_done(p.r, Err(e@)).0 && step == StepV::Reply(
                "ERR\t"@ + ("exec failed: "@ + e@),
            )
        }),
{
    reveal_strlit("OK\t");
    reveal_strlit("yellow");
    reveal_strlit("\t");
    reveal_strlit("OK\tyellow\t");
    assert("OK\t"@ + "yellow"@ + "\t"@ =~= "OK\tyellow\t"@);
    reveal_strlit("exec failed: ");
    if out is Err {
        let e = "exec failed: "@ + out->Err_0@;
        assert(e[0] == 'e');
        lemma_not_consent(e, 'e');
    }
}

/// To fetch: once let pass and durable the host name is looked up, the request is sent, and
/// the body of the answer comes back as external.
pub proof fn law_http_flow(
    s: SessionV,
    l: LedgerV,
    r: Seq<char>,
    path: Seq<char>,
    x: Seq<u8>,
    y: Seq<u8>,
    p: LookupV,
    found: Result<Vec<HostAddr>, String>,
    f: FetchV,
    raw: Result<Vec<u8>, FetchError>,
    o: Outcome,
)
    ensures
        ({
            let (t, m, step) = proto::begun(s, l, RequestV::HttpGet { r, path }, x, y);
            let (u, n, res) = s.http_begun(l, r, path);
            &&& t == u && m == n
            &&& res is Ok ==> step == StepV::Wait(WaitingV::Http((r, path)))
            &&& res is Err ==> step == StepV::Reply(proto::error_reply(res->Err_0))
        }),
        ({
            let (t, step) = proto::resumed(s, WaitingV::Http((r, path)), o, x);
            let (u, res) = s.http_planned(r, path);
            &&& t == u
            &&& res is Ok ==> step == StepV::Wait(WaitingV::Looking(res->Ok_0))
            &&& res is Err ==> step == StepV::Reply(proto::error_reply(res->Err_0))
        }),
        ({
            let (t, step) = proto::resumed(s, WaitingV::Looking(p), Outcome::Found(found), x);
            let (u, res) = s.http_found(p, found);
            &&& t == u
            &&& res is Ok ==> step == StepV::Wait(WaitingV::Fetching(res->Ok_0))
            &&& res is Err ==> step == StepV::Reply(proto::error_reply(res->Err_0))
        }),
        ({
            let (t, step) = proto::resumed(s, WaitingV::Fetching(f), Outcome::Answered(raw), x);
            let (u, res) = s.http_done(f, raw);
            &&& t == u
            &&& res is Ok ==> step == StepV::Reply("OK\texternal\t"@ + base64::encoded(res->Ok_0.1))
            &&& res is Err ==> step == StepV::Reply(proto::error_reply(res->Err_0))
        }),
{
    reveal_strlit("OK\t");
    reveal_strlit("external");
    reveal_strlit("\t");
    reveal_strlit("OK\texternal\t");
    assert("OK\t"@ + "external"@ + "\t"@ =~= "OK\texternal\t"@);
}

/// To send: the intent goes on the trail under the taint that was named, and is then held
/// against the same capability and taint.
pub proof fn law_send_flow(
    s: SessionV,
    l: LedgerV,
    r: Seq<char>,
    taint: Taint,
    data: Seq<u8>,
    x: Seq<u8>,
    y: Seq<u8>,
    o: Outcome,
)
    ensures
        proto::begun(s, l, RequestV::Send { r, taint, data }, x, y) == (
            s.send_begun(r, taint),
            l,
            StepV::Wait(WaitingV::Send((r, taint))),
        ),
        ({
            let (t, step) = proto::resumed(s, WaitingV::Send((r, taint)), o, x);
            let (u, res) = s.send_done(r, taint);
            &&& t == u
            &&& res is Ok ==> step == StepV::Reply("OK\t\t"@)
            &&& res is Err ==> step == StepV::Reply(proto::error_reply(res->Err_0))
        }),
{
}

/// To post a text: what was asked waits for the trail, and is then posted as it was asked.
pub proof fn law_post_flow(
    s: SessionV,
    l: LedgerV,
    r: Seq<char>,
    subject: Seq<char>,
    body: Seq<char>,
    x: Seq<u8>,
    y: Seq<u8>,
    o: Outcome,
)
    ensures
        ({
            let (t, m, step) = proto::begun(s, l, RequestV::Post { r, subject, body }, x, y);
            let (u, n, res) = s.post_begun(l, r, subject, body);
            &&& t == u && m == n
            &&& res is Ok ==> step == StepV::Wait(WaitingV::Post((r, subject, body)))
            &&& res is Err ==> step == StepV::Reply(proto::error_reply(res->Err_0))
        }),
        ({
            let (t, step) = proto::resumed(s, WaitingV::Post((r, subject, body)), o, x);
            let (u, res) = s.post_done(r, subject, body);
            &&& t == u
            &&& res is Ok ==> step == StepV::Reply("OK\t\t"@)
            &&& res is Err ==> step == StepV::Reply(proto::error_reply(res->Err_0))
        }),
{
}

/// To forward a file: what was asked waits for the trail, the source is read, and what was
/// read is posted through the facet and under the subject that were asked for.
pub proof fn law_forward_flow(
    s: SessionV,
    l: LedgerV,
    r: Seq<char>,
    subject: Seq<char>,
    src: Seq<char>,
    rel: Seq<char>,
    x: Seq<u8>,
    y: Seq<u8>,
    p: ReadV,
    data: Result<Vec<u8>, String>,
    o: Outcome,
)
    ensures
        ({
            let (t, m, step) = proto::begun(s, l, RequestV::PostFrom { r, subject, src, rel }, x, y);
            let (u, n, res) = s.forward_begun(l, r, subject, src, rel);
            &&& t == u && m == n
            &&& res is Ok ==> step is Wait && step->Wait_0 is Forward && step->Wait_0->Forward_0.r == r
                && step->Wait_0->Forward_0.subject == subject && step->Wait_0->Forward_0.src == src
                && step->Wait_0->Forward_0.rel == rel
            &&& res is Ok ==> ({
                let (v, next) = proto::resumed(s, step->Wait_0, o, x);
                let (w, plan) = s.forward_planned(r, subject, src, rel);
                &&& v == w
                &&& plan is Ok ==> next == StepV::Wait(WaitingV::Forwarding((r, subject, plan->Ok_0)))
                &&& plan is Err ==> next == StepV::Reply(proto::error_reply(plan->Err_0))
            })
            &&& res is Err ==> step == StepV::Reply(proto::error_reply(res->Err_0))
        }),
        ({
            let (t, step) = proto::resumed(s, WaitingV::Forwarding((r, subject, p)), Outcome::Bytes(data), x);
            let bytes = match data {
                Ok(b) => Ok(b@),
                Err(e) => Err(e@),
            };
            let (u, res) = s.forward_done(r, subject, p, bytes);
            &&& t == u
            &&& res is Ok ==> step == StepV::Reply("OK\t\t"@)
            &&& res is Err ==> step == StepV::Reply(proto::error_reply(res->Err_0))
        }),
{
}

/// To read a mailbox: the messages wait until the trail is durable, and then go out one to a
/// line, each with its taint, its subject and its body.
pub proof fn law_inbox_flow(
    s: SessionV,
    l: LedgerV,
    r: Seq<char>,
    x: Seq<u8>,
    y: Seq<u8>,
    msgs: Seq<(Seq<char>, Taint, Seq<char>)>,
    o: Outcome,
)
    ensures
        ({
            let (t, m, step) = proto::begun(s, l, RequestV::MailboxRead { r }, x, y);
            let (u, res) = s.inbox_begun(r);
            &&& t == u && m == l
            &&& res is Ok ==> step == StepV::Wait(WaitingV::InboxHeld(session::shown_messages(res->Ok_0)))
            &&& res is Err ==> step == StepV::Reply(proto::error_reply(res->Err_0))
        }),
        s.durable() ==> proto::resumed(s, WaitingV::InboxHeld(msgs), o, x) == (
            s,
            StepV::Reply("OK\t\t"@ + base64::encoded(encode_utf8(proto::inbox_dump(msgs)))),
        ),
        !s.durable() ==> proto::resumed(s, WaitingV::InboxHeld(msgs), o, x) == (
            s,
            StepV::Reply("ERR\t"@ + "mailbox_read 未能持久审计,fail-closed 拒绝披露收件箱"@),
        ),
{
    reveal_strlit("mailbox_read 未能持久审计,fail-closed 拒绝披露收件箱");
    lemma_not_consent("mailbox_read 未能持久审计,fail-closed 拒绝披露收件箱"@, 'm');
    reveal_strlit("OK\t");
    reveal_strlit("\t");
    reveal_strlit("OK\t\t");
    let d = base64::encoded(encode_utf8(proto::inbox_dump(msgs)));
    assert("OK\t"@ + Seq::<char>::empty() + "\t"@ + d =~= "OK\t\t"@ + d);
}

/// The messages of a mailbox as they go out: of one, its taint, its subject and its body
/// between tabs, and one more on a line of its own.
pub proof fn law_inbox_lines(
    msgs: Seq<(Seq<char>, Taint, Seq<char>)>,
    subject: Seq<char>,
    t: Taint,
    body: Seq<char>,
)
    ensures
        ({
            let line = label::taint_text(t) + "\t"@ + subject + "\t"@ + body;
            &&& proto::inbox_dump(Seq::empty()) == Seq::<char>::empty()
            &&& proto::inbox_dump(seq![(subject, t, body)]) == line
            &&& msgs.len() > 0 ==> proto::inbox_dump(msgs.push((subject, t, body))) == proto::inbox_dump(msgs) + "\n"@
                + line
        }),
{
    let f = |m: (Seq<char>, Taint, Seq<char>)| proto::inbox_line(m);
    let q = (subject, t, body);
    let none = Seq::<(Seq<char>, Taint, Seq<char>)>::empty();
    assert(none.map_values(f) =~= Seq::empty());
    assert(seq![q].map_values(f) =~= seq![proto::inbox_line(q)]);
    assert(msgs.push(q).map_values(f) =~= msgs.map_values(f).push(proto::inbox_line(q)));
    assert(msgs.map_values(f).push(proto::inbox_line(q)).drop_last() =~= msgs.map_values(f));
}

/// The requests for consent as they go out: of one, its id, its session and what is shown,
/// between tabs, and one more on a line of its own.
pub proof fn law_waiting_lines(
    qs: Seq<(Seq<char>, Seq<char>, Seq<char>)>,
    id: Seq<char>,
    session: Seq<char>,
    summary: Seq<char>,
)
    ensures
        ({
            let line = id + "\t"@ + session + "\t"@ + summary;
            &&& proto::waiting_dump(Seq::empty()) == Seq::<char>::empty()
            &&& proto::waiting_dump(seq![(id, session, summary)]) == line
            &&& qs.len() > 0 ==> proto::waiting_dump(qs.push((id, session, summary))) == proto::waiting_dump(qs) + "\n"@
                + line
        }),
{
    let f = |m: (Seq<char>, Seq<char>, Seq<char>)| proto::waiting_line(m);
    let q = (id, session, summary);
    let none = Seq::<(Seq<char>, Seq<char>, Seq<char>)>::empty();
    assert(none.map_values(f) =~= Seq::empty());
    assert(seq![q].map_values(f) =~= seq![proto::waiting_line(q)]);
    assert(qs.push(q).map_values(f) =~= qs.map_values(f).push(proto::waiting_line(q)));
    assert(qs.map_values(f).push(proto::waiting_line(q)).drop_last() =~= qs.map_values(f));
}

/// A text with spaces after it.
pub open spec fn spaced_out(s: Seq<char>, width: int) -> Seq<char> {
    if s.len() < width {
        s + Seq::new((width - s.len()) as nat, |i: int| ' ')
    } else {
        s
    }
}

proof fn lemma_padded(s: Seq<char>, width: nat)
    ensures
        proto::padded(s, width) == spaced_out(s, width as int),
    decreases width - s.len(),
{
    if s.len() < width {
        lemma_padded(s.push(' '), width);
        assert(spaced_out(s, width as int) =~= spaced_out(s.push(' '), width as int));
    }
}

/// The trail as it goes out: each event on a line of its own, in order, with its number,
/// what was done, what was decided, to what, and the beginning of its digest; and last
/// whether the trail is whole.
pub proof fn law_trail_lines(events: Seq<EventV>, e: EventV)
    ensures
        proto::event_lines(Seq::empty()) == Seq::<char>::empty(),
        proto::event_lines(events.push(e)) == proto::event_lines(events) + ("#"@ + spaced_out(text::dec(e.seq), 3) + " "@
            + spaced_out(e.op, 14) + " ["@ + e.decision + "] "@ + e.detail + "  "@ + e.hash.take(12) + "\n"@),
        audit::chain_ok(events) ==> proto::trail_dump(events) == proto::event_lines(events)
            + "in_process_chain_verify: ok(仅进程内完整性;持久化+锚点见 --audit-log)\n"@,
        !audit::chain_ok(events) ==> proto::trail_dump(events) == proto::event_lines(events)
            + "in_process_chain_verify: BROKEN(仅进程内完整性;持久化+锚点见 --audit-log)\n"@,
{
    assert(events.push(e).drop_last() =~= events);
    lemma_padded(text::dec(e.seq), 3);
    lemma_padded(e.op, 14);
    reveal_strlit("in_process_chain_verify: ");
    reveal_strlit("ok");
    reveal_strlit("BROKEN");
    reveal_strlit("(仅进程内完整性;持久化+锚点见 --audit-log)\n");
    reveal_strlit("in_process_chain_verify: ok(仅进程内完整性;持久化+锚点见 --audit-log)\n");
    reveal_strlit("in_process_chain_verify: BROKEN(仅进程内完整性;持久化+锚点见 --audit-log)\n");
    let a = proto::event_lines(events);
    let b = "in_process_chain_verify: "@;
    let c = "(仅进程内完整性;持久化+锚点见 --audit-log)\n"@;
    assert(b + "ok"@ + c =~= "in_process_chain_verify: ok(仅进程内完整性;持久化+锚点见 --audit-log)\n"@);
    assert(b + "BROKEN"@ + c =~= "in_process_chain_verify: BROKEN(仅进程内完整性;持久化+锚点见 --audit-log)\n"@);
    assert(a + b + "ok"@ + c =~= a + (b + "ok"@ + c));
    assert(a + b + "BROKEN"@ + c =~= a + (b + "BROKEN"@ + c));
}

/// To grant: each grant is made as it was asked, and a directory once the host has opened
/// it.
pub proof fn law_grant_flow(
    s: SessionV,
    l: LedgerV,
    x: Seq<u8>,
    y: Seq<u8>,
    root: Seq<char>,
    ops: Seq<Op>,
    taint: Taint,
    name: Seq<char>,
    h: HttpV,
    argv: Seq<Seq<char>>,
    fd: u64,
    e: String,
)
    ensures
        proto::begun(s, l, RequestV::GrantDir { root, ops, taint }, x, y) == (
            s,
            l,
            StepV::Wait(WaitingV::OpenDir { root, ops, taint }),
        ),
        proto::resumed(s, WaitingV::OpenDir { root, ops, taint }, Outcome::Opened(Ok(fd)), x) == (
            s.granted_dir(root, ops, taint, Ok(fd), x).0,
            StepV::Reply(proto::cap_result(s.granted_dir(root, ops, taint, Ok(fd), x).1)),
        ),
        proto::resumed(s, WaitingV::OpenDir { root, ops, taint }, Outcome::Opened(Err(e)), x) == (
            s.granted_dir(root, ops, taint, Err(e@), x).0,
            StepV::Reply(proto::cap_result(s.granted_dir(root, ops, taint, Err(e@), x).1)),
        ),
        proto::begun(s, l, RequestV::GrantSink { name }, x, y) == (
            s.granted_sink(name, x).0,
            l,
            StepV::Reply("CAP\t"@ + s.granted_sink(name, x).1),
        ),
        proto::begun(s, l, RequestV::GrantMsg { recipient: name }, x, y) == (
            s.granted_message(name, y, x).0,
            l,
            StepV::Reply("CAP\t"@ + s.granted_message(name, y, x).1),
        ),
        proto::begun(
            s,
            l,
            RequestV::GrantHttp {
                scheme: h.scheme,
                host: h.host,
                port: h.port,
                methods: h.methods,
                paths: h.paths,
                max_bytes: h.max_bytes,
            },
            x,
            y,
        ) == (s.granted_http(h, x).0, l, StepV::Reply(proto::cap_result(s.granted_http(h, x).1))),
        proto::begun(s, l, RequestV::GrantCmd { cwd: name, argv }, x, y) == (
            s.granted_command(name, argv, x).0,
            l,
            StepV::Reply(proto::cap_result(s.granted_command(name, argv, x).1)),
        ),
{
}

/// To derive: each derivation is made as it was asked; a prefix does not make a facet serve
/// once, and serving once adds no prefix.
pub proof fn law_derive_flow(
    s: SessionV,
    l: LedgerV,
    x: Seq<u8>,
    y: Seq<u8>,
    r: Seq<char>,
    what: Seq<char>,
    held: u64,
    fd: u64,
    e: String,
)
    ensures
        ({
            let (t, m, step) = proto::begun(s, l, RequestV::DeriveSub { r, seg: what }, x, y);
            let (u, res) = s.sub_begun(r, what);
            &&& t == u && m == l
            &&& res is Ok ==> step == StepV::Wait(WaitingV::OpenSub { r, seg: what, fd: res->Ok_0 })
            &&& res is Err ==> step == StepV::Reply(proto::error_reply(res->Err_0))
        }),
        proto::resumed(s, WaitingV::OpenSub { r, seg: what, fd: held }, Outcome::Opened(Ok(fd)), x) == (
            s.derived_sub(r, what, Ok(fd), x).0,
            StepV::Reply(proto::cap_result(s.derived_sub(r, what, Ok(fd), x).1)),
        ),
        proto::resumed(s, WaitingV::OpenSub { r, seg: what, fd: held }, Outcome::Opened(Err(e)), x) == (
            s.derived_sub(r, what, Err(e@), x).0,
            StepV::Reply(proto::cap_result(s.derived_sub(r, what, Err(e@), x).1)),
        ),
        proto::begun(s, l, RequestV::DeriveReadonly { r }, x, y) == (
            s.derived_readonly(r, x).0,
            l,
            StepV::Reply(proto::cap_result(s.derived_readonly(r, x).1)),
        ),
        proto::begun(s, l, RequestV::DeriveMsgPrefix { r, prefix: what }, x, y) == (
            s.derived_msg(r, what, false, x).0,
            l,
            StepV::Reply(proto::cap_result(s.derived_msg(r, what, false, x).1)),
        ),
        proto::begun(s, l, RequestV::DeriveMsgOneshot { r }, x, y) == (
            s.derived_msg(r, Seq::empty(), true, x).0,
            l,
            StepV::Reply(proto::cap_result(s.derived_msg(r, Seq::empty(), true, x).1)),
        ),
{
}

/// To be handed what the session begins with, and to revoke: both are answered at once.
pub proof fn law_plain_flow(s: SessionV, l: LedgerV, x: Seq<u8>, y: Seq<u8>, r: Seq<char>)
    ensures
        ({
            let (t, m, step) = proto::begun(s, l, RequestV::Revoke { r }, x, y);
            let (u, res) = s.revoked(r);
            t == u && m == l && step == StepV::Reply(proto::unit_result(res))
        }),
        ({
            let (t, m, step) = proto::begun(s, l, RequestV::Bootstrap, x, y);
            &&& m == l
            &&& t == (SessionV { bootstrap: None, ..s })
            &&& s.bootstrap is Some ==> step == StepV::Reply("CAP\t"@ + s.bootstrap->0)
        }),
{
}

/// To settle requests for consent, to describe one and to list those that wait: all are
/// answered at once, approving is not refusing, and only settling changes anything.
pub proof fn law_consent_flow(s: SessionV, l: LedgerV, x: Seq<u8>, y: Seq<u8>, id: Seq<char>)
    ensures
        ({
            let (t, m, step) = proto::begun(s, l, RequestV::ConsentApprove { id }, x, y);
            let (u, n, res) = s.consent_settled(l, id, true);
            t == u && m == n && step == StepV::Reply(proto::text_result(res))
        }),
        ({
            let (t, m, step) = proto::begun(s, l, RequestV::ConsentDeny { id }, x, y);
            let (u, n, res) = s.consent_settled(l, id, false);
            t == u && m == n && step == StepV::Reply(proto::text_result(res))
        }),
        ({
            let (t, m, step) = proto::begun(s, l, RequestV::ConsentDescribe { id }, x, y);
            t == s && m == l && step == StepV::Reply(proto::text_result(s.consent_detail(l, id)))
        }),
        ({
            let (t, m, step) = proto::begun(s, l, RequestV::ConsentList, x, y);
            t == s && m == l && step == StepV::Reply(
                proto::text_result(Ok(proto::waiting_dump(s.consent_waiting(l)))),
            )
        }),
{
}

/// To describe a capability and to read the trail: both are answered at once and change
/// nothing.
pub proof fn law_looking_flow(s: SessionV, l: LedgerV, x: Seq<u8>, y: Seq<u8>, r: Seq<char>)
    ensures
        ({
            let (t, m, step) = proto::begun(s, l, RequestV::Describe { r }, x, y);
            let res = s.described(r);
            &&& t == s && m == l
            &&& res is Ok ==> step == StepV::Reply("OK\t\t"@ + res->Ok_0)
            &&& res is Err ==> step == StepV::Reply(proto::error_reply(res->Err_0))
        }),
        ({
            let (t, m, step) = proto::begun(s, l, RequestV::Audit, x, y);
            t == s && m == l && step == StepV::Reply(proto::text_result(Ok(proto::trail_dump(s.audit))))
        }),
{
}

} // verus!
