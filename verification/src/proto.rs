//! The protocol on the wire: a request in, a reply out, and between them what
//! the host has to do.

use crate::actions;
use crate::actions::{
    ExecIntent, FetchPlan, ForwardIntent, ForwardPlan, ForwardV, HeldInbox, HeldRead, HttpIntent, LookupPlan,
    PostIntent, ReadPlan, RunPlan, SendIntent,
};
use crate::audit;
use crate::audit::{verify_chain, AuditEvent, EventV};
use crate::base64;
use crate::base64::b64_encode;
use crate::cap::HttpV;
use crate::label;
use crate::label::{Op, Taint};
use crate::net::HostAddr;
use crate::policy;
use crate::policy::{ConsentLedger, LedgerV, CONSENT_REQUIRED};
use crate::request;
use crate::request::{parse_request, Request, RequestV};
use crate::role::{Policy, Role};
use crate::session;
use crate::session::Session;
use crate::show;
use crate::show::is_showable;
use crate::state::{FetchError, FetchV, LookupV, ReadV, RunV, SessionV};
use crate::text;
use crate::text::{chars_of, dec_string, join, starts_with, string_of_range};
use vstd::prelude::*;
use vstd::utf8::*;

verus! {

/// The reply that hands out a capability.
pub open spec fn cap_reply(id: Seq<char>) -> Seq<char> {
    "CAP\t"@ + id
}

/// The reply that hands out data with its taint.
pub open spec fn data_reply(taint: Seq<char>, data: Seq<u8>) -> Seq<char> {
    "OK\t"@ + taint + "\t"@ + base64::encoded(data)
}

/// The reply to what was done.
pub open spec fn done_reply() -> Seq<char> {
    "OK\t\t"@
}

/// The reply to a refusal. Where an action waits for consent it says so, with
/// the id of the request and the hint.
pub open spec fn error_reply(e: Seq<char>) -> Seq<char> {
    if text::starts(e, CONSENT_REQUIRED@) {
        "CONSENT"@ + e.skip(CONSENT_REQUIRED@.len() as int)
    } else {
        "ERR\t"@ + e
    }
}

/// The reply to a request for a capability.
pub open spec fn cap_result(r: Result<Seq<char>, Seq<char>>) -> Seq<char> {
    match r {
        Ok(id) => cap_reply(id),
        Err(e) => error_reply(e),
    }
}

/// The reply to a request that gives nothing back.
pub open spec fn unit_result(r: Result<(), Seq<char>>) -> Seq<char> {
    match r {
        Ok(_) => done_reply(),
        Err(e) => error_reply(e),
    }
}

/// The reply to a request for a text that goes out encoded.
pub open spec fn text_result(r: Result<Seq<char>, Seq<char>>) -> Seq<char> {
    match r {
        Ok(s) => data_reply(Seq::empty(), encode_utf8(s)),
        Err(e) => error_reply(e),
    }
}

/// A line of the inbox as it goes out.
pub open spec fn inbox_line(m: (Seq<char>, Taint, Seq<char>)) -> Seq<char> {
    label::taint_text(m.1) + "\t"@ + m.0 + "\t"@ + m.2
}

/// The inbox as it goes out.
pub open spec fn inbox_dump(msgs: Seq<(Seq<char>, Taint, Seq<char>)>) -> Seq<char> {
    text::join_with(msgs.map_values(|m: (Seq<char>, Taint, Seq<char>)| inbox_line(m)), "\n"@)
}

/// A line of the list of requests for consent as it goes out.
pub open spec fn waiting_line(q: (Seq<char>, Seq<char>, Seq<char>)) -> Seq<char> {
    q.0 + "\t"@ + q.1 + "\t"@ + q.2
}

/// The list of requests for consent as it goes out.
pub open spec fn waiting_dump(qs: Seq<(Seq<char>, Seq<char>, Seq<char>)>) -> Seq<char> {
    text::join_with(qs.map_values(|q: (Seq<char>, Seq<char>, Seq<char>)| waiting_line(q)), "\n"@)
}

/// A text with spaces after it up to a width.
pub open spec fn padded(s: Seq<char>, width: nat) -> Seq<char>
    decreases width - s.len(),
{
    if s.len() >= width {
        s
    } else {
        padded(s.push(' '), width)
    }
}

/// A line of the trail as it goes out.
pub open spec fn event_line(e: EventV) -> Seq<char> {
    "#"@ + padded(text::dec(e.seq), 3) + " "@ + padded(e.op, 14) + " ["@ + e.decision + "] "@ + e.detail
        + "  "@ + e.hash.take(12) + "\n"@
}

/// The lines of a trail.
pub open spec fn event_lines(events: Seq<EventV>) -> Seq<char>
    decreases events.len(),
{
    if events.len() == 0 {
        Seq::empty()
    } else {
        event_lines(events.drop_last()) + event_line(events.last())
    }
}

/// The trail as it goes out: its lines, and whether it is whole.
pub open spec fn trail_dump(events: Seq<EventV>) -> Seq<char> {
    event_lines(events) + "in_process_chain_verify: "@ + (if audit::chain_ok(events) {
        "ok"@
    } else {
        "BROKEN"@
    }) + "(仅进程内完整性;持久化+锚点见 --audit-log)\n"@
}

/// What a request waits for the host to do.
pub enum Waiting {
    /// Open a directory to be granted.
    OpenDir { root: String, ops: Vec<Op>, taint: Taint },
    /// Open a subdirectory below a held one.
    OpenSub { r: String, seg: String, fd: u64 },
    /// Read a file below a held directory.
    Reading(ReadPlan),
    /// Make the trail durable before data is handed out.
    ReadHeld(HeldRead),
    /// List a directory below a held one.
    Listing(ReadPlan),
    /// Make the trail durable before a listing is handed out.
    ListHeld(HeldRead),
    /// Make the intent to run a command durable.
    Exec(ExecIntent),
    /// Run a command.
    Running(RunPlan),
    /// Make the intent to make a request durable.
    Http(HttpIntent),
    /// Resolve a host name.
    Looking(LookupPlan),
    /// Send a request.
    Fetching(FetchPlan),
    /// Make the intent to send durable.
    Send(SendIntent),
    /// Make the intent to post durable.
    Post(PostIntent),
    /// Make the intent to forward durable.
    Forward(ForwardIntent),
    /// Read the file that is forwarded.
    Forwarding(ForwardPlan),
    /// Make the trail durable before messages are handed out.
    InboxHeld(HeldInbox),
}

/// What a request waits for, as contracts speak of it.
#[verifier::ext_equal]
pub enum WaitingV {
    OpenDir { root: Seq<char>, ops: Seq<Op>, taint: Taint },
    OpenSub { r: Seq<char>, seg: Seq<char>, fd: u64 },
    Reading(ReadV),
    ReadHeld((Taint, Seq<u8>)),
    Listing(ReadV),
    ListHeld((Taint, Seq<u8>)),
    Exec(Seq<char>),
    Running(RunV),
    Http((Seq<char>, Seq<char>)),
    Looking(LookupV),
    Fetching(FetchV),
    Send((Seq<char>, Taint)),
    Post((Seq<char>, Seq<char>, Seq<char>)),
    Forward(ForwardV),
    Forwarding((Seq<char>, Seq<char>, ReadV)),
    InboxHeld(Seq<(Seq<char>, Taint, Seq<char>)>),
}

impl View for Waiting {
    type V = WaitingV;

    open spec fn view(&self) -> WaitingV {
        match *self {
            Waiting::OpenDir { root, ops, taint } => WaitingV::OpenDir { root: root@, ops: ops@, taint },
            Waiting::OpenSub { r, seg, fd } => WaitingV::OpenSub { r: r@, seg: seg@, fd },
            Waiting::Reading(p) => WaitingV::Reading(p@),
            Waiting::ReadHeld(h) => WaitingV::ReadHeld(h@),
            Waiting::Listing(p) => WaitingV::Listing(p@),
            Waiting::ListHeld(h) => WaitingV::ListHeld(h@),
            Waiting::Exec(i) => WaitingV::Exec(i@),
            Waiting::Running(p) => WaitingV::Running(p@),
            Waiting::Http(i) => WaitingV::Http(i@),
            Waiting::Looking(p) => WaitingV::Looking(p@),
            Waiting::Fetching(p) => WaitingV::Fetching(p@),
            Waiting::Send(i) => WaitingV::Send(i@),
            Waiting::Post(i) => WaitingV::Post(i@),
            Waiting::Forward(i) => WaitingV::Forward(i@),
            Waiting::Forwarding(p) => WaitingV::Forwarding(p@),
            Waiting::InboxHeld(h) => WaitingV::InboxHeld(h@),
        }
    }
}

impl WaitingV {
    /// Whether the references in it can be shown.
    pub open spec fn showable(self) -> bool {
        match self {
            WaitingV::Reading(p) => show::showable(p.r),
            WaitingV::Listing(p) => show::showable(p.r),
            WaitingV::Exec(r) => show::showable(r),
            WaitingV::Running(p) => show::showable(p.r),
            WaitingV::Http(i) => show::showable(i.0),
            WaitingV::Looking(p) => show::showable(p.r),
            WaitingV::Fetching(p) => show::showable(p.r),
            WaitingV::Send(i) => show::showable(i.0),
            WaitingV::Post(i) => show::showable(i.0),
            WaitingV::Forward(i) => show::showable(i.r) && show::showable(i.src),
            WaitingV::Forwarding(p) => show::showable(p.0) && show::showable(p.2.r),
            WaitingV::OpenSub { r, .. } => show::showable(r),
            _ => true,
        }
    }
}

/// What came of what the host was asked to do.
pub enum Outcome {
    /// The host has reported on every event.
    Settled,
    /// A directory was opened, or not.
    Opened(Result<u64, String>),
    /// A file was read or a command run, or not.
    Bytes(Result<Vec<u8>, String>),
    /// A directory was listed, or not.
    Names(Result<Vec<String>, String>),
    /// A host name was resolved, or not.
    Found(Result<Vec<HostAddr>, String>),
    /// A request was answered, or not.
    Answered(Result<Vec<u8>, FetchError>),
}

/// Whether an outcome is one of what was waited for.
pub open spec fn fits(w: WaitingV, o: Outcome) -> bool {
    match w {
        WaitingV::OpenDir { .. } => o is Opened,
        WaitingV::OpenSub { .. } => o is Opened,
        WaitingV::Reading(_) => o is Bytes,
        WaitingV::Running(_) => o is Bytes,
        WaitingV::Forwarding(_) => o is Bytes,
        WaitingV::Listing(_) => o is Names,
        WaitingV::Looking(_) => o is Found,
        WaitingV::Fetching(_) => o is Answered,
        _ => o is Settled,
    }
}

/// Where the handling of a request stands: it is answered, or waits.
pub enum Step {
    Reply(String),
    Wait(Waiting),
}

/// Where the handling of a request stands, as contracts speak of it.
#[verifier::ext_equal]
pub enum StepV {
    Reply(Seq<char>),
    Wait(WaitingV),
}

impl View for Step {
    type V = StepV;

    open spec fn view(&self) -> StepV {
        match *self {
            Step::Reply(s) => StepV::Reply(s@),
            Step::Wait(w) => StepV::Wait(w@),
        }
    }
}

/// Whether the references that a request uses can be shown. Once the trail is
/// broken, what would only be looked up is not shown.
pub open spec fn refs_showable(s: SessionV, q: RequestV) -> bool {
    match q {
        RequestV::GrantCmd { cwd, .. } => s.broken || show::showable(cwd),
        RequestV::DeriveSub { r, .. } => s.broken || show::showable(r),
        RequestV::DeriveReadonly { r } => s.broken || show::showable(r),
        RequestV::DeriveMsgPrefix { r, .. } => s.broken || show::showable(r),
        RequestV::DeriveMsgOneshot { r } => s.broken || show::showable(r),
        RequestV::MailboxRead { r } => s.broken || show::showable(r),
        RequestV::Read { r, .. } => show::showable(r),
        RequestV::List { r, .. } => show::showable(r),
        RequestV::Exec { r } => show::showable(r),
        RequestV::HttpGet { r, .. } => show::showable(r),
        RequestV::Send { r, .. } => show::showable(r),
        RequestV::Post { r, .. } => show::showable(r),
        RequestV::PostFrom { r, src, .. } => show::showable(r) && show::showable(src),
        RequestV::Revoke { r } => show::showable(r),
        RequestV::Describe { r } => show::showable(r),
        _ => true,
    }
}

/// Where an action that was put to the policy stands: it was refused, or waits.
pub open spec fn gated(t: (SessionV, LedgerV, Result<(), Seq<char>>), w: WaitingV) -> (
    SessionV,
    LedgerV,
    StepV,
) {
    (
        t.0,
        t.1,
        match t.2 {
            Err(e) => StepV::Reply(error_reply(e)),
            Ok(_) => StepV::Wait(w),
        },
    )
}

/// What a request to mint comes to at first.
pub open spec fn begun_mint(
    s: SessionV,
    q: RequestV,
    entropy: Seq<u8>,
    mailbox_entropy: Seq<u8>,
) -> (SessionV, StepV) {
    match q {
        RequestV::GrantDir { root, ops, taint } => (s, StepV::Wait(WaitingV::OpenDir { root, ops, taint })),
        RequestV::GrantSink { name } => {
            let (t, id) = s.granted_sink(name, entropy);
            (t, StepV::Reply(cap_reply(id)))
        },
        RequestV::GrantHttp { scheme, host, port, methods, paths, max_bytes } => {
            let h = HttpV { scheme, host, port, methods, paths, max_bytes };
            let (t, res) = s.granted_http(h, entropy);
            (t, StepV::Reply(cap_result(res)))
        },
        RequestV::GrantMsg { recipient } => {
            let (t, id) = s.granted_message(recipient, mailbox_entropy, entropy);
            (t, StepV::Reply(cap_reply(id)))
        },
        RequestV::GrantCmd { cwd, argv } => {
            let (t, res) = s.granted_command(cwd, argv, entropy);
            (t, StepV::Reply(cap_result(res)))
        },
        _ => (s, StepV::Reply(Seq::empty())),
    }
}

/// What a request to derive comes to at first.
pub open spec fn begun_derive(s: SessionV, q: RequestV, entropy: Seq<u8>) -> (SessionV, StepV) {
    match q {
        RequestV::DeriveSub { r, seg } => match s.sub_begun(r, seg) {
            (t, Err(e)) => (t, StepV::Reply(error_reply(e))),
            (t, Ok(fd)) => (t, StepV::Wait(WaitingV::OpenSub { r, seg, fd })),
        },
        RequestV::DeriveReadonly { r } => {
            let (t, res) = s.derived_readonly(r, entropy);
            (t, StepV::Reply(cap_result(res)))
        },
        RequestV::DeriveMsgPrefix { r, prefix } => {
            let (t, res) = s.derived_msg(r, prefix, false, entropy);
            (t, StepV::Reply(cap_result(res)))
        },
        RequestV::DeriveMsgOneshot { r } => {
            let (t, res) = s.derived_msg(r, Seq::empty(), true, entropy);
            (t, StepV::Reply(cap_result(res)))
        },
        _ => (s, StepV::Reply(Seq::empty())),
    }
}

/// What a request to use a capability comes to at first.
pub open spec fn begun_invoke(s: SessionV, l: LedgerV, q: RequestV) -> (SessionV, LedgerV, StepV) {
    match q {
        RequestV::Read { r, rel } => match s.read_begun(r, rel) {
            (t, Err(e)) => (t, l, StepV::Reply(error_reply(e))),
            (t, Ok(p)) => (t, l, StepV::Wait(WaitingV::Reading(p))),
        },
        RequestV::List { r, rel } => match s.list_begun(r, rel) {
            (t, Err(e)) => (t, l, StepV::Reply(error_reply(e))),
            (t, Ok(p)) => (t, l, StepV::Wait(WaitingV::Listing(p))),
        },
        RequestV::Exec { r } => gated(s.exec_begun(l, r), WaitingV::Exec(r)),
        RequestV::HttpGet { r, path } => gated(s.http_begun(l, r, path), WaitingV::Http((r, path))),
        RequestV::Send { r, taint, .. } => (
            s.send_begun(r, taint),
            l,
            StepV::Wait(WaitingV::Send((r, taint))),
        ),
        RequestV::Post { r, subject, body } => gated(
            s.post_begun(l, r, subject, body),
            WaitingV::Post((r, subject, body)),
        ),
        RequestV::PostFrom { r, subject, src, rel } => gated(
            s.forward_begun(l, r, subject, src, rel),
            WaitingV::Forward(ForwardV { r, subject, src, rel }),
        ),
        RequestV::MailboxRead { r } => match s.inbox_begun(r) {
            (t, Err(e)) => (t, l, StepV::Reply(error_reply(e))),
            (t, Ok(msgs)) => (
                t,
                l,
                StepV::Wait(WaitingV::InboxHeld(session::shown_messages(msgs))),
            ),
        },
        _ => (s, l, StepV::Reply(Seq::empty())),
    }
}

/// What any other request comes to.
pub open spec fn begun_other(s: SessionV, l: LedgerV, q: RequestV) -> (SessionV, LedgerV, StepV) {
    match q {
        RequestV::Bootstrap => (
            SessionV { bootstrap: None, ..s },
            l,
            StepV::Reply(
                cap_result(
                    match s.bootstrap {
                        Some(id) => Ok(id),
                        None => Err("BOOTSTRAP 已被消费或不可用(guest 无预注入根)"@),
                    },
                ),
            ),
        ),
        RequestV::Revoke { r } => {
            let (t, res) = s.revoked(r);
            (t, l, StepV::Reply(unit_result(res)))
        },
        RequestV::ConsentApprove { id } => {
            let (t, m, res) = s.consent_settled(l, id, true);
            (t, m, StepV::Reply(text_result(res)))
        },
        RequestV::ConsentDeny { id } => {
            let (t, m, res) = s.consent_settled(l, id, false);
            (t, m, StepV::Reply(text_result(res)))
        },
        RequestV::ConsentDescribe { id } => (
            s,
            l,
            StepV::Reply(text_result(s.consent_detail(l, id))),
        ),
        RequestV::ConsentList => (
            s,
            l,
            StepV::Reply(text_result(Ok(waiting_dump(s.consent_waiting(l))))),
        ),
        RequestV::Describe { r } => (
            s,
            l,
            StepV::Reply(
                match s.described(r) {
                    Ok(d) => "OK\t\t"@ + d,
                    Err(e) => error_reply(e),
                },
            ),
        ),
        RequestV::Audit => (s, l, StepV::Reply(text_result(Ok(trail_dump(s.audit))))),
        _ => (s, l, StepV::Reply(Seq::empty())),
    }
}

/// Whether a request mints a capability.
pub open spec fn mints(q: RequestV) -> bool {
    q is GrantDir || q is GrantSink || q is GrantHttp || q is GrantMsg || q is GrantCmd
}

/// Whether a request derives a capability from another.
pub open spec fn derives(q: RequestV) -> bool {
    q is DeriveSub || q is DeriveReadonly || q is DeriveMsgPrefix || q is DeriveMsgOneshot
}

/// Whether a request uses a capability.
pub open spec fn invokes(q: RequestV) -> bool {
    q is Read || q is List || q is Exec || q is HttpGet || q is Send || q is Post || q is PostFrom || q is MailboxRead
}

/// What a request comes to at first.
pub open spec fn begun(
    s: SessionV,
    l: LedgerV,
    q: RequestV,
    entropy: Seq<u8>,
    mailbox_entropy: Seq<u8>,
) -> (SessionV, LedgerV, StepV) {
    if mints(q) {
        let (t, step) = begun_mint(s, q, entropy, mailbox_entropy);
        (t, l, step)
    } else if derives(q) {
        let (t, step) = begun_derive(s, q, entropy);
        (t, l, step)
    } else if invokes(q) {
        begun_invoke(s, l, q)
    } else {
        begun_other(s, l, q)
    }
}

/// What a request comes to, given its fields and the role that it came in.
pub open spec fn handled(
    s: SessionV,
    l: LedgerV,
    role: Role,
    body: Seq<char>,
    entropy: Seq<u8>,
    mailbox_entropy: Seq<u8>,
) -> (SessionV, LedgerV, StepV) {
    match request::parsed(role, text::split_on(body, '\t')) {
        Err(e) => (s, l, StepV::Reply(error_reply(e))),
        Ok(q) => begun(s, l, q, entropy, mailbox_entropy),
    }
}


/// What a request that waited comes to once the host has done its part.
pub open spec fn resumed(s: SessionV, w: WaitingV, o: Outcome, entropy: Seq<u8>) -> (SessionV, StepV) {
    match (w, o) {
        (WaitingV::OpenDir { root, ops, taint }, Outcome::Opened(opened)) => {
            let (t, res) = s.granted_dir(root, ops, taint, session::number_view(opened), entropy);
            (t, StepV::Reply(cap_result(res)))
        },
        (WaitingV::OpenSub { r, seg, .. }, Outcome::Opened(opened)) => {
            let (t, res) = s.derived_sub(r, seg, session::number_view(opened), entropy);
            (t, StepV::Reply(cap_result(res)))
        },
        (WaitingV::Reading(p), Outcome::Bytes(data)) => (
            s.read_noted(p, actions::bytes_view(data)),
            match data {
                Ok(b) => StepV::Wait(WaitingV::ReadHeld((p.taint, b@))),
                Err(e) => StepV::Reply(error_reply(e@)),
            },
        ),
        (WaitingV::ReadHeld(h), _) => (
            s,
            StepV::Reply(
                if s.durable() {
                    data_reply(label::taint_text(h.0), h.1)
                } else {
                    error_reply("read 结果未能持久审计,fail-closed 拒绝返回"@)
                },
            ),
        ),
        (WaitingV::Listing(p), Outcome::Names(names)) => (
            s.list_noted(p, actions::names_view(names)),
            match names {
                Ok(v) => StepV::Wait(
                    WaitingV::ListHeld(
                        (p.taint, encode_utf8(text::join_with(text::views(v@), "\n"@))),
                    ),
                ),
                Err(e) => StepV::Reply(error_reply(e@)),
            },
        ),
        (WaitingV::ListHeld(h), _) => (
            s,
            StepV::Reply(
                if s.durable() {
                    data_reply("project"@, h.1)
                } else {
                    error_reply("list 结果未能持久审计,fail-closed 拒绝返回"@)
                },
            ),
        ),
        (WaitingV::Exec(r), _) => match s.exec_planned(r) {
            (t, Err(e)) => (t, StepV::Reply(error_reply(e))),
            (t, Ok(p)) => (t, StepV::Wait(WaitingV::Running(p))),
        },
        (WaitingV::Running(p), Outcome::Bytes(out)) => match s.exec_done(p.r, actions::bytes_view(out)) {
            (t, Err(e)) => (t, StepV::Reply(error_reply(e))),
            (t, Ok(b)) => (t, StepV::Reply(data_reply("yellow"@, b))),
        },
        (WaitingV::Http(i), _) => match s.http_planned(i.0, i.1) {
            (t, Err(e)) => (t, StepV::Reply(error_reply(e))),
            (t, Ok(p)) => (t, StepV::Wait(WaitingV::Looking(p))),
        },
        (WaitingV::Looking(p), Outcome::Found(found)) => match s.http_found(p, found) {
            (t, Err(e)) => (t, StepV::Reply(error_reply(e))),
            (t, Ok(f)) => (t, StepV::Wait(WaitingV::Fetching(f))),
        },
        (WaitingV::Fetching(f), Outcome::Answered(raw)) => match s.http_done(f, raw) {
            (t, Err(e)) => (t, StepV::Reply(error_reply(e))),
            (t, Ok((taint, b))) => (t, StepV::Reply(data_reply(label::taint_text(taint), b))),
        },
        (WaitingV::Send(i), _) => {
            let (t, res) = s.send_done(i.0, i.1);
            (t, StepV::Reply(unit_result(res)))
        },
        (WaitingV::Post(i), _) => {
            let (t, res) = s.post_done(i.0, i.1, i.2);
            (t, StepV::Reply(unit_result(res)))
        },
        (WaitingV::Forward(i), _) => match s.forward_planned(i.r, i.subject, i.src, i.rel) {
            (t, Err(e)) => (t, StepV::Reply(error_reply(e))),
            (t, Ok(p)) => (t, StepV::Wait(WaitingV::Forwarding((i.r, i.subject, p)))),
        },
        (WaitingV::Forwarding(p), Outcome::Bytes(data)) => {
            let (t, res) = s.forward_done(p.0, p.1, p.2, actions::bytes_view(data));
            (t, StepV::Reply(unit_result(res)))
        },
        (WaitingV::InboxHeld(msgs), _) => (
            s,
            StepV::Reply(
                if s.durable() {
                    data_reply(Seq::empty(), encode_utf8(inbox_dump(msgs)))
                } else {
                    error_reply("mailbox_read 未能持久审计,fail-closed 拒绝披露收件箱"@)
                },
            ),
        ),
        _ => (s, StepV::Reply(Seq::empty())),
    }
}

/// Writes the reply to a refusal.
fn error_text(e: &str) -> (r: String)
    ensures
        r@ == error_reply(e@),
{
    if starts_with(e, CONSENT_REQUIRED) {
        let v = chars_of(e);
        let n: usize = CONSENT_REQUIRED.unicode_len();
        let rest = string_of_range(v.as_slice(), n, v.len());
        assert(rest@ =~= e@.skip(n as int));
        "CONSENT".to_string().concat(rest.as_str())
    } else {
        "ERR\t".to_string().concat(e)
    }
}

/// Writes the reply that hands out data.
fn data_text(taint: &str, data: &[u8]) -> (r: String)
    ensures
        r@ == data_reply(taint@, data@),
{
    "OK\t".to_string().concat(taint).concat("\t").concat(b64_encode(data).as_str())
}

fn reply_error(e: &str) -> (r: Step)
    ensures
        r@ == StepV::Reply(error_reply(e@)),
{
    Step::Reply(error_text(e))
}

fn reply_cap(res: Result<String, String>) -> (r: Step)
    ensures
        r@ == StepV::Reply(cap_result(text::result_view(res))),
{
    match res {
        Ok(id) => Step::Reply("CAP\t".to_string().concat(id.as_str())),
        Err(e) => reply_error(e.as_str()),
    }
}

fn reply_unit(res: Result<(), String>) -> (r: Step)
    ensures
        r@ == StepV::Reply(unit_result(session::unit_view(res))),
{
    match res {
        Ok(_) => Step::Reply("OK\t\t".to_string()),
        Err(e) => reply_error(e.as_str()),
    }
}

fn reply_text(res: Result<String, String>) -> (r: Step)
    ensures
        r@ == StepV::Reply(text_result(text::result_view(res))),
{
    match res {
        Ok(s) => {
            proof {
                reveal_strlit("");
                assert(""@ =~= Seq::empty());
            }
            Step::Reply(data_text("", s.as_str().as_bytes()))
        },
        Err(e) => reply_error(e.as_str()),
    }
}

/// Writes the inbox as it goes out.
fn inbox_text(msgs: &[(String, Taint, String)]) -> (r: String)
    ensures
        r@ == inbox_dump(session::inbox_views(msgs@)),
{
    let ghost all = session::inbox_views(msgs@);
    let ghost lines = all.map_values(|m: (Seq<char>, Taint, Seq<char>)| inbox_line(m));
    let mut out: Vec<String> = Vec::new();
    let mut i: usize = 0;
    while i < msgs.len()
        invariant
            i <= msgs@.len(),
            all == session::inbox_views(msgs@),
            lines == all.map_values(|m: (Seq<char>, Taint, Seq<char>)| inbox_line(m)),
            text::views(out@) == lines.take(i as int),
        decreases msgs@.len() - i,
    {
        let ghost had = text::views(out@);
        let (subject, taint, body) = &msgs[i];
        assert(all[i as int] == (subject@, *taint, body@));
        out.push(
            taint.as_str().to_string().concat("\t").concat(subject.as_str()).concat("\t").concat(
                body.as_str(),
            ),
        );
        assert(text::views(out@) =~= had.push(lines[i as int]));
        assert(lines.take(i + 1) =~= lines.take(i as int).push(lines[i as int]));
        i += 1;
    }
    assert(lines.take(lines.len() as int) =~= lines);
    join(out.as_slice(), "\n")
}

/// Writes the list of requests for consent as it goes out.
fn waiting_text(reqs: &[(String, String, String)]) -> (r: String)
    ensures
        r@ == waiting_dump(policy::triple_views(reqs@)),
{
    let ghost all = policy::triple_views(reqs@);
    let ghost lines = all.map_values(|q: (Seq<char>, Seq<char>, Seq<char>)| waiting_line(q));
    let mut out: Vec<String> = Vec::new();
    let mut i: usize = 0;
    while i < reqs.len()
        invariant
            i <= reqs@.len(),
            all == policy::triple_views(reqs@),
            lines == all.map_values(|q: (Seq<char>, Seq<char>, Seq<char>)| waiting_line(q)),
            text::views(out@) == lines.take(i as int),
        decreases reqs@.len() - i,
    {
        let ghost had = text::views(out@);
        let (id, key, detail) = &reqs[i];
        assert(all[i as int] == (id@, key@, detail@));
        out.push(
            id.clone().concat("\t").concat(key.as_str()).concat("\t").concat(detail.as_str()),
        );
        assert(text::views(out@) =~= had.push(lines[i as int]));
        assert(lines.take(i + 1) =~= lines.take(i as int).push(lines[i as int]));
        i += 1;
    }
    assert(lines.take(lines.len() as int) =~= lines);
    join(out.as_slice(), "\n")
}

/// Puts spaces after a text up to a width.
fn pad(s: String, width: usize) -> (r: String)
    ensures
        r@ == padded(s@, width as nat),
{
    let ghost goal = padded(s@, width as nat);
    let mut out = s;
    let mut n: usize = out.as_str().unicode_len();
    while n < width
        invariant
            n == out@.len(),
            padded(out@, width as nat) == goal,
        decreases width - n,
    {
        out.push(' ');
        n += 1;
    }
    out
}

/// Writes the trail as it goes out.
fn trail_text(events: &[AuditEvent]) -> (r: String)
    requires
        audit::chain_ok(audit::event_views(events@)),
    ensures
        r@ == trail_dump(audit::event_views(events@)),
{
    let ghost all = audit::event_views(events@);
    let mut out = String::new();
    let mut i: usize = 0;
    assert(all.take(0) =~= Seq::empty());
    while i < events.len()
        invariant
            i <= events@.len(),
            all == audit::event_views(events@),
            audit::chain_ok(all),
            out@ == event_lines(all.take(i as int)),
        decreases events@.len() - i,
    {
        assert(all.take(i + 1).drop_last() =~= all.take(i as int));
        assert(all.take(i + 1).last() == events@[i as int]@);
        let e = &events[i];
        assert(all[i as int] == e@);
        assert(audit::link_ok(all, i as int));
        proof {
            crate::sha256::lemma_digest_shape(encode_utf8(audit::content(e@)));
        }
        let h = chars_of(e.hash.as_str());
        let start = string_of_range(h.as_slice(), 0, 12);
        assert(start@ =~= e@.hash.take(12));
        let line = "#".to_string().concat(pad(dec_string(e.seq), 3).as_str()).concat(" ").concat(
            pad(e.op.clone(), 14).as_str(),
        ).concat(" [").concat(e.decision.as_str()).concat("] ").concat(e.detail.as_str()).concat("  ").concat(
            start.as_str(),
        ).concat("\n");
        out.append(line.as_str());
        i += 1;
    }
    assert(all.take(all.len() as int) =~= all);
    let word = if verify_chain(events) {
        "ok"
    } else {
        "BROKEN"
    };
    out.concat("in_process_chain_verify: ").concat(word).concat(
        "(仅进程内完整性;持久化+锚点见 --audit-log)\n",
    )
}


/// Tells whether the references that a request uses can be shown. A request for
/// which this fails is not to be begun.
pub fn refs_shown(sess: &Session, q: &Request) -> (b: bool)
    ensures
        b == refs_showable(sess@, q@),
{
    match q {
        Request::GrantCmd { cwd, .. } => sess.is_broken() || is_showable(cwd.as_str()),
        Request::DeriveSub { r, .. } => sess.is_broken() || is_showable(r.as_str()),
        Request::DeriveReadonly { r } => sess.is_broken() || is_showable(r.as_str()),
        Request::DeriveMsgPrefix { r, .. } => sess.is_broken() || is_showable(r.as_str()),
        Request::DeriveMsgOneshot { r } => sess.is_broken() || is_showable(r.as_str()),
        Request::MailboxRead { r } => sess.is_broken() || is_showable(r.as_str()),
        Request::Read { r, .. } => is_showable(r.as_str()),
        Request::List { r, .. } => is_showable(r.as_str()),
        Request::Exec { r } => is_showable(r.as_str()),
        Request::HttpGet { r, .. } => is_showable(r.as_str()),
        Request::Send { r, .. } => is_showable(r.as_str()),
        Request::Post { r, .. } => is_showable(r.as_str()),
        Request::PostFrom { r, src, .. } => is_showable(r.as_str()) && is_showable(src.as_str()),
        Request::Revoke { r } => is_showable(r.as_str()),
        Request::Describe { r } => is_showable(r.as_str()),
        _ => true,
    }
}

/// Begins to handle a request to mint.
fn begin_mint(sess: &mut Session, q: Request, entropy: &[u8], mailbox_entropy: &[u8]) -> (step: Step)
    requires
        old(sess).wf(),
        mints(q@),
        refs_showable(old(sess)@, q@),
    ensures
        final(sess).wf(),
        (final(sess)@, step@) == begun_mint(old(sess)@, q@, entropy@, mailbox_entropy@),
        step matches Step::Wait(w) ==> w@.showable(),
{
    match q {
        Request::GrantDir { root, ops, taint } => Step::Wait(Waiting::OpenDir { root, ops, taint }),
        Request::GrantSink { name } => reply_cap(Ok(sess.grant_sink(name.as_str(), entropy))),
        Request::GrantHttp { scheme, host, port, methods, paths, max_bytes } => reply_cap(
            sess.grant_http(scheme.as_str(), host.as_str(), port, methods, paths, max_bytes, entropy),
        ),
        Request::GrantMsg { recipient } => reply_cap(
            Ok(sess.grant_message(recipient.as_str(), mailbox_entropy, entropy)),
        ),
        Request::GrantCmd { cwd, argv } => reply_cap(sess.grant_command(cwd.as_str(), argv, entropy)),
        _ => Step::Reply(String::new()),
    }
}

/// Begins to handle a request to derive.
fn begin_derive(sess: &mut Session, q: Request, entropy: &[u8]) -> (step: Step)
    requires
        old(sess).wf(),
        derives(q@),
        refs_showable(old(sess)@, q@),
    ensures
        final(sess).wf(),
        (final(sess)@, step@) == begun_derive(old(sess)@, q@, entropy@),
        step matches Step::Wait(w) ==> w@.showable(),
{
    match q {
        Request::DeriveSub { r, seg } => match sess.sub_plan(r.as_str(), seg.as_str()) {
            Err(e) => reply_error(e.as_str()),
            Ok(fd) => Step::Wait(Waiting::OpenSub { r, seg, fd }),
        },
        Request::DeriveReadonly { r } => reply_cap(sess.derive_readonly(r.as_str(), entropy)),
        Request::DeriveMsgPrefix { r, prefix } => reply_cap(
            sess.derive_msg_prefix(r.as_str(), prefix.as_str(), entropy),
        ),
        Request::DeriveMsgOneshot { r } => reply_cap(sess.derive_msg_oneshot(r.as_str(), entropy)),
        _ => Step::Reply(String::new()),
    }
}

/// Begins to handle a request to use a capability.
fn begin_invoke(sess: &mut Session, ledger: &mut ConsentLedger, q: Request) -> (step: Step)
    requires
        old(sess).wf(),
        old(ledger).wf(),
        old(ledger)@.issued < u64::MAX,
        invokes(q@),
        refs_showable(old(sess)@, q@),
    ensures
        final(sess).wf(),
        final(ledger).wf(),
        (final(sess)@, final(ledger)@, step@) == begun_invoke(old(sess)@, old(ledger)@, q@),
        step matches Step::Wait(w) ==> w@.showable(),
{
    match q {
        Request::Read { r, rel } => match sess.read(r.as_str(), rel.as_str()) {
            Err(e) => reply_error(e.as_str()),
            Ok(p) => Step::Wait(Waiting::Reading(p)),
        },
        Request::List { r, rel } => match sess.list(r.as_str(), rel.as_str()) {
            Err(e) => reply_error(e.as_str()),
            Ok(p) => Step::Wait(Waiting::Listing(p)),
        },
        Request::Exec { r } => match sess.exec(ledger, r.as_str()) {
            Err(e) => reply_error(e.as_str()),
            Ok(i) => Step::Wait(Waiting::Exec(i)),
        },
        Request::HttpGet { r, path } => match sess.http_get(ledger, r.as_str(), path.as_str()) {
            Err(e) => reply_error(e.as_str()),
            Ok(i) => Step::Wait(Waiting::Http(i)),
        },
        Request::Send { r, taint, data } => Step::Wait(
            Waiting::Send(sess.send(r.as_str(), taint, data.as_slice())),
        ),
        Request::Post { r, subject, body } => match sess.post(
            ledger,
            r.as_str(),
            subject.as_str(),
            body.as_str(),
        ) {
            Err(e) => reply_error(e.as_str()),
            Ok(i) => Step::Wait(Waiting::Post(i)),
        },
        Request::PostFrom { r, subject, src, rel } => match sess.post_from(
            ledger,
            r.as_str(),
            subject.as_str(),
            src.as_str(),
            rel.as_str(),
        ) {
            Err(e) => reply_error(e.as_str()),
            Ok(i) => Step::Wait(Waiting::Forward(i)),
        },
        Request::MailboxRead { r } => match sess.mailbox_read(r.as_str()) {
            Err(e) => reply_error(e.as_str()),
            Ok(h) => Step::Wait(Waiting::InboxHeld(h)),
        },
        _ => Step::Reply(String::new()),
    }
}

/// Begins to handle any other request.
fn begin_other(sess: &mut Session, ledger: &mut ConsentLedger, q: Request) -> (step: Step)
    requires
        old(sess).wf(),
        old(ledger).wf(),
        old(ledger)@.issued < u64::MAX,
        !mints(q@) && !derives(q@) && !invokes(q@),
        refs_showable(old(sess)@, q@),
    ensures
        final(sess).wf(),
        final(ledger).wf(),
        (final(sess)@, final(ledger)@, step@) == begun_other(old(sess)@, old(ledger)@, q@),
        step matches Step::Wait(w) ==> w@.showable(),
{
    match q {
        Request::Bootstrap => reply_cap(sess.take_bootstrap()),
        Request::Revoke { r } => reply_unit(sess.revoke(r.as_str())),
        Request::ConsentApprove { id } => reply_text(sess.consent_approve(ledger, id.as_str())),
        Request::ConsentDeny { id } => reply_text(sess.consent_deny(ledger, id.as_str())),
        Request::ConsentDescribe { id } => reply_text(sess.consent_describe(ledger, id.as_str())),
        Request::ConsentList => reply_text(Ok(waiting_text(sess.consent_list(ledger).as_slice()))),
        Request::Describe { r } => match sess.describe(r.as_str()) {
            Err(e) => reply_error(e.as_str()),
            Ok(d) => Step::Reply("OK\t\t".to_string().concat(d.as_str())),
        },
        Request::Audit => {
            proof {
                sess.lemma_wf();
            }
            reply_text(Ok(trail_text(sess.audit_log())))
        },
        _ => Step::Reply(String::new()),
    }
}

/// Begins to handle a request: it is answered, or waits for the host. After
/// each step the host is to make the session's events durable, in order, and to
/// report on each.
pub fn begin(
    sess: &mut Session,
    ledger: &mut ConsentLedger,
    q: Request,
    entropy: &[u8],
    mailbox_entropy: &[u8],
) -> (step: Step)
    requires
        old(sess).wf(),
        old(ledger).wf(),
        old(ledger)@.issued < u64::MAX,
        refs_showable(old(sess)@, q@),
    ensures
        final(sess).wf(),
        final(ledger).wf(),
        (final(sess)@, final(ledger)@, step@) == begun(
            old(sess)@,
            old(ledger)@,
            q@,
            entropy@,
            mailbox_entropy@,
        ),
        step matches Step::Wait(w) ==> w@.showable(),
{
    match q {
        Request::GrantDir { .. }
        | Request::GrantSink { .. }
        | Request::GrantHttp { .. }
        | Request::GrantMsg { .. }
        | Request::GrantCmd { .. } => begin_mint(sess, q, entropy, mailbox_entropy),
        Request::DeriveSub { .. }
        | Request::DeriveReadonly { .. }
        | Request::DeriveMsgPrefix { .. }
        | Request::DeriveMsgOneshot { .. } => begin_derive(sess, q, entropy),
        Request::Read { .. }
        | Request::List { .. }
        | Request::Exec { .. }
        | Request::HttpGet { .. }
        | Request::Send { .. }
        | Request::Post { .. }
        | Request::PostFrom { .. }
        | Request::MailboxRead { .. } => begin_invoke(sess, ledger, q),
        _ => begin_other(sess, ledger, q),
    }
}

/// Handles a request in the role of the connection that it came over.
pub fn handle(
    sess: &mut Session,
    ledger: &mut ConsentLedger,
    policy: &Policy,
    body: &str,
    entropy: &[u8],
    mailbox_entropy: &[u8],
) -> (step: Step)
    requires
        old(sess).wf(),
        old(ledger).wf(),
        old(ledger)@.issued < u64::MAX,
        request::parsed(policy.role, text::split_on(body@, '\t')) matches Ok(q) ==> refs_showable(
            old(sess)@,
            q,
        ),
    ensures
        final(sess).wf(),
        final(ledger).wf(),
        (final(sess)@, final(ledger)@, step@) == handled(
            old(sess)@,
            old(ledger)@,
            policy.role,
            body@,
            entropy@,
            mailbox_entropy@,
        ),
        step matches Step::Wait(w) ==> w@.showable(),
{
    match parse_request(policy.role, body) {
        Err(e) => reply_error(e.as_str()),
        Ok(q) => begin(sess, ledger, q, entropy, mailbox_entropy),
    }
}

/// Handles a request if it can be: its references can be shown, and a further
/// request for consent can be numbered. Where it cannot, nothing is done.
pub fn try_handle(
    sess: &mut Session,
    ledger: &mut ConsentLedger,
    policy: &Policy,
    body: &str,
    entropy: &[u8],
    mailbox_entropy: &[u8],
) -> (r: Option<Step>)
    requires
        old(sess).wf(),
        old(ledger).wf(),
    ensures
        final(sess).wf(),
        final(ledger).wf(),
        r is Some <==> old(ledger)@.issued < u64::MAX && (request::parsed(
            policy.role,
            text::split_on(body@, '\t'),
        ) matches Ok(q) ==> refs_showable(old(sess)@, q)),
        r matches Some(step) ==> (final(sess)@, final(ledger)@, step@) == handled(
            old(sess)@,
            old(ledger)@,
            policy.role,
            body@,
            entropy@,
            mailbox_entropy@,
        ),
        r matches Some(Step::Wait(w)) ==> w@.showable(),
        r is None ==> final(sess)@ == old(sess)@ && final(ledger)@ == old(ledger)@,
{
    if !ledger.has_room() {
        return None;
    }
    match parse_request(policy.role, body) {
        Err(e) => Some(reply_error(e.as_str())),
        Ok(q) => {
            if !refs_shown(sess, &q) {
                return None;
            }
            Some(begin(sess, ledger, q, entropy, mailbox_entropy))
        },
    }
}

/// Goes on with a request once the host has done its part.
#[verifier::rlimit(30)]
pub fn resume(sess: &mut Session, w: Waiting, o: Outcome, entropy: &[u8]) -> (step: Step)
    requires
        old(sess).wf(),
        fits(w@, o),
        w@.showable(),
    ensures
        final(sess).wf(),
        (final(sess)@, step@) == resumed(old(sess)@, w@, o, entropy@),
        step matches Step::Wait(next) ==> next@.showable(),
{
    match (w, o) {
        (Waiting::OpenDir { root, ops, taint }, Outcome::Opened(opened)) => reply_cap(
            sess.grant_dir(root.as_str(), ops, taint, opened, entropy),
        ),
        (Waiting::OpenSub { r, seg, .. }, Outcome::Opened(opened)) => reply_cap(
            sess.derive_sub(r.as_str(), seg.as_str(), opened, entropy),
        ),
        (Waiting::Reading(p), Outcome::Bytes(data)) => match sess.read_done(p, data) {
            Err(e) => reply_error(e.as_str()),
            Ok(h) => Step::Wait(Waiting::ReadHeld(h)),
        },
        (Waiting::ReadHeld(h), _) => match sess.read_release(h) {
            Err(e) => reply_error(e.as_str()),
            Ok((t, data)) => Step::Reply(data_text(t.as_str(), data.as_slice())),
        },
        (Waiting::Listing(p), Outcome::Names(names)) => match sess.list_done(p, names) {
            Err(e) => reply_error(e.as_str()),
            Ok(h) => Step::Wait(Waiting::ListHeld(h)),
        },
        (Waiting::ListHeld(h), _) => match sess.list_release(h) {
            Err(e) => reply_error(e.as_str()),
            Ok(data) => Step::Reply(data_text("project", data.as_slice())),
        },
        (Waiting::Exec(i), _) => match sess.exec_plan(i) {
            Err(e) => reply_error(e.as_str()),
            Ok(p) => Step::Wait(Waiting::Running(p)),
        },
        (Waiting::Running(p), Outcome::Bytes(out)) => match sess.exec_done(p, out) {
            Err(e) => reply_error(e.as_str()),
            Ok(b) => Step::Reply(data_text("yellow", b.as_slice())),
        },
        (Waiting::Http(i), _) => match sess.http_plan(i) {
            Err(e) => reply_error(e.as_str()),
            Ok(p) => Step::Wait(Waiting::Looking(p)),
        },
        (Waiting::Looking(p), Outcome::Found(found)) => match sess.http_lookup(p, found) {
            Err(e) => reply_error(e.as_str()),
            Ok(f) => Step::Wait(Waiting::Fetching(f)),
        },
        (Waiting::Fetching(f), Outcome::Answered(raw)) => match sess.http_done(f, raw) {
            Err(e) => reply_error(e.as_str()),
            Ok((t, data)) => Step::Reply(data_text(t.as_str(), data.as_slice())),
        },
        (Waiting::Send(i), _) => reply_unit(sess.send_done(i)),
        (Waiting::Post(i), _) => reply_unit(sess.post_done(i)),
        (Waiting::Forward(i), _) => match sess.post_from_plan(i) {
            Err(e) => reply_error(e.as_str()),
            Ok(p) => Step::Wait(Waiting::Forwarding(p)),
        },
        (Waiting::Forwarding(p), Outcome::Bytes(data)) => reply_unit(sess.post_from_done(p, data)),
        (Waiting::InboxHeld(h), _) => match sess.mailbox_release(h) {
            Err(e) => reply_error(e.as_str()),
            Ok(msgs) => reply_text(Ok(inbox_text(msgs.as_slice()))),
        },
        _ => Step::Reply(String::new()),
    }
}

} // verus!
