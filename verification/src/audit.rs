//! The audit trail: a chain of events, each holding the digest of the one
//! before, kept in memory for a session and as lines of a log for a service.

use crate::sha256;
use crate::sha256::sha256_hex;
use crate::text;
use crate::text::{dec_string, parse_number, split, str_eq, trim};
use vstd::prelude::*;
use vstd::utf8::*;

verus! {

/// One event of a session's trail.
pub struct AuditEvent {
    pub seq: u64,
    pub op: String,
    pub detail: String,
    pub decision: String,
    pub prev: String,
    pub hash: String,
}

/// An event, as contracts speak of it.
#[verifier::ext_equal]
pub struct EventV {
    pub seq: nat,
    pub op: Seq<char>,
    pub detail: Seq<char>,
    pub decision: Seq<char>,
    pub prev: Seq<char>,
    pub hash: Seq<char>,
}

impl View for AuditEvent {
    type V = EventV;

    open spec fn view(&self) -> EventV {
        EventV {
            seq: self.seq as nat,
            op: self.op@,
            detail: self.detail@,
            decision: self.decision@,
            prev: self.prev@,
            hash: self.hash@,
        }
    }
}

impl Clone for AuditEvent {
    fn clone(&self) -> (r: AuditEvent)
        ensures
            r@ == self@,
    {
        AuditEvent {
            seq: self.seq,
            op: self.op.clone(),
            detail: self.detail.clone(),
            decision: self.decision.clone(),
            prev: self.prev.clone(),
            hash: self.hash.clone(),
        }
    }
}

/// The events that a list holds.
pub open spec fn event_views(v: Seq<AuditEvent>) -> Seq<EventV> {
    v.map_values(|e: AuditEvent| e@)
}

/// What stands for the digest before the first event.
pub open spec fn genesis() -> Seq<char> {
    "GENESIS"@
}

/// The digest of a text.
pub open spec fn text_digest(s: Seq<char>) -> Seq<char> {
    sha256::digest_hex(encode_utf8(s))
}

/// The text whose digest an event holds.
#[verifier::opaque]
pub open spec fn content(e: EventV) -> Seq<char> {
    text::dec(e.seq) + "|"@ + e.op + "|"@ + e.detail + "|"@ + e.decision + "|"@ + e.prev
}

/// The digest that the event at `i` must name as the one before it.
pub open spec fn prev_at(events: Seq<EventV>, i: int) -> Seq<char> {
    if i <= 0 {
        genesis()
    } else {
        events[i - 1].hash
    }
}

/// Whether the event at `i` is linked to the one before it and holds its own
/// digest.
pub open spec fn link_ok(events: Seq<EventV>, i: int) -> bool {
    &&& events[i].seq == i
    &&& events[i].prev == prev_at(events, i)
    &&& events[i].hash == text_digest(content(events[i]))
}

/// Whether a trail is whole: every event is linked.
pub open spec fn chain_ok(events: Seq<EventV>) -> bool {
    forall|i: int| 0 <= i < events.len() ==> #[trigger] link_ok(events, i)
}

/// The event that follows a trail. A tab or a line feed in what it records
/// becomes a space.
pub open spec fn next_event(
    events: Seq<EventV>,
    op: Seq<char>,
    detail: Seq<char>,
    decision: Seq<char>,
) -> EventV {
    let e = EventV {
        seq: events.len(),
        op: text::one_line(op),
        detail: text::one_line(detail),
        decision: text::one_line(decision),
        prev: prev_at(events, events.len() as int),
        hash: Seq::empty(),
    };
    EventV { hash: text_digest(content(e)), ..e }
}

/// A whole trail stays whole with the event that follows it.
pub proof fn lemma_chain_grows(
    events: Seq<EventV>,
    op: Seq<char>,
    detail: Seq<char>,
    decision: Seq<char>,
)
    requires
        chain_ok(events),
    ensures
        chain_ok(events.push(next_event(events, op, detail, decision))),
{
    let e = next_event(events, op, detail, decision);
    let after = events.push(e);
    assert forall|i: int| 0 <= i < after.len() implies #[trigger] link_ok(after, i) by {
        if i < events.len() {
            assert(link_ok(events, i));
            assert(after[i] == events[i]);
            if i > 0 {
                assert(after[i - 1] == events[i - 1]);
            }
        } else {
            reveal(content);
            assert(content(e) == content(EventV { hash: Seq::empty(), ..e }));
        }
    }
}

/// The text whose digest an event holds, written.
fn event_content(seq: u64, op: &str, detail: &str, decision: &str, prev: &str) -> (r: String)
    ensures
        r@ == text::dec(seq as nat) + "|"@ + op@ + "|"@ + detail@ + "|"@ + decision@ + "|"@ + prev@,
{
    dec_string(seq).concat("|").concat(op).concat("|").concat(detail).concat("|").concat(decision).concat(
        "|",
    ).concat(prev)
}

/// The digest of a text.
pub fn digest_text(s: &str) -> (r: String)
    ensures
        r@ == text_digest(s@),
{
    sha256_hex(s.as_bytes())
}

/// Makes the event that follows a trail.
pub fn make_event(events: &[AuditEvent], op: &str, detail: &str, decision: &str) -> (r: AuditEvent)
    ensures
        r@ == next_event(event_views(events@), op@, detail@, decision@),
{
    let n: usize = events.len();
    let ghost views = event_views(events@);
    let seq: u64 = n as u64;
    let prev = if n == 0 {
        "GENESIS".to_string()
    } else {
        events[n - 1].hash.clone()
    };
    assert(n > 0 ==> views[n - 1] == events@[n - 1]@);
    let op_c = text::flatten(op);
    let detail_c = text::flatten(detail);
    let dec_c = text::flatten(decision);
    let c = event_content(seq, op_c.as_str(), detail_c.as_str(), dec_c.as_str(), prev.as_str());
    let hash = digest_text(c.as_str());
    reveal(content);
    AuditEvent { seq, op: op_c, detail: detail_c, decision: dec_c, prev, hash }
}

/// Tells whether a trail is whole, computing every digest anew.
pub fn verify_chain(events: &[AuditEvent]) -> (r: bool)
    ensures
        r == chain_ok(event_views(events@)),
{
    let ghost views = event_views(events@);
    let mut prev = "GENESIS".to_string();
    let mut i: usize = 0;
    while i < events.len()
        invariant
            i <= events@.len(),
            views == event_views(events@),
            prev@ == prev_at(views, i as int),
            forall|j: int| 0 <= j < i ==> #[trigger] link_ok(views, j),
        decreases events@.len() - i,
    {
        let e = &events[i];
        assert(views[i as int] == e@);
        if e.seq != i as u64 || !str_eq(e.prev.as_str(), prev.as_str()) {
            assert(!link_ok(views, i as int));
            return false;
        }
        let c = event_content(
            e.seq,
            e.op.as_str(),
            e.detail.as_str(),
            e.decision.as_str(),
            e.prev.as_str(),
        );
        let h = digest_text(c.as_str());
        reveal(content);
        assert(c@ == content(e@));
        if !str_eq(h.as_str(), e.hash.as_str()) {
            assert(!link_ok(views, i as int));
            return false;
        }
        prev = e.hash.clone();
        assert(link_ok(views, i as int));
        i += 1;
    }
    true
}

/// An event that was changed in place, with another after it, goes unnoticed
/// only where the text it now records has the digest of what it recorded.
pub proof fn law_changed_event_shows(events: Seq<EventV>, i: int, e: EventV)
    requires
        chain_ok(events),
        0 <= i < events.len() - 1,
        chain_ok(events.update(i, e)),
    ensures
        text_digest(content(e)) == text_digest(content(events[i])),
{
    let after = events.update(i, e);
    assert(link_ok(events, i) && link_ok(events, i + 1));
    assert(link_ok(after, i) && link_ok(after, i + 1));
}

/// An event that was changed without its digest being computed anew, the last
/// one too, goes unnoticed only where the digest happens to be the same.
pub proof fn law_unsealed_change_shows(events: Seq<EventV>, i: int, e: EventV)
    requires
        chain_ok(events),
        0 <= i < events.len(),
        e.hash == events[i].hash,
        chain_ok(events.update(i, e)),
    ensures
        text_digest(content(e)) == text_digest(content(events[i])),
{
    let after = events.update(i, e);
    assert(link_ok(events, i));
    assert(link_ok(after, i));
}

proof fn lemma_content_prev(a: EventV, b: EventV)
    requires
        content(a) == content(b),
        a.prev.len() == b.prev.len(),
    ensures
        a.prev == b.prev,
{
    reveal(content);
    let c = content(a);
    let n = c.len() - a.prev.len();
    assert(c.skip(n) =~= a.prev);
    assert(content(b).skip(n) =~= b.prev);
}

/// The last digest stands for the whole history: two whole trails of one length
/// that end in the same digest record the same texts throughout, or hold at one
/// place two different texts with the same digest.
pub proof fn law_head_fixes_history(a: Seq<EventV>, b: Seq<EventV>)
    requires
        chain_ok(a),
        chain_ok(b),
        a.len() == b.len(),
        a.len() > 0 ==> a.last().hash == b.last().hash,
    ensures
        (forall|i: int| 0 <= i < a.len() ==> content(#[trigger] a[i]) == content(b[i])) || (exists|i: int|
            0 <= i < a.len() && content(#[trigger] a[i]) != content(b[i]) && text_digest(content(a[i]))
                == text_digest(content(b[i]))),
    decreases a.len(),
{
    if a.len() > 0 {
        let n = a.len() - 1;
        assert(link_ok(a, n) && link_ok(b, n));
        if content(a[n]) == content(b[n]) {
            let p = a.drop_last();
            let q = b.drop_last();
            assert forall|i: int| 0 <= i < p.len() implies #[trigger] link_ok(p, i) by {
                assert(link_ok(a, i));
            }
            assert forall|i: int| 0 <= i < q.len() implies #[trigger] link_ok(q, i) by {
                assert(link_ok(b, i));
            }
            if n > 0 {
                assert(link_ok(a, n - 1) && link_ok(b, n - 1));
                sha256::lemma_digest_shape(encode_utf8(content(a[n - 1])));
                sha256::lemma_digest_shape(encode_utf8(content(b[n - 1])));
                lemma_content_prev(a[n], b[n]);
            }
            law_head_fixes_history(p, q);
            if forall|i: int| 0 <= i < p.len() ==> content(#[trigger] p[i]) == content(q[i]) {
                assert forall|i: int| 0 <= i < a.len() implies content(#[trigger] a[i]) == content(b[i]) by {
                    if i < n {
                        assert(content(p[i]) == content(q[i]));
                    }
                }
            } else {
                let i = choose|i: int|
                    0 <= i < p.len() && content(#[trigger] p[i]) != content(q[i]) && text_digest(
                        content(p[i]),
                    ) == text_digest(content(q[i]));
                assert(content(a[i]) != content(b[i]));
            }
        }
    }
}

/// A line of the log, as contracts speak of it: its text, or why it could not be
/// read.
pub open spec fn line_views(v: Seq<Result<String, String>>) -> Seq<Result<Seq<char>, Seq<char>>> {
    v.map_values(|r: Result<String, String>| text::result_view(r))
}

/// The text whose digest a line holds.
pub open spec fn line_content(
    seq: Seq<char>,
    session: Seq<char>,
    op: Seq<char>,
    detail: Seq<char>,
    decision: Seq<char>,
    prev: Seq<char>,
) -> Seq<char> {
    seq + "|"@ + session + "|"@ + op + "|"@ + detail + "|"@ + decision + "|"@ + prev
}

/// The text whose digest the line with these fields holds.
pub open spec fn fields_content(p: Seq<Seq<char>>) -> Seq<char> {
    line_content(p[0], p[1], p[2], p[3], p[4], p[5])
}

/// What reading one more line comes to, after `count` lines that end in the
/// digest `head`: the new digest, or what is wrong.
pub open spec fn line_check(
    count: nat,
    head: Seq<char>,
    line: Result<Seq<char>, Seq<char>>,
) -> Result<Seq<char>, Seq<char>> {
    match line {
        Err(e) => Err(e),
        Ok(l) => {
            let p = text::split_on(l, '\t');
            let seq = text::parse_dec(p[0], u64::MAX as nat);
            if p.len() != 7 {
                Err("log 第 "@ + text::dec(count) + " 行字段数≠7"@)
            } else if seq is None {
                Err("bad seq"@)
            } else if seq->0 != count || p[5] != head {
                Err("log 断链于 seq="@ + text::dec(count))
            } else if text_digest(fields_content(p)) != p[6] {
                Err("log 第 "@ + text::dec(count) + " 行内容被改"@)
            } else {
                Ok(p[6])
            }
        },
    }
}

/// What reading a log from its start comes to: the digest that it ends in, or
/// what is wrong with the first line that is not right.
pub open spec fn replayed(lines: Seq<Result<Seq<char>, Seq<char>>>) -> Result<Seq<char>, Seq<char>>
    decreases lines.len(),
{
    if lines.len() == 0 {
        Ok(genesis())
    } else {
        match replayed(lines.drop_last()) {
            Err(e) => Err(e),
            Ok(head) => line_check((lines.len() - 1) as nat, head, lines.last()),
        }
    }
}

proof fn lemma_replay_fails(lines: Seq<Result<Seq<char>, Seq<char>>>, k: int)
    requires
        0 <= k <= lines.len(),
        replayed(lines.take(k)) is Err,
    ensures
        replayed(lines) == replayed(lines.take(k)),
    decreases lines.len() - k,
{
    if k == lines.len() {
        assert(lines.take(k) =~= lines);
    } else {
        assert(lines.take(k + 1).drop_last() =~= lines.take(k));
        lemma_replay_fails(lines, k + 1);
    }
}

/// Reads one more line.
fn check_line(count: usize, head: &str, l: &str) -> (r: Result<String, String>)
    ensures
        text::result_view(r) == line_check(count as nat, head@, Ok(l@)),
{
    let p = split(l, '\t');
    let ghost v = text::views(p@);
    assert(v.len() == p@.len());
    let n = dec_string(count as u64);
    if p.len() != 7 {
        return Err("log 第 ".to_string().concat(n.as_str()).concat(" 行字段数≠7"));
    }
    assert(v[0] == p@[0]@ && v[1] == p@[1]@ && v[2] == p@[2]@ && v[3] == p@[3]@ && v[4] == p@[4]@ && v[5]
        == p@[5]@ && v[6] == p@[6]@);
    let seq: u64 = match parse_number(p[0].as_str(), u64::MAX) {
        Some(k) => k,
        None => {
            return Err("bad seq".to_string());
        },
    };
    if seq != count as u64 || !str_eq(p[5].as_str(), head) {
        return Err("log 断链于 seq=".to_string().concat(n.as_str()));
    }
    let c = log_content(
        p[0].as_str(),
        p[1].as_str(),
        p[2].as_str(),
        p[3].as_str(),
        p[4].as_str(),
        p[5].as_str(),
    );
    let h = digest_text(c.as_str());
    if !str_eq(h.as_str(), p[6].as_str()) {
        return Err("log 第 ".to_string().concat(n.as_str()).concat(" 行内容被改"));
    }
    Ok(p[6].clone())
}

fn log_content(seq: &str, session: &str, op: &str, detail: &str, decision: &str, prev: &str) -> (r: String)
    ensures
        r@ == line_content(seq@, session@, op@, detail@, decision@, prev@),
{
    seq.to_string().concat("|").concat(session).concat("|").concat(op).concat("|").concat(detail).concat(
        "|",
    ).concat(decision).concat("|").concat(prev)
}

/// Reads a log from its start, computing every digest anew. Gives the number of
/// lines and the digest that they end in.
pub fn replay(lines: &[Result<String, String>]) -> (r: Result<(u64, String), String>)
    ensures
        match r {
            Ok((n, head)) => n == lines@.len() && replayed(line_views(lines@)) == Ok::<Seq<char>, Seq<char>>(
                head@,
            ),
            Err(e) => replayed(line_views(lines@)) == Err::<Seq<char>, Seq<char>>(e@),
        },
{
    let ghost v = line_views(lines@);
    let mut head = "GENESIS".to_string();
    let mut i: usize = 0;
    assert(v.take(0) =~= Seq::empty());
    while i < lines.len()
        invariant
            i <= lines@.len(),
            v == line_views(lines@),
            replayed(v.take(i as int)) == Ok::<Seq<char>, Seq<char>>(head@),
        decreases lines@.len() - i,
    {
        assert(v.take(i + 1).drop_last() =~= v.take(i as int));
        assert(v.take(i + 1).last() == text::result_view(lines@[i as int]));
        let step = match &lines[i] {
            Ok(l) => check_line(i, head.as_str(), l.as_str()),
            Err(e) => Err(e.clone()),
        };
        match step {
            Ok(h) => {
                head = h;
            },
            Err(e) => {
                proof {
                    lemma_replay_fails(v, i + 1);
                }
                return Err(e);
            },
        }
        i += 1;
    }
    assert(v.take(lines@.len() as int) =~= v);
    Ok((i as u64, head))
}

/// The anchor of a log: how many lines it has and the digest that they end in.
pub open spec fn anchor_text(count: nat, head: Seq<char>) -> Seq<char> {
    text::dec(count) + "\t"@ + head
}

/// Whether an anchor names this count and this digest.
pub open spec fn anchored(anchor: Seq<char>, count: nat, head: Seq<char>) -> bool {
    let a = text::split_on(text::trimmed(anchor), '\t');
    a.len() == 2 && text::parse_dec(a[0], u64::MAX as nat) == Some(count) && a[1] == head
}

/// Tells whether an anchor names this count and this digest.
fn anchor_names(anchor: &str, count: u64, head: &str) -> (r: bool)
    ensures
        r == anchored(anchor@, count as nat, head@),
{
    let a = split(trim(anchor).as_str(), '\t');
    let ghost v = text::views(a@);
    assert(v.len() == a@.len());
    if a.len() != 2 {
        return false;
    }
    assert(v[0] == a@[0]@ && v[1] == a@[1]@);
    match parse_number(a[0].as_str(), u64::MAX) {
        Some(n) => n == count && str_eq(a[1].as_str(), head),
        None => false,
    }
}

/// The log of a service as its writer knows it: where it is, how many lines
/// there are, and the digest that they end in.
pub struct AuditSink {
    log_path: String,
    count: u64,
    head: String,
}

/// The state of a log, as contracts speak of it.
#[verifier::ext_equal]
pub struct SinkV {
    pub path: Seq<char>,
    pub count: nat,
    pub head: Seq<char>,
}

impl View for AuditSink {
    type V = SinkV;

    closed spec fn view(&self) -> SinkV {
        SinkV { path: self.log_path@, count: self.count as nat, head: self.head@ }
    }
}

/// What is to be made durable for one event: the line to append to the log, and
/// the anchor to put in place of the old one after it.
pub struct Record {
    line: String,
    anchor: String,
    hash: String,
}

/// A record, as contracts speak of it.
#[verifier::ext_equal]
pub struct RecordV {
    pub line: Seq<char>,
    pub anchor: Seq<char>,
    pub hash: Seq<char>,
}

impl View for Record {
    type V = RecordV;

    closed spec fn view(&self) -> RecordV {
        RecordV { line: self.line@, anchor: self.anchor@, hash: self.hash@ }
    }
}

impl Record {
    /// The line to append.
    pub fn line(&self) -> (r: &str)
        ensures
            r@ == self@.line,
    {
        self.line.as_str()
    }

    /// The anchor to write once the line is durable.
    pub fn anchor(&self) -> (r: &str)
        ensures
            r@ == self@.anchor,
    {
        self.anchor.as_str()
    }
}

/// The fields of the line for an event that follows a log in state `s`.
pub open spec fn record_fields(
    s: SinkV,
    session: Seq<char>,
    op: Seq<char>,
    detail: Seq<char>,
    decision: Seq<char>,
) -> Seq<Seq<char>> {
    let seq = text::dec(s.count);
    seq![
        seq,
        session,
        op,
        detail,
        decision,
        s.head,
        text_digest(line_content(seq, session, op, detail, decision, s.head)),
    ]
}

/// What is to be made durable for an event that follows a log in state `s`.
pub open spec fn record_of(
    s: SinkV,
    session: Seq<char>,
    op: Seq<char>,
    detail: Seq<char>,
    decision: Seq<char>,
) -> RecordV {
    let f = record_fields(s, session, op, detail, decision);
    RecordV {
        line: f[0] + "\t"@ + f[1] + "\t"@ + f[2] + "\t"@ + f[3] + "\t"@ + f[4] + "\t"@ + f[5] + "\t"@ + f[6],
        anchor: anchor_text(s.count + 1, f[6]),
        hash: f[6],
    }
}

/// Where the anchor of a log is kept.
pub fn anchor_path(log_path: &str) -> (r: String)
    ensures
        r@ == log_path@ + ".anchor"@,
{
    log_path.to_string().concat(".anchor")
}

/// What opening a log comes to: its state, or why it is not to be written on.
pub open spec fn opened(
    path: Seq<char>,
    lines: Option<Seq<Result<Seq<char>, Seq<char>>>>,
    anchor_exists: bool,
    anchor: Option<Seq<char>>,
) -> Result<SinkV, Seq<char>> {
    let all = match lines {
        Some(v) => v,
        None => Seq::empty(),
    };
    match replayed(all) {
        Err(e) => Err("log 重放失败: "@ + e),
        Ok(head) => if all.len() == 0 && !anchor_exists {
            Ok(SinkV { path, count: 0, head })
        } else {
            match anchor {
                None => Err("anchor 缺失/不可读,fail-closed"@),
                Some(a) => if anchored(a, all.len(), head) {
                    Ok(SinkV { path, count: all.len(), head })
                } else {
                    Err("anchor 与 log 不一致,fail-closed"@)
                },
            }
        },
    }
}

/// The lines of a log, as contracts speak of them.
pub open spec fn lines_view(
    lines: Option<Vec<Result<String, String>>>,
) -> Option<Seq<Result<Seq<char>, Seq<char>>>> {
    match lines {
        Some(v) => Some(line_views(v@)),
        None => None,
    }
}

/// The state of a log once a record was made durable.
pub open spec fn committed(s: SinkV, rec: RecordV) -> SinkV {
    SinkV { count: s.count + 1, head: rec.hash, ..s }
}

/// Whether a log is whole and agrees with its anchor, as far as both could be read.
pub open spec fn persisted(lines: Option<Seq<Result<Seq<char>, Seq<char>>>>, anchor: Option<Seq<char>>) -> bool {
    lines is Some && anchor is Some && replayed(lines->0) is Ok && anchored(
        anchor->0,
        lines->0.len(),
        replayed(lines->0)->Ok_0,
    )
}

impl AuditSink {
    /// Takes up the log at a path: `lines` is what it holds, or `None` where there is no
    /// log, and `anchor` is what the anchor file holds, if it can be read. The
    /// log must read whole, and unless both log and anchor are new the anchor
    /// must agree with it.
    pub fn open(
        log_path: &str,
        lines: Option<Vec<Result<String, String>>>,
        anchor_exists: bool,
        anchor: Option<String>,
    ) -> (r: Result<AuditSink, String>)
        ensures
            match r {
                Ok(s) => opened(log_path@, lines_view(lines), anchor_exists, text::option_view(anchor)) == Ok::<SinkV, Seq<char>>(s@),
                Err(e) => opened(log_path@, lines_view(lines), anchor_exists, text::option_view(anchor)) == Err::<SinkV, Seq<char>>(
                    e@,
                ),
            },
    {
        let (count, head) = match &lines {
            Some(v) => match replay(v.as_slice()) {
                Ok(x) => x,
                Err(e) => {
                    return Err("log 重放失败: ".to_string().concat(e.as_str()));
                },
            },
            None => (0u64, "GENESIS".to_string()),
        };
        if count > 0 || anchor_exists {
            match anchor {
                None => {
                    return Err("anchor 缺失/不可读,fail-closed".to_string());
                },
                Some(a) => {
                    if !anchor_names(a.as_str(), count, head.as_str()) {
                        return Err("anchor 与 log 不一致,fail-closed".to_string());
                    }
                },
            }
        }
        Ok(AuditSink { log_path: log_path.to_string(), count, head })
    }

    /// Where the log is.
    pub fn log_path(&self) -> (r: &str)
        ensures
            r@ == self@.path,
    {
        self.log_path.as_str()
    }

    /// Tells whether a further line can be numbered.
    pub fn has_room(&self) -> (r: bool)
        ensures
            r == (self@.count < u64::MAX),
    {
        self.count < u64::MAX
    }

    /// Makes the line and the anchor for an event that follows. Nothing is
    /// recorded until they are durable and `commit` is called.
    pub fn record(&self, session: &str, op: &str, detail: &str, dec: &str) -> (r: Record)
        requires
            self@.count < u64::MAX,
        ensures
            r@ == record_of(self@, session@, op@, detail@, dec@),
    {
        let seq = dec_string(self.count);
        let c = log_content(seq.as_str(), session, op, detail, dec, self.head.as_str());
        let hash = digest_text(c.as_str());
        let line = seq.concat("\t").concat(session).concat("\t").concat(op).concat("\t").concat(detail).concat(
            "\t",
        ).concat(dec).concat("\t").concat(self.head.as_str()).concat("\t").concat(hash.as_str());
        let anchor = dec_string(self.count + 1).concat("\t").concat(hash.as_str());
        Record { line, anchor, hash }
    }

    /// Takes note that a record was made durable.
    pub fn commit(&mut self, rec: Record)
        requires
            old(self)@.count < u64::MAX,
        ensures
            final(self)@ == (SinkV { count: old(self)@.count + 1, head: rec@.hash, ..old(self)@ }),
            final(self)@ == committed(old(self)@, rec@),
    {
        self.count = self.count + 1;
        self.head = rec.hash;
    }
}

/// Tells whether a log is whole and agrees with its anchor. Where either could
/// not be read the answer is no.
pub fn verify_persisted(
    lines: &Option<Vec<Result<String, String>>>,
    anchor: &Option<String>,
) -> (r: Result<bool, String>)
    ensures
        r == Ok::<bool, String>(
            lines is Some && anchor is Some && replayed(line_views(lines->0@)) is Ok && anchored(
                anchor->0@,
                lines->0@.len(),
                replayed(line_views(lines->0@))->Ok_0,
            ),
        ),
        r == Ok::<bool, String>(persisted(lines_view(*lines), text::option_view(*anchor))),
{
    match (lines, anchor) {
        (Some(v), Some(a)) => match replay(v.as_slice()) {
            Ok((n, head)) => Ok(anchor_names(a.as_str(), n, head.as_str())),
            Err(_) => Ok(false),
        },
        _ => Ok(false),
    }
}

/// A trail is whole just where each event is numbered by its place, names the digest of the
/// one before it, the first the word that comes before every digest, and holds the digest
/// of its number, what was done, to what, what was decided, and that earlier digest.
pub proof fn law_whole_trail(events: Seq<EventV>)
    ensures
        chain_ok(events) <==> forall|i: int|
            0 <= i < events.len() ==> {
                let e = #[trigger] events[i];
                &&& e.seq == i
                &&& e.prev == if i == 0 {
                    "GENESIS"@
                } else {
                    events[i - 1].hash
                }
                &&& e.hash == text_digest(
                    text::dec(e.seq) + "|"@ + e.op + "|"@ + e.detail + "|"@ + e.decision + "|"@ + e.prev,
                )
            },
{
    reveal(content);
    if chain_ok(events) {
        assert forall|i: int| 0 <= i < events.len() implies {
            let e = #[trigger] events[i];
            &&& e.seq == i
            &&& e.prev == if i == 0 {
                "GENESIS"@
            } else {
                events[i - 1].hash
            }
            &&& e.hash == text_digest(
                text::dec(e.seq) + "|"@ + e.op + "|"@ + e.detail + "|"@ + e.decision + "|"@ + e.prev,
            )
        } by {
            assert(link_ok(events, i));
        }
    }
}

} // verus!
