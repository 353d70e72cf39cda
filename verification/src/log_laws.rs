//! What holds of the log of a service and its anchor.

use crate::audit;
use crate::audit::SinkV;
use crate::sha256;
use crate::text;
use crate::text_laws;
use vstd::prelude::*;
use vstd::utf8::*;

verus! {

/// A line of a log: its text, or why it could not be read.
pub type Line = Result<Seq<char>, Seq<char>>;

/// The text whose digest a line holds.
pub open spec fn recorded(line: Line) -> Seq<char> {
    audit::fields_content(text::split_on(line->Ok_0, '\t'))
}

proof fn lemma_tab_join(f: Seq<Seq<char>>)
    requires
        f.len() == 7,
        forall|i: int| 0 <= i < 7 ==> !(#[trigger] f[i]).contains('\t'),
    ensures
        text::split_on(
            f[0] + "\t"@ + f[1] + "\t"@ + f[2] + "\t"@ + f[3] + "\t"@ + f[4] + "\t"@ + f[5] + "\t"@ + f[6],
            '\t',
        ) == f,
{
    reveal_strlit("\t");
    assert("\t"@ =~= seq!['\t']);
    text::lemma_split_join(f, '\t');
    let t = "\t"@;
    reveal_with_fuel(text::join_with, 8);
    let f6 = f.drop_last();
    let f5 = f6.drop_last();
    let f4 = f5.drop_last();
    let f3 = f4.drop_last();
    let f2 = f3.drop_last();
    let f1 = f2.drop_last();
    assert(f1.len() == 1 && f1[0] == f[0]);
    assert(text::join_with(f1, t) == f[0]);
    assert(text::join_with(f2, t) == f[0] + t + f[1]);
    assert(text::join_with(f3, t) == f[0] + t + f[1] + t + f[2]);
    assert(text::join_with(f4, t) == f[0] + t + f[1] + t + f[2] + t + f[3]);
    assert(text::join_with(f5, t) == f[0] + t + f[1] + t + f[2] + t + f[3] + t + f[4]);
    assert(text::join_with(f6, t) == f[0] + t + f[1] + t + f[2] + t + f[3] + t + f[4] + t + f[5]);
    assert(text::join_with(f, t) == f[0] + t + f[1] + t + f[2] + t + f[3] + t + f[4] + t + f[5] + t + f[6]);
}

proof fn lemma_digest_plain(s: Seq<char>)
    ensures
        audit::text_digest(s).len() == 64,
        !audit::text_digest(s).contains('\t'),
        !text::is_space(audit::text_digest(s).last()),
{
    sha256::lemma_digest_shape(encode_utf8(s));
    let d = audit::text_digest(s);
    assert forall|i: int| 0 <= i < d.len() implies d[i] != '\t' by {
        assert(text::is_hex_char(sha256::digest_hex(encode_utf8(s))[i]));
    }
    assert(text::is_hex_char(sha256::digest_hex(encode_utf8(s))[63]));
}

proof fn lemma_head_plain(lines: Seq<Line>)
    requires
        audit::replayed(lines) is Ok,
    ensures
        !audit::replayed(lines)->Ok_0.contains('\t'),
        lines.len() > 0 ==> audit::replayed(lines)->Ok_0.len() == 64,
{
    if lines.len() == 0 {
        reveal_strlit("GENESIS");
    } else {
        let p = text::split_on(lines.last()->Ok_0, '\t');
        lemma_digest_plain(audit::fields_content(p));
    }
}

/// A line that was recorded reads back: a log that reads whole still does with
/// the line for the event that follows, it then ends in the record's digest, and
/// the record's anchor agrees with it. The event's fields hold no tab, as those
/// of a session do not.
pub proof fn law_recorded_line_reads(
    path: Seq<char>,
    lines: Seq<Line>,
    session: Seq<char>,
    op: Seq<char>,
    detail: Seq<char>,
    decision: Seq<char>,
)
    requires
        audit::replayed(lines) is Ok,
        lines.len() < u64::MAX,
        !session.contains('\t') && !op.contains('\t') && !detail.contains('\t') && !decision.contains('\t'),
    ensures
        ({
            let s = SinkV { path, count: lines.len(), head: audit::replayed(lines)->Ok_0 };
            let r = audit::record_of(s, session, op, detail, decision);
            let after = lines.push(Ok(r.line));
            &&& audit::replayed(after) == Ok::<Seq<char>, Seq<char>>(r.hash)
            &&& audit::anchored(r.anchor, after.len(), r.hash)
        }),
{
    let s = SinkV { path, count: lines.len(), head: audit::replayed(lines)->Ok_0 };
    let f = audit::record_fields(s, session, op, detail, decision);
    let r = audit::record_of(s, session, op, detail, decision);
    let after = lines.push(Ok(r.line));
    lemma_head_plain(lines);
    text::lemma_dec_digits(lines.len());
    lemma_digest_plain(audit::line_content(f[0], session, op, detail, decision, s.head));
    assert forall|i: int| 0 <= i < 7 implies !(#[trigger] f[i]).contains('\t') by {
        if i == 0 {
            assert(f[0] == text::dec(lines.len()));
        }
    }
    lemma_tab_join(f);
    text::law_number_round_trip(lines.len(), u64::MAX as nat);
    assert(after.drop_last() =~= lines);
    lemma_anchor_reads(lines.len() + 1, r.hash);
}

proof fn lemma_one_of(a: Seq<char>, b: Seq<char>, c: char)
    requires
        !a.contains(c),
        !b.contains(c),
    ensures
        !(a + b).contains(c),
{
    if (a + b).contains(c) {
        let k = (a + b).index_of(c);
        if k < a.len() {
            assert(a[k] == c);
        } else {
            assert(b[k - a.len()] == c);
        }
    }
}

/// A line that was recorded is one line: where the event's fields hold no line
/// feed, as those of a session do not, it holds none and does not end in a
/// carriage return, so that reading by lines gives it back.
pub proof fn law_recorded_line_is_one_line(
    path: Seq<char>,
    lines: Seq<Line>,
    session: Seq<char>,
    op: Seq<char>,
    detail: Seq<char>,
    decision: Seq<char>,
)
    requires
        audit::replayed(lines) is Ok,
        !session.contains('\n') && !op.contains('\n') && !detail.contains('\n') && !decision.contains('\n'),
    ensures
        ({
            let s = SinkV { path, count: lines.len(), head: audit::replayed(lines)->Ok_0 };
            let r = audit::record_of(s, session, op, detail, decision);
            &&& !r.line.contains('\n')
            &&& text::split_on(r.line, '\n') == seq![r.line]
            &&& r.line.last() != '\r'
        }),
{
    let s = SinkV { path, count: lines.len(), head: audit::replayed(lines)->Ok_0 };
    let f = audit::record_fields(s, session, op, detail, decision);
    let r = audit::record_of(s, session, op, detail, decision);
    let t = "\t"@;
    reveal_strlit("\t");
    assert(!t.contains('\n'));
    text::lemma_dec_digits(lines.len());
    assert(!f[0].contains('\n'));
    if lines.len() == 0 {
        reveal_strlit("GENESIS");
    } else {
        lemma_digest_one_line(audit::fields_content(text::split_on(lines.last()->Ok_0, '\t')));
    }
    assert(!s.head.contains('\n'));
    lemma_digest_one_line(audit::line_content(f[0], session, op, detail, decision, s.head));
    lemma_one_of(f[0], t, '\n');
    lemma_one_of(f[0] + t, f[1], '\n');
    lemma_one_of(f[0] + t + f[1], t, '\n');
    lemma_one_of(f[0] + t + f[1] + t, f[2], '\n');
    lemma_one_of(f[0] + t + f[1] + t + f[2], t, '\n');
    lemma_one_of(f[0] + t + f[1] + t + f[2] + t, f[3], '\n');
    lemma_one_of(f[0] + t + f[1] + t + f[2] + t + f[3], t, '\n');
    lemma_one_of(f[0] + t + f[1] + t + f[2] + t + f[3] + t, f[4], '\n');
    lemma_one_of(f[0] + t + f[1] + t + f[2] + t + f[3] + t + f[4], t, '\n');
    lemma_one_of(f[0] + t + f[1] + t + f[2] + t + f[3] + t + f[4] + t, f[5], '\n');
    lemma_one_of(f[0] + t + f[1] + t + f[2] + t + f[3] + t + f[4] + t + f[5], t, '\n');
    lemma_one_of(f[0] + t + f[1] + t + f[2] + t + f[3] + t + f[4] + t + f[5] + t, f[6], '\n');
    text::lemma_split_on_single(r.line, '\n');
    assert(r.line.last() == f[6].last());
}

proof fn lemma_digest_one_line(s: Seq<char>)
    ensures
        audit::text_digest(s).len() == 64,
        !audit::text_digest(s).contains('\n'),
        audit::text_digest(s).last() != '\r',
{
    sha256::lemma_digest_shape(encode_utf8(s));
    let d = audit::text_digest(s);
    assert forall|i: int| 0 <= i < d.len() implies d[i] != '\n' && d[i] != '\r' by {
        assert(text::is_hex_char(sha256::digest_hex(encode_utf8(s))[i]));
    }
}

proof fn lemma_one_line(s: Seq<char>)
    ensures
        !text::one_line(s).contains('\t'),
        !text::one_line(s).contains('\n'),
{
    assert forall|i: int| 0 <= i < s.len() implies text::one_line(s)[i] != '\t' && text::one_line(s)[i] != '\n' by {}
}

/// What a session has recorded is fit for the log: neither its key nor any field of
/// its events holds a tab or a line feed, whatever was asked of it.
pub proof fn law_event_fields_are_plain(
    entropy: Seq<u8>,
    events: Seq<audit::EventV>,
    op: Seq<char>,
    detail: Seq<char>,
    decision: Seq<char>,
)
    ensures
        ({
            let e = audit::next_event(events, op, detail, decision);
            &&& !e.op.contains('\t') && !e.op.contains('\n')
            &&& !e.detail.contains('\t') && !e.detail.contains('\n')
            &&& !e.decision.contains('\t') && !e.decision.contains('\n')
        }),
        !text::hex(entropy).contains('\t') && !text::hex(entropy).contains('\n'),
{
    lemma_one_line(op);
    lemma_one_line(detail);
    lemma_one_line(decision);
    text::lemma_hex_shape(entropy);
    let h = text::hex(entropy);
    assert forall|i: int| 0 <= i < h.len() implies h[i] != '\t' && h[i] != '\n' by {
        assert(text::is_hex_char(h[i]));
    }
}

proof fn lemma_anchor_reads(n: nat, head: Seq<char>)
    requires
        n <= u64::MAX,
        head.len() == 64,
        !head.contains('\t'),
        !text::is_space(head.last()),
    ensures
        audit::anchored(audit::anchor_text(n, head), n, head),
{
    let a = audit::anchor_text(n, head);
    let p = |c: char| text::is_space(c);
    text::lemma_dec_value(n);
    text::lemma_dec_digits(n);
    reveal_strlit("\t");
    assert("\t"@ =~= seq!['\t']);
    assert(a[0] == text::dec(n)[0]);
    assert(text::strip_front(a, p) == a);
    assert(a.last() == head.last());
    assert(text::strip_back(a, p) == a);
    let parts = seq![text::dec(n), head];
    assert(parts.drop_last() =~= seq![text::dec(n)]);
    assert(text::join_with(parts.drop_last(), "\t"@) == text::dec(n));
    assert(text::join_with(parts, "\t"@) == a);
    assert forall|i: int| 0 <= i < parts.len() implies !(#[trigger] parts[i]).contains('\t') by {
        if i == 0 {
            assert(parts[0] == text::dec(n));
        } else {
            assert(parts[1] == head);
        }
    }
    text::lemma_split_join(parts, '\t');
    text::law_number_round_trip(n, u64::MAX as nat);
}

/// An anchor agrees with one count and one digest only. So a log with lines cut
/// off its end does not pass under the anchor of the whole.
pub proof fn law_truncation_shows(anchor: Seq<char>, lines: Seq<Line>, keep: int)
    requires
        audit::replayed(lines) is Ok,
        audit::anchored(anchor, lines.len(), audit::replayed(lines)->Ok_0),
        0 <= keep < lines.len(),
    ensures
        !(audit::replayed(lines.take(keep)) is Ok && audit::anchored(
            anchor,
            lines.take(keep).len(),
            audit::replayed(lines.take(keep))->Ok_0,
        )),
{
}

proof fn lemma_recorded_prev(a: Seq<Seq<char>>, b: Seq<Seq<char>>)
    requires
        a.len() == 7,
        b.len() == 7,
        a[5].len() == b[5].len(),
        audit::fields_content(a) == audit::fields_content(b),
    ensures
        a[5] == b[5],
{
    let c = audit::fields_content(a);
    let n = c.len() - a[5].len();
    assert(c.skip(n) =~= a[5]);
    assert(audit::fields_content(b).skip(n) =~= b[5]);
}

/// The anchor stands for the whole log: two logs that both pass under one anchor
/// have as many lines and record the same texts throughout, or hold at one place
/// two different texts with the same digest.
pub proof fn law_anchor_fixes_log(anchor: Seq<char>, a: Seq<Line>, b: Seq<Line>)
    requires
        audit::replayed(a) is Ok,
        audit::replayed(b) is Ok,
        audit::anchored(anchor, a.len(), audit::replayed(a)->Ok_0),
        audit::anchored(anchor, b.len(), audit::replayed(b)->Ok_0),
    ensures
        a.len() == b.len(),
        same_or_collide(a, b),
{
    lemma_head_fixes_log(a, b);
}

/// Whether two logs record the same texts, or two different ones with the same
/// digest at one place.
pub open spec fn same_or_collide(a: Seq<Line>, b: Seq<Line>) -> bool {
    (forall|i: int| 0 <= i < a.len() ==> recorded(#[trigger] a[i]) == recorded(b[i])) || (exists|i: int|
        0 <= i < a.len() && recorded(#[trigger] a[i]) != recorded(b[i]) && audit::text_digest(recorded(a[i]))
            == audit::text_digest(recorded(b[i])))
}

proof fn lemma_head_fixes_log(a: Seq<Line>, b: Seq<Line>)
    requires
        audit::replayed(a) is Ok,
        audit::replayed(a) == audit::replayed(b),
        a.len() == b.len(),
    ensures
        same_or_collide(a, b),
    decreases a.len(),
{
    if a.len() > 0 {
        let n = a.len() - 1;
        let p = a.drop_last();
        let q = b.drop_last();
        if recorded(a[n]) == recorded(b[n]) {
            lemma_head_plain(p);
            lemma_head_plain(q);
            lemma_recorded_prev(
                text::split_on(a[n]->Ok_0, '\t'),
                text::split_on(b[n]->Ok_0, '\t'),
            );
            lemma_head_fixes_log(p, q);
            if forall|i: int| 0 <= i < p.len() ==> recorded(#[trigger] p[i]) == recorded(q[i]) {
                assert forall|i: int| 0 <= i < a.len() implies recorded(#[trigger] a[i]) == recorded(b[i]) by {
                    if i < n {
                        assert(recorded(p[i]) == recorded(q[i]));
                    }
                }
            } else {
                let i = choose|i: int|
                    0 <= i < p.len() && recorded(#[trigger] p[i]) != recorded(q[i]) && audit::text_digest(
                        recorded(p[i]),
                    ) == audit::text_digest(recorded(q[i]));
                assert(recorded(a[i]) != recorded(b[i]));
            }
        }
    }
}

/// The lines of a log that may not be there yet.
pub open spec fn lines_of(lines: Option<Seq<Line>>) -> Seq<Line> {
    match lines {
        Some(all) => all,
        None => Seq::empty(),
    }
}

/// A log that was opened stands at its end: at the number of its lines, and at the
/// digest that reading it from its start ends in. So the line that is recorded next
/// follows it: appended, it gives a log that reads whole, that the record's anchor
/// agrees with, and that opens again at one line more and at the record's digest.
pub proof fn law_opened_log_goes_on(
    path: Seq<char>,
    lines: Option<Seq<Line>>,
    anchor_exists: bool,
    anchor: Option<Seq<char>>,
    session: Seq<char>,
    op: Seq<char>,
    detail: Seq<char>,
    decision: Seq<char>,
)
    requires
        audit::opened(path, lines, anchor_exists, anchor) is Ok,
        lines_of(lines).len() < u64::MAX,
        !session.contains('\t') && !op.contains('\t') && !detail.contains('\t') && !decision.contains('\t'),
    ensures
        ({
            let s = audit::opened(path, lines, anchor_exists, anchor)->Ok_0;
            let r = audit::record_of(s, session, op, detail, decision);
            let after = lines_of(lines).push(Ok(r.line));
            let again = audit::opened(path, Some(after), true, Some(r.anchor));
            &&& s.path == path
            &&& s.count == lines_of(lines).len()
            &&& audit::replayed(lines_of(lines)) == Ok::<Seq<char>, Seq<char>>(s.head)
            &&& audit::replayed(after) == Ok::<Seq<char>, Seq<char>>(r.hash)
            &&& audit::anchored(r.anchor, s.count + 1, r.hash)
            &&& again is Ok
            &&& again->Ok_0.path == path
            &&& again->Ok_0.count == s.count + 1
            &&& again->Ok_0.head == r.hash
        }),
{
    law_recorded_line_reads(path, lines_of(lines), session, op, detail, decision);
}

/// A log is taken up just where it reads whole and its anchor agrees with it, or where
/// neither has been written yet.
pub proof fn law_log_is_taken_up_whole(
    path: Seq<char>,
    lines: Option<Seq<Line>>,
    anchor_exists: bool,
    anchor: Option<Seq<char>>,
)
    ensures
        ({
            let end = audit::replayed(lines_of(lines));
            let n = lines_of(lines).len();
            audit::opened(path, lines, anchor_exists, anchor) is Ok <==> end is Ok && ((n == 0 && !anchor_exists) || (
            anchor is Some && audit::anchored(anchor->0, n, end->Ok_0)))
        }),
{
}

/// A new log stands at no line and at the word that comes before every digest.
pub proof fn law_new_log_begins(path: Seq<char>, anchor: Option<Seq<char>>)
    ensures
        ({
            let s = audit::opened(path, None, false, anchor);
            s is Ok && s->Ok_0.path == path && s->Ok_0.count == 0 && s->Ok_0.head == "GENESIS"@
        }),
{
}

/// Whether the line at `i` follows those before it: it could be read, has seven fields,
/// is numbered by its place, names the digest that the line before it holds, and holds
/// the digest of its own first six fields.
pub open spec fn line_follows(lines: Seq<Line>, i: int) -> bool {
    lines[i] is Ok && ({
        let f = text::split_on(lines[i]->Ok_0, '\t');
        &&& f.len() == 7
        &&& text::parse_dec(f[0], u64::MAX as nat) == Some(i as nat)
        &&& f[5] == if i == 0 {
            "GENESIS"@
        } else {
            text::split_on(lines[i - 1]->Ok_0, '\t')[6]
        }
        &&& f[6] == audit::text_digest(
            f[0] + "|"@ + f[1] + "|"@ + f[2] + "|"@ + f[3] + "|"@ + f[4] + "|"@ + f[5],
        )
    })
}

/// A log reads whole just where every line follows the one before it, and then ends in
/// the digest that its last line holds.
pub proof fn law_log_reads_line_by_line(lines: Seq<Line>)
    ensures
        audit::replayed(lines) is Ok <==> forall|i: int| 0 <= i < lines.len() ==> #[trigger] line_follows(lines, i),
        audit::replayed(lines) is Ok ==> audit::replayed(lines)->Ok_0 == if lines.len() == 0 {
            "GENESIS"@
        } else {
            text::split_on(lines.last()->Ok_0, '\t')[6]
        },
    decreases lines.len(),
{
    if lines.len() > 0 {
        let p = lines.drop_last();
        let n = p.len() as int;
        law_log_reads_line_by_line(p);
        assert forall|i: int| 0 <= i < n implies line_follows(p, i) == #[trigger] line_follows(lines, i) by {
            assert(p[i] == lines[i]);
            if i > 0 {
                assert(p[i - 1] == lines[i - 1]);
            }
        }
        if n > 0 {
            assert(lines[n - 1] == p.last());
        }
        if audit::replayed(lines) is Ok {
            assert(line_follows(lines, n));
        }
        if forall|i: int| 0 <= i < lines.len() ==> #[trigger] line_follows(lines, i) {
            assert forall|i: int| 0 <= i < p.len() implies #[trigger] line_follows(p, i) by {
                assert(line_follows(lines, i));
            }
            assert(line_follows(lines, n));
        }
    }
}

/// The line for an event holds, between tabs, its number, the session, what was done, to
/// what, what was decided, the digest before it and its own; the anchor holds the number
/// of lines there will be and that digest.
pub proof fn law_record_holds_event(
    s: SinkV,
    session: Seq<char>,
    op: Seq<char>,
    detail: Seq<char>,
    decision: Seq<char>,
)
    requires
        !session.contains('\t') && !op.contains('\t') && !detail.contains('\t') && !decision.contains('\t'),
        !s.head.contains('\t'),
    ensures
        ({
            let r = audit::record_of(s, session, op, detail, decision);
            let f = text::split_on(r.line, '\t');
            &&& f == seq![text::dec(s.count), session, op, detail, decision, s.head, r.hash]
            &&& r.hash == audit::text_digest(
                text::dec(s.count) + "|"@ + session + "|"@ + op + "|"@ + detail + "|"@ + decision + "|"@ + s.head,
            )
            &&& r.anchor == text::dec(s.count + 1) + "\t"@ + r.hash
        }),
{
    let f = audit::record_fields(s, session, op, detail, decision);
    text::lemma_dec_digits(s.count);
    lemma_digest_plain(audit::line_content(f[0], session, op, detail, decision, s.head));
    assert forall|i: int| 0 <= i < 7 implies !(#[trigger] f[i]).contains('\t') by {
        if i == 0 {
            assert(f[0] == text::dec(s.count));
        }
    }
    lemma_tab_join(f);
}

/// The event that a trail grows by is numbered by the events before it, names the digest
/// of the last of them, records what it was given with tabs and line feeds as spaces and
/// nothing else changed, and holds the digest of all that.
pub proof fn law_next_event_records(
    events: Seq<audit::EventV>,
    op: Seq<char>,
    detail: Seq<char>,
    decision: Seq<char>,
)
    ensures
        ({
            let e = audit::next_event(events, op, detail, decision);
            &&& e.seq == events.len()
            &&& e.prev == if events.len() == 0 {
                "GENESIS"@
            } else {
                events.last().hash
            }
            &&& flattened(op, e.op)
            &&& flattened(detail, e.detail)
            &&& flattened(decision, e.decision)
            &&& e.hash == audit::text_digest(
                text::dec(e.seq) + "|"@ + e.op + "|"@ + e.detail + "|"@ + e.decision + "|"@ + e.prev,
            )
        }),
{
    reveal(audit::content);
}

/// Whether a text is another on one line.
pub open spec fn flattened(from: Seq<char>, to: Seq<char>) -> bool {
    &&& to.len() == from.len()
    &&& forall|i: int|
        0 <= i < from.len() ==> #[trigger] to[i] == if from[i] == '\t' || from[i] == '\n' {
            ' '
        } else {
            from[i]
        }
}

/// An anchor is read with or without a line feed after it, and names one count and one
/// digest: the number of lines and the digest, with one tab between them.
pub proof fn law_anchor_names_one(n: nat, head: Seq<char>, a: Seq<char>, m: nat, other: Seq<char>)
    requires
        n <= u64::MAX,
        head.len() > 0,
        !head.contains('\t'),
        !text::is_space(head.last()),
    ensures
        audit::anchored(text::dec(n) + "\t"@ + head, n, head),
        audit::anchored(text::dec(n) + "\t"@ + head + "\n"@, n, head),
        audit::anchored(a, n, head) && audit::anchored(a, m, other) ==> n == m && head == other,
        audit::anchored(text::dec(n) + "\t"@ + head, m, other) ==> n == m && head == other,
        !audit::anchored(Seq::empty(), n, head),
        !audit::anchored(text::dec(n), n, head),
{
    let t = text::dec(n) + "\t"@ + head;
    let none = Seq::<char>::empty();
    text::lemma_dec_value(n);
    text::lemma_dec_digits(n);
    reveal_strlit("\t");
    reveal_strlit("\n");
    assert("\t"@ =~= seq!['\t']);
    assert(t[0] == text::dec(n)[0]);
    assert(t.last() == head.last());
    text_laws::law_trimming(none, t, none);
    text_laws::law_trimming(none, t, "\n"@);
    assert(none + t + none =~= t);
    assert(none + t + "\n"@ =~= t + "\n"@);
    let parts = seq![text::dec(n), head];
    assert(parts.drop_last() =~= seq![text::dec(n)]);
    assert(text::join_with(parts.drop_last(), "\t"@) == text::dec(n));
    assert(text::join_with(parts, "\t"@) == t);
    assert forall|i: int| 0 <= i < parts.len() implies !(#[trigger] parts[i]).contains('\t') by {
        if i == 0 {
            assert(parts[0] == text::dec(n));
        } else {
            assert(parts[1] == head);
        }
    }
    text::lemma_split_join(parts, '\t');
    text::law_number_round_trip(n, u64::MAX as nat);
    text_laws::law_trimming(none, none, none);
    text::lemma_split_on_single(none, '\t');
    let d = text::dec(n);
    assert(!text::is_space(d[0]) && !text::is_space(d.last())) by {
        assert('0' <= d[d.len() - 1] <= '9');
    }
    text_laws::law_trimming(none, d, none);
    assert(none + d + none =~= d);
    text::lemma_split_on_single(d, '\t');
}

/// A writer that has made a record durable stands where opening the log again would put it,
/// and the log it has written verifies with its anchor.
pub proof fn law_commit_is_reopening(
    path: Seq<char>,
    lines: Option<Seq<Line>>,
    anchor_exists: bool,
    anchor: Option<Seq<char>>,
    session: Seq<char>,
    op: Seq<char>,
    detail: Seq<char>,
    decision: Seq<char>,
)
    requires
        audit::opened(path, lines, anchor_exists, anchor) is Ok,
        lines_of(lines).len() < u64::MAX,
        !session.contains('\t') && !op.contains('\t') && !detail.contains('\t') && !decision.contains('\t'),
    ensures
        ({
            let s = audit::opened(path, lines, anchor_exists, anchor)->Ok_0;
            let r = audit::record_of(s, session, op, detail, decision);
            let after = lines_of(lines).push(Ok(r.line));
            &&& audit::opened(path, Some(after), true, Some(r.anchor)) == Ok::<SinkV, Seq<char>>(audit::committed(s, r))
            &&& audit::persisted(Some(after), Some(r.anchor))
            &&& !audit::persisted(None, Some(r.anchor))
            &&& !audit::persisted(Some(after), None)
            &&& lines_of(lines).len() > 0 ==> !audit::persisted(lines, Some(r.anchor))
        }),
{
    law_opened_log_goes_on(path, lines, anchor_exists, anchor, session, op, detail, decision);
}

/// A log that verifies is one that opening takes up, and one with a line that opening takes
/// up verifies.
pub proof fn law_verifying_is_opening(path: Seq<char>, lines: Seq<Line>, anchor: Seq<char>)
    ensures
        audit::persisted(Some(lines), Some(anchor)) <==> audit::opened(path, Some(lines), true, Some(anchor)) is Ok,
{
}

} // verus!
