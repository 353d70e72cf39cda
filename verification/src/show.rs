//! How references, arguments and other texts are shown to people: shortened,
//! escaped and bounded.

use crate::text;
use crate::text::{chars_of, ctl, push_hex2};
use vstd::prelude::*;
use vstd::utf8::*;

verus! {

/// Whether a reference can be shortened: it has at most fourteen bytes, or a
/// character begins after the fourteenth.
pub open spec fn showable(r: Seq<char>) -> bool {
    text::byte_len(r) > 14 ==> is_char_boundary(encode_utf8(r), 14)
}

/// A reference as it is shown: at most fourteen bytes of it.
pub open spec fn shorted(r: Seq<char>) -> Seq<char> {
    if text::byte_len(r) > 14 {
        decode_utf8(encode_utf8(r).subrange(0, 14)) + "…"@
    } else {
        r
    }
}

/// Tells whether a reference can be shortened.
pub fn is_showable(r: &str) -> (b: bool)
    ensures
        b == showable(r@),
{
    r.as_bytes().len() <= 14 || r.is_char_boundary(14)
}

/// Shortens a reference.
pub fn short(r: &str) -> (s: String)
    requires
        showable(r@),
    ensures
        s@ == shorted(r@),
{
    if r.as_bytes().len() > 14 {
        let (a, _) = r.split_at(14);
        proof {
            encode_utf8_decode_utf8(a@);
        }
        a.to_string().concat("…")
    } else {
        r.to_string()
    }
}

/// A reference as the trail names it in a refusal: shortened, or left out where
/// it cannot be.
pub open spec fn briefed(r: Seq<char>) -> Seq<char> {
    if showable(r) {
        shorted(r)
    } else {
        "…"@
    }
}

/// Names a reference in a refusal, whatever it holds.
pub fn brief(r: &str) -> (s: String)
    ensures
        s@ == briefed(r@),
{
    if is_showable(r) {
        short(r)
    } else {
        "…".to_string()
    }
}

/// A text of ASCII can be shortened, and what is shown of it are its first
/// fourteen characters.
pub proof fn lemma_ascii_showable(r: Seq<char>)
    requires
        is_ascii_chars(r),
    ensures
        showable(r),
        text::byte_len(r) == r.len(),
        shorted(r) == (if r.len() > 14 {
            r.take(14) + "…"@
        } else {
            r
        }),
{
    is_ascii_chars_encode_utf8(r);
    let e = encode_utf8(r);
    if r.len() > 14 {
        encode_utf8_valid_utf8(r);
        assert(e[14] == r[14] as u8);
        is_char_boundary_iff_not_is_continuation_byte(e, 14);
        let a = r.take(14);
        assert(is_ascii_chars(a));
        is_ascii_chars_encode_utf8(a);
        assert(encode_utf8(a) =~= e.subrange(0, 14));
        encode_utf8_decode_utf8(a);
    }
}

/// A character as it is shown: a control character is escaped.
pub open spec fn escaped(c: char) -> Seq<char> {
    if text::is_ctl(c) {
        "\\x"@ + text::hex2((c as u32 % 256) as u8)
    } else {
        seq![c]
    }
}

/// What is shown of a text from `i` on, after what was shown before: escaped,
/// and ended by an ellipsis once more than 160 bytes stand there.
pub open spec fn display_from(s: Seq<char>, i: int, out: Seq<char>) -> Seq<char>
    decreases s.len() - i,
{
    if i < 0 || i >= s.len() {
        out
    } else {
        let more = out + escaped(s[i]);
        if text::byte_len(more) > 160 {
            more + "…"@
        } else {
            display_from(s, i + 1, more)
        }
    }
}

/// A text as it is shown.
pub open spec fn displayed(s: Seq<char>) -> Seq<char> {
    display_from(s, 0, Seq::empty())
}

/// Appends a character as it is shown.
fn push_escaped(out: &mut String, c: char)
    ensures
        final(out)@ == old(out)@ + escaped(c),
{
    if ctl(c) {
        out.append("\\x");
        push_hex2(out, (c as u32 % 256) as u8);
        assert(out@ =~= old(out)@ + escaped(c));
    } else {
        out.push(c);
        assert(out@ =~= old(out)@ + escaped(c));
    }
}

/// Shows a text: control characters are escaped, and a long text is cut.
pub fn safe_display(s: &str) -> (r: String)
    ensures
        r@ == displayed(s@),
{
    let v = chars_of(s);
    let mut out = String::new();
    let mut i: usize = 0;
    while i < v.len()
        invariant
            i <= v@.len(),
            v@ == s@,
            display_from(s@, i as int, out@) == displayed(s@),
        decreases v@.len() - i,
    {
        push_escaped(&mut out, v[i]);
        if out.as_str().as_bytes().len() > 160 {
            out.append("…");
            return out;
        }
        i += 1;
    }
    out
}

/// A character inside quotes: quotes and backslashes are escaped, and control
/// characters.
pub open spec fn quoted_char(c: char) -> Seq<char> {
    if c == '"' {
        "\\\""@
    } else if c == '\\' {
        "\\\\"@
    } else {
        escaped(c)
    }
}

/// The characters of an item, quoted.
pub open spec fn quoted(item: Seq<char>) -> Seq<char>
    decreases item.len(),
{
    if item.len() == 0 {
        Seq::empty()
    } else {
        quoted_char(item[0]) + quoted(item.drop_first())
    }
}

/// A list in full: each item in quotes, so that one item with a space is not taken
/// for two, and a space between two items.
pub open spec fn full_list(items: Seq<Seq<char>>) -> Seq<char>
    decreases items.len(),
{
    if items.len() == 0 {
        Seq::empty()
    } else {
        seq!['"'] + quoted(items[0]) + seq!['"'] + (if items.len() > 1 {
            seq![' ']
        } else {
            Seq::empty()
        }) + full_list(items.drop_first())
    }
}

/// What follows `out` for the characters of an item from `j` on, as many as leave
/// room for an ellipsis and a closing quote: the text, and whether it was cut.
pub open spec fn cut_item(item: Seq<char>, j: int, out: Seq<char>, cap: nat) -> (Seq<char>, bool)
    decreases item.len() - j,
{
    if j < 0 || j >= item.len() {
        (out, false)
    } else if text::byte_len(out) + text::byte_len(quoted_char(item[j])) + 4 > cap {
        (out + "…\""@, true)
    } else {
        cut_item(item, j + 1, out + quoted_char(item[j]), cap)
    }
}

/// The space before the item at `i`.
pub open spec fn gap(i: int) -> Seq<char> {
    if i > 0 {
        seq![' ']
    } else {
        Seq::empty()
    }
}

/// What follows `out` for the items from `i` on, cut where there is no room. An
/// item is begun where its quotes and an ellipsis have room.
pub open spec fn cut_from(items: Seq<Seq<char>>, i: int, out: Seq<char>, cap: nat) -> Seq<char>
    decreases items.len() - i,
{
    if i < 0 || i >= items.len() {
        out
    } else if text::byte_len(out) + gap(i).len() + 5 > cap {
        out + "…"@
    } else {
        let (body, cut) = cut_item(items[i], 0, out + gap(i) + seq!['"'], cap);
        if cut {
            body
        } else {
            cut_from(items, i + 1, body + seq!['"'], cap)
        }
    }
}

/// A text with spaces after it until it takes `cap` bytes.
pub open spec fn filled(s: Seq<char>, cap: nat) -> Seq<char> {
    if text::byte_len(s) < cap {
        s + Seq::new((cap - text::byte_len(s)) as nat, |k: int| ' ')
    } else {
        s
    }
}

/// A list as it is shown: in full where that takes at most `cap` bytes. Else it is
/// cut, and what is left of `cap` is filled, so that a text below `cap` is always
/// a whole list.
pub open spec fn listed(items: Seq<Seq<char>>, cap: nat) -> Seq<char> {
    if items.len() == 0 {
        "(空)"@
    } else if text::byte_len(full_list(items)) <= cap {
        full_list(items)
    } else {
        filled(cut_from(items, 0, Seq::empty(), cap), cap)
    }
}

/// The bytes of two texts one after the other.
pub proof fn lemma_concat_bytes(a: Seq<char>, b: Seq<char>)
    ensures
        text::byte_len(a + b) == text::byte_len(a) + text::byte_len(b),
{
    text::lemma_encode_concat(a, b);
}

/// An item quoted piece by piece is quoted as a whole.
pub proof fn lemma_quoted_concat(a: Seq<char>, b: Seq<char>)
    ensures
        quoted(a + b) == quoted(a) + quoted(b),
    decreases a.len(),
{
    if a.len() == 0 {
        assert(a + b =~= b);
        assert(quoted(a) + quoted(b) =~= quoted(b));
    } else {
        lemma_quoted_concat(a.drop_first(), b);
        assert((a + b).drop_first() =~= a.drop_first() + b);
        assert(quoted(a + b) =~= quoted(a) + quoted(b));
    }
}

proof fn lemma_quoted_one(c: char)
    ensures
        quoted(seq![c]) == quoted_char(c),
{
    let s = seq![c];
    assert(s.drop_first() =~= Seq::empty());
    assert(quoted(s.drop_first()) =~= Seq::empty());
    assert(quoted(s) =~= quoted_char(c));
}

/// Appends a character inside quotes.
fn push_quoted(out: &mut String, c: char)
    ensures
        final(out)@ == old(out)@ + quoted_char(c),
{
    if c == '"' {
        out.append("\\\"");
    } else if c == '\\' {
        out.append("\\\\");
    } else {
        push_escaped(out, c);
    }
}

/// Appends the characters of an item, quoted, and stops once more than `cap` bytes
/// stand there; tells whether it did not.
fn push_within(out: &mut String, item: &str, cap: usize) -> (whole: bool)
    ensures
        whole ==> final(out)@ == old(out)@ + quoted(item@),
        !whole ==> text::byte_len(old(out)@ + quoted(item@)) > cap,
{
    let ghost start = out@;
    assert(item@.take(0) =~= Seq::empty());
    assert(start + quoted(item@.take(0)) =~= start);
    for c in it: item.chars()
        invariant
            start == old(out)@,
            it.seq() == item@,
            out@ == start + quoted(item@.take(it.index() as int)),
    {
        let ghost k = it.index() as int;
        push_quoted(out, c);
        proof {
            assert(item@.take(k + 1) =~= item@.take(k) + seq![c]);
            lemma_quoted_concat(item@.take(k), seq![c]);
            lemma_quoted_one(c);
            assert(out@ =~= start + quoted(item@.take(k + 1)));
        }
        if out.as_str().as_bytes().len() > cap {
            proof {
                assert(item@ =~= item@.take(k + 1) + item@.skip(k + 1));
                lemma_quoted_concat(item@.take(k + 1), item@.skip(k + 1));
                assert(start + quoted(item@) =~= out@ + quoted(item@.skip(k + 1)));
                lemma_concat_bytes(out@, quoted(item@.skip(k + 1)));
            }
            return false;
        }
    }
    assert(item@.take(item@.len() as int) =~= item@);
    true
}

/// Shows a list in full, if that takes at most `cap` bytes.
fn list_within(items: &[String], cap: usize) -> (r: Option<String>)
    requires
        items@.len() > 0,
    ensures
        match r {
            Some(s) => s@ == full_list(text::views(items@)) && text::byte_len(s@) <= cap,
            None => text::byte_len(full_list(text::views(items@))) > cap,
        },
{
    let ghost all = text::views(items@);
    let mut out = String::new();
    let mut i: usize = 0;
    assert(all.skip(0) =~= all);
    assert(Seq::<char>::empty() + Seq::<char>::empty() + full_list(all) =~= full_list(all));
    while i < items.len()
        invariant
            i <= items@.len(),
            items@.len() > 0,
            all == text::views(items@),
            full_list(all) == out@ + (if i < items@.len() {
                gap(i as int)
            } else {
                Seq::empty()
            }) + full_list(all.skip(i as int)),
        decreases items@.len() - i,
    {
        let ghost before = out@;
        let ghost rest = all.skip(i as int);
        let ghost next = all.skip(i + 1);
        proof {
            assert(rest[0] == items@[i as int]@);
            assert(rest.drop_first() =~= next);
        }
        if i > 0 {
            out.push(' ');
        }
        out.push('"');
        let ghost open = out@;
        let ghost q = quoted(rest[0]);
        let ghost tail = seq!['"'] + (if rest.len() > 1 {
            seq![' ']
        } else {
            Seq::empty()
        }) + full_list(next);
        proof {
            assert(open =~= before + gap(i as int) + seq!['"']);
            assert(full_list(all) =~= open + q + tail);
        }
        if !push_within(&mut out, items[i].as_str(), cap) {
            proof {
                lemma_concat_bytes(open + q, tail);
            }
            return None;
        }
        out.push('"');
        proof {
            assert(full_list(all) =~= out@ + (if i + 1 < items@.len() {
                gap(i + 1)
            } else {
                Seq::empty()
            }) + full_list(next));
        }
        if out.as_str().as_bytes().len() > cap {
            proof {
                let more = (if i + 1 < items@.len() {
                    gap(i + 1)
                } else {
                    Seq::empty()
                }) + full_list(next);
                assert(full_list(all) =~= out@ + more);
                lemma_concat_bytes(out@, more);
            }
            return None;
        }
        i += 1;
    }
    assert(full_list(all.skip(i as int)) =~= Seq::empty());
    assert(full_list(all) =~= out@);
    if out.as_str().as_bytes().len() > cap {
        return None;
    }
    Some(out)
}

/// Appends the characters of an item, quoted, as many as have room; tells whether
/// it was cut.
fn push_cut(out: &mut String, item: &str, cap: usize) -> (cut: bool)
    ensures
        (final(out)@, cut) == cut_item(item@, 0, old(out)@, cap as nat),
{
    let ghost start = out@;
    for c in it: item.chars()
        invariant
            start == old(out)@,
            it.seq() == item@,
            cut_item(item@, it.index() as int, out@, cap as nat) == cut_item(item@, 0, start, cap as nat),
    {
        let mut piece = String::new();
        push_quoted(&mut piece, c);
        assert(piece@ =~= quoted_char(c));
        let n: usize = out.as_str().as_bytes().len();
        let m: usize = piece.as_str().as_bytes().len();
        if cap < 4 || m > cap - 4 || n > cap - 4 - m {
            out.append("…\"");
            return true;
        }
        out.append(piece.as_str());
    }
    false
}

/// Shows as much of a list as has room.
fn cut_list(items: &[String], cap: usize) -> (r: String)
    ensures
        r@ == cut_from(text::views(items@), 0, Seq::empty(), cap as nat),
{
    let ghost all = text::views(items@);
    let mut out = String::new();
    let mut i: usize = 0;
    assert(out@ =~= Seq::empty());
    while i < items.len()
        invariant
            i <= items@.len(),
            all == text::views(items@),
            cut_from(all, i as int, out@, cap as nat) == cut_from(all, 0, Seq::empty(), cap as nat),
        decreases items@.len() - i,
    {
        let ghost before = out@;
        let spare: usize = if i > 0 {
            6
        } else {
            5
        };
        if cap < spare || out.as_str().as_bytes().len() > cap - spare {
            out.append("…");
            return out;
        }
        if i > 0 {
            out.push(' ');
        }
        out.push('"');
        assert(out@ =~= before + gap(i as int) + seq!['"']);
        assert(all[i as int] == items@[i as int]@);
        if push_cut(&mut out, items[i].as_str(), cap) {
            return out;
        }
        let ghost body = out@;
        out.push('"');
        assert(out@ =~= body + seq!['"']);
        i += 1;
    }
    out
}

/// Puts spaces after a text until it takes `cap` bytes.
fn fill(s: String, cap: usize) -> (r: String)
    ensures
        r@ == filled(s@, cap as nat),
{
    let ghost start = s@;
    let mut out = s;
    let mut n: usize = out.as_str().as_bytes().len();
    let ghost mut k: nat = 0;
    assert(Seq::new(0, |j: int| ' ') =~= Seq::<char>::empty());
    assert(start + Seq::new(0, |j: int| ' ') =~= start);
    while n < cap
        invariant
            n == text::byte_len(start) + k,
            n <= cap || k == 0,
            out@ == start + Seq::new(k, |j: int| ' '),
        decreases cap - n,
    {
        out.push(' ');
        assert(out@ =~= start + Seq::new(k + 1, |j: int| ' '));
        proof {
            k = k + 1;
        }
        n += 1;
    }
    out
}

/// Shows a list without ambiguity and within bounds.
pub fn canon_list(items: &[String], cap: usize) -> (r: String)
    ensures
        r@ == listed(text::views(items@), cap as nat),
{
    if items.len() == 0 {
        return "(空)".to_string();
    }
    match list_within(items, cap) {
        Some(s) => s,
        None => fill(cut_list(items, cap), cap),
    }
}

} // verus!
