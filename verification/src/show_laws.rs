//! What holds of texts as they are shown: nothing in them controls a terminal,
//! they are bounded, and a list can be read back.

use crate::show;
use crate::text;
use vstd::prelude::*;
use vstd::utf8::*;

verus! {

/// Whether a text holds no control character.
pub open spec fn no_control(s: Seq<char>) -> bool {
    forall|i: int| 0 <= i < s.len() ==> !text::is_ctl(#[trigger] s[i])
}

proof fn lemma_one_char(c: char)
    ensures
        1 <= text::byte_len(seq![c]) <= 4,
{
    let s = seq![c];
    char_is_scalar(c);
    assert(s.drop_first() =~= Seq::empty());
    assert(encode_utf8(s.drop_first()).len() == 0);
    assert(encode_utf8(s).len() == encode_scalar(c as u32).len());
}

proof fn lemma_ascii_bytes(s: Seq<char>)
    requires
        is_ascii_chars(s),
    ensures
        text::byte_len(s) == s.len(),
{
    is_ascii_chars_encode_utf8(s);
}

proof fn lemma_escaped(c: char)
    ensures
        no_control(show::escaped(c)),
        text::byte_len(show::escaped(c)) <= 4,
        show::escaped(c).len() > 0,
{
    if text::is_ctl(c) {
        reveal_strlit("\\x");
        let b = (c as u32 % 256) as u8;
        let e = show::escaped(c);
        assert(e.len() == 4);
        assert(e[0] == '\\' && e[1] == 'x');
        assert(text::is_hex_char(e[2]) && text::is_hex_char(e[3])) by {
            text::lemma_hex_shape(seq![b]);
            assert(text::hex(seq![b]) =~= text::hex2(b));
        }
        assert(is_ascii_chars(e)) by {
            assert forall|i: int| 0 <= i < e.len() implies '\0' <= #[trigger] e[i] <= '\u{7f}' by {}
        }
        lemma_ascii_bytes(e);
    } else {
        lemma_one_char(c);
    }
}

proof fn lemma_ellipsis()
    ensures
        no_control("…"@),
        text::byte_len("…"@) == 3,
{
    reveal_strlit("…");
    let s = "…"@;
    assert(s =~= seq!['…']);
    assert(s.drop_first() =~= Seq::empty());
    assert(encode_utf8(s.drop_first()).len() == 0);
    assert(encode_utf8(s).len() == encode_scalar('…' as u32).len());
}

proof fn lemma_display(s: Seq<char>, i: int, out: Seq<char>)
    requires
        no_control(out),
        text::byte_len(out) <= 160,
    ensures
        no_control(show::display_from(s, i, out)),
        text::byte_len(show::display_from(s, i, out)) <= 167,
    decreases s.len() - i,
{
    if 0 <= i < s.len() {
        let more = out + show::escaped(s[i]);
        lemma_escaped(s[i]);
        show::lemma_concat_bytes(out, show::escaped(s[i]));
        if text::byte_len(more) > 160 {
            lemma_ellipsis();
            show::lemma_concat_bytes(more, "…"@);
        } else {
            lemma_display(s, i + 1, more);
        }
    }
}

/// What is shown of any text holds no control character and takes at most 167
/// bytes.
pub proof fn law_display_is_harmless(s: Seq<char>)
    ensures
        no_control(show::displayed(s)),
        text::byte_len(show::displayed(s)) <= 167,
{
    lemma_display(s, 0, Seq::empty());
}

proof fn lemma_quoted(c: char)
    ensures
        no_control(show::quoted_char(c)),
        text::byte_len(show::quoted_char(c)) <= 4,
{
    reveal_strlit("\\\"");
    reveal_strlit("\\\\");
    let q = show::quoted_char(c);
    if c == '"' || c == '\\' {
        assert(q.len() == 2);
        assert(is_ascii_chars(q));
        lemma_ascii_bytes(q);
    } else {
        lemma_escaped(c);
    }
}

proof fn lemma_cut_mark()
    ensures
        no_control("…\""@),
        text::byte_len("…\""@) == 4,
{
    reveal_strlit("…\"");
    reveal_strlit("…");
    lemma_ellipsis();
    assert("…\""@ =~= "…"@ + seq!['"']);
    show::lemma_concat_bytes("…"@, seq!['"']);
    lemma_ascii_bytes(seq!['"']);
}

proof fn lemma_no_control_concat(a: Seq<char>, b: Seq<char>)
    requires
        no_control(a),
        no_control(b),
    ensures
        no_control(a + b),
{
    assert forall|i: int| 0 <= i < (a + b).len() implies !text::is_ctl(#[trigger] (a + b)[i]) by {
        if i >= a.len() {
            assert((a + b)[i] == b[i - a.len()]);
        }
    }
}

proof fn lemma_quoted_plain(item: Seq<char>)
    ensures
        no_control(show::quoted(item)),
    decreases item.len(),
{
    if item.len() > 0 {
        lemma_quoted(item[0]);
        lemma_quoted_plain(item.drop_first());
        lemma_no_control_concat(show::quoted_char(item[0]), show::quoted(item.drop_first()));
    }
}

proof fn lemma_full_plain(items: Seq<Seq<char>>)
    ensures
        no_control(show::full_list(items)),
    decreases items.len(),
{
    if items.len() > 0 {
        let q = seq!['"'];
        let sep: Seq<char> = if items.len() > 1 {
            seq![' ']
        } else {
            Seq::empty()
        };
        lemma_quoted_plain(items[0]);
        lemma_full_plain(items.drop_first());
        lemma_no_control_concat(q, show::quoted(items[0]));
        lemma_no_control_concat(q + show::quoted(items[0]), q);
        lemma_no_control_concat(q + show::quoted(items[0]) + q, sep);
        lemma_no_control_concat(
            q + show::quoted(items[0]) + q + sep,
            show::full_list(items.drop_first()),
        );
    }
}

proof fn lemma_cut_item(item: Seq<char>, j: int, out: Seq<char>, cap: nat)
    requires
        no_control(out),
    ensures
        ({
            let (body, cut) = show::cut_item(item, j, out, cap);
            &&& no_control(body)
            &&& text::byte_len(out) + 4 <= cap ==> text::byte_len(body) + (if cut {
                0int
            } else {
                4
            }) <= cap
        }),
    decreases item.len() - j,
{
    if 0 <= j < item.len() {
        let piece = show::quoted_char(item[j]);
        lemma_quoted(item[j]);
        if text::byte_len(out) + text::byte_len(piece) + 4 > cap {
            lemma_cut_mark();
            lemma_no_control_concat(out, "…\""@);
            show::lemma_concat_bytes(out, "…\""@);
        } else {
            lemma_no_control_concat(out, piece);
            show::lemma_concat_bytes(out, piece);
            lemma_cut_item(item, j + 1, out + piece, cap);
        }
    }
}

proof fn lemma_cut_from(items: Seq<Seq<char>>, i: int, out: Seq<char>, cap: nat)
    requires
        no_control(out),
    ensures
        no_control(show::cut_from(items, i, out, cap)),
        text::byte_len(out) + 3 <= cap ==> text::byte_len(show::cut_from(items, i, out, cap)) <= cap,
    decreases items.len() - i,
{
    if 0 <= i < items.len() {
        let q = seq!['"'];
        let gap = show::gap(i);
        if text::byte_len(out) + gap.len() + 5 > cap {
            lemma_ellipsis();
            lemma_no_control_concat(out, "…"@);
            show::lemma_concat_bytes(out, "…"@);
        } else {
            assert(is_ascii_chars(gap));
            lemma_ascii_bytes(gap);
            lemma_ascii_bytes(q);
            lemma_no_control_concat(out, gap);
            lemma_no_control_concat(out + gap, q);
            show::lemma_concat_bytes(out, gap);
            show::lemma_concat_bytes(out + gap, q);
            lemma_cut_item(items[i], 0, out + gap + q, cap);
            let (body, cut) = show::cut_item(items[i], 0, out + gap + q, cap);
            if !cut {
                lemma_no_control_concat(body, q);
                show::lemma_concat_bytes(body, q);
                lemma_cut_from(items, i + 1, body + q, cap);
            }
        }
    }
}

proof fn lemma_filled(s: Seq<char>, cap: nat)
    requires
        no_control(s),
    ensures
        no_control(show::filled(s, cap)),
        text::byte_len(show::filled(s, cap)) == (if text::byte_len(s) < cap {
            cap
        } else {
            text::byte_len(s)
        }),
{
    if text::byte_len(s) < cap {
        let spaces = Seq::new((cap - text::byte_len(s)) as nat, |k: int| ' ');
        assert(is_ascii_chars(spaces));
        lemma_ascii_bytes(spaces);
        assert(no_control(spaces));
        lemma_no_control_concat(s, spaces);
        show::lemma_concat_bytes(s, spaces);
    }
}

proof fn lemma_empty_shown()
    ensures
        no_control("(空)"@),
        text::byte_len("(空)"@) == 5,
        "(空)"@.len() == 3,
        "(空)"@[0] == '(',
{
    reveal_strlit("(空)");
    let s = "(空)"@;
    assert(s =~= seq!['('] + seq!['空'] + seq![')']);
    lemma_ascii_bytes(seq!['(']);
    lemma_ascii_bytes(seq![')']);
    let m = seq!['空'];
    assert(m.drop_first() =~= Seq::empty());
    assert(encode_utf8(m.drop_first()).len() == 0);
    assert(encode_utf8(m).len() == encode_scalar('空' as u32).len());
    show::lemma_concat_bytes(seq!['('], seq!['空']);
    show::lemma_concat_bytes(seq!['('] + seq!['空'], seq![')']);
}

/// What is shown of any list holds no control character.
pub proof fn law_list_is_harmless(items: Seq<Seq<char>>, cap: nat)
    ensures
        no_control(show::listed(items, cap)),
{
    lemma_empty_shown();
    lemma_full_plain(items);
    lemma_cut_from(items, 0, Seq::empty(), cap);
    lemma_filled(show::cut_from(items, 0, Seq::empty(), cap), cap);
}

/// What is shown of any list never goes over its cap, and one that had to be cut
/// takes all of it. An empty list takes five bytes.
pub proof fn law_list_is_bounded(items: Seq<Seq<char>>, cap: nat)
    requires
        cap >= 5,
    ensures
        text::byte_len(show::listed(items, cap)) <= cap,
        text::byte_len(show::full_list(items)) > cap ==> text::byte_len(show::listed(items, cap)) == cap,
{
    lemma_empty_shown();
    assert(encode_utf8(Seq::<char>::empty()).len() == 0);
    lemma_cut_from(items, 0, Seq::empty(), cap);
    lemma_filled(show::cut_from(items, 0, Seq::empty(), cap), cap);
}

proof fn lemma_hex_digits_differ(a: u8, b: u8)
    requires
        text::hex2(a) == text::hex2(b),
    ensures
        a == b,
{
    assert(text::hex2(a)[0] == text::hex2(b)[0]);
    assert(text::hex2(a)[1] == text::hex2(b)[1]);
}

/// A quoted character can be read off the text that it begins.
proof fn lemma_quoted_char_reads(c: char, x: Seq<char>, d: char, y: Seq<char>)
    requires
        show::quoted_char(c) + x == show::quoted_char(d) + y,
    ensures
        c == d,
        x == y,
{
    reveal_strlit("\\\"");
    reveal_strlit("\\\\");
    reveal_strlit("\\x");
    let p = show::quoted_char(c);
    let q = show::quoted_char(d);
    let whole = p + x;
    assert(whole[0] == p[0] && (q + y)[0] == q[0]);
    assert(p.len() > 1 ==> whole[1] == p[1]);
    assert(q.len() > 1 ==> (q + y)[1] == q[1]);
    assert(p.len() == 4 ==> whole[2] == p[2] && whole[3] == p[3]);
    assert(q.len() == 4 ==> (q + y)[2] == q[2] && (q + y)[3] == q[3]);
    if text::is_ctl(c) {
        assert(p.len() == 4 && p[0] == '\\' && p[1] == 'x');
    }
    if text::is_ctl(d) {
        assert(q.len() == 4 && q[0] == '\\' && q[1] == 'x');
    }
    if text::is_ctl(c) && text::is_ctl(d) {
        let a = (c as u32 % 256) as u8;
        let b = (d as u32 % 256) as u8;
        assert(text::hex2(a) =~= p.skip(2));
        assert(text::hex2(b) =~= q.skip(2));
        assert(text::hex2(a) =~= text::hex2(b));
        lemma_hex_digits_differ(a, b);
        assert(c as u32 == d as u32);
    }
    assert(c == d);
    assert(x =~= whole.skip(p.len() as int));
    assert(y =~= (q + y).skip(q.len() as int));
}

/// A quoted item can be read off the text that it begins.
proof fn lemma_quoted_reads(a: Seq<char>, x: Seq<char>, b: Seq<char>, y: Seq<char>)
    requires
        show::quoted(a) + seq!['"'] + x == show::quoted(b) + seq!['"'] + y,
    ensures
        a == b,
        x == y,
    decreases a.len(),
{
    reveal_strlit("\\\"");
    reveal_strlit("\\\\");
    reveal_strlit("\\x");
    let s = show::quoted(a) + seq!['"'] + x;
    let t = show::quoted(b) + seq!['"'] + y;
    if a.len() == 0 && b.len() == 0 {
        assert(a =~= b);
        assert(x =~= s.skip(1));
        assert(y =~= t.skip(1));
    } else if a.len() == 0 {
        assert(s[0] == '"');
        assert(t[0] == show::quoted_char(b[0])[0]);
        assert(false);
    } else if b.len() == 0 {
        assert(t[0] == '"');
        assert(s[0] == show::quoted_char(a[0])[0]);
        assert(false);
    } else {
        let xs = show::quoted(a.drop_first()) + seq!['"'] + x;
        let ys = show::quoted(b.drop_first()) + seq!['"'] + y;
        assert(s =~= show::quoted_char(a[0]) + xs);
        assert(t =~= show::quoted_char(b[0]) + ys);
        lemma_quoted_char_reads(a[0], xs, b[0], ys);
        lemma_quoted_reads(a.drop_first(), x, b.drop_first(), y);
        assert(a =~= seq![a[0]] + a.drop_first());
        assert(b =~= seq![b[0]] + b.drop_first());
    }
}

/// What follows the first item of a list in full.
spec fn after_first(items: Seq<Seq<char>>) -> Seq<char> {
    (if items.len() > 1 {
        seq![' ']
    } else {
        Seq::empty()
    }) + show::full_list(items.drop_first())
}

proof fn lemma_full_list(items: Seq<Seq<char>>)
    requires
        items.len() > 0,
    ensures
        show::full_list(items).len() > 0,
        show::full_list(items).skip(1) == show::quoted(items[0]) + seq!['"'] + after_first(items),
        items.len() == 1 ==> after_first(items).len() == 0,
        items.len() > 1 ==> after_first(items).len() > 0 && after_first(items).skip(1) == show::full_list(
            items.drop_first(),
        ),
{
    let rest = after_first(items);
    let s = show::quoted(items[0]) + seq!['"'] + rest;
    assert(show::full_list(items) =~= seq!['"'] + s);
    assert(show::full_list(items).skip(1) =~= s);
    if items.len() == 1 {
        assert(show::full_list(items.drop_first()).len() == 0);
    } else {
        assert(rest.skip(1) =~= show::full_list(items.drop_first()));
    }
}

proof fn lemma_first_and_rest(a: Seq<Seq<char>>, b: Seq<Seq<char>>)
    requires
        a.len() > 0,
        b.len() > 0,
        a[0] == b[0],
        a.drop_first() == b.drop_first(),
    ensures
        a == b,
{
    assert(a =~= seq![a[0]] + a.drop_first());
    assert(b =~= seq![b[0]] + b.drop_first());
}

/// A list in full fixes its items: an item with a space in it is not taken for
/// two, nor any other list for another.
pub proof fn law_full_list_fixes_items(a: Seq<Seq<char>>, b: Seq<Seq<char>>)
    requires
        show::full_list(a) == show::full_list(b),
    ensures
        a == b,
    decreases a.len(),
{
    if a.len() == 0 {
        if b.len() > 0 {
            lemma_full_list(b);
        }
        assert(a =~= b);
    } else {
        lemma_full_list(a);
        lemma_full_list(b);
        lemma_quoted_reads(a[0], after_first(a), b[0], after_first(b));
        if a.len() > 1 {
            law_full_list_fixes_items(a.drop_first(), b.drop_first());
        } else {
            assert(a.drop_first() =~= b.drop_first());
        }
        lemma_first_and_rest(a, b);
    }
}

/// A list whose full form fits is shown in full.
pub proof fn law_fitting_list_is_shown_in_full(items: Seq<Seq<char>>, cap: nat)
    requires
        items.len() > 0,
        text::byte_len(show::full_list(items)) <= cap,
    ensures
        show::listed(items, cap) == show::full_list(items),
{
}

/// What is shown below the cap fixes the list: two lists that are shown alike, in
/// fewer bytes than they might take, are the same.
pub proof fn law_uncut_lists_are_told_apart(a: Seq<Seq<char>>, b: Seq<Seq<char>>, cap: nat)
    requires
        text::byte_len(show::listed(a, cap)) < cap,
        text::byte_len(show::listed(b, cap)) < cap,
        show::listed(a, cap) == show::listed(b, cap),
    ensures
        a == b,
{
    lemma_empty_shown();
    lemma_cut_from(a, 0, Seq::empty(), cap);
    lemma_filled(show::cut_from(a, 0, Seq::empty(), cap), cap);
    lemma_cut_from(b, 0, Seq::empty(), cap);
    lemma_filled(show::cut_from(b, 0, Seq::empty(), cap), cap);
    if a.len() == 0 && b.len() == 0 {
        assert(a =~= b);
    } else if a.len() == 0 {
        assert(show::full_list(b)[0] == '"');
    } else if b.len() == 0 {
        assert(show::full_list(a)[0] == '"');
    } else {
        law_full_list_fixes_items(a, b);
    }
}

/// What is shown of a reference of ASCII is the whole of it up to fourteen characters, and
/// of a longer one the first fourteen and an ellipsis.
pub proof fn law_references_are_shortened(r: Seq<char>)
    requires
        is_ascii_chars(r),
    ensures
        r.len() <= 14 ==> show::shorted(r) == r && show::briefed(r) == r,
        r.len() > 14 ==> show::shorted(r) == r.take(14) + "…"@ && show::briefed(r) == r.take(14) + "…"@,
{
    show::lemma_ascii_showable(r);
}

/// A control character is shown as a backslash, an x and two hexadecimal digits, and any
/// other as itself; in quotes, a quote and a backslash have a backslash before them.
pub proof fn law_escapes(c: char)
    ensures
        c < ' ' || '\u{7f}' <= c <= '\u{9f}' ==> show::escaped(c) == seq!['\\', 'x'] + text::hex(seq![c as u8]),
        !(c < ' ' || '\u{7f}' <= c <= '\u{9f}') ==> show::escaped(c) == seq![c],
        show::quoted_char('"') == seq!['\\', '"'],
        show::quoted_char('\\') == seq!['\\', '\\'],
        c != '"' && c != '\\' ==> show::quoted_char(c) == show::escaped(c),
{
    reveal_strlit("\\x");
    reveal_strlit("\\\"");
    reveal_strlit("\\\\");
    assert("\\x"@ =~= seq!['\\', 'x']);
    assert("\\\""@ =~= seq!['\\', '"']);
    assert("\\\\"@ =~= seq!['\\', '\\']);
    if c < ' ' || '\u{7f}' <= c <= '\u{9f}' {
        let b = c as u8;
        assert(seq![b].drop_last() =~= Seq::empty());
        assert(text::hex(Seq::empty()) =~= Seq::empty());
        assert(text::hex(seq![b]) == text::hex(seq![b].drop_last()) + text::hex2(b));
        assert(text::hex(seq![b]) =~= text::hex2(b));
    }
}

/// A text of ASCII without control characters.
pub open spec fn plain(s: Seq<char>) -> bool {
    forall|i: int| 0 <= i < s.len() ==> ' ' <= #[trigger] s[i] <= '~'
}

proof fn lemma_display_plain(s: Seq<char>, i: int)
    requires
        plain(s),
        0 <= i <= s.len(),
        i <= 160,
    ensures
        show::display_from(s, i, s.take(i)) == if s.len() <= 160 {
            s
        } else {
            s.take(161) + "…"@
        },
    decreases s.len() - i,
{
    if i == s.len() {
        assert(s.take(i) =~= s);
    } else {
        let out = s.take(i);
        let more = out + show::escaped(s[i]);
        assert(' ' <= s[i] <= '~');
        assert(show::escaped(s[i]) == seq![s[i]]);
        assert(more =~= s.take(i + 1));
        assert(is_ascii_chars(more)) by {
            assert forall|k: int| 0 <= k < more.len() implies '\0' <= #[trigger] more[k] <= '\u{7f}' by {
                assert(more[k] == s[k]);
            }
        }
        is_ascii_chars_encode_utf8(more);
        if i < 160 {
            lemma_display_plain(s, i + 1);
        }
    }
}

/// A text of ASCII without control characters is shown as it is up to 160 characters; of a
/// longer one the first 161 are, and an ellipsis.
pub proof fn law_plain_text_is_shown(s: Seq<char>)
    requires
        plain(s),
    ensures
        s.len() <= 160 ==> show::displayed(s) == s,
        s.len() > 160 ==> show::displayed(s) == s.take(161) + "…"@,
{
    assert(s.take(0) =~= Seq::empty());
    lemma_display_plain(s, 0);
}

proof fn lemma_quoted_is_plain(s: Seq<char>)
    requires
        plain(s),
        !s.contains('"'),
        !s.contains('\\'),
    ensures
        show::quoted(s) == s,
    decreases s.len(),
{
    if s.len() > 0 {
        let t = s.drop_first();
        assert forall|i: int| 0 <= i < t.len() implies ' ' <= #[trigger] t[i] <= '~' && t[i] != '"' && t[i] != '\\' by {
            assert(t[i] == s[i + 1]);
            assert(' ' <= s[i + 1] <= '~');
            assert(s.contains(s[i + 1]));
        }
        lemma_quoted_is_plain(t);
        assert(' ' <= s[0] <= '~');
        assert(s.contains(s[0]));
        assert(show::quoted_char(s[0]) =~= seq![s[0]]);
        assert(seq![s[0]] + t =~= s);
    } else {
        assert(show::quoted(s) =~= s);
    }
}

/// A list in full is its items in quotes with a space between two, in order; nothing is
/// shown as such, and a list in full is shown wherever it has room.
pub proof fn law_list_form(item: Seq<char>, next: Seq<char>, rest: Seq<Seq<char>>, cap: nat)
    requires
        plain(item),
        !item.contains('"'),
        !item.contains('\\'),
    ensures
        show::full_list(seq![item]) == "\""@ + item + "\""@,
        show::full_list(seq![item, next] + rest) == "\""@ + item + "\" "@ + show::full_list(seq![next] + rest),
        show::listed(Seq::empty(), cap) == "(空)"@,
        item.len() + 2 <= cap ==> show::listed(seq![item], cap) == "\""@ + item + "\""@,
{
    reveal_strlit("\"");
    reveal_strlit("\" ");
    lemma_quoted_is_plain(item);
    let one = seq![item];
    assert(one.drop_first() =~= Seq::empty());
    assert(show::full_list(Seq::empty()) =~= Seq::empty());
    assert(show::full_list(one) =~= "\""@ + item + "\""@);
    let all = seq![item, next] + rest;
    assert(all.drop_first() =~= seq![next] + rest);
    assert(all[0] == item);
    assert(show::full_list(all) =~= "\""@ + item + "\" "@ + show::full_list(seq![next] + rest));
    let f = show::full_list(one);
    assert(is_ascii_chars(f)) by {
        assert forall|k: int| 0 <= k < f.len() implies '\0' <= #[trigger] f[k] <= '\u{7f}' by {
            if 0 < k < f.len() - 1 {
                assert(f[k] == item[k - 1]);
                assert(' ' <= item[k - 1] <= '~');
            }
        }
    }
    is_ascii_chars_encode_utf8(f);
}

proof fn lemma_item_beginning(item: Seq<char>, j: int, out: Seq<char>, cap: nat) -> (n: int)
    requires
        0 <= j <= item.len(),
    ensures
        ({
            let whole = out + show::quoted(item.skip(j));
            let (body, cut) = show::cut_item(item, j, out, cap);
            &&& !cut ==> body == whole
            &&& cut ==> out.len() <= n <= whole.len() && body == whole.take(n) + "…\""@ && text::byte_len(whole.take(n)) + 8
                > cap
        }),
    decreases item.len() - j,
{
    let rest = item.skip(j);
    let whole = out + show::quoted(rest);
    if j == item.len() {
        assert(rest =~= Seq::empty());
        assert(whole =~= out);
        0
    } else {
        let piece = show::quoted_char(item[j]);
        assert(rest[0] == item[j]);
        assert(rest.drop_first() =~= item.skip(j + 1));
        lemma_quoted(item[j]);
        if text::byte_len(out) + text::byte_len(piece) + 4 > cap {
            let n = out.len() as int;
            assert(whole.take(n) =~= out);
            n
        } else {
            assert(out + piece + show::quoted(item.skip(j + 1)) =~= whole);
            lemma_item_beginning(item, j + 1, out + piece, cap)
        }
    }
}

spec fn still_to_show(items: Seq<Seq<char>>, i: int) -> Seq<char> {
    if i < items.len() {
        show::gap(i) + show::full_list(items.skip(i))
    } else {
        Seq::empty()
    }
}

proof fn lemma_list_beginning(items: Seq<Seq<char>>, i: int, out: Seq<char>, cap: nat) -> (n: int)
    requires
        0 <= i <= items.len(),
    ensures
        ({
            let whole = out + still_to_show(items, i);
            let r = show::cut_from(items, i, out, cap);
            ||| r == whole
            ||| 0 <= n <= whole.len() && (r == whole.take(n) + "…"@ || r == whole.take(n) + "…\""@) && text::byte_len(
                whole.take(n),
            ) + 8 > cap
        }),
    decreases items.len() - i,
{
    let whole = out + still_to_show(items, i);
    if i == items.len() {
        assert(whole =~= out);
        0
    } else {
        let gap = show::gap(i);
        let q = seq!['"'];
        let rest = items.skip(i);
        assert(rest[0] == items[i]);
        assert(rest.drop_first() =~= items.skip(i + 1));
        let next = still_to_show(items, i + 1);
        assert(show::full_list(rest) =~= q + show::quoted(items[i]) + q + next) by {
            if i + 1 == items.len() {
                assert(show::full_list(items.skip(i + 1)) =~= Seq::empty());
            }
        }
        if text::byte_len(out) + gap.len() + 5 > cap {
            let n = out.len() as int;
            assert(whole.take(n) =~= out);
            n
        } else {
            let start = out + gap + q;
            let n = lemma_item_beginning(items[i], 0, start, cap);
            assert(items[i].skip(0) =~= items[i]);
            let (body, cut) = show::cut_item(items[i], 0, start, cap);
            let shown = start + show::quoted(items[i]);
            assert(whole =~= shown + (q + next));
            if cut {
                assert(whole.take(n) =~= shown.take(n));
                n
            } else {
                assert(body + q + next =~= whole);
                lemma_list_beginning(items, i + 1, body + q, cap)
            }
        }
    }
}

/// A list that has to be cut is shown as the beginning of the whole and an ellipsis, after
/// which there is nothing but a closing quote and spaces; and it is not cut before there
/// are fewer than eight bytes left.
pub proof fn law_cut_list_is_a_beginning(items: Seq<Seq<char>>, cap: nat) -> (n: int)
    requires
        cap >= 5,
        text::byte_len(show::full_list(items)) > cap,
    ensures
        ({
            let full = show::full_list(items);
            let r = show::listed(items, cap);
            &&& 0 <= n <= full.len() && n < r.len()
            &&& r.take(n) == full.take(n)
            &&& r[n] == '…'
            &&& n + 1 < r.len() ==> r[n + 1] == '"' || r[n + 1] == ' '
            &&& forall|k: int| n + 2 <= k < r.len() ==> #[trigger] r[k] == ' '
            &&& text::byte_len(full.take(n)) + 8 > cap
        }),
{
    let full = show::full_list(items);
    let none = Seq::<char>::empty();
    assert(encode_utf8(none).len() == 0);
    if items.len() == 0 {
        assert(full =~= none);
    }
    let n = lemma_list_beginning(items, 0, none, cap);
    assert(items.skip(0) =~= items);
    assert(none + still_to_show(items, 0) =~= full);
    lemma_cut_from(items, 0, none, cap);
    let c = show::cut_from(items, 0, none, cap);
    reveal_strlit("…");
    reveal_strlit("…\"");
    let r = show::listed(items, cap);
    assert(r.take(n) =~= full.take(n));
    n
}

} // verus!
