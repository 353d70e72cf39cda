//! What holds of splitting, trimming, cutting and of numbers as texts.

use crate::text;
use vstd::prelude::*;
use vstd::utf8::*;

verus! {

/// Splitting takes a text apart and loses nothing: no piece holds the separator, and with
/// the separator between them again the pieces are the text.
pub proof fn law_split_pieces(s: Seq<char>, sep: char)
    ensures
        text::split_on(s, sep).len() > 0,
        text::join_with(text::split_on(s, sep), seq![sep]) == s,
        forall|i: int| 0 <= i < text::split_on(s, sep).len() ==> !(#[trigger] text::split_on(s, sep)[i]).contains(sep),
    decreases s.len(),
{
    text::lemma_split_on_free(s, sep);
    text::lemma_split_on_nonempty(s, sep);
    if s.len() == 0 {
        assert(text::join_with(text::split_on(s, sep), seq![sep]) =~= s);
    } else {
        let p = s.drop_last();
        let front = text::split_on(p, sep);
        law_split_pieces(p, sep);
        let all = text::split_on(s, sep);
        if s.last() == sep {
            assert(all.drop_last() =~= front);
            assert(p + seq![sep] + Seq::<char>::empty() =~= s);
        } else {
            let rest = front.drop_last();
            let last = front.last();
            assert(all.drop_last() =~= rest);
            assert(last.push(s.last()) == all.last());
            if rest.len() == 0 {
                assert(front[0] == last);
                assert(p.push(s.last()) =~= s);
            } else {
                let j = text::join_with(rest, seq![sep]);
                assert(p == j + seq![sep] + last);
                assert(j + seq![sep] + last.push(s.last()) =~= (j + seq![sep] + last).push(s.last()));
                assert(p.push(s.last()) =~= s);
            }
        }
    }
}

/// White space is these characters and no others.
pub proof fn law_white_space(c: char)
    ensures
        text::is_space(c) <==> ('\t' <= c <= '\r') || c == ' ' || c == '\u{85}' || c == '\u{a0}' || c == '\u{1680}' || (
        '\u{2000}' <= c <= '\u{200a}') || c == '\u{2028}' || c == '\u{2029}' || c == '\u{202f}' || c == '\u{205f}' || c
            == '\u{3000}',
{
}

/// Control characters are those below the space and those from delete to the end of the
/// second control block.
pub proof fn law_control_characters(c: char)
    ensures
        text::is_ctl(c) <==> c < ' ' || ('\u{7f}' <= c <= '\u{9f}'),
{
}

/// Whether a text is white space throughout.
pub open spec fn blank(s: Seq<char>) -> bool {
    forall|i: int| 0 <= i < s.len() ==> text::is_space(#[trigger] s[i])
}

proof fn lemma_strip_front(a: Seq<char>, b: Seq<char>, p: spec_fn(char) -> bool)
    requires
        forall|i: int| 0 <= i < a.len() ==> p(#[trigger] a[i]),
        b.len() > 0 ==> !p(b[0]),
    ensures
        text::strip_front(a + b, p) == b,
    decreases a.len(),
{
    if a.len() == 0 {
        assert(a + b =~= b);
    } else {
        let t = a.drop_first();
        assert forall|i: int| 0 <= i < t.len() implies p(#[trigger] t[i]) by {
            assert(t[i] == a[i + 1]);
        }
        assert(p(a[0]));
        assert((a + b).drop_first() =~= t + b);
        lemma_strip_front(t, b, p);
    }
}

proof fn lemma_strip_back(a: Seq<char>, b: Seq<char>, p: spec_fn(char) -> bool)
    requires
        forall|i: int| 0 <= i < b.len() ==> p(#[trigger] b[i]),
        a.len() > 0 ==> !p(a.last()),
    ensures
        text::strip_back(a + b, p) == a,
    decreases b.len(),
{
    if b.len() == 0 {
        assert(a + b =~= a);
    } else {
        let t = b.drop_last();
        assert forall|i: int| 0 <= i < t.len() implies p(#[trigger] t[i]) by {
            assert(t[i] == b[i]);
        }
        assert(p(b[b.len() - 1]));
        assert((a + b).drop_last() =~= a + t);
        assert((a + b).last() == b.last());
        lemma_strip_back(a, t, p);
    }
}

/// Trimming takes away the white space at the two ends and nothing else.
pub proof fn law_trimming(before: Seq<char>, s: Seq<char>, after: Seq<char>)
    requires
        blank(before),
        blank(after),
        s.len() > 0 ==> !text::is_space(s[0]) && !text::is_space(s.last()),
    ensures
        s.len() > 0 ==> text::trimmed(before + s + after) == s,
        s.len() > 0 ==> text::trimmed_back(before + s + after) == before + s,
        text::trimmed(before) == Seq::<char>::empty(),
{
    let p = |c: char| text::is_space(c);
    let none = Seq::<char>::empty();
    assert forall|i: int| 0 <= i < before.len() implies p(#[trigger] before[i]) by {
        assert(text::is_space(before[i]));
    }
    assert forall|i: int| 0 <= i < after.len() implies p(#[trigger] after[i]) by {
        assert(text::is_space(after[i]));
    }
    lemma_strip_front(before, none, p);
    assert(before + none =~= before);
    if s.len() > 0 {
        assert(before + s + after =~= before + (s + after));
        lemma_strip_front(before, s + after, p);
        lemma_strip_back(s, after, p);
        lemma_strip_back(before + s, after, p);
    }
}

/// Slashes at the back are taken away, all of them, and none before.
pub proof fn law_trailing_slashes(s: Seq<char>, slashes: Seq<char>)
    requires
        s.len() > 0 ==> s.last() != '/',
        forall|i: int| 0 <= i < slashes.len() ==> #[trigger] slashes[i] == '/',
    ensures
        text::no_slash_back(s + slashes) == s,
{
    let p = |c: char| c == '/';
    assert forall|i: int| 0 <= i < slashes.len() implies p(#[trigger] slashes[i]) by {}
    lemma_strip_back(s, slashes, p);
}

/// A text is cut at the first place where a character stands; where it does not stand, it
/// is not cut.
pub proof fn law_cutting(a: Seq<char>, c: char, b: Seq<char>)
    requires
        !a.contains(c),
    ensures
        text::cut(a + seq![c] + b, c) == Some((a, b)),
        text::cut(a, c) is None,
{
    let s = a + seq![c] + b;
    let n = a.len() as int;
    assert(s[n] == c);
    s.index_of_first_ensures(c);
    let i = s.index_of_first(c)->0;
    if i < n {
        assert(a[i] == c);
    }
    assert(s.take(n) =~= a);
    assert(s.skip(n + 1) =~= b);
}

/// A decimal number is read digit by digit: each further digit is worth ten times less,
/// anything but a digit makes it no number, and so does having none.
pub proof fn law_digits(s: Seq<char>, c: char)
    ensures
        text::digits_value(Seq::empty()) is None,
        '0' <= c <= '9' ==> text::digits_value(seq![c]) == Some((c as u32 - 48) as nat),
        '0' <= c <= '9' && text::digits_value(s) is Some ==> text::digits_value(s.push(c)) == Some(
            text::digits_value(s)->0 * 10 + (c as u32 - 48) as nat,
        ),
        !('0' <= c <= '9') ==> text::digits_value(s.push(c)) is None,
        s.len() > 0 && text::digits_value(s) is None ==> text::digits_value(s.push(c)) is None,
{
    assert(s.push(c).drop_last() =~= s);
    assert(seq![c].last() == c);
}

/// A number is read up to its limit and not beyond, with or without one plus sign.
pub proof fn law_number_limit(n: nat, max: nat)
    ensures
        text::parse_dec(text::dec(n), max) is Some <==> n <= max,
        n <= max ==> text::parse_dec(text::dec(n), max) == Some(n),
        text::parse_dec("+"@ + text::dec(n), max) == text::parse_dec(text::dec(n), max),
{
    reveal_strlit("+");
    text::lemma_dec_value(n);
    let d = text::dec(n);
    assert(("+"@ + d).drop_first() =~= d);
}

proof fn lemma_sign(c: char, d: Seq<char>)
    requires
        !('0' <= c <= '9'),
    ensures
        text::digits_value(seq![c] + d) is None,
    decreases d.len(),
{
    let s = seq![c] + d;
    if d.len() == 0 {
        assert(s =~= seq![c]);
        assert(s.last() == c);
    } else {
        lemma_sign(c, d.drop_last());
        assert(s.drop_last() =~= seq![c] + d.drop_last());
    }
}

/// What begins with anything but a digit is no number, but for one plus sign before a digit.
pub proof fn law_number_beginnings(c: char, s: Seq<char>, max: nat)
    requires
        !('0' <= c <= '9'),
    ensures
        c != '+' ==> text::parse_dec(seq![c] + s, max) is None,
        text::parse_dec(seq!['+', c] + s, max) is None,
        text::parse_dec(seq!['+'], max) is None,
        text::parse_dec(Seq::empty(), max) is None,
{
    let plus = seq!['+', c] + s;
    lemma_sign(c, s);
    assert(plus.drop_first() =~= seq![c] + s);
    lemma_sign('+', Seq::empty());
    assert(seq!['+'] + Seq::<char>::empty() =~= seq!['+']);
}

/// A byte in hexadecimal is its two digits, the higher first, letters small.
pub proof fn law_hex_bytes(b: Seq<u8>, x: u8)
    ensures
        text::hex(Seq::empty()) == Seq::<char>::empty(),
        text::hex(b.push(x)) == text::hex(b) + seq!["0123456789abcdef"@[x as int / 16], "0123456789abcdef"@[x as int % 16]],
{
    reveal_strlit("0123456789abcdef");
    assert(b.push(x).drop_last() =~= b);
    let hi = x as int / 16;
    let lo = x as int % 16;
    lemma_hex_digit(hi as nat);
    lemma_hex_digit(lo as nat);
    assert(text::hex2(x) =~= seq!["0123456789abcdef"@[hi], "0123456789abcdef"@[lo]]);
}

proof fn lemma_hex_digit(d: nat)
    requires
        d < 16,
    ensures
        text::hex_digit(d) == "0123456789abcdef"@[d as int],
{
    reveal_strlit("0123456789abcdef");
    let s = "0123456789abcdef"@;
    assert(s[0] == '0' && s[1] == '1' && s[2] == '2' && s[3] == '3' && s[4] == '4' && s[5] == '5' && s[6] == '6' && s[7]
        == '7');
    assert(s[8] == '8' && s[9] == '9' && s[10] == 'a' && s[11] == 'b' && s[12] == 'c' && s[13] == 'd' && s[14] == 'e'
        && s[15] == 'f');
}

/// A number in decimal is its digits, the highest first, without zeros before it.
pub proof fn law_decimal_writing(n: nat, d: nat)
    requires
        d < 10,
    ensures
        text::dec(d) == seq!["0123456789"@[d as int]],
        n > 0 ==> text::dec(n * 10 + d) == text::dec(n).push("0123456789"@[d as int]),
{
    reveal_strlit("0123456789");
    let s = "0123456789"@;
    assert(s[0] == '0' && s[1] == '1' && s[2] == '2' && s[3] == '3' && s[4] == '4' && s[5] == '5' && s[6] == '6' && s[7]
        == '7' && s[8] == '8' && s[9] == '9');
    assert(text::digit_char(d) == s[d as int]);
    if n > 0 {
        assert((n * 10 + d) / 10 == n && (n * 10 + d) % 10 == d);
    }
}

/// Small letters of ASCII become capital, and every other character of ASCII stays.
pub proof fn law_upper_case(s: Seq<char>, i: int)
    requires
        is_ascii_chars(s),
        0 <= i < s.len(),
    ensures
        text::upper(s).len() == s.len(),
        'a' <= s[i] <= 'z' ==> text::upper(s)[i] as u32 == s[i] as u32 - 32,
        !('a' <= s[i] <= 'z') ==> text::upper(s)[i] == s[i],
{
}

/// Slashes at both ends are taken away.
pub proof fn lemma_outer_slashes(before: Seq<char>, s: Seq<char>, after: Seq<char>)
    requires
        forall|i: int| 0 <= i < before.len() ==> #[trigger] before[i] == '/',
        forall|i: int| 0 <= i < after.len() ==> #[trigger] after[i] == '/',
        s.len() > 0 && s[0] != '/' && s.last() != '/',
    ensures
        text::no_slash_ends(before + s + after) == s,
{
    let p = |c: char| c == '/';
    assert forall|i: int| 0 <= i < before.len() implies p(#[trigger] before[i]) by {}
    assert forall|i: int| 0 <= i < after.len() implies p(#[trigger] after[i]) by {}
    assert(before + s + after =~= before + (s + after));
    lemma_strip_front(before, s + after, p);
    lemma_strip_back(s, after, p);
}

proof fn lemma_pieces_apart(a: Seq<char>, c: char, b: Seq<char>)
    requires
        text::is_space(c),
    ensures
        text::space_pieces(a.push(c) + b) == text::space_pieces(a) + text::space_pieces(b),
    decreases b.len(),
{
    lemma_pieces_some(b);
    if b.len() == 0 {
        assert(a.push(c) + b =~= a.push(c));
        assert(a.push(c).drop_last() =~= a);
        assert(text::space_pieces(a).push(Seq::empty()) =~= text::space_pieces(a) + text::space_pieces(b));
    } else {
        let whole = a.push(c) + b;
        let t = b.drop_last();
        lemma_pieces_apart(a, c, t);
        lemma_pieces_some(t);
        assert(whole.drop_last() =~= a.push(c) + t);
        assert(whole.last() == b.last());
        let x = text::space_pieces(a);
        let y = text::space_pieces(t);
        if text::is_space(b.last()) {
            assert((x + y).push(Seq::empty()) =~= x + y.push(Seq::empty()));
        } else {
            assert((x + y).drop_last() =~= x + y.drop_last());
            assert((x + y).last() == y.last());
            let last = y.last().push(b.last());
            assert((x + y.drop_last()).push(last) =~= x + y.drop_last().push(last));
        }
    }
}

proof fn lemma_pieces_some(s: Seq<char>)
    ensures
        text::space_pieces(s).len() > 0,
    decreases s.len(),
{
    if s.len() > 0 {
        lemma_pieces_some(s.drop_last());
    }
}

proof fn lemma_one_word(w: Seq<char>)
    requires
        forall|i: int| 0 <= i < w.len() ==> !text::is_space(#[trigger] w[i]),
    ensures
        text::space_pieces(w) == seq![w],
    decreases w.len(),
{
    if w.len() == 0 {
        assert(w =~= Seq::empty());
    } else {
        let v = w.drop_last();
        lemma_one_word(v);
        assert(seq![v].drop_last() =~= Seq::empty());
        assert(v.push(w.last()) =~= w);
        assert(Seq::<Seq<char>>::empty().push(w) =~= seq![w]);
    }
}

/// The words of a text are what stands between its white space, however much there is: a
/// text without any is one word, and the words of two texts with white space between them
/// are those of the first and then those of the second.
pub proof fn law_words(w: Seq<char>, a: Seq<char>, c: char, b: Seq<char>)
    requires
        w.len() > 0,
        forall|i: int| 0 <= i < w.len() ==> !text::is_space(#[trigger] w[i]),
        text::is_space(c),
    ensures
        text::words(Seq::empty()) == Seq::<Seq<char>>::empty(),
        text::words(w) == seq![w],
        text::words(a.push(c) + b) == text::words(a) + text::words(b),
{
    let keep = |w: Seq<char>| w.len() > 0;
    let none = Seq::<char>::empty();
    lemma_one_word(w);
    lemma_one_word(none);
    lemma_pieces_apart(a, c, b);
    reveal(Seq::filter);
    let one = seq![w];
    let no = seq![none];
    assert(one.drop_last() =~= Seq::empty());
    assert(no.drop_last() =~= Seq::empty());
    assert(Seq::<Seq<char>>::empty().filter(keep) =~= Seq::empty());
    assert(one.filter(keep) =~= one);
    assert(no.filter(keep) =~= Seq::empty());
    Seq::filter_distributes_over_add(text::space_pieces(a), text::space_pieces(b), keep);
}

} // verus!
