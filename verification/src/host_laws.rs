//! What holds of host names, of the addresses that they are looked up to, and of the
//! requests that are sent to them.

use crate::net;
use crate::net::HostAddr;
use crate::state;
use crate::text;
use crate::text_laws;
use vstd::prelude::*;
use vstd::utf8::*;

verus! {

/// A letter or a digit of ASCII.
pub open spec fn alnum(c: char) -> bool {
    ('0' <= c <= '9') || ('a' <= c <= 'z') || ('A' <= c <= 'Z')
}

/// A label of a host name: at most 63 letters, digits and hyphens, a hyphen at neither
/// end.
pub open spec fn host_label(l: Seq<char>) -> bool {
    &&& 1 <= l.len() <= 63
    &&& forall|i: int| 0 <= i < l.len() ==> alnum(#[trigger] l[i]) || l[i] == '-'
    &&& l[0] != '-'
    &&& l.last() != '-'
}

/// Whether a text has a character that is no digit.
pub open spec fn not_a_number(l: Seq<char>) -> bool {
    exists|i: int| 0 <= i < l.len() && !('0' <= #[trigger] l[i] <= '9')
}

proof fn lemma_char_from_zero(c: char)
    ensures
        '\0' <= c,
{
}

proof fn lemma_ascii_len(s: Seq<char>)
    requires
        forall|i: int| 0 <= i < s.len() ==> #[trigger] s[i] <= '\u{7f}',
    ensures
        text::byte_len(s) == s.len(),
{
    assert(is_ascii_chars(s)) by {
        assert forall|i: int| 0 <= i < s.len() implies '\0' <= #[trigger] s[i] <= '\u{7f}' by {
            lemma_char_from_zero(s[i]);
        }
    }
    is_ascii_chars_encode_utf8(s);
}

proof fn lemma_byte_len_grows(a: Seq<char>, b: Seq<char>)
    ensures
        text::byte_len(a + b) == text::byte_len(a) + text::byte_len(b),
{
    text::lemma_encode_concat(a, b);
}

proof fn lemma_label_len(l: Seq<char>)
    requires
        net::label_fault(l) is None,
    ensures
        host_label(l),
{
    assert forall|i: int| 0 <= i < l.len() implies #[trigger] l[i] <= '\u{7f}' && (alnum(l[i]) || l[i] == '-') by {
        assert(net::label_char(l[i]));
    }
    lemma_ascii_len(l);
}

proof fn lemma_label_good(l: Seq<char>)
    requires
        host_label(l),
    ensures
        net::label_fault(l) is None,
        text::byte_len(l) == l.len(),
        !l.contains('.') && !l.contains('[') && !l.contains(']') && !l.contains(':'),
{
    assert forall|i: int| 0 <= i < l.len() implies #[trigger] l[i] <= '\u{7f}' && net::label_char(l[i]) && l[i] != '.'
        && l[i] != '[' && l[i] != ']' && l[i] != ':' by {
        assert(alnum(l[i]) || l[i] == '-');
    }
    lemma_ascii_len(l);
}

proof fn lemma_labels_none(ls: Seq<Seq<char>>)
    ensures
        net::labels_fault(ls) is None <==> forall|i: int| 0 <= i < ls.len() ==> net::label_fault(#[trigger] ls[i]) is None,
    decreases ls.len(),
{
    if ls.len() > 0 {
        let p = ls.drop_last();
        lemma_labels_none(p);
        if net::labels_fault(ls) is None {
            assert forall|i: int| 0 <= i < ls.len() implies net::label_fault(#[trigger] ls[i]) is None by {
                if i < p.len() {
                    assert(net::label_fault(p[i]) is None);
                }
            }
        }
        if forall|i: int| 0 <= i < ls.len() ==> net::label_fault(#[trigger] ls[i]) is None {
            assert forall|i: int| 0 <= i < p.len() implies net::label_fault(#[trigger] p[i]) is None by {
                assert(net::label_fault(ls[i]) is None);
            }
            assert(net::label_fault(ls[ls.len() - 1]) is None);
        }
    }
}

proof fn lemma_joined_labels(ls: Seq<Seq<char>>)
    requires
        ls.len() > 0,
        forall|i: int| 0 <= i < ls.len() ==> host_label(#[trigger] ls[i]),
    ensures
        ({
            let h = text::join_with(ls, "."@);
            &&& h.len() > 0
            &&& h[0] == ls[0][0]
            &&& text::byte_len(h) == h.len()
            &&& !h.contains('[') && !h.contains(']') && !h.contains(':')
        }),
    decreases ls.len(),
{
    reveal_strlit(".");
    let h = text::join_with(ls, "."@);
    assert(host_label(ls[0]) && host_label(ls[ls.len() - 1]));
    lemma_label_good(ls[ls.len() - 1]);
    if ls.len() > 1 {
        let p = ls.drop_last();
        assert forall|i: int| 0 <= i < p.len() implies host_label(#[trigger] p[i]) by {
            assert(host_label(ls[i]));
        }
        lemma_joined_labels(p);
        let front = text::join_with(p, "."@);
        assert(p[0] == ls[0]);
        assert(h == front + "."@ + ls.last());
        lemma_ascii_len("."@);
        lemma_byte_len_grows(front, "."@);
        lemma_byte_len_grows(front + "."@, ls.last());
        assert forall|i: int| 0 <= i < h.len() implies #[trigger] h[i] != '[' && h[i] != ']' && h[i] != ':' by {
            if i < front.len() {
                assert(h[i] == front[i]);
            } else if i == front.len() {
                assert(h[i] == '.');
            } else {
                assert(h[i] == ls.last()[i - front.len() - 1]);
            }
        }
    }
}

/// A name of labels between dots is a host name, where it has at most 253 characters and
/// is not made of numbers alone.
pub proof fn law_host_names_pass(ls: Seq<Seq<char>>)
    requires
        ls.len() > 0,
        forall|i: int| 0 <= i < ls.len() ==> host_label(#[trigger] ls[i]),
        exists|i: int| 0 <= i < ls.len() && not_a_number(#[trigger] ls[i]),
        text::join_with(ls, "."@).len() <= 253,
    ensures
        net::host_check(text::join_with(ls, "."@)) is Ok,
{
    let h = text::join_with(ls, "."@);
    reveal_strlit(".");
    assert("."@ =~= seq!['.']);
    lemma_joined_labels(ls);
    assert forall|i: int| 0 <= i < ls.len() implies !(#[trigger] ls[i]).contains('.') && net::label_fault(ls[i]) is None by {
        lemma_label_good(ls[i]);
    }
    text::lemma_split_join(ls, '.');
    lemma_labels_none(ls);
    let i = choose|i: int| 0 <= i < ls.len() && not_a_number(#[trigger] ls[i]);
    assert(!net::all_digits(ls[i])) by {
        let j = choose|j: int| 0 <= j < ls[i].len() && !('0' <= #[trigger] ls[i][j] <= '9');
        assert(!net::is_digit(ls[i][j]));
    }
    assert(h[0] != '[') by {
        assert(h.contains(h[0]));
    }
}

/// What is let through as a host is an IPv6 address in brackets, or has at most 253
/// characters and is made of labels; and where all of them are numbers there are four,
/// none above 255 and none with a zero before it.
pub proof fn law_host_shape(host: Seq<char>)
    requires
        net::host_check(host) is Ok,
    ensures
        ({
            let ls = text::split_on(host, '.');
            &&& 0 < host.len()
            &&& host[0] == '[' ==> host.last() == ']' && net::is_v6_text(host.subrange(1, host.len() - 1))
            &&& host[0] != '[' ==> text::byte_len(host) <= 253 && (forall|i: int|
                0 <= i < ls.len() ==> host_label(#[trigger] ls[i]))
            &&& host[0] != '[' && (forall|i: int| 0 <= i < ls.len() ==> !not_a_number(#[trigger] ls[i])) ==> ls.len() == 4
                && forall|i: int| 0 <= i < 4 ==> exists|n: nat| n <= 255 && #[trigger] ls[i] == #[trigger] text::dec(n)
        }),
{
    let ls = text::split_on(host, '.');
    if host.len() == 0 {
        assert(encode_utf8(host) =~= Seq::empty());
    }
    if host[0] != '[' {
        if net::is_v4_text(host) {
            assert forall|i: int| 0 <= i < ls.len() implies host_label(#[trigger] ls[i]) && exists|n: nat|
                n <= 255 && ls[i] == #[trigger] text::dec(n) by {
                assert(i == 0 || i == 1 || i == 2 || i == 3);
                assert(net::is_octet(ls[i]));
                lemma_octet_is_number(ls[i]);
                assert forall|j: int| 0 <= j < ls[i].len() implies alnum(#[trigger] ls[i][j]) by {
                    assert(net::is_digit(ls[i][j]));
                }
            }
        } else {
            lemma_labels_none(ls);
            assert forall|i: int| 0 <= i < ls.len() implies host_label(#[trigger] ls[i]) by {
                assert(net::label_fault(ls[i]) is None);
                lemma_label_len(ls[i]);
            }
            let k = choose|k: int| 0 <= k < ls.len() && !net::all_digits(#[trigger] ls[k]);
            let j = choose|j: int| 0 <= j < ls[k].len() && !net::is_digit(#[trigger] ls[k][j]);
            assert(!('0' <= ls[k][j] <= '9'));
            assert(not_a_number(ls[k]));
        }
    }
}

proof fn lemma_octet_is_number(s: Seq<char>)
    requires
        net::is_octet(s),
    ensures
        exists|n: nat| n <= 255 && s == #[trigger] text::dec(n),
{
    assert(net::is_digit(s[0]));
    let a = (s[0] as u32 - 48) as nat;
    if s.len() == 1 {
        assert(text::dec(a) =~= s);
    } else {
        assert(net::is_digit(s[1]));
        let b = (s[1] as u32 - 48) as nat;
        let ab = a * 10 + b;
        assert(a >= 1);
        assert(ab / 10 == a && ab % 10 == b);
        assert(text::dec(a) =~= seq![s[0]]);
        assert(text::dec(ab) =~= seq![s[0], s[1]]);
        if s.len() == 2 {
            assert(text::dec(ab) =~= s);
        } else {
            assert(net::is_digit(s[2]));
            let c = (s[2] as u32 - 48) as nat;
            let abc = ab * 10 + c;
            assert(abc / 10 == ab && abc % 10 == c);
            assert(text::dec(abc) =~= seq![s[0], s[1], s[2]]);
            assert(text::dec(abc) =~= s);
            assert(abc <= 255);
        }
    }
}

proof fn lemma_number_is_octet(n: u8)
    ensures
        net::is_octet(text::dec(n as nat)),
        host_label(text::dec(n as nat)),
{
    let m = n as nat;
    let s = text::dec(m);
    text::lemma_dec_digits(m);
    reveal_with_fuel(text::dec, 4);
    assert forall|i: int| 0 <= i < s.len() implies net::is_digit(#[trigger] s[i]) && alnum(s[i]) by {}
    if m >= 100 {
        let a = m / 100;
        let b = m / 10 % 10;
        let c = m % 10;
        assert(m / 10 / 10 == a);
        assert(s =~= seq![text::digit_char(a), text::digit_char(b), text::digit_char(c)]);
        assert(a * 100 + b * 10 + c == m);
    } else if m >= 10 {
        assert(s =~= seq![text::digit_char(m / 10), text::digit_char(m % 10)]);
    }
}

/// Every IPv4 address, written with dots, is a host.
pub proof fn law_v4_addresses_pass(a: u8, b: u8, c: u8, d: u8)
    ensures
        net::host_check(
            text::join_with(
                seq![text::dec(a as nat), text::dec(b as nat), text::dec(c as nat), text::dec(d as nat)],
                "."@,
            ),
        ) is Ok,
{
    let ls = seq![text::dec(a as nat), text::dec(b as nat), text::dec(c as nat), text::dec(d as nat)];
    let h = text::join_with(ls, "."@);
    lemma_number_is_octet(a);
    lemma_number_is_octet(b);
    lemma_number_is_octet(c);
    lemma_number_is_octet(d);
    assert forall|i: int| 0 <= i < ls.len() implies host_label(#[trigger] ls[i]) && !ls[i].contains('.')
        && ls[i].len() <= 3 by {
        assert(ls[i] == ls[0] || ls[i] == ls[1] || ls[i] == ls[2] || ls[i] == ls[3]);
        assert(net::is_octet(ls[i]));
        assert(host_label(ls[i]));
        lemma_label_good(ls[i]);
    }
    lemma_joined_labels(ls);
    reveal_strlit(".");
    assert("."@ =~= seq!['.']);
    text::lemma_split_join(ls, '.');
    reveal_with_fuel(text::join_with, 5);
    let l3 = ls.drop_last();
    let l2 = l3.drop_last();
    let l1 = l2.drop_last();
    assert(text::join_with(l1, "."@).len() == ls[0].len());
    assert(text::join_with(l2, "."@).len() <= 7);
    assert(text::join_with(l3, "."@).len() <= 11);
    assert(h.len() <= 15);
    assert(h[0] != '[') by {
        assert(h.contains(h[0]));
    }
}

/// One group of an IPv6 address.
pub open spec fn hex_group(s: Seq<char>) -> bool {
    1 <= s.len() <= 4 && forall|i: int|
        0 <= i < s.len() ==> ('0' <= #[trigger] s[i] <= '9') || ('a' <= s[i] <= 'f') || ('A' <= s[i] <= 'F')
}

proof fn lemma_group(s: Seq<char>)
    requires
        hex_group(s),
    ensures
        net::is_group(s),
        !s.contains(':'),
{
    assert forall|i: int| 0 <= i < s.len() implies net::hex_value(#[trigger] s[i]) is Some && s[i] != ':' by {}
}

proof fn lemma_joined_groups(gs: Seq<Seq<char>>)
    requires
        gs.len() > 0,
        forall|i: int| 0 <= i < gs.len() ==> hex_group(#[trigger] gs[i]),
    ensures
        ({
            let s = text::join_with(gs, ":"@);
            &&& s.len() > 0
            &&& s[0] != ':'
            &&& s.last() != ':'
            &&& forall|i: int| 0 <= i < s.len() - 1 ==> !(#[trigger] s[i] == ':' && s[i + 1] == ':')
            &&& s.len() <= 5 * gs.len()
            &&& forall|i: int| 0 <= i < s.len() ==> #[trigger] s[i] <= '\u{7f}'
        }),
    decreases gs.len(),
{
    reveal_strlit(":");
    let s = text::join_with(gs, ":"@);
    let last = gs.last();
    assert(hex_group(gs[gs.len() - 1]));
    lemma_group(last);
    assert forall|i: int| 0 <= i < last.len() implies #[trigger] last[i] != ':' && last[i] <= '\u{7f}' by {}
    if gs.len() > 1 {
        let p = gs.drop_last();
        assert forall|i: int| 0 <= i < p.len() implies hex_group(#[trigger] p[i]) by {
            assert(hex_group(gs[i]));
        }
        lemma_joined_groups(p);
        let front = text::join_with(p, ":"@);
        let n = front.len() as int;
        assert(s == front + ":"@ + last);
        assert(s[0] == front[0]);
        assert forall|i: int| 0 <= i < s.len() - 1 implies !(#[trigger] s[i] == ':' && s[i + 1] == ':') by {
            if i + 1 < n {
                assert(s[i] == front[i] && s[i + 1] == front[i + 1]);
            } else if i + 1 == n {
                assert(s[i] == front.last());
            } else {
                assert(s[i + 1] == last[i + 1 - n - 1]);
            }
        }
        assert forall|i: int| 0 <= i < s.len() implies #[trigger] s[i] <= '\u{7f}' by {
            if i < n {
                assert(s[i] == front[i]);
            } else if i > n {
                assert(s[i] == last[i - n - 1]);
            }
        }
    }
}

proof fn lemma_no_double_colon(s: Seq<char>)
    requires
        forall|i: int| 0 <= i < s.len() - 1 ==> !(#[trigger] s[i] == ':' && s[i + 1] == ':'),
    ensures
        net::double_colon(s) == s.len(),
    decreases s.len(),
{
    if s.len() >= 2 {
        let t = s.drop_first();
        assert forall|i: int| 0 <= i < t.len() - 1 implies !(#[trigger] t[i] == ':' && t[i + 1] == ':') by {
            assert(t[i] == s[i + 1]);
        }
        lemma_no_double_colon(t);
        assert(!(s[0] == ':' && s[1] == ':'));
    }
}

/// The first double colon of a text that begins without one.
proof fn lemma_double_colon_at(front: Seq<char>, back: Seq<char>)
    requires
        forall|i: int| 0 <= i < front.len() - 1 ==> !(#[trigger] front[i] == ':' && front[i + 1] == ':'),
        front.len() > 0 ==> front.last() != ':',
    ensures
        net::double_colon(front + "::"@ + back) == front.len(),
    decreases front.len(),
{
    reveal_strlit("::");
    let s = front + "::"@ + back;
    if front.len() > 0 {
        let f = front.drop_first();
        assert forall|i: int| 0 <= i < f.len() - 1 implies !(#[trigger] f[i] == ':' && f[i + 1] == ':') by {
            assert(f[i] == front[i + 1]);
        }
        lemma_double_colon_at(f, back);
        assert(s.drop_first() =~= f + "::"@ + back);
        assert(!(s[0] == ':' && s[1] == ':')) by {
            if front.len() > 1 {
                assert(s[0] == front[0] && s[1] == front[1]);
            } else {
                assert(s[0] == front.last());
            }
        }
    }
}

proof fn lemma_count_groups(gs: Seq<Seq<char>>, dotted: bool)
    requires
        gs.len() <= 8,
        forall|i: int| 0 <= i < gs.len() ==> hex_group(#[trigger] gs[i]),
    ensures
        net::group_count(text::join_with(gs, ":"@), dotted) == Some(gs.len()),
{
    if gs.len() > 0 {
        reveal_strlit(":");
        assert(":"@ =~= seq![':']);
        assert forall|i: int| 0 <= i < gs.len() implies !(#[trigger] gs[i]).contains(':') && net::is_group(gs[i]) by {
            lemma_group(gs[i]);
        }
        text::lemma_split_join(gs, ':');
        lemma_joined_groups(gs);
    }
}

proof fn lemma_bracketed(t: Seq<char>)
    requires
        net::is_v6_text(t),
        0 < t.len() <= 100,
        forall|i: int| 0 <= i < t.len() ==> #[trigger] t[i] <= '\u{7f}',
    ensures
        net::host_check("["@ + t + "]"@) is Ok,
{
    reveal_strlit("[");
    reveal_strlit("]");
    let h = "["@ + t + "]"@;
    assert forall|i: int| 0 <= i < h.len() implies #[trigger] h[i] <= '\u{7f}' by {
        if 0 < i < h.len() - 1 {
            assert(h[i] == t[i - 1]);
        }
    }
    lemma_ascii_len(h);
    assert(h.subrange(1, h.len() - 1) =~= t);
    assert(h[0] == '[' && h.last() == ']');
}

/// An IPv6 address in brackets is a host: eight groups of up to four hexadecimal digits,
/// or fewer with one double colon for those that are left out.
pub proof fn law_v6_addresses_pass(all: Seq<Seq<char>>, front: Seq<Seq<char>>, back: Seq<Seq<char>>)
    requires
        all.len() == 8,
        front.len() + back.len() <= 7,
        forall|i: int| 0 <= i < all.len() ==> hex_group(#[trigger] all[i]),
        forall|i: int| 0 <= i < front.len() ==> hex_group(#[trigger] front[i]),
        forall|i: int| 0 <= i < back.len() ==> hex_group(#[trigger] back[i]),
    ensures
        net::host_check("["@ + text::join_with(all, ":"@) + "]"@) is Ok,
        net::host_check("["@ + (text::join_with(front, ":"@) + "::"@ + text::join_with(back, ":"@)) + "]"@) is Ok,
{
    let s = text::join_with(all, ":"@);
    lemma_joined_groups(all);
    lemma_no_double_colon(s);
    lemma_count_groups(all, true);
    lemma_bracketed(s);
    let a = text::join_with(front, ":"@);
    let b = text::join_with(back, ":"@);
    let t = a + "::"@ + b;
    if front.len() > 0 {
        lemma_joined_groups(front);
    }
    if back.len() > 0 {
        lemma_joined_groups(back);
    }
    lemma_double_colon_at(a, b);
    lemma_count_groups(front, false);
    lemma_count_groups(back, true);
    reveal_strlit("::");
    assert(t.take(a.len() as int) =~= a);
    assert(t.skip(a.len() as int + 2) =~= b);
    assert forall|i: int| 0 <= i < t.len() implies #[trigger] t[i] <= '\u{7f}' by {
        if i < a.len() {
            assert(t[i] == a[i]);
        } else if i >= a.len() + 2 {
            assert(t[i] == b[i - a.len() - 2]);
        }
    }
    lemma_bracketed(t);
}

/// Whether two texts are the same but for the case of ASCII letters.
pub open spec fn same_but_case(a: Seq<char>, b: Seq<char>) -> bool {
    a.len() == b.len() && forall|i: int|
        0 <= i < a.len() ==> (#[trigger] a[i] == b[i] || ('A' <= a[i] <= 'Z' && b[i] as u32 == a[i] as u32 + 32))
}

proof fn lemma_lower(a: char, b: char)
    requires
        !('A' <= b <= 'Z'),
    ensures
        net::lower(a) == b <==> a == b || ('A' <= a <= 'Z' && b as u32 == a as u32 + 32),
{
    if 'A' <= a <= 'Z' && b as u32 == a as u32 + 32 {
        char_u32_cast(b, (a as u32 + 32) as u32);
    }
}

proof fn lemma_lowered(a: Seq<char>, b: Seq<char>)
    requires
        forall|i: int| 0 <= i < b.len() ==> !('A' <= #[trigger] b[i] <= 'Z'),
    ensures
        net::lowered(a) == b <==> same_but_case(a, b),
{
    let l = net::lowered(a);
    if same_but_case(a, b) {
        assert forall|i: int| 0 <= i < a.len() implies l[i] == b[i] by {
            lemma_lower(a[i], b[i]);
        }
        assert(l =~= b);
    }
    if l == b {
        assert forall|i: int| 0 <= i < a.len() implies (#[trigger] a[i] == b[i] || ('A' <= a[i] <= 'Z' && b[i] as u32
            == a[i] as u32 + 32)) by {
            assert(l[i] == net::lower(a[i]));
            lemma_lower(a[i], b[i]);
        }
    }
}

/// The hosts that serve metadata are these four, in whatever case they are written, and
/// no others.
pub proof fn law_metadata_hosts(host: Seq<char>)
    ensures
        net::metadata_host(host) <==> same_but_case(host, "metadata.google.internal"@) || same_but_case(
            host,
            "metadata"@,
        ) || same_but_case(host, "instance-data"@) || same_but_case(host, "metadata.azure.com"@),
{
    reveal_strlit("metadata.google.internal");
    reveal_strlit("metadata");
    reveal_strlit("instance-data");
    reveal_strlit("metadata.azure.com");
    lemma_lowered(host, "metadata.google.internal"@);
    lemma_lowered(host, "metadata"@);
    lemma_lowered(host, "instance-data"@);
    lemma_lowered(host, "metadata.azure.com"@);
    let m = net::metadata_hosts();
    assert(m[0] == "metadata.google.internal"@ && m[1] == "metadata"@ && m[2] == "instance-data"@ && m[3]
        == "metadata.azure.com"@);
}

/// A lookup passes just where the host serves no metadata, something was found, and
/// nothing of it is out of bounds; it then gives all that was found, in order.
pub proof fn law_lookup_passes(host: Seq<char>, found: Result<Vec<HostAddr>, String>)
    ensures
        ({
            let r = net::lookup_check(host, found);
            &&& r is Ok <==> !net::metadata_host(host) && found is Ok && found->Ok_0@.len() > 0 && forall|i: int|
                0 <= i < found->Ok_0@.len() ==> !net::blocked((#[trigger] found->Ok_0@[i]).ip)
            &&& r is Ok ==> r->Ok_0 == found->Ok_0@
        }),
{
    if found is Ok {
        lemma_none_blocked(found->Ok_0@);
    }
}

proof fn lemma_none_blocked(addrs: Seq<HostAddr>)
    ensures
        0 <= net::first_blocked(addrs) <= addrs.len(),
        net::first_blocked(addrs) >= addrs.len() <==> forall|i: int|
            0 <= i < addrs.len() ==> !net::blocked((#[trigger] addrs[i]).ip),
    decreases addrs.len(),
{
    if addrs.len() > 0 {
        let rest = addrs.drop_first();
        lemma_none_blocked(rest);
        if forall|i: int| 0 <= i < addrs.len() ==> !net::blocked((#[trigger] addrs[i]).ip) {
            assert forall|i: int| 0 <= i < rest.len() implies !net::blocked((#[trigger] rest[i]).ip) by {
                assert(rest[i] == addrs[i + 1]);
            }
            assert(!net::blocked(addrs[0].ip));
        }
        if net::first_blocked(addrs) >= addrs.len() {
            assert forall|i: int| 0 <= i < addrs.len() implies !net::blocked((#[trigger] addrs[i]).ip) by {
                if i > 0 {
                    assert(rest[i - 1] == addrs[i]);
                }
            }
        }
    }
}

/// The authority of a request names the host, an IPv6 address in brackets, and the port
/// unless it is 80.
pub proof fn law_authority(host: Seq<char>, port: u16)
    ensures
        host.len() > 0 && !host.contains(':') ==> state::authority(host, 80) == host,
        host.len() > 0 && !host.contains(':') && port != 80 ==> state::authority(host, port) == host + ":"@ + text::dec(
            port as nat,
        ),
        host.len() > 0 && host.contains(':') && host[0] != '[' ==> state::authority(host, 80) == "["@ + host + "]"@,
        host.len() > 0 && host.contains(':') && host[0] != '[' && port != 80 ==> state::authority(host, port) == "["@
            + host + "]"@ + ":"@ + text::dec(port as nat),
        host.len() > 0 && host[0] == '[' ==> state::authority(host, 80) == host,
        host.len() > 0 && host[0] == '[' && port != 80 ==> state::authority(host, port) == host + ":"@ + text::dec(
            port as nat,
        ),
{
    reveal_strlit("[");
    if host.len() > 0 {
        assert(host.take(1)[0] == host[0]);
        assert(host[0] == '[' ==> host.take(1) =~= "["@);
    }
}

/// A request is one line that asks for the target, one that names the authority, and the
/// fixed lines after it, ended by a blank line. Nothing in it can be taken for another
/// line: it is made just where neither the target nor the authority holds a control
/// character, nor the authority a space.
pub proof fn law_request_lines(authority: Seq<char>, target: Seq<char>)
    requires
        net::request_fit(authority, target),
    ensures
        text::split_on(net::request_text(authority, target), '\n') == seq![
            "GET "@ + target + " HTTP/1.0\r"@,
            "Host: "@ + authority + "\r"@,
            "User-Agent: capable/0.1\r"@,
            "Accept: */*\r"@,
            "Connection: close\r"@,
            "\r"@,
            ""@,
        ],
{
    let lines = seq![
        "GET "@ + target + " HTTP/1.0\r"@,
        "Host: "@ + authority + "\r"@,
        "User-Agent: capable/0.1\r"@,
        "Accept: */*\r"@,
        "Connection: close\r"@,
        "\r"@,
        ""@,
    ];
    let nl = "\n"@;
    reveal_strlit("GET ");
    reveal_strlit(" HTTP/1.0\r");
    reveal_strlit("Host: ");
    reveal_strlit("\r");
    reveal_strlit("User-Agent: capable/0.1\r");
    reveal_strlit("Accept: */*\r");
    reveal_strlit("Connection: close\r");
    reveal_strlit("");
    reveal_strlit("\n");
    reveal_strlit(" HTTP/1.0\r\nHost: ");
    reveal_strlit("\r\nUser-Agent: capable/0.1\r\nAccept: */*\r\nConnection: close\r\n\r\n");
    assert(nl =~= seq!['\n']);
    assert(!lines[0].contains('\n')) by {
        assert forall|i: int| 0 <= i < lines[0].len() implies lines[0][i] != '\n' by {
            if 4 <= i < 4 + target.len() {
                assert(lines[0][i] == target[i - 4]);
                assert(!net::ascii_control(target[i - 4]));
            }
        }
    }
    assert(!lines[1].contains('\n')) by {
        assert forall|i: int| 0 <= i < lines[1].len() implies lines[1][i] != '\n' by {
            if 6 <= i < 6 + authority.len() {
                assert(lines[1][i] == authority[i - 6]);
                assert(!net::ascii_control(authority[i - 6]));
            }
        }
    }
    assert forall|i: int| 0 <= i < lines.len() implies !(#[trigger] lines[i]).contains('\n') by {
        assert(i == 0 || i == 1 || i == 2 || i == 3 || i == 4 || i == 5 || i == 6);
    }
    text::lemma_split_join(lines, '\n');
    reveal_with_fuel(text::join_with, 8);
    let l6 = lines.drop_last();
    let l5 = l6.drop_last();
    let l4 = l5.drop_last();
    let l3 = l4.drop_last();
    let l2 = l3.drop_last();
    let l1 = l2.drop_last();
    assert(text::join_with(l1, nl) == lines[0]);
    assert(text::join_with(l2, nl) == lines[0] + nl + lines[1]);
    assert(text::join_with(l3, nl) == lines[0] + nl + lines[1] + nl + lines[2]);
    assert(text::join_with(l4, nl) == lines[0] + nl + lines[1] + nl + lines[2] + nl + lines[3]);
    assert(text::join_with(l5, nl) == lines[0] + nl + lines[1] + nl + lines[2] + nl + lines[3] + nl + lines[4]);
    let whole = text::join_with(lines, nl);
    assert(whole =~= net::request_text(authority, target));
}

/// Whether a blank line stands in some bytes.
pub open spec fn has_blank_line(b: Seq<u8>) -> bool {
    exists|i: int| #[trigger] blank_line_at(b, i)
}

/// Whether a blank line stands in some bytes at this place.
pub open spec fn blank_line_at(b: Seq<u8>, i: int) -> bool {
    0 <= i && i + 4 <= b.len() && b.subrange(i, i + 4) == seq![13u8, 10, 13, 10]
}

proof fn lemma_headers_end(head: Seq<u8>, body: Seq<u8>)
    requires
        !has_blank_line(head + seq![13u8, 10, 13]),
    ensures
        net::headers_end(head + seq![13u8, 10, 13, 10] + body) == head.len(),
    decreases head.len(),
{
    let raw = head + seq![13u8, 10, 13, 10] + body;
    if head.len() > 0 {
        let h = head.drop_first();
        let short = head + seq![13u8, 10, 13];
        assert(raw.drop_first() =~= h + seq![13u8, 10, 13, 10] + body);
        if net::blank_line(raw, 0) {
            assert(short[0] == raw[0] && short[1] == raw[1] && short[2] == raw[2] && short[3] == raw[3]);
            assert(short.subrange(0, 4) =~= seq![13u8, 10, 13, 10]);
            assert(blank_line_at(short, 0));
        }
        let rest = h + seq![13u8, 10, 13];
        if has_blank_line(rest) {
            let i = choose|i: int| #[trigger] blank_line_at(rest, i);
            assert(rest.subrange(i, i + 4) =~= short.subrange(i + 1, i + 5));
            assert(blank_line_at(short, i + 1));
        }
        lemma_headers_end(h, body);
    } else {
        assert(net::blank_line(raw, 0));
    }
}

/// The body of an answer is all that follows its first blank line, to the last byte, and
/// its status is read from what stands before: another body changes nothing else.
pub proof fn law_answer_body(head: Seq<u8>, body: Seq<u8>, other: Seq<u8>)
    requires
        !has_blank_line(head + seq![13u8, 10, 13]),
        net::response_of(head + seq![13u8, 10, 13, 10] + body) is Ok,
    ensures
        ({
            let one = net::response_of(head + seq![13u8, 10, 13, 10] + body);
            let two = net::response_of(head + seq![13u8, 10, 13, 10] + other);
            &&& one->Ok_0.1 == body
            &&& two is Ok
            &&& two->Ok_0.1 == other
            &&& two->Ok_0.0 == one->Ok_0.0
        }),
{
    let sep = seq![13u8, 10, 13, 10];
    let n = head.len() as int;
    lemma_headers_end(head, body);
    lemma_headers_end(head, other);
    assert((head + sep + body).take(n) =~= head);
    assert((head + sep + body).skip(n + 4) =~= body);
    assert((head + sep + other).take(n) =~= head);
    assert((head + sep + other).skip(n + 4) =~= other);
}

proof fn lemma_no_end(raw: Seq<u8>)
    requires
        !has_blank_line(raw),
    ensures
        net::headers_end(raw) >= raw.len(),
    decreases raw.len(),
{
    if raw.len() >= 4 {
        if net::blank_line(raw, 0) {
            assert(raw.subrange(0, 4) =~= seq![13u8, 10, 13, 10]);
            assert(blank_line_at(raw, 0));
        }
        let t = raw.drop_first();
        if has_blank_line(t) {
            let i = choose|i: int| #[trigger] blank_line_at(t, i);
            assert(t.subrange(i, i + 4) =~= raw.subrange(i + 1, i + 5));
            assert(blank_line_at(raw, i + 1));
        }
        lemma_no_end(t);
    }
}

/// What has no blank line is no answer.
pub proof fn law_answer_needs_blank_line(raw: Seq<u8>)
    requires
        !has_blank_line(raw),
    ensures
        net::response_of(raw) is Err,
{
    lemma_no_end(raw);
}

proof fn lemma_first_line(line: Seq<u8>, rest: Seq<u8>)
    requires
        forall|i: int| 0 <= i < line.len() ==> #[trigger] line[i] != 13 && line[i] != 10,
        rest.len() == 0 || rest[0] == 13 || rest[0] == 10,
    ensures
        net::first_line(line + rest) == line,
    decreases line.len(),
{
    if line.len() == 0 {
        assert(line + rest =~= rest);
        assert(net::first_line(rest) =~= line);
    } else {
        let l = line.drop_first();
        assert((line + rest).drop_first() =~= l + rest);
        assert((line + rest)[0] == line[0]);
        lemma_first_line(l, rest);
        assert(seq![line[0]] + l =~= line);
    }
}

/// The status of an answer is the number after its first word: whatever the version and
/// the words that follow the number.
pub proof fn law_answer_status(version: Seq<char>, status: u16, phrase: Seq<char>, body: Seq<u8>)
    requires
        version.len() > 0 && phrase.len() > 0,
        forall|i: int| 0 <= i < version.len() ==> 'A' <= #[trigger] version[i] <= 'z' || '.' <= version[i] <= '9',
        forall|i: int| 0 <= i < phrase.len() ==> 'A' <= #[trigger] phrase[i] <= 'z',
    ensures
        net::response_of(
            encode_utf8(version + " "@ + text::dec(status as nat) + " "@ + phrase) + seq![13u8, 10, 13, 10] + body,
        ) == Ok::<(nat, Seq<u8>), Seq<char>>((status as nat, body)),
{
    let n = text::dec(status as nat);
    let t = version + " "@ + n + " "@ + phrase;
    reveal_strlit(" ");
    text::lemma_dec_digits(status as nat);
    text::lemma_dec_value(status as nat);
    assert forall|i: int| 0 <= i < t.len() implies '\0' <= #[trigger] t[i] <= '\u{7f}' && t[i] != '\r' && t[i] != '\n' by {
        let a = version.len() as int;
        let b = a + 1 + n.len();
        if i < a {
            assert(t[i] == version[i]);
        } else if i == a || i == b {
            assert(t[i] == ' ');
        } else if i < b {
            assert(t[i] == n[i - a - 1]);
        } else {
            assert(t[i] == phrase[i - b - 1]);
        }
    }
    assert(is_ascii_chars(t));
    is_ascii_chars_encode_utf8(t);
    let line = encode_utf8(t);
    assert forall|i: int| 0 <= i < line.len() implies #[trigger] line[i] != 13 && line[i] != 10 by {
        assert(line[i] as char == t[i]);
    }
    let short = line + seq![13u8, 10, 13];
    if has_blank_line(short) {
        let i = choose|i: int| #[trigger] blank_line_at(short, i);
        assert(short.subrange(i, i + 4)[0] == short[i]);
        assert(short.subrange(i, i + 4)[3] == short[i + 3]);
        if i < line.len() {
            assert(short[i] == line[i]);
        }
    }
    lemma_headers_end(line, body);
    let raw = line + seq![13u8, 10, 13, 10] + body;
    assert(raw.take(line.len() as int) =~= line);
    assert(raw.skip(line.len() as int + 4) =~= body);
    lemma_first_line(line, Seq::empty());
    assert(line + Seq::<u8>::empty() =~= line);
    text::lemma_lossy_of_text(t);
    let a = version + " "@ + n;
    assert(t =~= a.push(' ') + phrase);
    assert(a =~= version.push(' ') + n);
    assert forall|i: int| 0 <= i < version.len() implies !text::is_space(#[trigger] version[i]) by {}
    assert forall|i: int| 0 <= i < n.len() implies !text::is_space(#[trigger] n[i]) by {}
    text_laws::law_words(version, version, ' ', n);
    text_laws::law_words(n, a, ' ', phrase);
    assert(text::words(t) =~= seq![version, n] + text::words(phrase));
    text::law_number_round_trip(status as nat, 65535);
}

/// Whether texts are groups of an IPv6 address throughout.
pub open spec fn all_groups(gs: Seq<Seq<char>>) -> bool {
    forall|i: int| 0 <= i < gs.len() ==> hex_group(#[trigger] gs[i])
}

/// Whether a text is so many groups, the last two perhaps written as an IPv4 address where
/// that is allowed.
pub open spec fn makes_groups(s: Seq<char>, n: nat, dotted: bool) -> bool {
    let parts = text::split_on(s, ':');
    ||| s.len() == 0 && n == 0
    ||| s.len() > 0 && all_groups(parts) && parts.len() == n
    ||| s.len() > 0 && dotted && all_groups(parts.drop_last()) && net::is_v4_text(parts.last()) && parts.len() + 1 == n
}

proof fn lemma_group_back(s: Seq<char>)
    requires
        net::is_group(s),
    ensures
        hex_group(s),
{
    assert forall|i: int| 0 <= i < s.len() implies ('0' <= #[trigger] s[i] <= '9') || ('a' <= s[i] <= 'f') || ('A' <= s[i]
        <= 'F') by {
        assert(net::hex_value(s[i]) is Some);
    }
}

proof fn lemma_counted(s: Seq<char>, dotted: bool)
    ensures
        net::group_count(s, dotted) matches Some(n) ==> makes_groups(s, n, dotted),
{
    let parts = text::split_on(s, ':');
    if s.len() > 0 && net::group_count(s, dotted) is Some {
        if net::groups_before(parts, parts.len() as int) {
            assert forall|i: int| 0 <= i < parts.len() implies hex_group(#[trigger] parts[i]) by {
                assert(net::is_group(parts[i]));
                lemma_group_back(parts[i]);
            }
        } else {
            let front = parts.drop_last();
            assert forall|i: int| 0 <= i < front.len() implies hex_group(#[trigger] front[i]) by {
                assert(net::is_group(parts[i]));
                lemma_group_back(parts[i]);
            }
        }
    }
}

proof fn lemma_double_colon_found(s: Seq<char>)
    ensures
        0 <= net::double_colon(s) <= s.len(),
        net::double_colon(s) < s.len() ==> net::double_colon(s) + 2 <= s.len() && s[net::double_colon(s)] == ':'
            && s[net::double_colon(s) + 1] == ':',
    decreases s.len(),
{
    if s.len() >= 2 && !(s[0] == ':' && s[1] == ':') {
        let t = s.drop_first();
        lemma_double_colon_found(t);
        let k = net::double_colon(t);
        if k < t.len() {
            assert(t[k] == s[k + 1] && t[k + 1] == s[k + 2]);
        }
    }
}

/// What is let through as an IPv6 address makes eight groups, or has a double colon with at
/// most seven groups before and after it together; an IPv4 address stands for two groups,
/// and only at the end.
pub proof fn law_v6_shape(s: Seq<char>) -> (r: (Seq<char>, Seq<char>, nat, nat))
    requires
        net::is_v6_text(s),
    ensures
        makes_groups(s, 8, true) || (s == r.0 + "::"@ + r.1 && makes_groups(r.0, r.2, false) && makes_groups(
            r.1,
            r.3,
            true,
        ) && r.2 + r.3 <= 7),
{
    let at = net::double_colon(s);
    lemma_double_colon_found(s);
    lemma_counted(s, true);
    if at >= s.len() {
        (s, s, 0nat, 0nat)
    } else {
        let a = s.take(at);
        let b = s.skip(at + 2);
        lemma_counted(a, false);
        lemma_counted(b, true);
        reveal_strlit("::");
        assert(s =~= a + "::"@ + b);
        (a, b, net::group_count(a, false)->0, net::group_count(b, true)->0)
    }
}

proof fn lemma_control(c: char)
    ensures
        net::ascii_control(c) <==> c < ' ' || c == '\u{7f}',
{
}

/// A request is made wherever neither the target nor the authority holds a control
/// character, nor the authority a space.
pub proof fn law_plain_requests_fit(authority: Seq<char>, target: Seq<char>)
    ensures
        net::request_fit(authority, target) <==> (forall|i: int|
            0 <= i < target.len() ==> !(#[trigger] target[i] < ' ' || target[i] == '\u{7f}')) && (forall|i: int|
            0 <= i < authority.len() ==> !(#[trigger] authority[i] <= ' ' || authority[i] == '\u{7f}')),
{
    if net::request_fit(authority, target) {
        assert forall|i: int| 0 <= i < target.len() implies !(#[trigger] target[i] < ' ' || target[i] == '\u{7f}') by {
            assert(!net::ascii_control(target[i]));
            lemma_control(target[i]);
        }
        assert forall|i: int| 0 <= i < authority.len() implies !(#[trigger] authority[i] <= ' ' || authority[i]
            == '\u{7f}') by {
            assert(!net::ascii_control(authority[i]));
            lemma_control(authority[i]);
        }
    }
    if (forall|i: int| 0 <= i < target.len() ==> !(#[trigger] target[i] < ' ' || target[i] == '\u{7f}')) && (forall|i:
        int| 0 <= i < authority.len() ==> !(#[trigger] authority[i] <= ' ' || authority[i] == '\u{7f}')) {
        assert forall|i: int| 0 <= i < target.len() implies !net::ascii_control(#[trigger] target[i]) by {
            lemma_control(target[i]);
        }
        assert forall|i: int| 0 <= i < authority.len() implies !net::ascii_control(#[trigger] authority[i])
            && authority[i] != ' ' by {
            lemma_control(authority[i]);
        }
    }
}

/// An answer is taken piece by piece as it would be in one piece: never more than the limit,
/// all of it up to there, and reading ends as soon as the limit was passed.
pub proof fn law_answer_is_taken_up_to_limit(raw: Seq<u8>, a: Seq<u8>, b: Seq<u8>, max_bytes: nat)
    requires
        raw.len() <= max_bytes,
    ensures
        ({
            let (one, full) = net::absorbed(raw, a, max_bytes);
            let (two, done) = net::absorbed(one, b, max_bytes);
            &&& one.len() <= max_bytes
            &&& one == (raw + a).take(one.len() as int)
            &&& full <==> raw.len() + a.len() > max_bytes
            &&& full ==> one.len() == max_bytes
            &&& !full ==> one == raw + a
            &&& !full ==> (two, done) == net::absorbed(raw, a + b, max_bytes)
        }),
{
    let (one, full) = net::absorbed(raw, a, max_bytes);
    assert(one =~= (raw + a).take(one.len() as int));
    assert(raw + a + b =~= raw + (a + b));
}

} // verus!
