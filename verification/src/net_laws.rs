//! What holds of the allow-list of paths and of the addresses out of bounds.

use crate::net;
use crate::net::Ip;
use crate::text;
use crate::text_laws;
use vstd::prelude::*;

verus! {

/// Whether a segment of a pattern stands for itself.
pub open spec fn literal(seg: Seq<char>) -> bool {
    seg != "*"@ && seg != "**"@
}

proof fn lemma_wildcards_differ()
    ensures
        "*"@ != "**"@,
{
    reveal_strlit("*");
    reveal_strlit("**");
    assert("*"@.len() == 1 && "**"@.len() == 2);
}

/// A pattern without `*` and `**` covers a path just where the two lists of segments
/// are equal.
pub proof fn law_literal_pattern_covers_itself(pat: Seq<Seq<char>>, q: Seq<Seq<char>>)
    requires
        forall|i: int| 0 <= i < pat.len() ==> literal(#[trigger] pat[i]),
    ensures
        net::glob(pat, q) <==> pat == q,
    decreases pat.len(),
{
    if pat.len() == 0 {
        assert(q.len() == 0 ==> pat =~= q);
    } else {
        assert(literal(pat[0]));
        if q.len() > 0 {
            assert forall|i: int| 0 <= i < pat.drop_first().len() implies literal(#[trigger] pat.drop_first()[i]) by {
                assert(literal(pat[i + 1]));
            }
            law_literal_pattern_covers_itself(pat.drop_first(), q.drop_first());
            assert(pat =~= seq![pat[0]] + pat.drop_first());
            assert(q =~= seq![q[0]] + q.drop_first());
        }
    }
}

/// What the first segment of a pattern stands for. One that is neither `*` nor `**`
/// stands for itself, and `*` for one segment, whatever it is; the rest of the
/// pattern then covers the rest of the path. `**` stands for no segment or for one
/// more.
pub proof fn law_first_segment(first: Seq<char>, rest: Seq<Seq<char>>, q: Seq<Seq<char>>)
    ensures
        literal(first) ==> (net::glob(seq![first] + rest, q) <==> q.len() > 0 && q[0] == first && net::glob(
            rest,
            q.drop_first(),
        )),
        net::glob(seq!["*"@] + rest, q) <==> q.len() > 0 && net::glob(rest, q.drop_first()),
        net::glob(seq!["**"@] + rest, q) <==> net::glob(rest, q) || (q.len() > 0 && net::glob(
            seq!["**"@] + rest,
            q.drop_first(),
        )),
{
    lemma_wildcards_differ();
    assert((seq![first] + rest).drop_first() =~= rest);
    assert((seq!["*"@] + rest).drop_first() =~= rest);
    let pat = seq!["**"@] + rest;
    assert(pat.drop_first() =~= rest);
    assert(q.skip(0) =~= q);
    if net::glob(pat, q) {
        let i = choose|i: int| 0 <= i <= q.len() && net::glob(rest, #[trigger] q.skip(i));
        if i > 0 {
            assert(q.drop_first().skip(i - 1) =~= q.skip(i));
            assert(net::glob(rest, q.drop_first().skip(i - 1)));
        }
    }
    if q.len() > 0 && net::glob(pat, q.drop_first()) {
        let i = choose|i: int| 0 <= i <= q.drop_first().len() && net::glob(rest, #[trigger] q.drop_first().skip(i));
        assert(q.drop_first().skip(i) =~= q.skip(i + 1));
        assert(net::glob(rest, q.skip(i + 1)));
    }
}

/// A pattern that ends in `**` covers just the paths that begin with what stands
/// before it, where that has no `*` and `**`.
pub proof fn law_open_pattern_covers_what_is_below(pat: Seq<Seq<char>>, q: Seq<Seq<char>>)
    requires
        forall|i: int| 0 <= i < pat.len() ==> literal(#[trigger] pat[i]),
    ensures
        net::glob(pat.push("**"@), q) <==> pat.is_prefix_of(q),
    decreases pat.len(),
{
    let all = pat.push("**"@);
    if pat.len() == 0 {
        assert(all.drop_first() =~= Seq::empty());
        assert(q.skip(q.len() as int).len() == 0);
        assert(net::glob(Seq::empty(), q.skip(q.len() as int)));
        assert(q.subrange(0, 0) =~= pat);
    } else {
        assert(literal(pat[0]));
        assert(all.drop_first() =~= pat.drop_first().push("**"@));
        if q.len() > 0 {
            assert forall|i: int| 0 <= i < pat.drop_first().len() implies literal(#[trigger] pat.drop_first()[i]) by {
                assert(literal(pat[i + 1]));
            }
            law_open_pattern_covers_what_is_below(pat.drop_first(), q.drop_first());
            let p = pat.drop_first();
            let r = q.drop_first();
            if p.is_prefix_of(r) && pat[0] == q[0] {
                assert forall|i: int| 0 <= i < pat.len() implies pat[i] == #[trigger] q.subrange(0, pat.len() as int)[i] by {
                    if i > 0 {
                        assert(p[i - 1] == r.subrange(0, p.len() as int)[i - 1]);
                    }
                }
                assert(pat =~= q.subrange(0, pat.len() as int));
            }
            if pat.is_prefix_of(q) {
                assert forall|i: int| 0 <= i < p.len() implies p[i] == #[trigger] r.subrange(0, p.len() as int)[i] by {
                    assert(pat[i + 1] == q.subrange(0, pat.len() as int)[i + 1]);
                }
                assert(p =~= r.subrange(0, p.len() as int));
                assert(pat[0] == q.subrange(0, pat.len() as int)[0]);
            }
        }
    }
}

/// Whether a segment can stand between slashes.
pub open spec fn segment(s: Seq<char>) -> bool {
    s.len() > 0 && !s.contains('/')
}

proof fn lemma_joined_ends(segs: Seq<Seq<char>>)
    requires
        segs.len() > 0,
        forall|i: int| 0 <= i < segs.len() ==> segment(#[trigger] segs[i]),
    ensures
        text::join_with(segs, "/"@).len() > 0,
        text::join_with(segs, "/"@)[0] == segs[0][0],
        text::join_with(segs, "/"@).last() == segs.last().last(),
    decreases segs.len(),
{
    assert(segment(segs[0]) && segment(segs[segs.len() - 1]));
    if segs.len() > 1 {
        let p = segs.drop_last();
        assert forall|i: int| 0 <= i < p.len() implies segment(#[trigger] p[i]) by {
            assert(segment(segs[i]));
        }
        lemma_joined_ends(p);
        assert(p[0] == segs[0]);
        let front = text::join_with(p, "/"@);
        assert(text::join_with(segs, "/"@)[0] == front[0]);
    }
}

proof fn lemma_absolute_segments(segs: Seq<Seq<char>>)
    requires
        segs.len() > 0,
        forall|i: int| 0 <= i < segs.len() ==> segment(#[trigger] segs[i]),
    ensures
        text::split_on(text::no_slash_ends("/"@ + text::join_with(segs, "/"@)), '/') == segs,
{
    let j = text::join_with(segs, "/"@);
    let p = |c: char| c == '/';
    reveal_strlit("/");
    assert("/"@ =~= seq!['/']);
    lemma_joined_ends(segs);
    assert(segment(segs[0]) && segment(segs[segs.len() - 1]));
    assert(segs[0].contains(segs[0][0]));
    assert(segs.last().contains(segs.last().last()));
    let s = "/"@ + j;
    assert(s.drop_first() =~= j);
    assert(text::strip_front(j, p) == j);
    assert(text::strip_front(s, p) == j);
    assert(text::strip_back(j, p) == j);
    assert forall|i: int| 0 <= i < segs.len() implies !(#[trigger] segs[i]).contains('/') by {
        assert(segment(segs[i]));
    }
    text::lemma_split_join(segs, '/');
}

/// A pattern and a path are compared segment by segment: written out with slashes,
/// the one covers the other just where the lists of segments match.
pub proof fn law_patterns_match_by_segment(pat: Seq<Seq<char>>, q: Seq<Seq<char>>)
    requires
        pat.len() > 0 && q.len() > 0,
        forall|i: int| 0 <= i < pat.len() ==> segment(#[trigger] pat[i]),
        forall|i: int| 0 <= i < q.len() ==> segment(#[trigger] q[i]),
    ensures
        net::path_covered("/"@ + text::join_with(pat, "/"@), "/"@ + text::join_with(q, "/"@)) <==> net::glob(pat, q),
{
    lemma_absolute_segments(pat);
    lemma_absolute_segments(q);
}

/// An allow-list lets a path through just where one of its patterns does: an empty one
/// lets none through, and another pattern adds what it covers and nothing else.
pub proof fn law_allow_list_grows_by_pattern(patterns: Seq<Seq<char>>, pattern: Seq<char>, path: Seq<char>)
    ensures
        !net::any_covers(Seq::empty(), path),
        net::any_covers(patterns.push(pattern), path) <==> net::any_covers(patterns, path) || net::path_covered(
            pattern,
            path,
        ),
{
    let more = patterns.push(pattern);
    if net::any_covers(patterns, path) {
        let i = choose|i: int| 0 <= i < patterns.len() && net::path_covered(#[trigger] patterns[i], path);
        assert(more[i] == patterns[i]);
    }
    if net::path_covered(pattern, path) {
        assert(more[patterns.len() as int] == pattern);
    }
    if net::any_covers(more, path) && !net::path_covered(pattern, path) {
        let i = choose|i: int| 0 <= i < more.len() && net::path_covered(#[trigger] more[i], path);
        assert(more[i] == patterns[i]);
    }
}

/// An IPv4 address as a number.
pub open spec fn v4_number(o: [u8; 4]) -> int {
    o@[0] * 0x1000000 + o@[1] * 0x10000 + o@[2] * 0x100 + o@[3]
}

/// The IPv4 addresses out of bounds are those of these blocks and no others: 0/8, 10/8,
/// 100.64/10, 127/8, 169.254/16, 172.16/12, 192.0.2/24, 192.88.99/24, 192.168/16,
/// 198.51.100/24, 203.0.113/24 and everything from 224 on.
pub proof fn law_v4_blocks(o: [u8; 4])
    ensures
        net::blocked(Ip::V4(o)) <==> ({
            let n = v4_number(o);
            ||| n < 0x01000000
            ||| 0x0a000000 <= n < 0x0b000000
            ||| 0x64400000 <= n < 0x64800000
            ||| 0x7f000000 <= n < 0x80000000
            ||| 0xa9fe0000 <= n < 0xa9ff0000
            ||| 0xac100000 <= n < 0xac200000
            ||| 0xc0000200 <= n < 0xc0000300
            ||| 0xc0586300 <= n < 0xc0586400
            ||| 0xc0a80000 <= n < 0xc0a90000
            ||| 0xc6336400 <= n < 0xc6336500
            ||| 0xcb007100 <= n < 0xcb007200
            ||| 0xe0000000 <= n
        }),
{
    assert(o@.len() == 4);
}

/// An IPv6 address is out of bounds just where it is unique local (fc00::/7),
/// link-local (fe80::/10) or multicast (ff00::/8), or where it is an IPv4 address in
/// either of the two forms that carry one (::/96 and ::ffff:0:0/96) and that address is
/// out of bounds.
pub proof fn law_v6_blocks(s: [u16; 8], o: [u8; 4])
    requires
        s@[6] == o@[0] * 256 + o@[1],
        s@[7] == o@[2] * 256 + o@[3],
    ensures
        net::blocked(Ip::V6(s)) <==> ({
            ||| s@[0] / 0x200 == 0x7e
            ||| s@[0] / 0x40 == 0x3fa
            ||| s@[0] / 0x100 == 0xff
            ||| (forall|i: int| 0 <= i < 5 ==> #[trigger] s@[i] == 0) && (s@[5] == 0 || s@[5] == 0xffff) && net::blocked(
                Ip::V4(o),
            )
        }),
{
    assert(s@.len() == 8);
    let a: bool = s@[0] == 0 && s@[1] == 0 && s@[2] == 0 && s@[3] == 0 && s@[4] == 0;
    assert(a ==> forall|i: int| 0 <= i < 5 ==> #[trigger] s@[i] == 0);
    assert(s@[6] / 256 == o@[0] && s@[6] % 256 == o@[1] && s@[7] / 256 == o@[2]);
}

/// Slashes before and after a pattern or a path do not count.
pub proof fn law_outer_slashes_do_not_count(
    before: Seq<char>,
    pattern: Seq<char>,
    path: Seq<char>,
    after: Seq<char>,
)
    requires
        forall|i: int| 0 <= i < before.len() ==> #[trigger] before[i] == '/',
        forall|i: int| 0 <= i < after.len() ==> #[trigger] after[i] == '/',
        pattern.len() > 0 && pattern[0] != '/' && pattern.last() != '/',
        path.len() > 0 && path[0] != '/' && path.last() != '/',
    ensures
        net::path_covered(before + pattern + after, path) == net::path_covered(pattern, path),
        net::path_covered(pattern, before + path + after) == net::path_covered(pattern, path),
{
    let none = Seq::<char>::empty();
    text_laws::lemma_outer_slashes(before, pattern, after);
    text_laws::lemma_outer_slashes(before, path, after);
    text_laws::lemma_outer_slashes(none, pattern, none);
    text_laws::lemma_outer_slashes(none, path, none);
    assert(none + pattern + none =~= pattern);
    assert(none + path + none =~= path);
}

} // verus!
