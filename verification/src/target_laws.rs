//! What holds of every request target that is let through.

use crate::net;
use crate::text;
use vstd::prelude::*;

verus! {

/// Whether every percent sign begins a complete escape that hides no separator
/// or dot.
pub open spec fn escapes_fit(s: Seq<char>) -> bool {
    forall|i: int|
        0 <= i < s.len() && #[trigger] s[i] == '%' ==> net::escape_complete(s, i) && !net::separator_byte(
            net::escaped_byte(s, i + 1),
        )
}

proof fn lemma_escapes_from(s: Seq<char>, i: int)
    requires
        0 <= i,
        net::escapes(s, i) is Ok,
    ensures
        forall|j: int|
            i <= j < s.len() && #[trigger] s[j] == '%' ==> net::escape_complete(s, j) && !net::separator_byte(
                net::escaped_byte(s, j + 1),
            ),
    decreases s.len() - i,
{
    if i < s.len() {
        if s[i] != '%' {
            lemma_escapes_from(s, i + 1);
        } else {
            lemma_escapes_from(s, i + 3);
        }
    }
}

proof fn lemma_escapes_to(s: Seq<char>, i: int)
    requires
        0 <= i,
        escapes_fit(s),
    ensures
        net::escapes(s, i) is Ok,
    decreases s.len() - i,
{
    if i < s.len() {
        if s[i] != '%' {
            lemma_escapes_to(s, i + 1);
        } else {
            lemma_escapes_to(s, i + 3);
        }
    }
}

/// The check of escapes passes just where every percent sign is fit.
pub proof fn lemma_escapes_fit(s: Seq<char>)
    ensures
        net::escapes(s, 0) is Ok <==> escapes_fit(s),
{
    if net::escapes(s, 0) is Ok {
        lemma_escapes_from(s, 0);
    }
    if escapes_fit(s) {
        lemma_escapes_to(s, 0);
    }
}

/// Each piece of a split lies in the text up to a separator or the end.
spec fn piece_lies(s: Seq<char>, sep: char, piece: Seq<char>) -> bool {
    exists|a: int, b: int|
        0 <= a <= b <= s.len() && piece == #[trigger] s.subrange(a, b) && (b == s.len() || s[b] == sep)
}

proof fn lemma_pieces_lie(s: Seq<char>, sep: char)
    ensures
        text::split_on(s, sep).len() > 0,
        forall|k: int| 0 <= k < text::split_on(s, sep).len() ==> piece_lies(s, sep, #[trigger] text::split_on(s, sep)[k]),
        exists|a: int|
            0 <= a <= s.len() && text::split_on(s, sep).last() == #[trigger] s.subrange(a, s.len() as int),
        forall|k: int|
            0 <= k < text::split_on(s, sep).len() - 1 ==> exists|a: int, b: int|
                0 <= a <= b < s.len() && #[trigger] text::split_on(s, sep)[k] == #[trigger] s.subrange(a, b)
                    && s[b] == sep,
    decreases s.len(),
{
    let all = text::split_on(s, sep);
    if s.len() == 0 {
        assert(s.subrange(0, 0) =~= Seq::empty());
        assert(all.last() == s.subrange(0, s.len() as int));
    } else {
        let p = s.drop_last();
        let front = text::split_on(p, sep);
        let n = p.len() as int;
        lemma_pieces_lie(p, sep);
        let a0 = choose|a: int| 0 <= a <= n && front.last() == #[trigger] p.subrange(a, n);
        assert forall|k: int| 0 <= k < all.len() - 1 implies exists|a: int, b: int|
            0 <= a <= b < s.len() && #[trigger] all[k] == #[trigger] s.subrange(a, b) && s[b] == sep by {
            if k < front.len() - 1 {
                let (a, b) = choose|a: int, b: int|
                    0 <= a <= b < p.len() && front[k] == #[trigger] p.subrange(a, b) && p[b] == sep;
                assert(p.subrange(a, b) =~= s.subrange(a, b));
                assert(all[k] == s.subrange(a, b) && s[b] == sep);
            } else {
                assert(s.last() == sep);
                assert(p.subrange(a0, n) =~= s.subrange(a0, n));
                assert(all[k] == s.subrange(a0, n) && s[n] == sep);
            }
        }
        if s.last() == sep {
            assert(s.subrange(n + 1, n + 1) =~= Seq::empty());
            assert(all.last() == s.subrange(n + 1, s.len() as int));
        } else {
            assert(s.subrange(a0, n + 1) =~= p.subrange(a0, n).push(s.last()));
            assert(all.last() == s.subrange(a0, s.len() as int));
        }
        assert forall|k: int| 0 <= k < all.len() implies piece_lies(s, sep, #[trigger] all[k]) by {
            if k < all.len() - 1 {
                let (a, b) = choose|a: int, b: int|
                    0 <= a <= b < s.len() && all[k] == #[trigger] s.subrange(a, b) && s[b] == sep;
                assert(all[k] == s.subrange(a, b));
            } else {
                let a = choose|a: int| 0 <= a <= s.len() && all.last() == #[trigger] s.subrange(a, s.len() as int);
                assert(all[k] == s.subrange(a, s.len() as int));
            }
        }
    }
}

/// What a target that was let through is made of: no character that is unfit,
/// no question mark before the query, and fit escapes.
spec fn clean(s: Seq<char>) -> bool {
    &&& !net::has_unfit(s)
    &&& !s.contains('?')
    &&& escapes_fit(s)
}

proof fn lemma_piece_clean(s: Seq<char>, piece: Seq<char>)
    requires
        clean(s),
        piece_lies(s, '/', piece),
    ensures
        clean(piece),
{
    let (a, b) = choose|a: int, b: int|
        0 <= a <= b <= s.len() && piece == #[trigger] s.subrange(a, b) && (b == s.len() || s[b] == '/');
    assert forall|i: int| 0 <= i < piece.len() implies !net::unfit(#[trigger] piece[i]) by {
        assert(piece[i] == s[a + i]);
    }
    assert forall|i: int| 0 <= i < piece.len() implies piece[i] != '?' by {
        assert(piece[i] == s[a + i]);
    }
    assert forall|i: int| 0 <= i < piece.len() && #[trigger] piece[i] == '%' implies net::escape_complete(
        piece,
        i,
    ) && !net::separator_byte(net::escaped_byte(piece, i + 1)) by {
        assert(s[a + i] == '%');
        assert(net::escape_complete(s, a + i));
        if i + 2 >= piece.len() {
            assert(b < s.len());
            assert(b == a + i + 1 || b == a + i + 2);
            assert(net::hex_value('/') is None);
        }
        assert(piece[i + 1] == s[a + i + 1] && piece[i + 2] == s[a + i + 2]);
    }
}

proof fn lemma_clean_concat(a: Seq<char>, b: Seq<char>)
    requires
        clean(a),
        clean(b),
    ensures
        clean(a + b),
{
    let c = a + b;
    assert forall|i: int| 0 <= i < c.len() implies !net::unfit(#[trigger] c[i]) && c[i] != '?' by {
        if i < a.len() {
            assert(c[i] == a[i]);
        } else {
            assert(c[i] == b[i - a.len()]);
        }
    }
    assert forall|i: int| 0 <= i < c.len() && #[trigger] c[i] == '%' implies net::escape_complete(c, i)
        && !net::separator_byte(net::escaped_byte(c, i + 1)) by {
        if i < a.len() {
            assert(a[i] == '%');
            assert(c[i + 1] == a[i + 1] && c[i + 2] == a[i + 2]);
        } else {
            let j = i - a.len();
            assert(b[j] == '%');
            assert(c[i + 1] == b[j + 1] && c[i + 2] == b[j + 2]);
        }
    }
}

/// A segment that names something below: not empty, `.` or `..`, without a
/// slash.
pub open spec fn plain_segment(s: Seq<char>) -> bool {
    s != ""@ && s != "."@ && s != ".."@ && !s.contains('/')
}

proof fn lemma_resolved_segments(segs: Seq<Seq<char>>)
    requires
        net::resolved(segs) is Some,
    ensures
        forall|i: int|
            0 <= i < net::resolved(segs)->0.len() ==> segs.contains(#[trigger] net::resolved(segs)->0[i])
                && net::resolved(segs)->0[i] != ""@ && net::resolved(segs)->0[i] != "."@ && net::resolved(
                segs,
            )->0[i] != ".."@,
    decreases segs.len(),
{
    if segs.len() > 0 {
        let p = segs.drop_last();
        lemma_resolved_segments(p);
        let out = net::resolved(segs)->0;
        let had = net::resolved(p)->0;
        assert forall|i: int| 0 <= i < out.len() implies segs.contains(#[trigger] out[i]) && out[i] != ""@
            && out[i] != "."@ && out[i] != ".."@ by {
            if i < had.len() {
                assert(out[i] == had[i]);
                assert(p.contains(had[i]));
                let j = p.index_of(had[i]);
                assert(segs[j] == had[i]);
            } else {
                assert(out[i] == segs.last());
                assert(segs[segs.len() - 1] == out[i]);
            }
        }
    }
}

proof fn lemma_resolved_plain(out: Seq<Seq<char>>)
    requires
        forall|i: int| 0 <= i < out.len() ==> plain_segment(#[trigger] out[i]),
    ensures
        net::resolved(seq![""@] + out) == Some(out),
    decreases out.len(),
{
    let segs = seq![""@] + out;
    if out.len() == 0 {
        assert(segs.drop_last() =~= Seq::empty());
        assert(net::resolved(segs.drop_last()) == Some(Seq::<Seq<char>>::empty()));
        assert(out =~= Seq::empty());
    } else {
        let p = out.drop_last();
        assert forall|i: int| 0 <= i < p.len() implies plain_segment(#[trigger] p[i]) by {
            assert(p[i] == out[i]);
        }
        lemma_resolved_plain(p);
        assert(segs.drop_last() =~= seq![""@] + p);
        assert(segs.last() == out.last());
        assert(plain_segment(out[out.len() - 1]));
        assert(p.push(out.last()) =~= out);
    }
}

proof fn lemma_join_front(first: Seq<char>, rest: Seq<Seq<char>>, sep: Seq<char>)
    requires
        rest.len() > 0,
    ensures
        text::join_with(seq![first] + rest, sep) == first + sep + text::join_with(rest, sep),
    decreases rest.len(),
{
    let all = seq![first] + rest;
    if rest.len() == 1 {
        assert(all.drop_last() =~= seq![first]);
        assert(text::join_with(all.drop_last(), sep) == first);
    } else {
        lemma_join_front(first, rest.drop_last(), sep);
        assert(all.drop_last() =~= seq![first] + rest.drop_last());
        assert(all.last() == rest.last());
        assert(first + sep + text::join_with(rest.drop_last(), sep) + sep + rest.last() =~= first + sep + (
        text::join_with(rest.drop_last(), sep) + sep + rest.last()));
    }
}

proof fn lemma_join_clean(parts: Seq<Seq<char>>)
    requires
        forall|i: int| 0 <= i < parts.len() ==> clean(#[trigger] parts[i]),
    ensures
        clean(text::join_with(parts, "/"@)),
    decreases parts.len(),
{
    reveal_strlit("/");
    assert(clean("/"@)) by {
        let s = "/"@;
        assert(s.len() == 1 && s[0] == '/');
    }
    if parts.len() > 1 {
        let p = parts.drop_last();
        assert forall|i: int| 0 <= i < p.len() implies clean(#[trigger] p[i]) by {
            assert(p[i] == parts[i]);
        }
        lemma_join_clean(p);
        lemma_clean_concat(text::join_with(p, "/"@), "/"@);
        assert(clean(parts[parts.len() - 1]));
        lemma_clean_concat(text::join_with(p, "/"@) + "/"@, parts.last());
    } else if parts.len() == 1 {
        assert(clean(parts[0]));
    }
}

proof fn lemma_query_at(s: Seq<char>)
    ensures
        0 <= net::query_at(s) <= s.len(),
        !s.take(net::query_at(s)).contains('?'),
        net::query_at(s) < s.len() ==> s[net::query_at(s)] == '?',
    decreases s.len(),
{
    if s.len() > 0 && s[0] != '?' {
        let r = s.drop_first();
        lemma_query_at(r);
        let k = net::query_at(s);
        assert(net::query_at(r) == k - 1);
        assert forall|i: int| 0 <= i < k implies s[i] != '?' by {
            if i > 0 {
                assert(r.take(k - 1)[i - 1] == s[i]);
            }
        }
        if k < s.len() {
            assert(r[k - 1] == s[k]);
        }
    } else {
        assert(s.take(0) =~= Seq::empty());
    }
}

proof fn lemma_query_of_concat(a: Seq<char>, b: Seq<char>)
    requires
        !a.contains('?'),
        b.len() > 0 ==> b[0] == '?',
    ensures
        net::query_at(a + b) == a.len(),
    decreases a.len(),
{
    if a.len() == 0 {
        assert(a + b =~= b);
    } else {
        assert((a + b).drop_first() =~= a.drop_first() + b);
        assert(a.contains(a[0]));
        assert(!a.drop_first().contains('?')) by {
            if a.drop_first().contains('?') {
                let j = a.drop_first().index_of('?');
                assert(a[j + 1] == '?');
            }
        }
        lemma_query_of_concat(a.drop_first(), b);
    }
}

/// The path part of a target that was let through: a slash, and plain segments
/// with slashes between them.
pub open spec fn plain_path(path: Seq<char>, segs: Seq<Seq<char>>) -> bool {
    &&& path == "/"@ + text::join_with(segs, "/"@)
    &&& forall|i: int| 0 <= i < segs.len() ==> plain_segment(#[trigger] segs[i])
}

/// The segments and the query of a target that was let through.
proof fn lemma_canonical_parts(raw: Seq<char>) -> (r: (Seq<Seq<char>>, Seq<char>))
    requires
        net::canonical(raw) is Ok,
    ensures
        net::canonical(raw)->Ok_0 == "/"@ + text::join_with(r.0, "/"@) + r.1,
        forall|i: int| 0 <= i < r.0.len() ==> plain_segment(#[trigger] r.0[i]) && clean(r.0[i]),
        r.1.len() > 0 ==> r.1[0] == '?',
        !net::has_unfit(r.1),
        escapes_fit(r.1),
{
    let path = raw.take(net::query_at(raw));
    let query = raw.skip(net::query_at(raw));
    lemma_query_at(raw);
    lemma_escapes_fit(path);
    lemma_escapes_fit(query);
    let segs = text::split_on(path, '/');
    let out = net::resolved(segs)->0;
    lemma_resolved_segments(segs);
    lemma_pieces_lie(path, '/');
    text::lemma_split_on_free(path, '/');
    assert(clean(path)) by {
        assert forall|i: int| 0 <= i < path.len() implies !net::unfit(#[trigger] path[i]) by {
            assert(path[i] == raw[i]);
        }
    }
    assert forall|i: int| 0 <= i < out.len() implies plain_segment(#[trigger] out[i]) && clean(out[i]) by {
        assert(segs.contains(out[i]));
        let j = segs.index_of(out[i]);
        assert(segs[j] == out[i]);
        assert(!segs[j].contains('/'));
        assert(piece_lies(path, '/', segs[j]));
        lemma_piece_clean(path, out[i]);
    }
    assert forall|i: int| 0 <= i < query.len() implies !net::unfit(#[trigger] query[i]) by {
        assert(query[i] == raw[net::query_at(raw) + i]);
    }
    (out, query)
}

/// A target that was let through is a slash, plain segments with slashes between
/// them, and the query: no segment of it is empty, `.` or `..`, nothing in it is
/// unfit, and no escape in it hides a separator or a dot.
pub proof fn law_canonical_form(raw: Seq<char>)
    requires
        net::canonical(raw) is Ok,
    ensures
        ({
            let t = net::canonical(raw)->Ok_0;
            let path = t.take(net::query_at(t));
            &&& exists|segs: Seq<Seq<char>>| #[trigger] plain_path(path, segs)
            &&& !net::has_unfit(t)
            &&& escapes_fit(path)
            &&& escapes_fit(t.skip(net::query_at(t)))
        }),
{
    let (out, query) = lemma_canonical_parts(raw);
    let norm = "/"@ + text::join_with(out, "/"@);
    let t = norm + query;
    lemma_norm_clean(out);
    lemma_query_of_concat(norm, query);
    assert(t.take(norm.len() as int) =~= norm);
    assert(t.skip(norm.len() as int) =~= query);
    assert forall|i: int| 0 <= i < t.len() implies !net::unfit(#[trigger] t[i]) by {
        if i < norm.len() {
            assert(t[i] == norm[i]);
        } else {
            assert(t[i] == query[i - norm.len()]);
        }
    }
    assert(plain_path(norm, out));
}

proof fn lemma_norm_clean(out: Seq<Seq<char>>)
    requires
        forall|i: int| 0 <= i < out.len() ==> clean(#[trigger] out[i]),
    ensures
        clean("/"@ + text::join_with(out, "/"@)),
{
    lemma_join_clean(out);
    reveal_strlit("/");
    assert(clean("/"@)) by {
        let s = "/"@;
        assert(s.len() == 1 && s[0] == '/');
    }
    lemma_clean_concat("/"@, text::join_with(out, "/"@));
}

/// The form is the only one: a target that was let through is let through as it
/// is.
pub proof fn law_canonical_idempotent(raw: Seq<char>)
    requires
        net::canonical(raw) is Ok,
    ensures
        net::canonical(net::canonical(raw)->Ok_0) == net::canonical(raw),
{
    let (out, query) = lemma_canonical_parts(raw);
    let norm = "/"@ + text::join_with(out, "/"@);
    let t = norm + query;
    lemma_norm_clean(out);
    lemma_query_of_concat(norm, query);
    assert(t.take(norm.len() as int) =~= norm);
    assert(t.skip(norm.len() as int) =~= query);
    law_canonical_form(raw);
    lemma_escapes_fit(norm);
    lemma_escapes_fit(query);
    reveal_strlit("/");
    reveal_strlit("//");
    reveal_strlit("");
    assert(t[0] == '/');
    assert(t.take(1) =~= "/"@);
    assert(!text::starts(t, "//"@)) by {
        if text::starts(t, "//"@) {
            assert(t.take(2)[1] == '/');
            assert(t[1] == '/');
            if out.len() == 0 {
                assert(norm.len() == 1);
                assert(query[0] == t[1]);
            } else {
                let j = text::join_with(out, "/"@);
                assert(plain_segment(out[0]));
                assert(out[0].len() > 0) by {
                    if out[0].len() == 0 {
                        assert(out[0] =~= ""@);
                    }
                }
                lemma_join_begins(out);
                assert(j[0] == out[0][0]);
                assert(t[1] == j[0]);
                assert(out[0].contains(out[0][0]));
            }
        }
    }
    assert(""@ =~= Seq::empty());
    if out.len() == 0 {
        assert(norm =~= seq!['/']);
        assert(norm.drop_last() =~= Seq::empty());
        assert(text::split_on(Seq::empty(), '/') == seq![Seq::<char>::empty()]);
        assert(text::split_on(norm, '/') =~= seq![""@].push(Seq::empty()));
        assert(text::split_on(norm, '/') =~= seq![""@, ""@]);
        let segs = seq![""@, ""@];
        assert(segs.drop_last() =~= seq![""@]);
        assert(segs.drop_last().drop_last() =~= Seq::empty());
        reveal_with_fuel(net::resolved, 3);
        assert(net::resolved(segs) == Some(Seq::<Seq<char>>::empty()));
        assert(out =~= Seq::empty());
    } else {
        let parts = seq![""@] + out;
        lemma_join_front(""@, out, "/"@);
        assert(""@ + "/"@ + text::join_with(out, "/"@) =~= norm);
        assert forall|i: int| 0 <= i < parts.len() implies !(#[trigger] parts[i]).contains('/') by {
            if i > 0 {
                assert(parts[i] == out[i - 1]);
                assert(plain_segment(out[i - 1]));
            }
        }
        assert("/"@ =~= seq!['/']);
        text::lemma_split_join(parts, '/');
        lemma_resolved_plain(out);
    }
}

proof fn lemma_join_begins(parts: Seq<Seq<char>>)
    requires
        parts.len() > 0,
        parts[0].len() > 0,
    ensures
        text::join_with(parts, "/"@).len() > 0,
        text::join_with(parts, "/"@)[0] == parts[0][0],
    decreases parts.len(),
{
    if parts.len() > 1 {
        assert(parts.drop_last()[0] == parts[0]);
        lemma_join_begins(parts.drop_last());
    }
}

/// How segments are resolved one after another: an empty one and `.` change nothing, a
/// plain one is added, `..` takes back the one before it, and above the root there is
/// nothing.
pub proof fn law_dot_segments(segs: Seq<Seq<char>>, x: Seq<char>)
    requires
        plain_segment(x),
    ensures
        net::resolved(Seq::empty()) == Some(Seq::<Seq<char>>::empty()),
        net::resolved(segs.push(""@)) == net::resolved(segs),
        net::resolved(segs.push("."@)) == net::resolved(segs),
        net::resolved(segs) is Some ==> net::resolved(segs.push(x)) == Some(net::resolved(segs)->0.push(x)),
        net::resolved(segs.push(x).push(".."@)) == net::resolved(segs),
        net::resolved(segs) is None ==> net::resolved(segs.push(x)) is None && net::resolved(segs.push(".."@)) is None,
        net::resolved(segs) == Some(Seq::<Seq<char>>::empty()) ==> net::resolved(segs.push(".."@)) is None,
{
    reveal_strlit("");
    reveal_strlit(".");
    reveal_strlit("..");
    assert(""@.len() == 0 && "."@.len() == 1 && ".."@.len() == 2);
    assert(segs.push(""@).drop_last() =~= segs);
    assert(segs.push("."@).drop_last() =~= segs);
    assert(segs.push(".."@).drop_last() =~= segs);
    assert(segs.push(x).drop_last() =~= segs);
    assert(segs.push(x).push(".."@).drop_last() =~= segs.push(x));
    if net::resolved(segs) is Some {
        let out = net::resolved(segs)->0;
        assert(out.push(x).drop_last() =~= out);
    }
}

/// A character that may stand in a target.
pub open spec fn target_char(c: char) -> bool {
    c > ' ' && c != '\u{7f}' && c != '\\'
}

/// A hexadecimal digit.
pub open spec fn hex_char(c: char) -> bool {
    ('0' <= c <= '9') || ('a' <= c <= 'f') || ('A' <= c <= 'F')
}

/// Whether the percent sign at `i` begins an escape for a byte other than a slash, a dot
/// and a backslash.
pub open spec fn plain_escape(s: Seq<char>, i: int) -> bool {
    &&& i + 2 < s.len()
    &&& hex_char(s[i + 1]) && hex_char(s[i + 2])
    &&& !(s[i + 1] == '2' && (s[i + 2] == 'f' || s[i + 2] == 'F' || s[i + 2] == 'e' || s[i + 2] == 'E'))
    &&& !(s[i + 1] == '5' && (s[i + 2] == 'c' || s[i + 2] == 'C'))
}

/// The two ways to say that an escape may stand in a target are the same.
pub proof fn lemma_plain_escape(s: Seq<char>, i: int)
    requires
        0 <= i < s.len(),
    ensures
        plain_escape(s, i) <==> net::escape_complete(s, i) && !net::separator_byte(net::escaped_byte(s, i + 1)),
{
    if i + 2 < s.len() {
        lemma_hex_pair(s[i + 1], s[i + 2]);
    }
}

/// The bytes that may not stand escaped, by their two digits.
pub proof fn lemma_hex_pair(a: char, b: char)
    ensures
        hex_char(a) <==> net::hex_value(a) is Some,
        hex_char(b) <==> net::hex_value(b) is Some,
        hex_char(a) && hex_char(b) ==> (net::separator_byte((net::hex_value(a)->0 * 16 + net::hex_value(b)->0) as u8) <==> (
        a == '2' && (b == 'f' || b == 'F' || b == 'e' || b == 'E')) || (a == '5' && (b == 'c' || b == 'C'))),
{
    if hex_char(a) && hex_char(b) {
        let x = net::hex_value(a)->0;
        let y = net::hex_value(b)->0;
        assert(x < 16 && y < 16);
        assert(x == 2 <==> a == '2');
        assert(x == 5 <==> a == '5');
        assert(y == 15 <==> b == 'f' || b == 'F');
        assert(y == 14 <==> b == 'e' || b == 'E');
        assert(y == 12 <==> b == 'c' || b == 'C');
    }
}

/// Whether every percent sign begins an escape that may stand in a target.
pub open spec fn plain_escapes(s: Seq<char>) -> bool {
    forall|i: int| 0 <= i < s.len() && #[trigger] s[i] == '%' ==> plain_escape(s, i)
}

proof fn lemma_plain_escapes(s: Seq<char>)
    ensures
        net::escapes(s, 0) is Ok <==> plain_escapes(s),
{
    lemma_escapes_fit(s);
    assert forall|i: int| 0 <= i < s.len() implies (plain_escape(s, i) <==> net::escape_complete(s, i)
        && !net::separator_byte(net::escaped_byte(s, i + 1))) by {
        lemma_plain_escape(s, i);
    }
    if plain_escapes(s) {
        assert forall|i: int| 0 <= i < s.len() && #[trigger] s[i] == '%' implies net::escape_complete(s, i)
            && !net::separator_byte(net::escaped_byte(s, i + 1)) by {
            assert(plain_escape(s, i));
        }
    }
    if escapes_fit(s) {
        assert forall|i: int| 0 <= i < s.len() && #[trigger] s[i] == '%' implies plain_escape(s, i) by {
            lemma_plain_escape(s, i);
        }
    }
}

proof fn lemma_target_char(c: char)
    ensures
        target_char(c) <==> !net::unfit(c),
{
}

/// A target, given as its path and its query, is let through just where it begins with
/// one slash, every character may stand in it, every percent sign begins a whole escape
/// that hides no slash, dot or backslash, and `..` never leads above the root. It is then
/// the resolved path with the query as it was.
pub proof fn law_target_passes(path: Seq<char>, query: Seq<char>)
    requires
        !path.contains('?'),
        query.len() > 0 ==> query[0] == '?',
    ensures
        ({
            let t = net::canonical(path + query);
            let segs = text::split_on(path, '/');
            &&& t is Ok <==> path.len() > 0 && path[0] == '/' && (path.len() > 1 ==> path[1] != '/') && (forall|i: int|
                0 <= i < path.len() ==> target_char(#[trigger] path[i])) && (forall|i: int|
                0 <= i < query.len() ==> target_char(#[trigger] query[i])) && plain_escapes(path) && plain_escapes(query)
                && net::resolved(segs) is Some
            &&& t is Ok ==> t->Ok_0 == "/"@ + text::join_with(net::resolved(segs)->0, "/"@) + query
        }),
{
    let raw = path + query;
    reveal_strlit("/");
    reveal_strlit("//");
    lemma_query_of_concat(path, query);
    assert(raw.take(path.len() as int) =~= path);
    assert(raw.skip(path.len() as int) =~= query);
    lemma_plain_escapes(path);
    lemma_plain_escapes(query);
    if raw.len() > 0 {
        assert(raw.take(1)[0] == raw[0]);
        assert(raw[0] == '/' ==> raw.take(1) =~= "/"@);
    }
    if raw.len() > 1 {
        assert(raw.take(2)[0] == raw[0] && raw.take(2)[1] == raw[1]);
        assert(raw[0] == '/' && raw[1] == '/' ==> raw.take(2) =~= "//"@);
    }
    let fit = (forall|i: int| 0 <= i < path.len() ==> target_char(#[trigger] path[i])) && (forall|i: int|
        0 <= i < query.len() ==> target_char(#[trigger] query[i]));
    if fit {
        assert forall|i: int| 0 <= i < raw.len() implies !net::unfit(#[trigger] raw[i]) by {
            if i < path.len() {
                assert(target_char(path[i]));
                lemma_target_char(path[i]);
            } else {
                assert(target_char(query[i - path.len()]));
                lemma_target_char(query[i - path.len()]);
            }
        }
    }
    if !net::has_unfit(raw) {
        assert forall|i: int| 0 <= i < path.len() implies target_char(#[trigger] path[i]) by {
            assert(!net::unfit(raw[i]));
            lemma_target_char(path[i]);
        }
        assert forall|i: int| 0 <= i < query.len() implies target_char(#[trigger] query[i]) by {
            assert(!net::unfit(raw[i + path.len()]));
            lemma_target_char(query[i]);
        }
    }
    if path.len() == 0 {
        assert(raw =~= query);
    }
}

/// A target of plain segments without escapes is let through as it is.
pub proof fn law_plain_target_is_kept(segs: Seq<Seq<char>>)
    requires
        segs.len() > 0,
        forall|i: int| 0 <= i < segs.len() ==> plain_segment(#[trigger] segs[i]),
        forall|i: int, j: int|
            0 <= i < segs.len() && 0 <= j < segs[i].len() ==> target_char(#[trigger] segs[i][j]) && segs[i][j] != '%'
                && segs[i][j] != '?',
    ensures
        net::canonical("/"@ + text::join_with(segs, "/"@)) == Ok::<Seq<char>, Seq<char>>(
            "/"@ + text::join_with(segs, "/"@),
        ),
{
    let j = text::join_with(segs, "/"@);
    let path = "/"@ + j;
    let none = Seq::<char>::empty();
    reveal_strlit("/");
    reveal_strlit("");
    assert("/"@ =~= seq!['/']);
    assert(""@ =~= Seq::empty());
    lemma_join_plain(segs);
    assert forall|i: int| 0 <= i < path.len() implies target_char(#[trigger] path[i]) && path[i] != '%' && path[i]
        != '?' by {
        if i > 0 {
            assert(path[i] == j[i - 1]);
        }
    }
    assert(path + none =~= path);
    let parts = seq![""@] + segs;
    lemma_join_front(""@, segs, "/"@);
    assert(""@ + "/"@ + j =~= path);
    assert forall|i: int| 0 <= i < parts.len() implies !(#[trigger] parts[i]).contains('/') by {
        if i > 0 {
            assert(parts[i] == segs[i - 1]);
            assert(plain_segment(segs[i - 1]));
        }
    }
    text::lemma_split_join(parts, '/');
    lemma_resolved_plain(segs);
    assert(plain_segment(segs[0]));
    if segs[0].len() == 0 {
        assert(segs[0] =~= ""@);
    }
    lemma_join_begins(segs);
    assert(segs[0].contains(segs[0][0]));
    assert(path[1] == segs[0][0]);
    law_target_passes(path, none);
    assert("/"@ + j + none =~= path);
}

proof fn lemma_join_plain(segs: Seq<Seq<char>>)
    requires
        forall|i: int, j: int|
            0 <= i < segs.len() && 0 <= j < segs[i].len() ==> target_char(#[trigger] segs[i][j]) && segs[i][j] != '%'
                && segs[i][j] != '?',
    ensures
        forall|k: int|
            0 <= k < text::join_with(segs, "/"@).len() ==> target_char(#[trigger] text::join_with(segs, "/"@)[k])
                && text::join_with(segs, "/"@)[k] != '%' && text::join_with(segs, "/"@)[k] != '?',
    decreases segs.len(),
{
    reveal_strlit("/");
    let s = text::join_with(segs, "/"@);
    if segs.len() == 1 {
        assert forall|k: int| 0 <= k < s.len() implies target_char(#[trigger] s[k]) && s[k] != '%' && s[k] != '?' by {
            assert(s[k] == segs[0][k]);
        }
    } else if segs.len() > 1 {
        let p = segs.drop_last();
        assert forall|i: int, j: int| 0 <= i < p.len() && 0 <= j < p[i].len() implies target_char(#[trigger] p[i][j])
            && p[i][j] != '%' && p[i][j] != '?' by {
            assert(p[i][j] == segs[i][j]);
        }
        lemma_join_plain(p);
        let front = text::join_with(p, "/"@);
        let n = segs.len() - 1;
        assert forall|k: int| 0 <= k < s.len() implies target_char(#[trigger] s[k]) && s[k] != '%' && s[k] != '?' by {
            if k < front.len() {
                assert(s[k] == front[k]);
            } else if k > front.len() {
                assert(s[k] == segs[n][k - front.len() - 1]);
            }
        }
    }
}

} // verus!
