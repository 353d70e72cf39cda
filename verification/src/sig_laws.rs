//! What a signature binds: every part of an action, and where each begins.

use crate::audit;
use crate::state;
use crate::text;
use vstd::prelude::*;
use vstd::utf8::*;

verus! {

/// A part as it is signed: a bar, its length in bytes, a colon, and itself.
spec fn frame(p: Seq<char>) -> Seq<char> {
    seq!['|'] + text::dec(text::byte_len(p)) + seq![':'] + p
}

/// The parts as they are signed, from the first on.
spec fn framed(parts: Seq<Seq<char>>) -> Seq<char>
    decreases parts.len(),
{
    if parts.len() == 0 {
        Seq::empty()
    } else {
        frame(parts[0]) + framed(parts.drop_first())
    }
}

proof fn lemma_framed_push(parts: Seq<Seq<char>>, p: Seq<char>)
    ensures
        framed(parts.push(p)) == framed(parts) + frame(p),
    decreases parts.len(),
{
    let all = parts.push(p);
    if parts.len() == 0 {
        assert(all.drop_first() =~= Seq::empty());
        assert(framed(all.drop_first()) =~= Seq::empty());
        assert(framed(all) =~= frame(p));
        assert(framed(parts) + frame(p) =~= frame(p));
    } else {
        assert(all.drop_first() =~= parts.drop_first().push(p));
        lemma_framed_push(parts.drop_first(), p);
        assert(framed(all) =~= framed(parts) + frame(p));
    }
}

proof fn lemma_sig_text(parts: Seq<Seq<char>>)
    ensures
        state::sig_text(parts) == "capsig:v1"@ + framed(parts),
    decreases parts.len(),
{
    if parts.len() == 0 {
        assert("capsig:v1"@ + framed(parts) =~= "capsig:v1"@);
    } else {
        let front = parts.drop_last();
        lemma_sig_text(front);
        assert(parts =~= front.push(parts.last()));
        lemma_framed_push(front, parts.last());
        reveal_strlit(":");
        assert(":"@ =~= seq![':']);
        assert(state::sig_text(parts) =~= "capsig:v1"@ + framed(parts));
    }
}

/// Two texts that begin a common one and take as many bytes are the same.
proof fn lemma_same_prefix(a: Seq<char>, b: Seq<char>, x: Seq<char>, y: Seq<char>)
    requires
        a + x == b + y,
        text::byte_len(a) == text::byte_len(b),
        a.len() <= b.len(),
    ensures
        a == b,
        x == y,
{
    let rest = b.skip(a.len() as int);
    assert(a =~= (a + x).take(a.len() as int));
    assert(b.take(a.len() as int) =~= (b + y).take(a.len() as int));
    assert(b =~= a + rest);
    text::lemma_encode_concat(a, rest);
    assert(encode_utf8(rest).len() == 0);
    encode_utf8_decode_utf8(rest);
    assert(encode_utf8(rest) =~= Seq::empty());
    assert(decode_utf8(encode_utf8(rest)).len() == 0);
    assert(rest.len() == 0);
    assert(b =~= a);
    assert(x =~= (a + x).skip(a.len() as int));
    assert(y =~= (b + y).skip(b.len() as int));
}

/// The first of two framings can be read off their common text.
proof fn lemma_first_frame(p: Seq<char>, x: Seq<char>, q: Seq<char>, y: Seq<char>)
    requires
        frame(p) + x == frame(q) + y,
    ensures
        p == q,
        x == y,
{
    let whole = frame(p) + x;
    let d = text::dec(text::byte_len(p));
    let e = text::dec(text::byte_len(q));
    text::lemma_dec_digits(text::byte_len(p));
    text::lemma_dec_digits(text::byte_len(q));
    assert(whole[1int + d.len()] == ':');
    assert((frame(q) + y)[1int + e.len()] == ':');
    assert(forall|i: int| 0 <= i < d.len() ==> whole[1 + i] == d[i]);
    assert(forall|i: int| 0 <= i < e.len() ==> (frame(q) + y)[1 + i] == e[i]);
    if d.len() < e.len() {
        assert(e[d.len() as int] == whole[1int + d.len()]);
        assert(false);
    }
    if e.len() < d.len() {
        assert(d[e.len() as int] == whole[1int + e.len()]);
        assert(false);
    }
    assert(d =~= e) by {
        assert forall|i: int| 0 <= i < d.len() implies d[i] == e[i] by {
            assert(whole[1 + i] == d[i]);
        }
    }
    text::lemma_dec_injective(text::byte_len(p), text::byte_len(q));
    let n = (d.len() + 2) as int;
    assert(whole.skip(n) =~= p + x);
    assert((frame(q) + y).skip(n) =~= q + y);
    if p.len() <= q.len() {
        lemma_same_prefix(p, q, x, y);
    } else {
        lemma_same_prefix(q, p, y, x);
    }
}

proof fn lemma_framed_injective(a: Seq<Seq<char>>, b: Seq<Seq<char>>)
    requires
        framed(a) == framed(b),
    ensures
        a == b,
    decreases a.len(),
{
    if a.len() == 0 {
        if b.len() > 0 {
            assert(framed(b)[0] == '|');
        }
        assert(a =~= b);
    } else if b.len() == 0 {
        assert(framed(a)[0] == '|');
    } else {
        lemma_first_frame(a[0], framed(a.drop_first()), b[0], framed(b.drop_first()));
        lemma_framed_injective(a.drop_first(), b.drop_first());
        assert(a =~= seq![a[0]] + a.drop_first());
        assert(b =~= seq![b[0]] + b.drop_first());
    }
}

/// The text that is signed fixes the parts: two actions with the same text have
/// the same parts, however these are divided.
pub proof fn law_signed_text_fixes_parts(a: Seq<Seq<char>>, b: Seq<Seq<char>>)
    requires
        state::sig_text(a) == state::sig_text(b),
    ensures
        a == b,
{
    lemma_sig_text(a);
    lemma_sig_text(b);
    let n = "capsig:v1"@.len() as int;
    assert(("capsig:v1"@ + framed(a)).skip(n) =~= framed(a));
    assert(("capsig:v1"@ + framed(b)).skip(n) =~= framed(b));
    lemma_framed_injective(a, b);
}

/// A signature is of one action only: where two actions have the same one, they
/// are the same, or what was signed of the two differs and has the same digest.
pub proof fn law_signature_binds_action(a: Seq<Seq<char>>, b: Seq<Seq<char>>)
    requires
        state::signature(a) == state::signature(b),
    ensures
        a == b || (state::sig_text(a) != state::sig_text(b) && audit::text_digest(state::sig_text(a))
            == audit::text_digest(state::sig_text(b))),
{
    if state::sig_text(a) == state::sig_text(b) {
        law_signed_text_fixes_parts(a, b);
    }
}


/// Consent to one post is no consent to another: where two posts have the same
/// signature they go through the same facet under the same subject with the same
/// text, or the two texts, or what was signed of the two posts, differ and have
/// the same digest.
pub proof fn law_consent_to_post_binds_text(
    r: Seq<char>,
    subject: Seq<char>,
    body: Seq<char>,
    r2: Seq<char>,
    subject2: Seq<char>,
    body2: Seq<char>,
)
    requires
        state::signature(seq!["post"@, r, subject, audit::text_digest(body)]) == state::signature(
            seq!["post"@, r2, subject2, audit::text_digest(body2)],
        ),
    ensures
        ({
            let one = state::sig_text(seq!["post"@, r, subject, audit::text_digest(body)]);
            let two = state::sig_text(seq!["post"@, r2, subject2, audit::text_digest(body2)]);
            ||| r == r2 && subject == subject2 && body == body2
            ||| body != body2 && audit::text_digest(body) == audit::text_digest(body2)
            ||| one != two && audit::text_digest(one) == audit::text_digest(two)
        }),
{
    let one = seq!["post"@, r, subject, audit::text_digest(body)];
    let two = seq!["post"@, r2, subject2, audit::text_digest(body2)];
    law_signature_binds_action(one, two);
    if one == two {
        assert(one[1] == r && two[1] == r2);
        assert(one[2] == subject && two[2] == subject2);
        assert(one[3] == audit::text_digest(body) && two[3] == audit::text_digest(body2));
    }
}

/// Consent to forward one file is no consent to forward another: where two
/// forwarded posts have the same signature they go through the same facet under
/// the same subject from the same source, or what was signed of the two differs
/// and has the same digest.
pub proof fn law_consent_to_forward_binds_source(
    r: Seq<char>,
    subject: Seq<char>,
    src: Seq<char>,
    rel: Seq<char>,
    r2: Seq<char>,
    subject2: Seq<char>,
    src2: Seq<char>,
    rel2: Seq<char>,
)
    requires
        state::signature(seq!["post_from"@, r, subject, src, rel]) == state::signature(
            seq!["post_from"@, r2, subject2, src2, rel2],
        ),
    ensures
        ({
            let one = state::sig_text(seq!["post_from"@, r, subject, src, rel]);
            let two = state::sig_text(seq!["post_from"@, r2, subject2, src2, rel2]);
            ||| r == r2 && subject == subject2 && src == src2 && rel == rel2
            ||| one != two && audit::text_digest(one) == audit::text_digest(two)
        }),
{
    let one = seq!["post_from"@, r, subject, src, rel];
    let two = seq!["post_from"@, r2, subject2, src2, rel2];
    law_signature_binds_action(one, two);
    if one == two {
        assert(one[1] == r && two[1] == r2);
        assert(one[2] == subject && two[2] == subject2);
        assert(one[3] == src && two[3] == src2);
        assert(one[4] == rel && two[4] == rel2);
    }
}

/// What is signed of an action: a fixed beginning, and each part with its length in bytes
/// before it.
pub proof fn law_signed_text(parts: Seq<Seq<char>>, p: Seq<char>)
    ensures
        state::sig_text(Seq::empty()) == "capsig:v1"@,
        state::sig_text(parts.push(p)) == state::sig_text(parts) + "|"@ + text::dec(encode_utf8(p).len()) + ":"@ + p,
        state::signature(parts) == audit::text_digest(state::sig_text(parts)),
{
    reveal_strlit("|");
    let t = state::sig_text(parts);
    assert(parts.push(p).drop_last() =~= parts);
    assert(t.push('|') =~= t + "|"@);
}

} // verus!
