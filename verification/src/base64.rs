//! Base64 in the standard alphabet, for the binary parts of the wire protocol.

use vstd::prelude::*;
use vstd::utf8::*;

verus! {

/// The byte that stands for a six-bit value.
pub open spec fn symbol(v: nat) -> u8 {
    if v < 26 {
        (65 + v) as u8
    } else if v < 52 {
        (97 + v - 26) as u8
    } else if v < 62 {
        (48 + v - 52) as u8
    } else if v == 62 {
        43
    } else {
        47
    }
}

/// The six-bit value that a byte stands for, if it stands for one.
pub open spec fn value(c: u8) -> Option<nat> {
    if 65 <= c <= 90 {
        Some((c - 65) as nat)
    } else if 97 <= c <= 122 {
        Some((c - 97 + 26) as nat)
    } else if 48 <= c <= 57 {
        Some((c - 48 + 52) as nat)
    } else if c == 43 {
        Some(62)
    } else if c == 47 {
        Some(63)
    } else {
        None
    }
}

/// The four symbols for up to three bytes, the missing ones padded with `=`.
pub open spec fn group(d: Seq<u8>) -> Seq<char> {
    let b0 = d[0] as nat;
    let b1 = if d.len() > 1 {
        d[1] as nat
    } else {
        0
    };
    let b2 = if d.len() > 2 {
        d[2] as nat
    } else {
        0
    };
    seq![
        symbol(b0 / 4) as char,
        symbol((b0 % 4) * 16 + b1 / 16) as char,
        if d.len() > 1 {
            symbol((b1 % 16) * 4 + b2 / 64) as char
        } else {
            '='
        },
        if d.len() > 2 {
            symbol(b2 % 64) as char
        } else {
            '='
        },
    ]
}

/// The first `n` elements, or all where there are fewer.
pub open spec fn head<A>(s: Seq<A>, n: nat) -> Seq<A> {
    s.take(if s.len() < n {
        s.len() as int
    } else {
        n as int
    })
}

/// What is left after the first `n` elements.
pub open spec fn tail<A>(s: Seq<A>, n: nat) -> Seq<A> {
    s.skip(if s.len() < n {
        s.len() as int
    } else {
        n as int
    })
}

/// The base64 text of some bytes.
pub open spec fn encoded(d: Seq<u8>) -> Seq<char>
    decreases d.len(),
{
    if d.len() == 0 {
        Seq::empty()
    } else {
        group(head(d, 3)) + encoded(tail(d, 3))
    }
}

/// The values of the bytes that stand for one, the others left out.
pub open spec fn values(c: Seq<u8>) -> Seq<nat>
    decreases c.len(),
{
    if c.len() == 0 {
        Seq::empty()
    } else {
        match value(c.last()) {
            Some(v) => values(c.drop_last()).push(v),
            None => values(c.drop_last()),
        }
    }
}

/// The whole bytes that up to four six-bit values make, the spare bits dropped.
pub open spec fn ungroup(v: Seq<nat>) -> Seq<u8> {
    let b0 = (v[0] * 4 + v[1] / 16) as u8;
    let b1 = ((v[1] % 16) * 16 + v[2] / 4) as u8;
    let b2 = ((v[2] % 4) * 64 + v[3]) as u8;
    if v.len() < 2 {
        Seq::empty()
    } else if v.len() == 2 {
        seq![b0]
    } else if v.len() == 3 {
        seq![b0, b1]
    } else {
        seq![b0, b1, b2]
    }
}

/// The bytes that symbols stand for, taken four at a time.
pub open spec fn decoded(c: Seq<u8>) -> Seq<u8>
    decreases c.len(),
{
    if c.len() == 0 {
        Seq::empty()
    } else {
        ungroup(values(head(c, 4))) + decoded(tail(c, 4))
    }
}

/// The bytes of a text without its padding.
pub open spec fn unpadded(s: Seq<char>) -> Seq<u8> {
    encode_utf8(s).filter(|c: u8| c != 61)
}

fn symbol_char(v: u8) -> (r: char)
    requires
        v < 64,
    ensures
        r == symbol(v as nat) as char,
{
    let b: u8 = if v < 26 {
        65 + v
    } else if v < 52 {
        97 + (v - 26)
    } else if v < 62 {
        48 + (v - 52)
    } else if v == 62 {
        43
    } else {
        47
    };
    b as char
}

/// Writes bytes in base64.
pub fn b64_encode(data: &[u8]) -> (r: String)
    ensures
        r@ == encoded(data@),
{
    let mut out = String::new();
    let n: usize = data.len();
    let mut i: usize = 0;
    assert(data@.skip(0) =~= data@);
    while i < n
        invariant
            i <= n,
            n == data@.len(),
            out@ + encoded(data@.skip(i as int)) == encoded(data@),
        decreases n - i,
    {
        let ghost rest = data@.skip(i as int);
        let left: usize = n - i;
        let b0: u8 = data[i];
        let b1: u8 = if left > 1 {
            data[i + 1]
        } else {
            0
        };
        let b2: u8 = if left > 2 {
            data[i + 2]
        } else {
            0
        };
        let ghost before = out@;
        out.push(symbol_char(b0 / 4));
        out.push(symbol_char((b0 % 4) * 16 + b1 / 16));
        out.push(
            if left > 1 {
                symbol_char((b1 % 16) * 4 + b2 / 64)
            } else {
                '='
            },
        );
        out.push(
            if left > 2 {
                symbol_char(b2 % 64)
            } else {
                '='
            },
        );
        assert(out@ =~= before + group(head(rest, 3)));
        let step: usize = if left < 3 {
            left
        } else {
            3
        };
        assert(tail(rest, 3) =~= data@.skip(i + step));
        assert(before + (group(head(rest, 3)) + encoded(tail(rest, 3))) =~= (before + group(
            head(rest, 3),
        )) + encoded(tail(rest, 3)));
        i += step;
    }
    assert(data@.skip(n as int) =~= Seq::empty());
    assert(out@ + Seq::<char>::empty() =~= out@);
    out
}

fn symbol_value(c: u8) -> (r: Option<u32>)
    ensures
        match r {
            Some(v) => v < 64 && value(c) == Some(v as nat),
            None => value(c) is None,
        },
{
    if 65 <= c && c <= 90 {
        Some((c - 65) as u32)
    } else if 97 <= c && c <= 122 {
        Some((c - 97 + 26) as u32)
    } else if 48 <= c && c <= 57 {
        Some((c - 48 + 52) as u32)
    } else if c == 43 {
        Some(62)
    } else if c == 47 {
        Some(63)
    } else {
        None
    }
}

/// The values of a chunk of at most four bytes.
fn chunk_values(c: &[u8]) -> (r: Vec<u32>)
    ensures
        r@.len() == values(c@).len(),
        r@.len() <= c@.len(),
        forall|i: int| 0 <= i < r@.len() ==> (#[trigger] r@[i]) as nat == values(c@)[i] && r@[i] < 64,
{
    let mut out: Vec<u32> = Vec::new();
    let mut i: usize = 0;
    while i < c.len()
        invariant
            i <= c@.len(),
            out@.len() == values(c@.take(i as int)).len(),
            out@.len() <= i,
            forall|j: int|
                0 <= j < out@.len() ==> (#[trigger] out@[j]) as nat == values(c@.take(i as int))[j] && out@[j]
                    < 64,
        decreases c@.len() - i,
    {
        assert(c@.take(i + 1).drop_last() =~= c@.take(i as int));
        match symbol_value(c[i]) {
            Some(v) => {
                out.push(v);
            },
            None => {},
        }
        i += 1;
    }
    assert(c@.take(c@.len() as int) =~= c@);
    out
}

/// Reads base64. Padding is passed over; a byte that is no symbol counts as a
/// place in its group of four but adds nothing.
pub fn b64_decode(s: &str) -> (r: Vec<u8>)
    ensures
        r@ == decoded(unpadded(s@)),
{
    let bytes = s.as_bytes();
    let ghost keep = |c: u8| c != 61;
    let mut cs: Vec<u8> = Vec::new();
    let mut i: usize = 0;
    reveal(Seq::filter);
    assert(bytes@.take(0).filter(keep) =~= Seq::empty());
    while i < bytes.len()
        invariant
            i <= bytes@.len(),
            keep == (|c: u8| c != 61),
            cs@ == bytes@.take(i as int).filter(keep),
        decreases bytes@.len() - i,
    {
        reveal(Seq::filter);
        assert(bytes@.take(i + 1).drop_last() =~= bytes@.take(i as int));
        if bytes[i] != 61 {
            cs.push(bytes[i]);
        }
        i += 1;
    }
    assert(bytes@.take(bytes@.len() as int) =~= bytes@);
    let n: usize = cs.len();
    let mut out: Vec<u8> = Vec::new();
    let mut k: usize = 0;
    assert(cs@.skip(0) =~= cs@);
    assert(out@ + decoded(cs@) =~= decoded(cs@));
    while k < n
        invariant
            k <= n,
            n == cs@.len(),
            out@ + decoded(cs@.skip(k as int)) == decoded(cs@),
        decreases n - k,
    {
        let ghost rest = cs@.skip(k as int);
        let step: usize = if n - k < 4 {
            n - k
        } else {
            4
        };
        let chunk = vstd::slice::slice_subrange(cs.as_slice(), k, k + step);
        assert(chunk@ =~= head(rest, 4));
        let v = chunk_values(chunk);
        let ghost before = out@;
        if v.len() >= 2 {
            assert(v@[0] < 64 && v@[1] < 64);
            out.push((v[0] * 4 + v[1] / 16) as u8);
        }
        if v.len() >= 3 {
            assert(v@[2] < 64);
            out.push(((v[1] % 16) * 16 + v[2] / 4) as u8);
        }
        if v.len() >= 4 {
            assert(v@[3] < 64);
            out.push(((v[2] % 4) * 64 + v[3]) as u8);
        }
        assert(out@ =~= before + ungroup(values(head(rest, 4))));
        assert(tail(rest, 4) =~= cs@.skip(k + step));
        assert(before + (ungroup(values(head(rest, 4))) + decoded(tail(rest, 4))) =~= (before + ungroup(
            values(head(rest, 4)),
        )) + decoded(tail(rest, 4)));
        k += step;
    }
    assert(cs@.skip(n as int) =~= Seq::empty());
    assert(out@ + Seq::<u8>::empty() =~= out@);
    out
}

/// A symbol stands for the value that it was chosen for, and is not padding.
proof fn lemma_symbol_value(v: nat)
    requires
        v < 64,
    ensures
        value(symbol(v)) == Some(v),
        symbol(v) != 61,
        symbol(v) < 128,
{
}

/// The bytes of a text of which the front is ASCII.
proof fn lemma_utf8_ascii_front(a: Seq<char>, b: Seq<char>)
    requires
        is_ascii_chars(a),
    ensures
        encode_utf8(a + b) == encode_utf8(a) + encode_utf8(b),
    decreases a.len(),
{
    if a.len() == 0 {
        assert(a + b =~= b);
        assert(encode_utf8(a) + encode_utf8(b) =~= encode_utf8(b));
    } else {
        assert((a + b).drop_first() =~= a.drop_first() + b);
        lemma_utf8_ascii_front(a.drop_first(), b);
        assert(encode_utf8(a + b) =~= encode_utf8(a) + encode_utf8(b));
    }
}

/// The values of symbols are those that they were chosen for.
proof fn lemma_values_of_symbols(c: Seq<u8>, v: Seq<nat>)
    requires
        c.len() == v.len(),
        forall|i: int| 0 <= i < v.len() ==> #[trigger] v[i] < 64 && c[i] == symbol(v[i]),
    ensures
        values(c) == v,
    decreases c.len(),
{
    if c.len() == 0 {
        assert(v =~= Seq::empty());
    } else {
        lemma_values_of_symbols(c.drop_last(), v.drop_last());
        assert(v[v.len() - 1] < 64);
        lemma_symbol_value(v.last());
        assert(v.drop_last().push(v.last()) =~= v);
    }
}

/// Bytes without padding are kept whole.
proof fn lemma_filter_all(c: Seq<u8>)
    requires
        forall|i: int| 0 <= i < c.len() ==> #[trigger] c[i] != 61,
    ensures
        c.filter(|x: u8| x != 61) == c,
    decreases c.len(),
{
    reveal(Seq::filter);
    if c.len() > 0 {
        lemma_filter_all(c.drop_last());
        assert(c.drop_last().push(c.last()) =~= c);
    }
}

/// Padding at the end falls away.
proof fn lemma_filter_padding(c: Seq<u8>)
    ensures
        c.push(61u8).filter(|x: u8| x != 61) == c.filter(|x: u8| x != 61),
{
    reveal(Seq::filter);
    assert(c.push(61u8).drop_last() =~= c);
}

/// The six-bit values of up to three bytes, as many as carry bits of them.
spec fn group_values(d: Seq<u8>) -> Seq<nat> {
    let b0 = d[0] as nat;
    let b1 = if d.len() > 1 {
        d[1] as nat
    } else {
        0
    };
    let b2 = if d.len() > 2 {
        d[2] as nat
    } else {
        0
    };
    if d.len() == 1 {
        seq![b0 / 4, (b0 % 4) * 16 + b1 / 16]
    } else if d.len() == 2 {
        seq![b0 / 4, (b0 % 4) * 16 + b1 / 16, (b1 % 16) * 4 + b2 / 64]
    } else {
        seq![b0 / 4, (b0 % 4) * 16 + b1 / 16, (b1 % 16) * 4 + b2 / 64, b2 % 64]
    }
}

proof fn lemma_ungroup_group_values(d: Seq<u8>)
    requires
        0 < d.len() <= 3,
    ensures
        ungroup(group_values(d)) == d,
        forall|i: int| 0 <= i < group_values(d).len() ==> #[trigger] group_values(d)[i] < 64,
        group_values(d).len() == d.len() + 1,
{
    assert(ungroup(group_values(d)) =~= d);
}

proof fn lemma_unpadded_group(d: Seq<u8>)
    requires
        0 < d.len() <= 3,
    ensures
        is_ascii_chars(group(d)),
        unpadded(group(d)) == Seq::new(group_values(d).len(), |i: int| symbol(group_values(d)[i])),
{
    let v = group_values(d);
    lemma_ungroup_group_values(d);
    assert forall|i: int| 0 <= i < v.len() implies symbol(#[trigger] v[i]) < 128 && symbol(v[i])
        != 61 by {
        lemma_symbol_value(v[i]);
    }
    let c = Seq::new(v.len(), |i: int| symbol(v[i]));
    let g = group(d);
    assert(v[0] < 64 && v[1] < 64);
    assert(is_ascii_chars(g)) by {
        assert(g[0] == symbol(v[0]) as char);
        assert(g[1] == symbol(v[1]) as char);
        assert(d.len() > 1 ==> g[2] == symbol(v[2]) as char);
        assert(d.len() > 2 ==> g[3] == symbol(v[3]) as char);
        assert(g.len() == 4);
    }
    is_ascii_chars_encode_utf8(g);
    let e = encode_utf8(g);
    assert(e[0] == g[0] as u8 && e[1] == g[1] as u8 && e[2] == g[2] as u8 && e[3] == g[3] as u8);
    assert forall|i: int| 0 <= i < c.len() implies #[trigger] c[i] != 61 by {
        assert(v[i] < 64);
    }
    lemma_filter_all(c);
    if d.len() == 1 {
        lemma_filter_padding(c);
        lemma_filter_padding(c.push(61u8));
        assert(e =~= c.push(61u8).push(61u8));
    } else if d.len() == 2 {
        lemma_filter_padding(c);
        assert(e =~= c.push(61u8));
    } else {
        assert(e =~= c);
    }
}

/// Reading a group back gives its bytes.
proof fn lemma_group_round_trip(d: Seq<u8>)
    requires
        0 < d.len() <= 3,
    ensures
        ungroup(values(unpadded(group(d)))) == d,
        unpadded(group(d)).len() == d.len() + 1,
        is_ascii_chars(group(d)),
{
    lemma_ungroup_group_values(d);
    lemma_unpadded_group(d);
    lemma_values_of_symbols(unpadded(group(d)), group_values(d));
}

/// Reading back what was written gives the bytes that were written.
pub proof fn law_base64_round_trip(d: Seq<u8>)
    ensures
        decoded(unpadded(encoded(d))) == d,
    decreases d.len(),
{
    let keep = |c: u8| c != 61;
    if d.len() == 0 {
        reveal(Seq::filter);
        assert(encode_utf8(encoded(d)) =~= Seq::empty());
        assert(unpadded(encoded(d)) =~= Seq::empty());
        assert(d =~= Seq::empty());
    } else {
        let h = head(d, 3);
        let t = tail(d, 3);
        lemma_group_round_trip(h);
        law_base64_round_trip(t);
        lemma_utf8_ascii_front(group(h), encoded(t));
        Seq::filter_distributes_over_add(encode_utf8(group(h)), encode_utf8(encoded(t)), keep);
        let a = unpadded(group(h));
        let b = unpadded(encoded(t));
        let whole = unpadded(encoded(d));
        assert(whole == a + b);
        if d.len() < 3 {
            assert(t =~= Seq::empty());
            reveal(Seq::filter);
            assert(encode_utf8(encoded(t)) =~= Seq::empty());
            assert(b =~= Seq::empty());
        }
        assert(head(whole, 4) =~= a);
        assert(tail(whole, 4) =~= b);
        assert(d =~= h + t);
    }
}

} // verus!
