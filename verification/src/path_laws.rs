//! What holds of joining paths and of telling whether one lies below another.

use crate::path;
use crate::text;
use crate::use_laws;
use vstd::prelude::*;

verus! {

/// A segment that names an entry below: not empty, `.` or `..`, and without a slash.
pub open spec fn entry(s: Seq<char>) -> bool {
    s.len() > 0 && s != "."@ && s != ".."@ && !s.contains('/')
}

proof fn lemma_kept_all(segs: Seq<Seq<char>>)
    requires
        forall|i: int| 0 <= i < segs.len() ==> entry(#[trigger] segs[i]),
    ensures
        path::kept(segs) == segs,
    decreases segs.len(),
{
    reveal(Seq::filter);
    if segs.len() > 0 {
        let p = segs.drop_last();
        assert forall|i: int| 0 <= i < p.len() implies entry(#[trigger] p[i]) by {
            assert(p[i] == segs[i]);
        }
        lemma_kept_all(p);
        assert(entry(segs[segs.len() - 1]));
        assert(p.push(segs.last()) =~= segs);
    } else {
        assert(path::kept(segs) =~= segs);
    }
}

/// A path of plain segments is joined to a root as it is: the root without slashes at its
/// back, a slash, and the path.
pub proof fn law_plain_path_is_joined(root: Seq<char>, segs: Seq<Seq<char>>)
    requires
        segs.len() > 0,
        forall|i: int| 0 <= i < segs.len() ==> entry(#[trigger] segs[i]),
    ensures
        path::joined(root, text::join_with(segs, "/"@)) == Ok::<Seq<char>, Seq<char>>(
            text::no_slash_back(root) + "/"@ + text::join_with(segs, "/"@),
        ),
{
    let rel = text::join_with(segs, "/"@);
    reveal_strlit("/");
    assert("/"@ =~= seq!['/']);
    assert forall|i: int| 0 <= i < segs.len() implies !(#[trigger] segs[i]).contains('/') by {
        assert(entry(segs[i]));
    }
    text::lemma_split_join(segs, '/');
    lemma_kept_all(segs);
    lemma_join_first(segs);
    assert(entry(segs[0]));
    assert(segs[0].contains(segs[0][0]));
    if text::starts(rel, "/"@) {
        assert(rel.take(1)[0] == rel[0]);
    }
    if segs.contains(".."@) {
        let k = segs.index_of(".."@);
        assert(entry(segs[k]));
    }
}

proof fn lemma_join_first(segs: Seq<Seq<char>>)
    requires
        segs.len() > 0,
        segs[0].len() > 0,
    ensures
        text::join_with(segs, "/"@).len() > 0,
        text::join_with(segs, "/"@)[0] == segs[0][0],
    decreases segs.len(),
{
    if segs.len() > 1 {
        assert(segs.drop_last()[0] == segs[0]);
        lemma_join_first(segs.drop_last());
    }
}

/// An empty segment and `.` add nothing to a joined path, wherever they stand.
pub proof fn law_idle_segments_fall_away(before: Seq<Seq<char>>, idle: Seq<char>, after: Seq<Seq<char>>)
    requires
        idle.len() == 0 || idle == "."@,
    ensures
        path::kept(before + seq![idle] + after) == path::kept(before + after),
    decreases after.len(),
{
    reveal(Seq::filter);
    let all = before + seq![idle] + after;
    if after.len() == 0 {
        assert(all.drop_last() =~= before);
        assert(before + after =~= before);
    } else {
        let rest = after.drop_last();
        law_idle_segments_fall_away(before, idle, rest);
        assert(all.drop_last() =~= before + seq![idle] + rest);
        assert((before + after).drop_last() =~= before + rest);
    }
}

/// A path is joined just where it is not absolute and has no `..`; without any segment
/// that names an entry it is the root itself.
pub proof fn law_joining_passes(root: Seq<char>, rel: Seq<char>)
    ensures
        path::joined(root, rel) is Ok <==> use_laws::inward(rel),
        path::joined(root, Seq::empty()) == Ok::<Seq<char>, Seq<char>>(root),
        path::joined(root, "."@) == Ok::<Seq<char>, Seq<char>>(root),
{
    use_laws::lemma_inward(root, rel);
    reveal_strlit("/");
    reveal_strlit(".");
    reveal_strlit("..");
    let none = Seq::<char>::empty();
    let dot = "."@;
    assert(!dot.contains('/'));
    text::lemma_split_on_single(dot, '/');
    text::lemma_split_on_single(none, '/');
    assert(".."@.len() == 2);
    reveal_with_fuel(Seq::filter, 2);
    let a = seq![none];
    let b = seq![dot];
    assert(a.drop_last() =~= Seq::empty());
    assert(b.drop_last() =~= Seq::empty());
    assert(path::kept(a) =~= Seq::empty());
    assert(path::kept(b) =~= Seq::empty());
    assert(!a.contains(".."@) && !b.contains(".."@));
    if text::starts(dot, "/"@) {
        assert(dot.take(1)[0] == dot[0]);
    }
}

/// An absolute path as bytes: a slash before each segment.
pub open spec fn absolute(segs: Seq<Seq<u8>>) -> Seq<u8>
    decreases segs.len(),
{
    if segs.len() == 0 {
        Seq::empty()
    } else {
        absolute(segs.drop_last()).push(47u8) + segs.last()
    }
}

/// A name in a directory, as bytes.
pub open spec fn name(s: Seq<u8>) -> bool {
    s.len() > 0 && !s.contains(47u8)
}

proof fn lemma_pieces_append(p: Seq<u8>, b: Seq<u8>)
    requires
        !b.contains(47u8),
    ensures
        path::pieces(p.push(47u8) + b) == path::pieces(p).push(b),
    decreases b.len(),
{
    if b.len() == 0 {
        assert(p.push(47u8) + b =~= p.push(47u8));
        assert(p.push(47u8).drop_last() =~= p);
        assert(b =~= Seq::empty());
    } else {
        let whole = p.push(47u8) + b;
        let c = b.drop_last();
        assert(!c.contains(47u8)) by {
            if c.contains(47u8) {
                assert(b[c.index_of(47u8)] == 47u8);
            }
        }
        assert(b.contains(b[b.len() - 1]));
        lemma_pieces_append(p, c);
        assert(whole.drop_last() =~= p.push(47u8) + c);
        assert(whole.last() == b.last());
        assert(path::pieces(p).push(c).drop_last() =~= path::pieces(p));
        assert(c.push(b.last()) =~= b);
    }
}

proof fn lemma_components(segs: Seq<Seq<u8>>)
    requires
        forall|i: int| 0 <= i < segs.len() ==> name(#[trigger] segs[i]),
    ensures
        path::components(absolute(segs)) == segs,
    decreases segs.len(),
{
    let keep = |s: Seq<u8>| s.len() > 0;
    reveal(Seq::filter);
    if segs.len() == 0 {
        let one = path::pieces(absolute(segs));
        assert(one =~= seq![Seq::empty()]);
        assert(one.drop_last() =~= Seq::empty());
        assert(one.drop_last().filter(keep) =~= Seq::empty());
        assert(path::components(absolute(segs)) =~= segs);
    } else {
        let p = segs.drop_last();
        assert forall|i: int| 0 <= i < p.len() implies name(#[trigger] p[i]) by {
            assert(p[i] == segs[i]);
        }
        lemma_components(p);
        assert(name(segs[segs.len() - 1]));
        lemma_pieces_append(absolute(p), segs.last());
        let all = path::pieces(absolute(segs));
        assert(all.drop_last() =~= path::pieces(absolute(p)));
        assert(all.last() == segs.last());
        assert(p.push(segs.last()) =~= segs);
    }
}

/// One path lies at or below another just where its segments begin with all of the
/// other's: `/a/bc` does not lie below `/a/b`, and nothing above a root lies below it.
pub proof fn law_below_is_by_segment(root: Seq<Seq<u8>>, child: Seq<Seq<u8>>)
    requires
        forall|i: int| 0 <= i < root.len() ==> name(#[trigger] root[i]),
        forall|i: int| 0 <= i < child.len() ==> name(#[trigger] child[i]),
    ensures
        path::below(absolute(root), absolute(child)) <==> root.len() <= child.len() && forall|i: int|
            0 <= i < root.len() ==> root[i] == #[trigger] child[i],
{
    lemma_components(root);
    lemma_components(child);
    if root.is_prefix_of(child) {
        assert forall|i: int| 0 <= i < root.len() implies root[i] == #[trigger] child[i] by {
            assert(child.subrange(0, root.len() as int)[i] == child[i]);
        }
    }
    if root.len() <= child.len() && forall|i: int| 0 <= i < root.len() ==> root[i] == #[trigger] child[i] {
        assert(root =~= child.subrange(0, root.len() as int));
    }
}

/// A path is held inside a root just where it leads inwards, both could be resolved, and all
/// links followed it still lies at or below the root, segment by segment.
pub proof fn law_contained_paths(
    root: Seq<char>,
    rel: Seq<char>,
    target: Result<path::Resolved, String>,
    base: Result<path::Resolved, String>,
)
    ensures
        path::contained(root, rel, target, base) <==> use_laws::inward(rel) && target is Ok && base is Ok && ({
            let a = path::components(base->Ok_0.bytes@);
            let b = path::components(target->Ok_0.bytes@);
            a.len() <= b.len() && forall|i: int| 0 <= i < a.len() ==> a[i] == #[trigger] b[i]
        }),
{
    use_laws::lemma_inward(root, rel);
    if target is Ok && base is Ok {
        let a = path::components(base->Ok_0.bytes@);
        let b = path::components(target->Ok_0.bytes@);
        if a.is_prefix_of(b) {
            assert forall|i: int| 0 <= i < a.len() implies a[i] == #[trigger] b[i] by {
                assert(b.subrange(0, a.len() as int)[i] == b[i]);
            }
        }
        if a.len() <= b.len() && forall|i: int| 0 <= i < a.len() ==> a[i] == #[trigger] b[i] {
            assert(a =~= b.subrange(0, a.len() as int));
        }
    }
}

} // verus!
