//! Paths: joining below a root, keeping resolved paths inside it, and telling
//! the paths that hold secrets.

use crate::text;
use crate::text::{contains_str, join, split, starts_with, str_eq, trim_end_slashes};
use vstd::prelude::*;

verus! {

/// The texts that mark a path as one that holds secrets.
pub open spec fn secret_marks() -> Seq<Seq<char>> {
    seq![
        ".ssh"@,
        ".aws"@,
        ".gnupg"@,
        ".env"@,
        "secret"@,
        "vault"@,
        "id_rsa"@,
        "id_ed25519"@,
        "credential"@,
        ".pem"@,
    ]
}

/// Whether a path holds secrets: one of the marks stands in it.
pub open spec fn secret_path(p: Seq<char>) -> bool {
    exists|i: int| 0 <= i < secret_marks().len() && text::holds_text(p, #[trigger] secret_marks()[i])
}

/// Tells whether a path holds secrets.
pub fn is_secret_path(p: &str) -> (r: bool)
    ensures
        r == secret_path(p@),
{
    let ghost m = secret_marks();
    let a = contains_str(p, ".ssh");
    let b = contains_str(p, ".aws");
    let c = contains_str(p, ".gnupg");
    let d = contains_str(p, ".env");
    let e = contains_str(p, "secret");
    let f = contains_str(p, "vault");
    let g = contains_str(p, "id_rsa");
    let h = contains_str(p, "id_ed25519");
    let i = contains_str(p, "credential");
    let j = contains_str(p, ".pem");
    assert(a == text::holds_text(p@, m[0]) && b == text::holds_text(p@, m[1]));
    assert(c == text::holds_text(p@, m[2]) && d == text::holds_text(p@, m[3]));
    assert(e == text::holds_text(p@, m[4]) && f == text::holds_text(p@, m[5]));
    assert(g == text::holds_text(p@, m[6]) && h == text::holds_text(p@, m[7]));
    assert(i == text::holds_text(p@, m[8]) && j == text::holds_text(p@, m[9]));
    a || b || c || d || e || f || g || h || i || j
}

/// Whether a segment of a relative path names anything: not empty, not `.`.
pub open spec fn names_entry(s: Seq<char>) -> bool {
    s.len() > 0 && s != "."@
}

/// The segments that name something.
pub open spec fn kept(parts: Seq<Seq<char>>) -> Seq<Seq<char>> {
    parts.filter(|s: Seq<char>| names_entry(s))
}

/// What joining a relative path to a root gives: the joined path, or why not.
pub open spec fn joined(root: Seq<char>, rel: Seq<char>) -> Result<Seq<char>, Seq<char>> {
    let parts = text::split_on(rel, '/');
    if text::starts(rel, "/"@) {
        Err("绝对路径不允许: "@ + rel + "(DirCap root="@ + root + ")"@)
    } else if parts.contains(".."@) {
        Err("path escapes capability root: "@ + rel + "(root="@ + root + ")"@)
    } else if kept(parts).len() == 0 {
        Ok(root)
    } else {
        Ok(text::no_slash_back(root) + "/"@ + text::join_with(kept(parts), "/"@))
    }
}

/// Joins a relative path to a root. An absolute path is refused, and so is one
/// with a `..` segment; empty segments and `.` fall away.
pub fn safe_join(root: &str, rel: &str) -> (r: Result<String, String>)
    ensures
        text::result_view(r) == joined(root@, rel@),
{
    if starts_with(rel, "/") {
        return Err(
            "绝对路径不允许: ".to_string().concat(rel).concat("(DirCap root=").concat(root).concat(")"),
        );
    }
    let parts = split(rel, '/');
    let ghost views = text::views(parts@);
    let mut cleaned: Vec<String> = Vec::new();
    let mut i: usize = 0;
    assert(views.take(0) =~= Seq::empty());
    reveal(Seq::filter);
    assert(text::views(cleaned@) =~= kept(views.take(0)));
    while i < parts.len()
        invariant
            i <= parts@.len(),
            views == text::views(parts@),
            views == text::split_on(rel@, '/'),
            !text::starts(rel@, "/"@),
            forall|j: int| 0 <= j < i ==> views[j] != ".."@,
            text::views(cleaned@) == kept(views.take(i as int)),
        decreases parts@.len() - i,
    {
        reveal(Seq::filter);
        assert(views[i as int] == parts@[i as int]@);
        if str_eq(parts[i].as_str(), "..") {
            assert(views.contains(".."@));
            return Err(
                "path escapes capability root: ".to_string().concat(rel).concat("(root=").concat(root).concat(
                    ")",
                ),
            );
        }
        assert(views.take(i + 1).drop_last() =~= views.take(i as int));
        let ghost before = text::views(cleaned@);
        if parts[i].as_str().unicode_len() > 0 && !str_eq(parts[i].as_str(), ".") {
            cleaned.push(parts[i].clone());
            assert(text::views(cleaned@) =~= before.push(views[i as int]));
        }
        i += 1;
    }
    assert(views.take(parts@.len() as int) =~= views);
    assert(text::views(cleaned@).len() == cleaned@.len());
    if cleaned.len() == 0 {
        Ok(root.to_string())
    } else {
        let tail = join(cleaned.as_slice(), "/");
        Ok(trim_end_slashes(root).concat("/").concat(tail.as_str()))
    }
}

/// A joined path is the root itself, or the root, a slash and a tail each of
/// whose segments names an entry below: none is empty, `.` or `..`.
pub proof fn law_join_stays_below(root: Seq<char>, rel: Seq<char>)
    requires
        joined(root, rel) is Ok,
    ensures
        joined(root, rel)->Ok_0 == root || exists|tail: Seq<char>|
            joined(root, rel)->Ok_0 == text::no_slash_back(root) + "/"@ + tail && (forall|i: int|
                0 <= i < text::split_on(tail, '/').len() ==> names_entry(
                    #[trigger] text::split_on(tail, '/')[i],
                ) && text::split_on(tail, '/')[i] != ".."@),
{
    let parts = text::split_on(rel, '/');
    let keep = kept(parts);
    if keep.len() > 0 {
        let tail = text::join_with(keep, "/"@);
        let f = |s: Seq<char>| names_entry(s);
        text::lemma_split_on_free(rel, '/');
        assert forall|i: int| 0 <= i < keep.len() implies !(#[trigger] keep[i]).contains('/')
            && names_entry(keep[i]) && keep[i] != ".."@ by {
            assert(parts.filter(f).contains(keep[i]));
            parts.lemma_filter_contains_rev(f, keep[i]);
            parts.lemma_filter_pred(f, i);
            assert(parts.contains(keep[i]));
            let j = choose|j: int| 0 <= j < parts.len() && parts[j] == keep[i];
            assert(!parts[j].contains('/'));
        }
        reveal_strlit("/");
        assert("/"@ =~= seq!['/']);
        text::lemma_split_join(keep, '/');
        assert(joined(root, rel)->Ok_0 == text::no_slash_back(root) + "/"@ + tail);
    }
}

/// The components of an absolute path given as bytes: what stands between its
/// slashes, empty pieces left out.
pub open spec fn components(p: Seq<u8>) -> Seq<Seq<u8>> {
    pieces(p).filter(|s: Seq<u8>| s.len() > 0)
}

/// The pieces between the slashes of a path given as bytes.
pub open spec fn pieces(p: Seq<u8>) -> Seq<Seq<u8>>
    decreases p.len(),
{
    if p.len() == 0 {
        seq![Seq::empty()]
    } else {
        let front = pieces(p.drop_last());
        if p.last() == 47u8 {
            front.push(Seq::empty())
        } else {
            front.drop_last().push(front.last().push(p.last()))
        }
    }
}

/// The byte strings that a list holds.
pub open spec fn byte_views(v: Seq<Vec<u8>>) -> Seq<Seq<u8>> {
    v.map_values(|b: Vec<u8>| b@)
}

/// The components of a path.
fn path_components(p: &[u8]) -> (r: Vec<Vec<u8>>)
    ensures
        byte_views(r@) == components(p@),
{
    let ghost keep = |s: Seq<u8>| s.len() > 0;
    let mut out: Vec<Vec<u8>> = Vec::new();
    let mut cur: Vec<u8> = Vec::new();
    let mut i: usize = 0;
    reveal(Seq::filter);
    assert(p@.take(0) =~= Seq::empty());
    assert(pieces(p@.take(0)) =~= seq![Seq::empty()]);
    assert(pieces(p@.take(0)).drop_last() =~= Seq::empty());
    assert(byte_views(out@) =~= Seq::<Seq<u8>>::empty().filter(keep));
    while i < p.len()
        invariant
            i <= p@.len(),
            keep == (|s: Seq<u8>| s.len() > 0),
            pieces(p@.take(i as int)).len() > 0,
            pieces(p@.take(i as int)).last() == cur@,
            byte_views(out@) == pieces(p@.take(i as int)).drop_last().filter(keep),
        decreases p@.len() - i,
    {
        reveal(Seq::filter);
        let ghost front = pieces(p@.take(i as int));
        let ghost before = byte_views(out@);
        assert(p@.take(i + 1).drop_last() =~= p@.take(i as int));
        let b = p[i];
        if b == 47u8 {
            assert(pieces(p@.take(i + 1)).drop_last() =~= front);
            if cur.len() > 0 {
                let done = cur;
                out.push(done);
                assert(byte_views(out@) =~= before.push(front.last()));
            }
            cur = Vec::new();
        } else {
            cur.push(b);
            assert(pieces(p@.take(i + 1)).drop_last() =~= front.drop_last());
        }
        i += 1;
    }
    assert(p@.take(p@.len() as int) =~= p@);
    let ghost before = byte_views(out@);
    if cur.len() > 0 {
        out.push(cur);
        assert(byte_views(out@) =~= before.push(pieces(p@).last()));
    }
    out
}

/// Whether two byte strings are the same.
fn bytes_eq(a: &[u8], b: &[u8]) -> (r: bool)
    ensures
        r == (a@ == b@),
{
    if a.len() != b.len() {
        return false;
    }
    let mut i: usize = 0;
    while i < a.len()
        invariant
            i <= a@.len(),
            a@.len() == b@.len(),
            forall|j: int| 0 <= j < i ==> a@[j] == b@[j],
        decreases a@.len() - i,
    {
        if a[i] != b[i] {
            return false;
        }
        i += 1;
    }
    assert(a@ =~= b@);
    true
}

/// Whether a resolved path lies at or below a resolved root: the root's
/// components come first in the path's.
pub open spec fn below(root: Seq<u8>, child: Seq<u8>) -> bool {
    components(root).is_prefix_of(components(child))
}

/// Tells whether a resolved path lies at or below a resolved root.
fn is_below(root: &[u8], child: &[u8]) -> (r: bool)
    ensures
        r == below(root@, child@),
{
    let a = path_components(root);
    let b = path_components(child);
    let ghost x = components(root@);
    let ghost y = components(child@);
    assert(x.len() == a@.len() && y.len() == b@.len());
    if a.len() > b.len() {
        return false;
    }
    let mut i: usize = 0;
    while i < a.len()
        invariant
            i <= a@.len() <= b@.len(),
            x == byte_views(a@),
            y == byte_views(b@),
            x == components(root@),
            y == components(child@),
            forall|j: int| 0 <= j < i ==> x[j] == y[j],
        decreases a@.len() - i,
    {
        if !bytes_eq(a[i].as_slice(), b[i].as_slice()) {
            assert(x[i as int] != y[i as int]);
            assert(y.subrange(0, x.len() as int)[i as int] == y[i as int]);
            return false;
        }
        assert(x[i as int] == y[i as int]);
        i += 1;
    }
    assert(x =~= y.subrange(0, x.len() as int));
    true
}

/// Tells whether a path lies within a root. Both come resolved, every link in
/// them followed; where one could not be resolved the answer is no.
pub fn path_within(root: &Option<Vec<u8>>, child: &Option<Vec<u8>>) -> (r: bool)
    ensures
        r == (root is Some && child is Some && below(root->0@, child->0@)),
{
    match (root, child) {
        (Some(a), Some(b)) => is_below(a.as_slice(), b.as_slice()),
        _ => false,
    }
}

/// A path with every link in it followed: its bytes, and how it is shown.
pub struct Resolved {
    pub bytes: Vec<u8>,
    pub shown: String,
}

/// Whether a relative path stays inside a capability root, given what the joined path and
/// the root resolve to.
pub open spec fn contained(
    root: Seq<char>,
    rel: Seq<char>,
    target: Result<Resolved, String>,
    base: Result<Resolved, String>,
) -> bool {
    joined(root, rel) is Ok && target is Ok && base is Ok && below(base->Ok_0.bytes@, target->Ok_0.bytes@)
}

/// Holds a relative path inside a capability root. The path is first joined,
/// which refuses absolute paths and `..`; `target` is what the joined path
/// resolves to and `base` what the root resolves to, and the first must lie at
/// or below the second.
pub fn resolve_contained(
    root: &str,
    rel: &str,
    target: Result<Resolved, String>,
    base: Result<Resolved, String>,
) -> (r: Result<Resolved, String>)
    ensures
        match joined(root@, rel@) {
            Err(e) => r is Err && r->Err_0@ == e,
            Ok(_) => match (target, base) {
                (Err(e), _) => r is Err && r->Err_0@ == "resolve failed: "@ + e@,
                (Ok(_), Err(e)) => r is Err && r->Err_0@ == "root resolve failed: "@ + e@,
                (Ok(t), Ok(b)) => if below(b.bytes@, t.bytes@) {
                    r == Ok::<Resolved, String>(t)
                } else {
                    r is Err && r->Err_0@ == "path escapes capability root via symlink: "@ + rel@ + " -> "@
                        + t.shown@ + " (root="@ + b.shown@ + ")"@
                },
            },
        },
        r is Ok <==> contained(root@, rel@, target, base),
        r is Ok ==> r == target,
{
    match safe_join(root, rel) {
        Err(e) => Err(e),
        Ok(_) => match target {
            Err(e) => Err("resolve failed: ".to_string().concat(e.as_str())),
            Ok(t) => match base {
                Err(e) => Err("root resolve failed: ".to_string().concat(e.as_str())),
                Ok(b) => if is_below(b.bytes.as_slice(), t.bytes.as_slice()) {
                    Ok(t)
                } else {
                    Err(
                        "path escapes capability root via symlink: ".to_string().concat(rel).concat(
                            " -> ",
                        ).concat(t.shown.as_str()).concat(" (root=").concat(b.shown.as_str()).concat(")"),
                    )
                },
            },
        },
    }
}

} // verus!
