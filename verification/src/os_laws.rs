//! What holds of the filter on system calls, of opening below a directory, and of the
//! records of a directory.

use crate::order;
use crate::os;
use crate::os::OpenFor;
use crate::text;
use vstd::prelude::*;

verus! {

/// The calls that a child may not make: those on sockets, those of io_uring, and those
/// that look into or act on other processes.
pub open spec fn kept_from_child(nr: u32) -> bool {
    ||| nr == 41 || nr == 42 || nr == 43 || nr == 44 || nr == 45 || nr == 46 || nr == 47
    ||| nr == 49 || nr == 50 || nr == 53 || nr == 288
    ||| nr == 425 || nr == 426 || nr == 427
    ||| nr == 101 || nr == 310 || nr == 311 || nr == 312 || nr == 424 || nr == 434 || nr == 438
}

proof fn lemma_denied(nr: u32)
    ensures
        os::denied().contains(nr) <==> kept_from_child(nr),
{
    let d = os::denied();
    assert(d.len() == 21);
    assert(d[0] == 41 && d[1] == 42 && d[2] == 43 && d[3] == 44 && d[4] == 45 && d[5] == 46 && d[6] == 47);
    assert(d[7] == 49 && d[8] == 50 && d[9] == 53 && d[10] == 288 && d[11] == 425 && d[12] == 426 && d[13] == 427);
    assert(d[14] == 101 && d[15] == 310 && d[16] == 311 && d[17] == 312 && d[18] == 424 && d[19] == 434 && d[20] == 438);
    if d.contains(nr) {
        let i = d.index_of(nr);
        assert(0 <= i < 21 && d[i] == nr);
    }
}

/// The filter ends a process of another architecture than x86-64, fails the calls that a
/// child may not make with `EACCES`, and lets every other call pass.
pub proof fn law_filter_verdicts(arch: u32, nr: u32)
    ensures
        os::run_filter(os::filter_program(), arch, nr, 0, 0) == Some(
            if arch != 0xC000_003E {
                0x8000_0000u32
            } else if kept_from_child(nr) {
                0x0005_000du32
            } else {
                0x7fff_0000u32
            },
        ),
{
    os::law_filter_right();
    lemma_denied(nr);
    assert(os::run_filter(os::filter_program(), arch, nr, 0, 0) == Some(os::wanted_verdict(arch, nr)));
}

/// A descriptor that is opened is never inherited; a directory is opened as one, to be
/// held without being read or to be listed; and nothing is opened to be written. The
/// kernel is told to stay below the directory and to follow no magic link.
pub proof fn law_open_flags()
    ensures
        os::open_flags(OpenFor::Reading) | os::O_CLOEXEC == 0x80000,
        os::open_flags(OpenFor::Holding) | os::O_CLOEXEC == 0x290000,
        os::open_flags(OpenFor::Listing) | os::O_CLOEXEC == 0x90000,
        os::RESOLVE_BENEATH | os::RESOLVE_NO_MAGICLINKS == 0x0a,
        os::ENOSYS == 38,
{
    assert(0u64 | 0x80000u64 == 0x80000u64) by (bit_vector);
    assert((0x200000u64 | 0x10000u64) | 0x80000u64 == 0x290000u64) by (bit_vector);
    assert((0u64 | 0x10000u64) | 0x80000u64 == 0x90000u64) by (bit_vector);
    assert(0x08u64 | 0x02u64 == 0x0au64) by (bit_vector);
}

/// The path that is opened is the one that was asked for, and the directory itself where
/// none was.
pub proof fn law_open_path(rel: Seq<char>)
    ensures
        rel.len() > 0 ==> os::open_path(rel) == rel,
        os::open_path(Seq::empty()) == seq!['.'],
{
    reveal_strlit(".");
    assert("."@ =~= seq!['.']);
}

/// A record of a directory: sixteen bytes, its length with the lower byte first, its kind,
/// the name, and at least one zero byte.
pub open spec fn record(head: Seq<u8>, kind: u8, name: Seq<u8>, padding: Seq<u8>) -> Seq<u8> {
    let n = head.len() + 3 + name.len() + 1 + padding.len();
    head + seq![(n % 256) as u8, (n / 256) as u8, kind] + name + seq![0u8] + padding
}

proof fn lemma_name_bytes(name: Seq<u8>, rest: Seq<u8>)
    requires
        forall|i: int| 0 <= i < name.len() ==> #[trigger] name[i] != 0,
    ensures
        os::name_bytes(name + seq![0u8] + rest) == name,
    decreases name.len(),
{
    let s = name + seq![0u8] + rest;
    if name.len() == 0 {
        assert(s[0] == 0);
        assert(os::name_bytes(s) =~= name);
    } else {
        let t = name.drop_first();
        assert(s[0] == name[0]);
        assert(s.drop_first() =~= t + seq![0u8] + rest);
        lemma_name_bytes(t, rest);
        assert(seq![name[0]] + t =~= name);
    }
}

proof fn lemma_names_shift(a: Seq<u8>, b: Seq<u8>, off: int)
    requires
        off >= 0,
    ensures
        os::names_in(a + b, a.len() + off) == os::names_in(b, off),
    decreases b.len() - off,
{
    let c = a + b;
    let at = a.len() + off;
    if off < b.len() && off + 19 <= b.len() {
        assert(c[at + 16] == b[off + 16] && c[at + 17] == b[off + 17]);
        let len = os::record_len(b, off);
        assert(os::record_len(c, at) == len);
        if len >= 19 && off + len <= b.len() {
            assert(c.subrange(at + 19, at + len) =~= b.subrange(off + 19, off + len));
            lemma_names_shift(a, b, off + len);
        }
    }
}

/// The names of a directory are those of its records, in order, up to the zero byte of
/// each, but for `.` and `..`.
pub proof fn law_directory_records(
    head: Seq<u8>,
    kind: u8,
    name: Seq<u8>,
    padding: Seq<u8>,
    rest: Seq<u8>,
)
    requires
        head.len() == 16,
        head.len() + 3 + name.len() + 1 + padding.len() < 65536,
        forall|i: int| 0 <= i < name.len() ==> #[trigger] name[i] != 0,
        os::names_in(rest, 0) is Ok,
    ensures
        ({
            let all = os::names_in(record(head, kind, name, padding) + rest, 0);
            let others = os::names_in(rest, 0)->Ok_0;
            let shown = text::lossy(name);
            &&& all is Ok
            &&& shown == "."@ || shown == ".."@ ==> all->Ok_0 == others
            &&& shown != "."@ && shown != ".."@ ==> all->Ok_0 == seq![shown] + others
        }),
{
    let r = record(head, kind, name, padding);
    let n = r.len() as int;
    let buf = r + rest;
    assert(n == 16 + 3 + name.len() + 1 + padding.len());
    assert(buf[16] == (n % 256) as u8 && buf[17] == (n / 256) as u8);
    assert(os::record_len(buf, 0) == n);
    assert(buf.subrange(19, n) =~= name + seq![0u8] + padding);
    lemma_name_bytes(name, padding);
    lemma_names_shift(r, rest, 0);
}

/// A record that is cut short, or that claims a length it cannot have, is refused.
pub proof fn law_broken_records(buf: Seq<u8>)
    ensures
        os::names_in(Seq::empty(), 0) == Ok::<Seq<Seq<char>>, Seq<char>>(Seq::empty()),
        0 < buf.len() < 19 ==> os::names_in(buf, 0) is Err,
        buf.len() >= 19 && (buf[16] + 256 * buf[17] < 19 || buf[16] + 256 * buf[17] > buf.len()) ==> os::names_in(buf, 0) is Err,
{
}

/// A directory that the kernel gave in several buffers is listed as all their names in
/// dictionary order, where every buffer is whole and the kernel did not fail in the end.
pub proof fn law_listing(bufs: Seq<Seq<u8>>, more: Seq<u8>, errno: u64)
    ensures
        os::names_in_all(Seq::empty()) == Ok::<Seq<Seq<char>>, Seq<char>>(Seq::empty()),
        os::names_in_all(bufs) is Ok && os::names_in(more, 0) is Ok ==> os::names_in_all(bufs.push(more)) == Ok::<
            Seq<Seq<char>>,
            Seq<char>,
        >(os::names_in_all(bufs)->Ok_0 + os::names_in(more, 0)->Ok_0),
        os::names_in_all(bufs) is Err || os::names_in(more, 0) is Err ==> os::names_in_all(bufs.push(more)) is Err,
        os::listing(bufs, None) is Ok <==> os::names_in_all(bufs) is Ok,
        os::listing(bufs, None) is Ok ==> os::listing(bufs, None)->Ok_0 == order::in_order(os::names_in_all(bufs)->Ok_0),
        os::listing(bufs, Some(errno)) is Err,
{
    assert(bufs.push(more).drop_last() =~= bufs);
}

} // verus!
