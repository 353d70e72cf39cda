//! What the broker asks of the kernel: the confinement of a child process, the
//! filter on its system calls, and opening files below a directory.

use crate::order;
use crate::order::sort;
use crate::text;
use crate::text::{dec_string, lossy_string, str_eq};
use vstd::prelude::*;

verus! {

/// The identity and the limits of a child process. What is set and cannot be
/// applied keeps the child from running.
#[derive(Clone, Copy, PartialEq, Eq, Debug, Structural)]
pub struct SandboxPolicy {
    pub drop_uid: Option<u32>,
    pub drop_gid: Option<u32>,
    pub rlimit_nproc: Option<u64>,
    pub rlimit_fsize_bytes: Option<u64>,
    pub rlimit_cpu_secs: Option<u64>,
}

impl SandboxPolicy {
    /// No change of identity, and limits that need no privilege.
    pub fn default_limits() -> (r: SandboxPolicy)
        ensures
            r == (SandboxPolicy {
                drop_uid: None,
                drop_gid: None,
                rlimit_nproc: Some(256),
                rlimit_fsize_bytes: Some(0x1000_0000),
                rlimit_cpu_secs: Some(60),
            }),
    {
        SandboxPolicy {
            drop_uid: None,
            drop_gid: None,
            rlimit_nproc: Some(256),
            rlimit_fsize_bytes: Some(256 * 1024 * 1024),
            rlimit_cpu_secs: Some(60),
        }
    }
}

/// One instruction of a filter on system calls.
#[derive(Clone, Copy, PartialEq, Eq, Debug, Structural)]
pub struct SockFilter {
    pub code: u16,
    pub jt: u8,
    pub jf: u8,
    pub k: u32,
}

/// Load a word of the call's description.
pub const BPF_LD_W_ABS: u16 = 0x20;

/// Skip `jt` instructions where the loaded word is `k`, else `jf`.
pub const BPF_JEQ_K: u16 = 0x15;

/// End with the verdict `k`.
pub const BPF_RET_K: u16 = 0x06;

/// The architecture that the numbers of the filter belong to.
pub const AUDIT_ARCH_X86_64: u32 = 0xC000_003E;

/// The verdict that lets a call pass.
pub const SECCOMP_RET_ALLOW: u32 = 0x7fff_0000;

/// The verdict that fails a call with `EACCES`.
pub const SECCOMP_RET_EACCES: u32 = 0x0005_000d;

/// The verdict that ends the process.
pub const SECCOMP_RET_KILL: u32 = 0x8000_0000;

/// How many calls are denied.
pub const DENIED_COUNT: usize = 21;

/// The numbers of the calls that are denied: those that make or use sockets,
/// those of io_uring, which can make sockets on their own, and those that look
/// into or act on other processes.
pub const DENIED: [u32; 21] = [
    41, 42, 43, 44, 45, 46, 47, 49, 50, 53, 288, 425, 426, 427, 101, 310, 311, 312, 424, 434, 438,
];

/// The numbers of the denied calls.
pub open spec fn denied() -> Seq<u32> {
    DENIED@
}

/// What running a filter from `pc` gives for a call: the verdict, or nothing
/// where the filter runs off its end or holds an instruction of another kind.
pub open spec fn run_filter(prog: Seq<SockFilter>, arch: u32, nr: u32, pc: int, acc: u32) -> Option<u32>
    decreases prog.len() - pc,
{
    if pc < 0 || pc >= prog.len() {
        None
    } else {
        let i = prog[pc];
        if i.code == BPF_LD_W_ABS {
            if i.k == 4 {
                run_filter(prog, arch, nr, pc + 1, arch)
            } else if i.k == 0 {
                run_filter(prog, arch, nr, pc + 1, nr)
            } else {
                None
            }
        } else if i.code == BPF_JEQ_K {
            let to = pc + 1 + if acc == i.k {
                i.jt as int
            } else {
                i.jf as int
            };
            if to >= prog.len() {
                None
            } else {
                run_filter(prog, arch, nr, to, acc)
            }
        } else if i.code == BPF_RET_K {
            Some(i.k)
        } else {
            None
        }
    }
}

/// The verdict that the broker wants on a call.
pub open spec fn wanted_verdict(arch: u32, nr: u32) -> u32 {
    if arch != AUDIT_ARCH_X86_64 {
        SECCOMP_RET_KILL
    } else if denied().contains(nr) {
        SECCOMP_RET_EACCES
    } else {
        SECCOMP_RET_ALLOW
    }
}

/// Whether a filter gives every call the verdict that the broker wants.
pub open spec fn filter_right(prog: Seq<SockFilter>) -> bool {
    forall|arch: u32, nr: u32| #[trigger]
        run_filter(prog, arch, nr, 0, 0) == Some(wanted_verdict(arch, nr))
}

/// The instructions of the filter before the numbers: the architecture is
/// tested, and the number of the call is loaded.
pub open spec fn filter_head() -> Seq<SockFilter> {
    seq![
        SockFilter { code: BPF_LD_W_ABS, jt: 0, jf: 0, k: 4 },
        SockFilter { code: BPF_JEQ_K, jt: 1, jf: 0, k: AUDIT_ARCH_X86_64 },
        SockFilter { code: BPF_RET_K, jt: 0, jf: 0, k: SECCOMP_RET_KILL },
        SockFilter { code: BPF_LD_W_ABS, jt: 0, jf: 0, k: 0 },
    ]
}

/// The filter: after its head two instructions for each denied call, and the
/// verdict for all others.
pub open spec fn filter_program() -> Seq<SockFilter> {
    Seq::new(
        (4 + 2 * DENIED_COUNT + 1) as nat,
        |i: int|
            if i < 4 {
                filter_head()[i]
            } else if i == 4 + 2 * DENIED_COUNT {
                SockFilter { code: BPF_RET_K, jt: 0, jf: 0, k: SECCOMP_RET_ALLOW }
            } else if i % 2 == 0 {
                SockFilter { code: BPF_JEQ_K, jt: 0, jf: 1, k: denied()[(i - 4) / 2] }
            } else {
                SockFilter { code: BPF_RET_K, jt: 0, jf: 0, k: SECCOMP_RET_EACCES }
            },
    )
}

proof fn lemma_filter_from(arch: u32, nr: u32, j: int)
    requires
        0 <= j <= DENIED_COUNT,
        forall|i: int| 0 <= i < j ==> denied()[i] != nr,
    ensures
        run_filter(filter_program(), arch, nr, 4 + 2 * j, nr) == Some(
            if denied().contains(nr) {
                SECCOMP_RET_EACCES
            } else {
                SECCOMP_RET_ALLOW
            },
        ),
    decreases DENIED_COUNT - j,
{
    let prog = filter_program();
    let pc = 4 + 2 * j;
    if j < DENIED_COUNT {
        assert(prog[pc] == SockFilter { code: BPF_JEQ_K, jt: 0, jf: 1, k: denied()[j] });
        assert(prog[pc + 1] == SockFilter { code: BPF_RET_K, jt: 0, jf: 0, k: SECCOMP_RET_EACCES });
        if denied()[j] == nr {
            assert(denied().contains(nr));
            reveal_with_fuel(run_filter, 3);
        } else {
            lemma_filter_from(arch, nr, j + 1);
        }
    } else {
        assert(prog[pc] == SockFilter { code: BPF_RET_K, jt: 0, jf: 0, k: SECCOMP_RET_ALLOW });
        assert(denied().len() == DENIED_COUNT);
    }
}

/// The filter gives every call of every architecture the verdict that is
/// wanted: a foreign architecture ends the process, a denied call fails, and all
/// others pass.
pub proof fn law_filter_right()
    ensures
        filter_right(filter_program()),
{
    let prog = filter_program();
    assert forall|arch: u32, nr: u32| #[trigger]
        run_filter(prog, arch, nr, 0, 0) == Some(wanted_verdict(arch, nr)) by {
        assert(prog[0] == filter_head()[0] && prog[1] == filter_head()[1] && prog[2] == filter_head()[2]
            && prog[3] == filter_head()[3]);
        lemma_filter_from(arch, nr, 0);
        assert(run_filter(prog, arch, nr, 3, arch) == run_filter(prog, arch, nr, 4, nr));
        assert(run_filter(prog, arch, nr, 2, arch) == Some(SECCOMP_RET_KILL));
        assert(run_filter(prog, arch, nr, 1, arch) == Some(wanted_verdict(arch, nr)));
    }
}

/// The filter, ready to be installed.
pub fn deny_program() -> (r: Vec<SockFilter>)
    ensures
        r@ == filter_program(),
        r@.len() == 47,
        filter_right(r@),
{
    let mut out: Vec<SockFilter> = Vec::new();
    out.push(SockFilter { code: BPF_LD_W_ABS, jt: 0, jf: 0, k: 4 });
    out.push(SockFilter { code: BPF_JEQ_K, jt: 1, jf: 0, k: AUDIT_ARCH_X86_64 });
    out.push(SockFilter { code: BPF_RET_K, jt: 0, jf: 0, k: SECCOMP_RET_KILL });
    out.push(SockFilter { code: BPF_LD_W_ABS, jt: 0, jf: 0, k: 0 });
    assert(out@ =~= filter_program().take(4));
    let mut j: usize = 0;
    while j < DENIED_COUNT
        invariant
            j <= DENIED_COUNT,
            out@ == filter_program().take(4 + 2 * j),
        decreases DENIED_COUNT - j,
    {
        out.push(SockFilter { code: BPF_JEQ_K, jt: 0, jf: 1, k: DENIED[j] });
        out.push(SockFilter { code: BPF_RET_K, jt: 0, jf: 0, k: SECCOMP_RET_EACCES });
        j += 1;
        assert(out@ =~= filter_program().take(4 + 2 * j));
    }
    out.push(SockFilter { code: BPF_RET_K, jt: 0, jf: 0, k: SECCOMP_RET_ALLOW });
    assert(out@ =~= filter_program());
    proof {
        law_filter_right();
    }
    out
}

/// Runs a filter on a call.
pub fn verdict(prog: &[SockFilter], arch: u32, nr: u32) -> (r: Option<u32>)
    ensures
        r == run_filter(prog@, arch, nr, 0, 0),
{
    let mut pc: usize = 0;
    let mut acc: u32 = 0;
    let n: usize = prog.len();
    while pc < n
        invariant
            n == prog@.len(),
            run_filter(prog@, arch, nr, pc as int, acc) == run_filter(prog@, arch, nr, 0, 0),
        decreases n - pc,
    {
        let i = prog[pc];
        if i.code == BPF_LD_W_ABS {
            if i.k == 4 {
                acc = arch;
            } else if i.k == 0 {
                acc = nr;
            } else {
                return None;
            }
            pc += 1;
        } else if i.code == BPF_JEQ_K {
            let skip: usize = if acc == i.k {
                i.jt as usize
            } else {
                i.jf as usize
            };
            if skip >= n - pc - 1 {
                return None;
            }
            pc = pc + 1 + skip;
        } else if i.code == BPF_RET_K {
            return Some(i.k);
        } else {
            return None;
        }
    }
    None
}

/// Tells whether the filter denies each way to a socket or to another process:
/// `socket`, `socketpair`, `io_uring_setup`, `pidfd_open` and `ptrace`.
pub fn test_seccomp_denies_socket() -> (r: bool)
    ensures
        r,
{
    let prog = deny_program();
    let mut ok = true;
    let calls: [u32; 5] = [41, 53, 425, 434, 101];
    let mut i: usize = 0;
    while i < 5
        invariant
            ok,
            i <= 5,
            filter_right(prog@),
            calls@ == seq![41u32, 53, 425, 434, 101],
        decreases 5 - i,
    {
        let v = verdict(prog.as_slice(), AUDIT_ARCH_X86_64, calls[i]);
        proof {
            let d = denied();
            assert(d[0] == 41 && d[9] == 53 && d[11] == 425 && d[19] == 434 && d[14] == 101);
            assert(d.contains(calls@[i as int]));
        }
        ok = ok && v == Some(SECCOMP_RET_EACCES);
        i += 1;
    }
    ok
}

/// Why a path below a directory was not opened.
pub enum ResolveErr {
    /// The kernel has no such call.
    Unavailable,
    /// The kernel refused, with what the caller is told.
    Denied(String),
}

/// Open for reading only.
pub const O_RDONLY: u64 = 0;

/// Open nothing but a directory.
pub const O_DIRECTORY: u64 = 0o200000;

/// Name a place in the tree without opening it for reading.
pub const O_PATH: u64 = 0o10000000;

/// Close the descriptor when another program is started.
pub const O_CLOEXEC: u64 = 0o2000000;

/// Stay below the directory that the path is resolved from.
pub const RESOLVE_BENEATH: u64 = 0x08;

/// Follow no magic link, such as those of `/proc`.
pub const RESOLVE_NO_MAGICLINKS: u64 = 0x02;

/// The error number of a call that the kernel does not have.
pub const ENOSYS: i64 = 38;

/// What a path below a directory is opened for.
#[derive(Clone, Copy, PartialEq, Eq, Debug, Structural)]
pub enum OpenFor {
    /// Reading a file.
    Reading,
    /// Holding a directory.
    Holding,
    /// Listing a directory.
    Listing,
}

/// What the kernel is asked for: the path, ended by a zero byte, and the
/// arguments of `openat2`.
pub struct OpenRequest {
    pub path: Vec<u8>,
    pub flags: u64,
    pub mode: u64,
    pub resolve: u64,
}

/// The path that is opened: the directory itself where none is given.
pub open spec fn open_path(rel: Seq<char>) -> Seq<char> {
    if rel.len() == 0 {
        "."@
    } else {
        rel
    }
}

/// The flags for a use, besides the one that keeps descriptors from being
/// inherited.
pub open spec fn open_flags(what: OpenFor) -> u64 {
    match what {
        OpenFor::Reading => O_RDONLY,
        OpenFor::Holding => O_PATH | O_DIRECTORY,
        OpenFor::Listing => O_RDONLY | O_DIRECTORY,
    }
}

/// Asks for a path below a directory. The kernel is always told to stay below
/// it and to follow no magic link.
pub fn open_request(rel: &str, what: OpenFor) -> (r: OpenRequest)
    ensures
        r.path@ == vstd::utf8::encode_utf8(open_path(rel@)).push(0),
        r.flags == open_flags(what) | O_CLOEXEC,
        r.mode == 0,
        r.resolve == RESOLVE_BENEATH | RESOLVE_NO_MAGICLINKS,
{
    let path = if rel.unicode_len() == 0 {
        "."
    } else {
        rel
    };
    let mut bytes = vstd::slice::slice_to_vec(path.as_bytes());
    bytes.push(0);
    let extra: u64 = match what {
        OpenFor::Reading => O_RDONLY,
        OpenFor::Holding => O_PATH | O_DIRECTORY,
        OpenFor::Listing => O_RDONLY | O_DIRECTORY,
    };
    OpenRequest {
        path: bytes,
        flags: extra | O_CLOEXEC,
        mode: 0,
        resolve: RESOLVE_BENEATH | RESOLVE_NO_MAGICLINKS,
    }
}

/// What the kernel's answer to such a request comes to: the descriptor, or why
/// there is none.
pub fn openat2_at(rel: &str, ret: i64) -> (r: Result<u64, ResolveErr>)
    requires
        ret > i64::MIN,
    ensures
        ret >= 0 <==> r is Ok,
        ret >= 0 ==> r->Ok_0 == ret,
        r matches Err(ResolveErr::Unavailable) <==> ret == -ENOSYS,
        r matches Err(ResolveErr::Denied(m)) ==> m@ == "openat2 拒绝 "@ + open_path(rel@) + "(errno="@
            + text::dec((-ret) as nat) + ",越界/不存在)"@,
{
    if ret >= 0 {
        return Ok(ret as u64);
    }
    let errno: u64 = (-ret) as u64;
    if errno == ENOSYS as u64 {
        return Err(ResolveErr::Unavailable);
    }
    let path = if rel.unicode_len() == 0 {
        "."
    } else {
        rel
    };
    Err(
        ResolveErr::Denied(
            "openat2 拒绝 ".to_string().concat(path).concat("(errno=").concat(
                dec_string(errno).as_str(),
            ).concat(",越界/不存在)"),
        ),
    )
}

/// What the caller is told where a path was not opened. Where the kernel has no
/// such call there is no other way, and the answer is no.
pub fn fail_closed(rel: &str, e: ResolveErr) -> (r: String)
    ensures
        r@ == match e {
            ResolveErr::Denied(m) => m@,
            ResolveErr::Unavailable => "openat2 不可用,fail-closed 拒绝 "@ + rel@
                + "(非 x86_64-linux 或内核过旧)"@,
        },
{
    match e {
        ResolveErr::Denied(m) => m,
        ResolveErr::Unavailable => "openat2 不可用,fail-closed 拒绝 ".to_string().concat(rel).concat(
            "(非 x86_64-linux 或内核过旧)",
        ),
    }
}

/// The bytes of a name up to its zero byte, or all of them.
pub open spec fn name_bytes(b: Seq<u8>) -> Seq<u8>
    decreases b.len(),
{
    if b.len() == 0 || b[0] == 0 {
        Seq::empty()
    } else {
        seq![b[0]] + name_bytes(b.drop_first())
    }
}

/// The length that the directory record at `off` claims, the lower byte first.
pub open spec fn record_len(buf: Seq<u8>, off: int) -> int {
    buf[off + 16] + 256 * buf[off + 17]
}

/// The names in a buffer of directory records from `off` on, `.` and `..` left
/// out, or what is wrong with the first record that is not whole.
pub open spec fn names_in(buf: Seq<u8>, off: int) -> Result<Seq<Seq<char>>, Seq<char>>
    decreases buf.len() - off,
{
    if off < 0 || off >= buf.len() {
        Ok(Seq::empty())
    } else if off + 19 > buf.len() {
        Err("getdents64 记录截断(头部越界)"@)
    } else {
        let len = record_len(buf, off);
        if len < 19 || off + len > buf.len() {
            Err("getdents64 记录畸形(reclen 非法)"@)
        } else {
            let name = text::lossy(name_bytes(buf.subrange(off + 19, off + len)));
            match names_in(buf, off + len) {
                Err(e) => Err(e),
                Ok(rest) => Ok(
                    if name == "."@ || name == ".."@ {
                        rest
                    } else {
                        seq![name] + rest
                    },
                ),
            }
        }
    }
}

/// The names in a run of buffers, or what is wrong.
pub open spec fn names_in_all(bufs: Seq<Seq<u8>>) -> Result<Seq<Seq<char>>, Seq<char>>
    decreases bufs.len(),
{
    if bufs.len() == 0 {
        Ok(Seq::empty())
    } else {
        match names_in_all(bufs.drop_last()) {
            Err(e) => Err(e),
            Ok(front) => match names_in(bufs.last(), 0) {
                Err(e) => Err(e),
                Ok(back) => Ok(front + back),
            },
        }
    }
}

/// What listing a directory comes to: the buffers that the kernel gave, and the
/// error number where it then failed.
pub open spec fn listing(bufs: Seq<Seq<u8>>, errno: Option<u64>) -> Result<Seq<Seq<char>>, Seq<char>> {
    match names_in_all(bufs) {
        Err(e) => Err(e),
        Ok(names) => match errno {
            Some(n) => Err("getdents64 errno="@ + text::dec(n as nat)),
            None => Ok(order::in_order(names)),
        },
    }
}

fn name_end(b: &[u8]) -> (r: usize)
    ensures
        r <= b@.len(),
        b@.take(r as int) == name_bytes(b@),
{
    let mut i: usize = 0;
    assert(b@.skip(0) =~= b@);
    assert(b@.take(0) + name_bytes(b@) =~= name_bytes(b@));
    while i < b.len() && b[i] != 0
        invariant
            i <= b@.len(),
            b@.take(i as int) + name_bytes(b@.skip(i as int)) == name_bytes(b@),
        decreases b@.len() - i,
    {
        let ghost rest = b@.skip(i as int);
        assert(rest.drop_first() =~= b@.skip(i + 1));
        assert(b@.take(i + 1) =~= b@.take(i as int) + seq![rest[0]]);
        assert(b@.take(i as int) + (seq![rest[0]] + name_bytes(b@.skip(i + 1))) =~= (b@.take(i as int)
            + seq![rest[0]]) + name_bytes(b@.skip(i + 1)));
        i += 1;
    }
    assert(b@.take(i as int) + Seq::<u8>::empty() =~= b@.take(i as int));
    i
}

/// Reads the names in a buffer of directory records.
fn read_records(buf: &[u8]) -> (r: Result<Vec<String>, String>)
    ensures
        match r {
            Ok(v) => names_in(buf@, 0) == Ok::<Seq<Seq<char>>, Seq<char>>(text::views(v@)),
            Err(e) => names_in(buf@, 0) == Err::<Seq<Seq<char>>, Seq<char>>(e@),
        },
{
    let mut names: Vec<String> = Vec::new();
    let end: usize = buf.len();
    let mut off: usize = 0;
    assert(text::views(names@) =~= Seq::empty());
    while off < end
        invariant
            off <= end,
            end == buf@.len(),
            names_in(buf@, 0) == (match names_in(buf@, off as int) {
                Err(e) => Err::<Seq<Seq<char>>, Seq<char>>(e),
                Ok(rest) => Ok(text::views(names@) + rest),
            }),
        decreases end - off,
    {
        if end - off < 19 {
            return Err("getdents64 记录截断(头部越界)".to_string());
        }
        let len: usize = buf[off + 16] as usize + 256 * buf[off + 17] as usize;
        if len < 19 || len > end - off {
            return Err("getdents64 记录畸形(reclen 非法)".to_string());
        }
        let field = vstd::slice::slice_subrange(buf, off + 19, off + len);
        let k: usize = name_end(field);
        let raw = vstd::slice::slice_subrange(field, 0, k);
        assert(raw@ =~= field@.take(k as int));
        let s = lossy_string(raw);
        let ghost had = text::views(names@);
        let ghost name = s@;
        let ghost rest = names_in(buf@, off + len);
        if !str_eq(s.as_str(), ".") && !str_eq(s.as_str(), "..") {
            names.push(s);
            assert(text::views(names@) =~= had.push(name));
            assert(rest is Ok ==> had + (seq![name] + rest->Ok_0) =~= had.push(name) + rest->Ok_0);
        }
        off += len;
    }
    assert(text::views(names@) + Seq::<Seq<char>>::empty() =~= text::views(names@));
    Ok(names)
}

/// The byte strings that a list of buffers holds.
pub open spec fn buffer_views(v: Seq<Vec<u8>>) -> Seq<Seq<u8>> {
    v.map_values(|b: Vec<u8>| b@)
}

proof fn lemma_names_fail(bufs: Seq<Seq<u8>>, k: int)
    requires
        0 <= k <= bufs.len(),
        names_in_all(bufs.take(k)) is Err,
    ensures
        names_in_all(bufs) == names_in_all(bufs.take(k)),
    decreases bufs.len() - k,
{
    if k == bufs.len() {
        assert(bufs.take(k) =~= bufs);
    } else {
        assert(bufs.take(k + 1).drop_last() =~= bufs.take(k));
        lemma_names_fail(bufs, k + 1);
    }
}

/// Lists a directory from the buffers of records that the kernel gave; `errno`
/// is set where the kernel then failed. The names come sorted.
pub fn getdents_names(bufs: &[Vec<u8>], errno: Option<u64>) -> (r: Result<Vec<String>, String>)
    ensures
        match r {
            Ok(v) => listing(buffer_views(bufs@), errno) == Ok::<Seq<Seq<char>>, Seq<char>>(text::views(v@)),
            Err(e) => listing(buffer_views(bufs@), errno) == Err::<Seq<Seq<char>>, Seq<char>>(e@),
        },
{
    let ghost all = buffer_views(bufs@);
    let mut names: Vec<String> = Vec::new();
    let mut i: usize = 0;
    assert(all.take(0) =~= Seq::empty());
    assert(text::views(names@) =~= Seq::empty());
    while i < bufs.len()
        invariant
            i <= bufs@.len(),
            all == buffer_views(bufs@),
            names_in_all(all.take(i as int)) == Ok::<Seq<Seq<char>>, Seq<char>>(text::views(names@)),
        decreases bufs@.len() - i,
    {
        assert(all.take(i + 1).drop_last() =~= all.take(i as int));
        assert(all.take(i + 1).last() == bufs@[i as int]@);
        let ghost had = text::views(names@);
        match read_records(bufs[i].as_slice()) {
            Err(e) => {
                proof {
                    lemma_names_fail(all, i + 1);
                }
                return Err(e);
            },
            Ok(mut more) => {
                let ghost back = text::views(more@);
                names.append(&mut more);
                assert(text::views(names@) =~= had + back);
            },
        }
        i += 1;
    }
    assert(all.take(bufs@.len() as int) =~= all);
    match errno {
        Some(n) => Err("getdents64 errno=".to_string().concat(dec_string(n).as_str())),
        None => Ok(sort(names.as_slice())),
    }
}

} // verus!
