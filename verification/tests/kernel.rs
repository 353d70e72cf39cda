use capable_broker::os::{
    deny_program, fail_closed, getdents_names, open_request, openat2_at, test_seccomp_denies_socket, verdict,
    OpenFor, ResolveErr,
};
use capable_broker::sandbox::{system_dir, Sandbox, SandboxError, SandboxOp, SYSTEM_DIRS};
use capable_broker::SandboxPolicy;

#[test]
fn seccomp_blocks_network_socket() {
    assert!(test_seccomp_denies_socket(), "seccomp 应拒绝子进程建 socket");
}

#[test]
fn the_filter_decides_by_number() {
    let prog = deny_program();
    let x86 = 0xC000_003E;
    assert_eq!(verdict(&prog, x86, 41), Some(0x0005_000d)); // socket
    assert_eq!(verdict(&prog, x86, 0), Some(0x7fff_0000)); // read
    assert_eq!(verdict(&prog, x86, 1), Some(0x7fff_0000)); // write
    assert_eq!(verdict(&prog, x86, 59), Some(0x7fff_0000)); // execve
    assert_eq!(verdict(&prog, 0x4000_0003, 0), Some(0x8000_0000)); // another machine
}

#[test]
fn directories_are_opened_beneath() {
    let q = open_request("src", OpenFor::Holding);
    assert_eq!(q.path, b"src\0");
    assert_eq!(q.resolve, 0x08 | 0x02);
    let root = open_request("", OpenFor::Listing);
    assert_eq!(root.path, b".\0");
    assert!(matches!(openat2_at("a", 5), Ok(5)));
    assert!(matches!(openat2_at("a", -38), Err(ResolveErr::Unavailable)));
    match openat2_at("a", -18) {
        Err(e) => assert_eq!(fail_closed("a", e), "openat2 拒绝 a(errno=18,越界/不存在)"),
        Ok(_) => panic!("must be refused"),
    }
    assert_eq!(
        fail_closed("a", ResolveErr::Unavailable),
        "openat2 不可用,fail-closed 拒绝 a(非 x86_64-linux 或内核过旧)"
    );
}

/// A directory entry as the kernel writes it.
fn entry(name: &str) -> Vec<u8> {
    let len = 19 + name.len() + 1;
    let mut b = vec![0u8; 16];
    b.extend_from_slice(&(len as u16).to_le_bytes());
    b.push(8);
    b.extend_from_slice(name.as_bytes());
    b.push(0);
    b
}

#[test]
fn listings_are_read_and_sorted() {
    let mut buf = entry("b.txt");
    buf.extend(entry("."));
    buf.extend(entry(".."));
    buf.extend(entry("a.txt"));
    assert_eq!(getdents_names(&[buf.clone()], None).unwrap(), vec!["a.txt", "b.txt"]);
    assert!(getdents_names(&[buf], Some(5)).is_err());
}

fn run(policy: SandboxPolicy, fail: Option<SandboxOp>) -> (Vec<SandboxOp>, Result<(), SandboxError>) {
    let mut s = Sandbox::apply(3, policy);
    let mut ops = Vec::new();
    let mut next = 10;
    while let Some(op) = s.next_op() {
        ops.push(op);
        let ret = if Some(op) == fail {
            -1
        } else {
            match op {
                SandboxOp::CreateRuleset { .. } | SandboxOp::OpenSystemDir(_) => {
                    next += 1;
                    next
                }
                _ => 0,
            }
        };
        if let Err(e) = s.advance(ret) {
            return (ops, Err(e));
        }
    }
    (ops, Ok(()))
}

#[test]
fn a_child_is_confined_step_by_step() {
    let (ops, res) = run(SandboxPolicy::default_limits(), None);
    assert!(res.is_ok());
    assert_eq!(ops[0], SandboxOp::NoNewPrivs);
    assert_eq!(ops[1], SandboxOp::Limit { resource: 6, value: 256 });
    assert_eq!(ops[2], SandboxOp::Limit { resource: 1, value: 256 * 1024 * 1024 });
    assert_eq!(ops[3], SandboxOp::Limit { resource: 0, value: 60 });
    assert_eq!(ops[4], SandboxOp::CreateRuleset { handled: 0x1fff });
    assert!(ops.contains(&SandboxOp::Enter(3)));
    assert_eq!(*ops.last().unwrap(), SandboxOp::InstallFilter);
    assert_eq!(SYSTEM_DIRS, 4);
    assert_eq!(system_dir(3), "/lib64\0");
}

#[test]
fn identity_is_dropped_last_and_must_be() {
    let p = SandboxPolicy { drop_uid: Some(1000), drop_gid: Some(1000), ..SandboxPolicy::default_limits() };
    let (ops, res) = run(p, None);
    assert!(res.is_ok());
    let n = ops.len();
    assert_eq!(&ops[n - 3..], &[SandboxOp::ClearGroups, SandboxOp::SetGid(1000), SandboxOp::SetUid(1000)]);
    let (_, refused) = run(p, Some(SandboxOp::SetUid(1000)));
    assert!(refused.is_err());
    let (_, refused) = run(p, Some(SandboxOp::NoNewPrivs));
    assert!(refused.is_err());
    let (_, refused) = run(p, Some(SandboxOp::InstallFilter));
    assert!(refused.is_err());
}
