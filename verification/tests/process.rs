use capable_broker::capvm::{GuestProcess, Syscalls};
use capable_broker::policy::ConsentLedger;
use capable_broker::{parse_ops, Session, Taint};

/// The files of the workspace, by directory.
fn file(fd: u64, rel: &str) -> Result<Vec<u8>, String> {
    match (fd, rel) {
        (0, "main.txt") => Ok(b"hello capvm".to_vec()),
        (0, "src/secret.txt") | (1, "secret.txt") => Ok(b"API_KEY=sk-zzz".to_vec()),
        _ => Err("openat2 拒绝".to_string()),
    }
}

fn granted(sess: &mut Session) -> String {
    sess.grant_dir("/ws", parse_ops("read,list"), Taint::Project, Ok(0), &[7; 16]).unwrap()
}

fn cap_read(p: &mut GuestProcess, h: usize, rel: &str) -> Result<(Taint, Vec<u8>), String> {
    let plan = p.syscalls().cap_read(h, rel)?;
    let data = file(plan.fd(), plan.rel());
    let held = p.session().read_done(plan, data)?;
    p.session().read_release(held)
}

fn cap_derive_sub(p: &mut GuestProcess, h: usize, seg: &str) -> Result<usize, String> {
    let plan = p.syscalls().cap_derive_sub(h, seg)?;
    assert_eq!((plan.fd(), plan.seg()), (0, seg));
    let opened = if seg == "src" { Ok(1) } else { Err("openat2 拒绝".to_string()) };
    p.derive_done(plan, opened, &[9; 16])
}

#[test]
fn fresh_process_has_zero_authority() {
    let mut sess = Session::new(&[1; 16]);
    let mut l = ConsentLedger::new();
    let mut p = GuestProcess::new(&mut sess, &mut l);
    assert!(cap_read(&mut p, 0, "main.txt").is_err());
    assert!(cap_read(&mut p, 7, "main.txt").is_err());
    assert_eq!(p.live_handles(), 0);
}

#[test]
fn cap_indexed_read_and_bounds_and_forge() {
    let mut sess = Session::new(&[1; 16]);
    let mut l = ConsentLedger::new();
    let dircap = granted(&mut sess);
    let mut p = GuestProcess::new(&mut sess, &mut l);
    let h = p.install(dircap);
    let (_, data) = cap_read(&mut p, h, "main.txt").unwrap();
    assert_eq!(&data, b"hello capvm");
    assert!(cap_read(&mut p, h, "/etc/passwd").is_err());
    assert!(cap_read(&mut p, h, "../../etc/passwd").is_err());
    assert!(cap_read(&mut p, h + 99, "main.txt").is_err());
}

#[test]
fn cap_derive_attenuates_and_close_revokes_handle() {
    let mut sess = Session::new(&[1; 16]);
    let mut l = ConsentLedger::new();
    let dircap = granted(&mut sess);
    let mut p = GuestProcess::new(&mut sess, &mut l);
    let h = p.install(dircap);
    let sub = cap_derive_sub(&mut p, h, "src").unwrap();
    let (t, _) = cap_read(&mut p, sub, "secret.txt").unwrap();
    assert_eq!(t, Taint::Secret, "src/secret.txt 应升级 Secret");
    assert_eq!(p.live_handles(), 2);
    p.syscalls().cap_close(sub).unwrap();
    assert!(cap_read(&mut p, sub, "secret.txt").is_err(), "关闭后句柄失效");
    assert!(p.syscalls().cap_close(sub).is_err(), "重复关闭无效句柄应拒");
    assert!(cap_read(&mut p, h, "main.txt").is_ok());
}

/// What a guest can ask with nothing but system calls to make.
fn guest_code(sys: &mut dyn Syscalls, h: usize) -> bool {
    let asked = sys.cap_read(h, "main.txt").is_ok();
    assert!(sys.cap_read(h + 5, "main.txt").is_err());
    assert!(sys.cap_derive_sub(h, "src").is_ok());
    assert!(sys.cap_derive_sub(h + 5, "src").is_err());
    asked
}

#[test]
fn guest_surface_has_no_session_no_mint_no_install() {
    let mut sess = Session::new(&[1; 16]);
    let mut l = ConsentLedger::new();
    let dircap = granted(&mut sess);
    let mut p = GuestProcess::new(&mut sess, &mut l);
    let h = p.install(dircap);
    assert!(guest_code(p.syscalls(), h));
    let (_, data) = cap_read(&mut p, h, "main.txt").unwrap();
    let sub = cap_derive_sub(&mut p, h, "src").unwrap();
    assert!(cap_read(&mut p, sub, "secret.txt").is_ok());
    assert_eq!(&data, b"hello capvm");
}

#[test]
fn host_loader_installs_capability_guest_cannot() {
    let mut sess = Session::new(&[1; 16]);
    let mut l = ConsentLedger::new();
    let dircap = granted(&mut sess);
    let mut p = GuestProcess::new(&mut sess, &mut l);
    let h = p.install(dircap);
    assert!(cap_read(&mut p, h, "main.txt").is_ok());
}

#[test]
fn handles_are_per_process_not_global() {
    let mut sess = Session::new(&[1; 16]);
    let mut l = ConsentLedger::new();
    let dircap = granted(&mut sess);
    let ha = {
        let mut a = GuestProcess::new(&mut sess, &mut l);
        a.install(dircap)
    };
    let mut b = GuestProcess::new(&mut sess, &mut l);
    assert!(cap_read(&mut b, ha, "main.txt").is_err(), "别的进程不能凭相同数值句柄借用能力");
}

#[test]
fn a_closed_slot_is_used_again() {
    let mut sess = Session::new(&[1; 16]);
    let mut l = ConsentLedger::new();
    let dircap = granted(&mut sess);
    let mut p = GuestProcess::new(&mut sess, &mut l);
    let a = p.install(dircap.clone());
    let b = p.install(dircap.clone());
    assert_eq!((a, b), (0, 1));
    p.syscalls().cap_close(a).unwrap();
    assert_eq!(p.live_handles(), 1);
    assert_eq!(p.install(dircap), 0);
    assert_eq!(
        p.syscalls().cap_exec(5).err().unwrap(),
        "capvm: 句柄 5 无效(越界/已关闭/伪造)—— 无 ambient authority"
    );
    assert_eq!(p.syscalls().cap_close(5).unwrap_err(), "capvm: 关闭无效句柄 5");
    assert!(p.syscalls().cap_list(0, "").is_ok());
}
