use std::collections::BTreeMap;

use capable_broker::audit::{verify_chain, AuditSink};
use capable_broker::net::{HostAddr, Ip};
use capable_broker::os::{fail_closed, open_request, openat2_at, OpenFor, OpenRequest};
use capable_broker::policy::{ConsentLedger, PolicyEngine, CONSENT_REQUIRED};
use capable_broker::sandbox::{system_dir, Sandbox, SandboxOp};
use capable_broker::state::FetchError;
use capable_broker::{parse_ops, AuditEvent, Policy, SandboxPolicy, Session, Taint};

/// A host with files and links in memory, and a kernel that does what it is asked.
struct Host {
    files: BTreeMap<String, Vec<u8>>,
    links: BTreeMap<String, String>,
    held: Vec<String>,
    seed: u8,
    ran: usize,
}

const ROOT: &str = "/ws";

fn below(path: &str, dir: &str) -> bool {
    path == dir || path.starts_with(&format!("{}/", dir))
}

impl Host {
    fn new() -> Host {
        let mut files = BTreeMap::new();
        files.insert("/ws/main.txt".to_string(), b"hello broker".to_vec());
        files.insert("/ws/src/secret.txt".to_string(), b"API_KEY=sk-xyz".to_vec());
        files.insert("/etc/passwd".to_string(), b"root:x:0:0".to_vec());
        let mut links = BTreeMap::new();
        links.insert("/ws/escape".to_string(), "/etc".to_string());
        Host { files, links, held: Vec::new(), seed: 0, ran: 0 }
    }

    fn entropy(&mut self) -> [u8; 16] {
        self.seed += 1;
        [self.seed; 16]
    }

    fn hold(&mut self, path: String) -> u64 {
        self.held.push(path);
        self.held.len() as u64 - 1
    }

    fn open(&mut self, path: &str) -> Result<u64, String> {
        if self.files.keys().any(|k| below(k, path)) {
            Ok(self.hold(path.to_string()))
        } else {
            Err("No such file or directory (os error 2)".to_string())
        }
    }

    /// Where a path below a held directory leads; links are followed, and kept
    /// below it only where the request says so.
    fn openat2(&self, fd: u64, q: &OpenRequest) -> Result<String, i64> {
        let base = &self.held[fd as usize];
        let rel = std::str::from_utf8(&q.path[..q.path.len() - 1]).unwrap();
        let beneath = q.resolve & 0x08 != 0;
        let mut cur = if rel.starts_with('/') { String::new() } else { base.clone() };
        for part in rel.split('/') {
            match part {
                "" | "." => {}
                ".." => cur.truncate(cur.rfind('/').unwrap_or(0)),
                p => cur = format!("{}/{}", cur, p),
            }
            if let Some(target) = self.links.get(&cur) {
                cur = target.clone();
            }
            if beneath && !below(&cur, base) {
                return Err(-18);
            }
        }
        if self.files.keys().any(|k| below(k, &cur)) {
            Ok(cur)
        } else {
            Err(-2)
        }
    }

    fn find(&self, fd: u64, rel: &str, what: OpenFor) -> Result<String, String> {
        match self.openat2(fd, &open_request(rel, what)) {
            Ok(path) => Ok(path),
            Err(e) => Err(fail_closed(rel, openat2_at(rel, e).err().unwrap())),
        }
    }

    fn open_below(&mut self, fd: u64, seg: &str) -> Result<u64, String> {
        let path = self.find(fd, seg, OpenFor::Holding)?;
        Ok(self.hold(path))
    }

    fn read(&self, fd: u64, rel: &str) -> Result<Vec<u8>, String> {
        let path = self.find(fd, rel, OpenFor::Reading)?;
        self.files.get(&path).cloned().ok_or("read failed".to_string())
    }

    /// Runs a command after the steps of its confinement, any of which the kernel
    /// may refuse.
    fn run(&mut self, argv: &[String], fd: u64, policy: SandboxPolicy) -> Result<Vec<u8>, String> {
        let mut sandbox = Sandbox::apply(fd as i32, policy);
        while let Some(op) = sandbox.next_op() {
            let ret = match op {
                SandboxOp::OpenSystemDir(i) => {
                    assert!(system_dir(i).ends_with('\0'));
                    100 + i as i32
                }
                SandboxOp::CreateRuleset { .. } => 50,
                // No process can take this identity.
                SandboxOp::SetUid(u32::MAX) => -22,
                _ => 0,
            };
            if sandbox.advance(ret).is_err() {
                return Err("Permission denied (os error 13)".to_string());
            }
        }
        self.ran += 1;
        match argv[0].as_str() {
            "cat" => Ok(self.read(fd, &argv[1]).unwrap_or_default()),
            _ => Ok((argv[1..].join(" ") + "\n").into_bytes()),
        }
    }
}

fn grant_dir(s: &mut Session, host: &mut Host, ops: &str, taint: Taint) -> String {
    let opened = host.open(ROOT);
    s.grant_dir(ROOT, parse_ops(ops), taint, opened, &host.entropy()).unwrap()
}

fn derive_sub(s: &mut Session, host: &mut Host, r: &str, seg: &str) -> Result<String, String> {
    let fd = s.sub_plan(r, seg)?;
    let opened = host.open_below(fd, seg);
    s.derive_sub(r, seg, opened, &host.entropy())
}

fn read(s: &mut Session, host: &Host, r: &str, rel: &str) -> Result<(Taint, Vec<u8>), String> {
    let plan = s.read(r, rel)?;
    let data = host.read(plan.fd(), plan.rel());
    let held = s.read_done(plan, data)?;
    s.read_release(held)
}

fn exec(s: &mut Session, host: &mut Host, l: &mut ConsentLedger, r: &str) -> Result<Vec<u8>, String> {
    let intent = s.exec(l, r)?;
    let plan = s.exec_plan(intent)?;
    let out = host.run(plan.argv(), plan.fd(), plan.policy());
    s.exec_done(plan, out)
}

fn send(s: &mut Session, r: &str, taint: Taint, data: &[u8]) -> Result<(), String> {
    let intent = s.send(r, taint, data);
    s.send_done(intent)
}

fn post(s: &mut Session, l: &mut ConsentLedger, r: &str, subject: &str, body: &str) -> Result<(), String> {
    let intent = s.post(l, r, subject, body)?;
    s.post_done(intent)
}

fn post_from(
    s: &mut Session,
    host: &Host,
    l: &mut ConsentLedger,
    r: &str,
    subject: &str,
    src: &str,
    rel: &str,
) -> Result<(), String> {
    let intent = s.post_from(l, r, subject, src, rel)?;
    let plan = s.post_from_plan(intent)?;
    let data = host.read(plan.fd(), plan.rel());
    s.post_from_done(plan, data)
}

fn mailbox_read(s: &mut Session, r: &str) -> Result<Vec<(String, Taint, String)>, String> {
    let held = s.mailbox_read(r)?;
    s.mailbox_release(held)
}

fn http_get(
    s: &mut Session,
    l: &mut ConsentLedger,
    r: &str,
    path: &str,
    ip: [u8; 4],
    raw: &[u8],
) -> Result<(Taint, Vec<u8>), String> {
    let intent = s.http_get(l, r, path)?;
    let plan = s.http_plan(intent)?;
    let found = Ok(vec![HostAddr { ip: Ip::V4(ip), port: plan.port(), shown: format!("{:?}", ip) }]);
    let fetch = s.http_lookup(plan, found)?;
    s.http_done(fetch, Ok(raw.to_vec()))
}

fn settle_all(s: &mut Session, ok: bool) {
    while s.next_unsettled().is_some() {
        s.settle(ok);
    }
}

fn id_of(e: &str) -> String {
    e.split('\t').nth(1).unwrap().to_string()
}

#[test]
fn grant_read_and_bounds() {
    let mut host = Host::new();
    let mut s = Session::new(&host.entropy());
    let repo = grant_dir(&mut s, &mut host, "read,list", Taint::Project);
    let (t, data) = read(&mut s, &host, &repo, "main.txt").unwrap();
    assert_eq!(t, Taint::Project);
    assert_eq!(&data, b"hello broker");
    assert!(read(&mut s, &host, &repo, "/etc/passwd").is_err());
    assert!(read(&mut s, &host, &repo, "../../etc/passwd").is_err());
}

#[test]
fn attenuate_and_ifc() {
    let mut host = Host::new();
    let mut s = Session::new(&host.entropy());
    let repo = grant_dir(&mut s, &mut host, "read,write,list", Taint::Project);
    let sub = derive_sub(&mut s, &mut host, &repo, "src").unwrap();
    let ro = s.derive_readonly(&sub, &host.entropy()).unwrap();
    assert!(read(&mut s, &host, &ro, "secret.txt").is_ok());
    let vault = grant_dir(&mut s, &mut host, "read", Taint::Secret);
    let (t, _) = read(&mut s, &host, &vault, "src/secret.txt").unwrap();
    assert_eq!(t, Taint::Secret);
    let sink = s.grant_sink("https://x.example.com", &host.entropy());
    assert!(send(&mut s, &sink, Taint::Project, b"ok").is_ok());
    assert!(send(&mut s, &sink, Taint::Secret, b"leak").is_err());
}

#[test]
fn revoke_cascade() {
    let mut host = Host::new();
    let mut s = Session::new(&host.entropy());
    let repo = grant_dir(&mut s, &mut host, "read,list", Taint::Project);
    let child = derive_sub(&mut s, &mut host, &repo, "src").unwrap();
    assert!(read(&mut s, &host, &child, "secret.txt").is_ok());
    s.revoke(&repo).unwrap();
    assert!(read(&mut s, &host, &child, "secret.txt").is_err());
}

#[test]
fn message_cap_delegation_attenuation_ifc_revoke() {
    let mut host = Host::new();
    let mut l = ConsentLedger::new();
    let mut s = Session::new(&host.entropy());
    let owner = s.grant_message("agent:newton", &host.entropy(), &host.entropy());

    post(&mut s, &mut l, &owner, "hello", "hi newton").unwrap();
    let inbox = mailbox_read(&mut s, &owner).unwrap();
    assert_eq!(inbox.len(), 1);
    assert_eq!(inbox[0].0, "hello");
    assert_eq!(inbox[0].1, Taint::Green, "字面投递 taint 必须由服务端定为 Green");

    let delegate = s.derive_msg_prefix(&owner, "build/", &host.entropy()).unwrap();
    assert!(mailbox_read(&mut s, &delegate).is_err(), "只投递 facet 不得读收件箱");
    assert!(post(&mut s, &mut l, &delegate, "build/x", "authored").is_err(), "委托 facet 不得字面投递");

    let vault = grant_dir(&mut s, &mut host, "read,list", Taint::Project);
    post_from(&mut s, &host, &mut l, &delegate, "build/main", &vault, "main.txt").unwrap();
    assert!(
        post_from(&mut s, &host, &mut l, &delegate, "deploy/prod", &vault, "main.txt").is_err(),
        "越出主题前缀必须被拒"
    );
    assert!(
        post_from(&mut s, &host, &mut l, &delegate, "build/exfil", &vault, "src/secret.txt").is_err(),
        "从 secret 源转发投递必须被 IFC 拒(不能洗白 taint)"
    );

    let once = s.derive_msg_oneshot(&owner, &host.entropy()).unwrap();
    post_from(&mut s, &host, &mut l, &once, "ping", &vault, "main.txt").unwrap();
    assert!(
        post_from(&mut s, &host, &mut l, &once, "ping", &vault, "main.txt").is_err(),
        "one_shot 第二次投递必须失效"
    );

    let inbox = mailbox_read(&mut s, &owner).unwrap();
    let subjects: Vec<&str> = inbox.iter().map(|m| m.0.as_str()).collect();
    assert_eq!(subjects, vec!["hello", "build/main", "ping"]);

    s.revoke(&owner).unwrap();
    assert!(
        post_from(&mut s, &host, &mut l, &delegate, "build/after", &vault, "main.txt").is_err(),
        "owner 撤销后委托 facet 应级联失效"
    );
}

#[test]
fn message_cap_no_literal_laundering_via_delegated_facet() {
    let mut host = Host::new();
    let mut l = ConsentLedger::new();
    let mut s = Session::new(&host.entropy());
    let owner = s.grant_message("agent:collector", &host.entropy(), &host.entropy());
    let delegate = s.derive_msg_prefix(&owner, "", &host.entropy()).unwrap();

    let vault = grant_dir(&mut s, &mut host, "read,list", Taint::Project);
    let (t, secret_bytes) = read(&mut s, &host, &vault, "src/secret.txt").unwrap();
    assert_eq!(t, Taint::Secret, "secret 路径读应升级为 Secret");
    let copied = String::from_utf8_lossy(&secret_bytes).into_owned();

    assert!(
        post(&mut s, &mut l, &delegate, "exfil", &copied).is_err(),
        "read(secret)→post(literal 复制字节) 必须失败(委托 facet 禁字面投递,防洗白)"
    );
    assert!(
        post_from(&mut s, &host, &mut l, &delegate, "exfil", &vault, "src/secret.txt").is_err(),
        "post_from secret 源也必须被 IFC 拒"
    );
    assert!(mailbox_read(&mut s, &owner).unwrap().is_empty(), "不得有任何 secret 数据入箱");
}

#[test]
fn l5_jit_consent_exec_flow() {
    let mut host = Host::new();
    let mut ledger = ConsentLedger::new();

    let mut guest = Session::new(&host.entropy());
    guest.set_policy(PolicyEngine { prompt_exec: true, ..PolicyEngine::allow_all() });
    guest.set_consent();
    let cwd = grant_dir(&mut guest, &mut host, "read,list,exec", Taint::Project);
    let cmd = guest
        .grant_command(&cwd, vec!["/bin/echo".into(), "hi".into()], &host.entropy())
        .unwrap();

    let e = exec(&mut guest, &mut host, &mut ledger, &cmd).unwrap_err();
    assert!(e.starts_with(CONSENT_REQUIRED), "首次 exec 应要求 consent: {}", e);
    let id = id_of(&e);
    assert_eq!(ledger.pending_count(), 1);

    assert!(exec(&mut guest, &mut host, &mut ledger, &cmd).unwrap_err().starts_with(CONSENT_REQUIRED));

    let mut control = Session::new(&host.entropy());
    control.set_consent();
    assert!(control.consent_approve(&mut ledger, &id).is_ok());

    let out = exec(&mut guest, &mut host, &mut ledger, &cmd).unwrap();
    assert!(String::from_utf8_lossy(&out).contains("hi"), "批准后 exec 应执行: {:?}", out);

    assert!(exec(&mut guest, &mut host, &mut ledger, &cmd).unwrap_err().starts_with(CONSENT_REQUIRED));
    assert_eq!(host.ran, 1);
}

#[test]
fn l5_consent_signature_binds_payload_no_substitution() {
    let mut host = Host::new();
    let mut ledger = ConsentLedger::new();
    let mut s = Session::new(&host.entropy());
    s.set_policy(PolicyEngine { prompt_post: true, ..PolicyEngine::allow_all() });
    s.set_consent();
    let mut c = Session::new(&host.entropy());
    c.set_consent();
    let owner = s.grant_message("agent:a", &host.entropy(), &host.entropy());

    let ea = post(&mut s, &mut ledger, &owner, "hi", "benign").unwrap_err();
    assert!(ea.starts_with(CONSENT_REQUIRED));
    c.consent_approve(&mut ledger, &id_of(&ea)).unwrap();
    let eb = post(&mut s, &mut ledger, &owner, "hi", "MALICIOUS").unwrap_err();
    assert!(eb.starts_with(CONSENT_REQUIRED), "换 body 必须重新 CONSENT: {}", eb);
    assert!(post(&mut s, &mut ledger, &owner, "hi", "benign").is_ok(), "原 body 应被批准放行");

    let vault = grant_dir(&mut s, &mut host, "read,list", Taint::Project);
    let deleg = s.derive_msg_prefix(&owner, "", &host.entropy()).unwrap();
    let ef = post_from(&mut s, &host, &mut ledger, &deleg, "topicA", &vault, "main.txt").unwrap_err();
    assert!(ef.starts_with(CONSENT_REQUIRED));
    c.consent_approve(&mut ledger, &id_of(&ef)).unwrap();
    let ef2 = post_from(&mut s, &host, &mut ledger, &deleg, "topicB", &vault, "main.txt").unwrap_err();
    assert!(ef2.starts_with(CONSENT_REQUIRED), "换 subject 必须重新 CONSENT: {}", ef2);
    assert!(
        post_from(&mut s, &host, &mut ledger, &deleg, "topicA", &vault, "main.txt").is_ok(),
        "原 subject 应放行"
    );
}

#[test]
fn l5_exec_summary_unambiguous_argv_and_env() {
    let mut host = Host::new();
    let mut ledger = ConsentLedger::new();
    let mut s = Session::new(&host.entropy());
    s.set_policy(PolicyEngine { prompt_exec: true, ..PolicyEngine::allow_all() });
    s.set_consent();
    let cwd = grant_dir(&mut s, &mut host, "read,list,exec", Taint::Project);
    let cmd = s
        .grant_command(&cwd, vec!["/bin/echo".into(), "a b".into(), "c\td".into()], &host.entropy())
        .unwrap();
    let e = exec(&mut s, &mut host, &mut ledger, &cmd).unwrap_err();
    assert!(e.starts_with(CONSENT_REQUIRED));
    let id = e.splitn(3, '\t').nth(1).unwrap().to_string();
    let hint = e.splitn(3, '\t').nth(2).unwrap().to_string();
    assert!(!hint.contains("PATH="), "requester hint 不得泄露 env: {}", hint);
    assert!(!hint.contains("\"a b\""), "requester hint 不得含 argv payload: {}", hint);

    let detail = s.consent_describe(&ledger, &id).unwrap();
    assert!(detail.contains("\"a b\""), "含空格参数应无歧义引用: {}", detail);
    assert!(!detail.contains("\"a\" \"b\""), "不应把 [\"a b\"] 呈现成两个参数");
    assert!(detail.contains("\"c\\x09d\""), "控制字符应转义: {}", detail);
    assert!(!detail.contains('\t'), "详情内不得有裸 tab");
    assert!(detail.contains("env=[") && detail.contains("PATH="), "detail 须含 env: {}", detail);
}

#[test]
fn l5_deny_and_fail_closed_without_ledger() {
    let mut host = Host::new();
    let mut l = ConsentLedger::new();
    let mut s = Session::new(&host.entropy());
    s.set_policy(PolicyEngine { deny_exec: true, ..PolicyEngine::allow_all() });
    let cwd = grant_dir(&mut s, &mut host, "read,list,exec", Taint::Project);
    let cmd = s.grant_command(&cwd, vec!["/bin/echo".into()], &host.entropy()).unwrap();
    let e = exec(&mut s, &mut host, &mut l, &cmd).unwrap_err();
    assert!(e.contains("策略拒绝"), "deny_exec 应直接拒: {}", e);

    let mut s2 = Session::new(&host.entropy());
    s2.set_policy(PolicyEngine { prompt_exec: true, ..PolicyEngine::allow_all() });
    let cwd2 = grant_dir(&mut s2, &mut host, "read,list,exec", Taint::Project);
    let cmd2 = s2.grant_command(&cwd2, vec!["/bin/echo".into()], &host.entropy()).unwrap();
    let e2 = exec(&mut s2, &mut host, &mut l, &cmd2).unwrap_err();
    assert!(e2.contains("无 consent 账本"), "无 ledger 时须 fail-closed: {}", e2);
    assert_eq!(l.pending_count(), 0);
}

#[test]
fn mailbox_read_fail_closed_on_audit_break() {
    let mut host = Host::new();
    let mut l = ConsentLedger::new();
    let mut s = Session::with_sink(&host.entropy());
    let owner = s.grant_message("agent:x", &host.entropy(), &host.entropy());
    settle_all(&mut s, true);
    let intent = s.post(&mut l, &owner, "hi", "body").unwrap();
    settle_all(&mut s, true);
    s.post_done(intent).unwrap();
    settle_all(&mut s, true);
    let held = s.mailbox_read(&owner).unwrap();
    settle_all(&mut s, true);
    assert!(s.mailbox_release(held).is_ok());
    let held = s.mailbox_read(&owner).unwrap();
    settle_all(&mut s, false);
    assert!(s.mailbox_release(held).is_err(), "审计故障时披露收件箱必须 fail-closed");
    assert!(s.mailbox_read(&owner).is_err(), "审计故障时披露收件箱必须 fail-closed");
}

#[test]
fn record_failure_blocks_side_effect() {
    let mut host = Host::new();
    let mut l = ConsentLedger::new();
    let mut s = Session::with_sink(&host.entropy());
    let repo = grant_dir(&mut s, &mut host, "read", Taint::Project);
    let echo = s.grant_command(&repo, vec!["echo".into(), "hi".into()], &host.entropy()).unwrap();
    settle_all(&mut s, true);
    let intent = s.exec(&mut l, &echo).unwrap();
    settle_all(&mut s, false);
    assert!(s.exec_plan(intent).is_err(), "审计 intent durable 化失败时 exec 必须不执行");
    assert_eq!(host.ran, 0);
}

#[test]
fn nothing_is_released_before_the_host_reports() {
    let mut host = Host::new();
    let mut l = ConsentLedger::new();
    let mut s = Session::with_sink(&host.entropy());
    let repo = grant_dir(&mut s, &mut host, "read,exec", Taint::Project);
    let echo = s.grant_command(&repo, vec!["echo".into(), "hi".into()], &host.entropy()).unwrap();
    let http = s
        .grant_http("http", "example.com", 80, vec!["GET".into()], vec!["/**".into()], 16, &host.entropy())
        .unwrap();
    let sink = s.grant_sink("x", &host.entropy());
    let owner = s.grant_message("m", &host.entropy(), &host.entropy());
    settle_all(&mut s, true);
    let i = s.exec(&mut l, &echo).unwrap();
    assert_eq!(s.exec_plan(i).err().unwrap(), "exec 前置审计失败,fail-closed 不执行");
    let i = s.http_get(&mut l, &http, "/").unwrap();
    assert_eq!(s.http_plan(i).err().unwrap(), "http 前置审计失败,fail-closed 不请求");
    let i = s.send(&sink, Taint::Green, b"x");
    assert_eq!(s.send_done(i).unwrap_err(), "send 前置审计失败,fail-closed 不发送");
    let i = s.post(&mut l, &owner, "a", "b").unwrap();
    assert_eq!(s.post_done(i).unwrap_err(), "post 前置审计失败,fail-closed 不投递");
    let i = s.post_from(&mut l, &owner, "a", &repo, "main.txt").unwrap();
    assert_eq!(s.post_from_plan(i).err().unwrap(), "post 前置审计失败,fail-closed 不投递");
    let p = s.read(&repo, "main.txt").unwrap();
    let h = s.read_done(p, Ok(b"data".to_vec())).unwrap();
    assert_eq!(s.read_release(h).unwrap_err(), "read 结果未能持久审计,fail-closed 拒绝返回");
}

#[test]
fn audit_broken_fails_closed() {
    let mut host = Host::new();
    let mut s = Session::with_sink(&host.entropy());
    let repo = grant_dir(&mut s, &mut host, "read", Taint::Project);
    settle_all(&mut s, false);
    assert!(read(&mut s, &host, &repo, "main.txt").is_err(), "审计故障后敏感操作必须 fail-closed 拒绝");
    settle_all(&mut s, true);
    assert!(read(&mut s, &host, &repo, "main.txt").is_err(), "a broken session stays broken");
}

#[test]
fn exec_policy_drop_uid_fail_closed_when_nonroot() {
    let mut host = Host::new();
    let mut l = ConsentLedger::new();
    let mut s = Session::new(&host.entropy());
    s.set_exec_policy(SandboxPolicy { drop_uid: Some(u32::MAX), ..SandboxPolicy::default_limits() });
    let repo = grant_dir(&mut s, &mut host, "read", Taint::Project);
    let c = s.grant_command(&repo, vec!["cat".into(), "main.txt".into()], &host.entropy()).unwrap();
    assert!(exec(&mut s, &mut host, &mut l, &c).is_err(), "配置的掉权无法施加时 exec 必须 fail-closed 拒绝");
    assert_eq!(host.ran, 0);
}

#[test]
fn reduced_subject_cannot_hold_egress() {
    let mut host = Host::new();
    let mut s = Session::new(&host.entropy());
    let get = || vec!["GET".to_string()];
    let all = || vec!["/**".to_string()];
    let h = s.grant_http("http", "registry.example", 80, get(), all(), 4096, &host.entropy()).unwrap();
    let m = s.grant_message("recipient", &host.entropy(), &host.entropy());
    assert!(s.get_active(&h).is_ok() && s.get_active(&m).is_ok());
    s.set_mitigation_reduced(true);
    assert!(s.get_active(&h).is_err(), "降级瞬间已持有的 HttpCap 必须被撤销");
    assert!(s.get_active(&m).is_err(), "降级瞬间已持有的 MessageCap 必须被撤销");
    assert!(
        s.grant_http("http", "registry.example", 80, get(), all(), 4096, &host.entropy()).is_err(),
        "降低缓解状态下 grant_http 必须无条件拒绝"
    );
    s.set_mitigation_reduced(false);
    assert!(s.grant_http("http", "registry.example", 80, get(), all(), 4096, &host.entropy()).is_ok());
    assert!(s.verify_audit(), "E1 决策必须全部入链");
}

#[test]
fn http_cap_denials() {
    let mut host = Host::new();
    let mut l = ConsentLedger::new();
    let mut s = Session::new(&host.entropy());
    let get = || vec!["GET".to_string()];
    let public = [93, 184, 216, 34];
    let h = s
        .grant_http("http", "metadata.google.internal", 80, get(), vec!["/**".into()], 4096, &host.entropy())
        .unwrap();
    assert!(
        http_get(&mut s, &mut l, &h, "/latest/meta-data/", public, b"").is_err(),
        "metadata 主机必须被 SSRF 拒"
    );
    let h2 = s.grant_http("http", "127.0.0.1", 8080, get(), vec!["/**".into()], 4096, &host.entropy()).unwrap();
    assert!(http_get(&mut s, &mut l, &h2, "/", [127, 0, 0, 1], b"").is_err(), "loopback 必须被拒");
    let h3 = s.grant_http("http", "example.com", 80, get(), vec!["/v1/*".into()], 4096, &host.entropy()).unwrap();
    assert!(http_get(&mut s, &mut l, &h3, "/admin", public, b"").is_err(), "path 越白名单必须拒");
    let h4 = s.grant_http("https", "example.com", 443, get(), vec!["/**".into()], 4096, &host.entropy()).unwrap();
    assert!(http_get(&mut s, &mut l, &h4, "/", public, b"").is_err(), "https 需 TLS,暂拒");
    assert_eq!(s.describe(&h).is_ok(), true);
}

#[test]
fn what_comes_from_the_network_is_external() {
    let mut host = Host::new();
    let mut l = ConsentLedger::new();
    let mut s = Session::new(&host.entropy());
    let h = s
        .grant_http("http", "example.com", 8080, vec!["GET".into()], vec!["/v1/*".into()], 64, &host.entropy())
        .unwrap();
    let intent = s.http_get(&mut l, &h, "/v1//models?x=1").unwrap();
    let plan = s.http_plan(intent).unwrap_or_else(|e| panic!("{}", e));
    assert_eq!((plan.host(), plan.port()), ("example.com", 8080));
    let found = Ok(vec![HostAddr { ip: Ip::V4([93, 184, 216, 34]), port: 8080, shown: "a".into() }]);
    let fetch = s.http_lookup(plan, found).unwrap_or_else(|e| panic!("{}", e));
    assert!(fetch.request().starts_with("GET /v1/models?x=1 HTTP/1.0\r\nHost: example.com:8080\r\n"));
    assert_eq!(fetch.max_bytes(), 64);
    assert_eq!(fetch.addr().port, 8080);
    let got = s.http_done(fetch, Ok(b"HTTP/1.0 200 OK\r\n\r\nhi".to_vec())).unwrap();
    assert_eq!(got, (Taint::External, b"hi".to_vec()));
    let intent = s.http_get(&mut l, &h, "/v1/x").unwrap();
    let plan = s.http_plan(intent).unwrap_or_else(|e| panic!("{}", e));
    let found = Ok(vec![HostAddr { ip: Ip::V4([93, 184, 216, 34]), port: 8080, shown: "a".into() }]);
    let fetch = s.http_lookup(plan, found).unwrap_or_else(|e| panic!("{}", e));
    let e = s.http_done(fetch, Err(FetchError::Connect("refused".into()))).unwrap_err();
    assert_eq!(e, "connect 失败: refused");
}

#[test]
fn cross_session_ref_invalid() {
    let mut host = Host::new();
    let mut a = Session::new(&host.entropy());
    let repo = grant_dir(&mut a, &mut host, "read", Taint::Project);
    let mut b = Session::new(&host.entropy());
    assert!(read(&mut b, &host, &repo, "main.txt").is_err());
}

#[test]
fn guest_grant_confined_to_workspace() {
    let root = b"/ws".to_vec();
    let pol = Policy::guest("/ws");
    let decide = |p: &Policy, path: &str| p.gate_grant_dir(path, &Some(root.clone()), &Some(path.as_bytes().to_vec()));
    assert!(decide(&pol, "/ws").is_ok());
    assert!(decide(&pol, "/ws/src").is_ok());
    assert!(decide(&pol, "/etc").is_err());
    assert!(decide(&pol, "/").is_err());
    assert!(Policy::control().gate_grant_dir("/etc", &None, &None).is_ok());
    assert!(decide(&pol, "/wsx").is_err());
    assert!(pol.gate_grant_dir("/ws", &Some(root.clone()), &None).is_err());
}

#[test]
fn symlink_escape_blocked() {
    let mut host = Host::new();
    let mut s = Session::new(&host.entropy());
    let repo = grant_dir(&mut s, &mut host, "read,list", Taint::Project);
    assert!(read(&mut s, &host, &repo, "escape/passwd").is_err(), "symlink 越界读必须被拒");
    assert!(derive_sub(&mut s, &mut host, &repo, "escape").is_err(), "symlink 子目录 derive 必须被拒");
    // The link does lead out: a request that did not ask to stay below would find it.
    let loose = OpenRequest { resolve: 0, ..open_request("escape/passwd", OpenFor::Reading) };
    assert_eq!(host.openat2(0, &loose).unwrap(), "/etc/passwd");
}

#[test]
fn secret_path_taint_escalation() {
    let mut host = Host::new();
    let mut s = Session::new(&host.entropy());
    let repo = grant_dir(&mut s, &mut host, "read", Taint::Project);
    let (t, _) = read(&mut s, &host, &repo, "src/secret.txt").unwrap();
    assert_eq!(t, Taint::Secret, "敏感路径读必须升级为 Secret");
}

#[test]
fn audit_chain_tamper_evident() {
    let mut host = Host::new();
    let mut s = Session::new(&host.entropy());
    let repo = grant_dir(&mut s, &mut host, "read,list", Taint::Project);
    let _ = read(&mut s, &host, &repo, "main.txt");
    let _ = read(&mut s, &host, &repo, "/etc/passwd");
    let sink = s.grant_sink("x", &host.entropy());
    let _ = send(&mut s, &sink, Taint::Secret, b"leak");
    assert!(s.verify_audit(), "干净链应验证通过");
    assert!(s.audit_log().len() >= 5);
    let mut s2 = Session::new(&host.entropy());
    let r2 = grant_dir(&mut s2, &mut host, "read", Taint::Project);
    let _ = read(&mut s2, &host, &r2, "main.txt");
    let mut log: Vec<AuditEvent> = s2.audit_log().to_vec();
    assert!(verify_chain(&log));
    log[0].detail = "tampered".to_string();
    assert!(!verify_chain(&log), "篡改后链验证必须失败");
}

/// A log in memory, with its anchor.
struct Log {
    lines: Vec<String>,
    anchor: Option<String>,
}

impl Log {
    fn content(&self) -> Option<Vec<Result<String, String>>> {
        Some(self.lines.iter().cloned().map(Ok).collect())
    }

    fn verifies(&self) -> bool {
        capable_broker::audit::verify_persisted(&self.content(), &self.anchor).unwrap()
    }
}

fn record_all(s: &mut Session, sink: &mut AuditSink, log: &mut Log) {
    loop {
        let rec = match s.next_unsettled() {
            None => return,
            Some(e) => sink.record(&s.key, &e.op, &e.detail, &e.decision),
        };
        log.lines.push(rec.line().to_string());
        log.anchor = Some(rec.anchor().to_string());
        sink.commit(rec);
        s.settle(true);
    }
}

fn written_log() -> Log {
    let mut host = Host::new();
    let mut log = Log { lines: Vec::new(), anchor: None };
    let mut sink = AuditSink::open("audit.log", None, false, None).unwrap_or_else(|e| panic!("{}", e));
    let mut s = Session::with_sink(&host.entropy());
    let repo = grant_dir(&mut s, &mut host, "read,list", Taint::Project);
    record_all(&mut s, &mut sink, &mut log);
    let p = s.read(&repo, "main.txt").unwrap();
    let data = host.read(p.fd(), p.rel());
    let held = s.read_done(p, data).unwrap();
    record_all(&mut s, &mut sink, &mut log);
    assert_eq!(s.read_release(held).unwrap().1, b"hello broker");
    assert!(s.read(&repo, "/etc/passwd").is_err());
    record_all(&mut s, &mut sink, &mut log);
    log
}

#[test]
fn persisted_audit_survives_and_detects_truncation() {
    let mut log = written_log();
    assert!(log.verifies(), "干净持久链应通过");
    log.lines.pop();
    assert!(!log.verifies(), "尾截必须被 anchor 检测到");
}

#[test]
fn shared_sink_global_chain_across_sessions() {
    let mut host = Host::new();
    let mut log = Log { lines: Vec::new(), anchor: None };
    let mut sink = AuditSink::open("audit.log", None, false, None).unwrap_or_else(|e| panic!("{}", e));
    for _ in 0..2 {
        let mut s = Session::with_sink(&host.entropy());
        let r = grant_dir(&mut s, &mut host, "read", Taint::Project);
        record_all(&mut s, &mut sink, &mut log);
        let _ = read(&mut s, &host, &r, "main.txt");
        record_all(&mut s, &mut sink, &mut log);
    }
    assert_eq!(log.lines.len(), 4);
    assert!(log.verifies(), "两会话共享 sink 的全局链应连续可验证");
    assert_eq!(sink.log_path(), "audit.log");
}

#[test]
fn audit_missing_or_corrupt_anchor_fail_closed() {
    let mut log = written_log();
    assert!(log.verifies());
    log.anchor = None;
    assert!(!log.verifies(), "缺失 anchor 必须判失败");
    log.anchor = Some("garbage".to_string());
    assert!(!log.verifies(), "畸形 anchor 必须判失败");
}

#[test]
fn open_rejects_inconsistent_anchor() {
    let log = written_log();
    assert!(AuditSink::open("l", log.content(), true, log.anchor.clone()).is_ok());
    assert!(
        AuditSink::open("l", log.content(), true, Some("999\tdeadbeefdeadbeef".to_string())).is_err(),
        "不一致 anchor 重启必须 fail-closed 拒绝"
    );
    assert_eq!(
        AuditSink::open("l", log.content(), false, None).err().unwrap(),
        "anchor 缺失/不可读,fail-closed"
    );
}

#[test]
fn a_changed_line_shows() {
    let log = written_log();
    let mut lines = log.lines.clone();
    lines[1] = lines[1].replace("main.txt", "other.txt");
    let changed = Log { lines, anchor: log.anchor.clone() };
    assert!(!changed.verifies());
    assert_eq!(
        AuditSink::open("l", changed.content(), true, log.anchor.clone()).err().unwrap(),
        "log 重放失败: log 第 1 行内容被改"
    );
    let swapped = vec![Ok(log.lines[1].clone())];
    assert_eq!(
        AuditSink::open("l", Some(swapped), true, log.anchor.clone()).err().unwrap(),
        "log 重放失败: log 断链于 seq=0"
    );
    let short = vec![Ok("0\tx".to_string())];
    assert_eq!(
        AuditSink::open("l", Some(short), true, None).err().unwrap(),
        "log 重放失败: log 第 0 行字段数≠7"
    );
}

#[test]
fn a_fresh_log_needs_no_anchor() {
    assert!(AuditSink::open("l", Some(vec![]), false, None).is_ok());
    assert!(AuditSink::open("l", None, true, Some("0\tGENESIS\n".to_string())).is_ok());
    assert!(AuditSink::open("l", None, true, Some("1\tGENESIS".to_string())).is_err());
}

#[test]
fn events_read_as_recorded() {
    let mut host = Host::new();
    let mut s = Session::new(&[0xab, 0x01]);
    assert_eq!(s.key, "ab01");
    let opened = host.open(ROOT);
    let r = s.grant_dir(ROOT, parse_ops("read, list ,bogus"), Taint::Yellow, opened, &[0x5a; 16]).unwrap();
    assert_eq!(r, format!("cap_{}", "5a".repeat(16)));
    let e = &s.audit_log()[0];
    assert_eq!((e.seq, e.op.as_str(), e.decision.as_str()), (0, "grant_dir", "allow"));
    assert_eq!(e.detail, "cap_5a5a5a5a5a… root=/ws taint=yellow");
    assert_eq!(e.prev, "GENESIS");
    assert_eq!(s.describe(&r).unwrap(), "<cap_5a5a5a5a5a… dir root=/ws taint=yellow>");
    s.revoke(&r).unwrap();
    assert_eq!(s.describe(&r).unwrap(), "<cap_5a5a5a5a5a… dir root=/ws taint=yellow REVOKED>");
    assert_eq!(s.describe("nothing").unwrap_err(), "cap nothing 未知");
    assert_eq!(s.revoke("nothing").unwrap_err(), "cap nothing 未知");
    assert_eq!(s.read(&r, "x").err().unwrap(), "cap cap_5a5a5a5a5a… 无效/已撤销(ENOTCAPABLE)");
    assert_eq!(s.audit_log().len(), 4);
}

#[test]
fn a_directory_that_cannot_be_opened_is_not_granted() {
    let mut s = Session::new(&[1]);
    let e = s.grant_dir("/none", vec![], Taint::Green, Err("gone".into()), &[2; 16]).unwrap_err();
    assert_eq!(e, "打开目录 /none 失败: gone");
    assert_eq!(s.audit_log().len(), 1);
    let ev = &s.audit_log()[0];
    assert_eq!((ev.op.as_str(), ev.detail.as_str()), ("grant_dir", "root=/none taint=green"));
    assert_eq!(ev.decision, "deny:打开目录 /none 失败: gone");
    s.set_bootstrap("/none", Err("gone".into()), &[2; 16]);
    assert_eq!(s.take_bootstrap().unwrap_err(), "BOOTSTRAP 已被消费或不可用(guest 无预注入根)");
}

#[test]
fn a_use_that_was_not_granted_is_refused() {
    let mut host = Host::new();
    let mut l = ConsentLedger::new();
    let mut s = Session::new(&host.entropy());
    let lister = grant_dir(&mut s, &mut host, "list", Taint::Project);
    let sink = s.grant_sink("x", &host.entropy());
    assert!(s.read(&lister, "main.txt").err().unwrap().ends_with(" 无 Read"));
    assert!(s.list(&sink, "").err().unwrap().ends_with(" 无 List"));
    assert_eq!(s.grant_command(&sink, vec![], &host.entropy()).unwrap_err(), "grant command 的 cwd 必须是 DirCap");
    assert_eq!(s.sub_plan(&sink, "x").unwrap_err(), "sub 只适用于 DirCap");
    assert!(s.derive_msg_oneshot(&sink, &host.entropy()).unwrap_err().ends_with(" 不是 message"));
    assert!(send(&mut s, &lister, Taint::Green, b"").unwrap_err().ends_with(" 不是 sink"));
    let empty = s.grant_command(&lister, vec![], &host.entropy()).unwrap();
    assert_eq!(exec(&mut s, &mut host, &mut l, &empty).unwrap_err(), "CommandCap argv 为空");
    assert!(exec(&mut s, &mut host, &mut l, &lister).unwrap_err().ends_with(" 无 Exec"));
    assert_eq!(http_get(&mut s, &mut l, &lister, "/", [8, 8, 8, 8], b"").unwrap_err(), "cap 不是 HttpCap");
    let p = s.list(&lister, "").unwrap();
    let h = s.list_done(p, Ok(vec!["a".into(), "b".into()])).unwrap();
    assert_eq!(s.list_release(h).unwrap(), b"a\nb");
}

#[test]
fn a_subject_out_of_its_prefix_is_shown_quoted() {
    let mut host = Host::new();
    let mut l = ConsentLedger::new();
    let mut s = Session::new(&host.entropy());
    let owner = s.grant_message("m", &host.entropy(), &host.entropy());
    let facet = s.derive_msg_prefix(&owner, "a\"/", &host.entropy()).unwrap();
    let vault = grant_dir(&mut s, &mut host, "read", Taint::Project);
    assert_eq!(
        post_from(&mut s, &host, &mut l, &facet, "b\n", &vault, "main.txt").unwrap_err(),
        "衰减违规:subject \"b\\n\" 不在该 facet 的主题命名空间 \"a\\\"/\" 内"
    );
}

#[test]
fn bytes_that_are_not_text_are_forwarded_with_replacements() {
    let mut host = Host::new();
    host.files.insert("/ws/bin.dat".to_string(), vec![b'a', 0xff, b'b']);
    let mut l = ConsentLedger::new();
    let mut s = Session::new(&host.entropy());
    let owner = s.grant_message("m", &host.entropy(), &host.entropy());
    let vault = grant_dir(&mut s, &mut host, "read", Taint::Project);
    post_from(&mut s, &host, &mut l, &owner, "s", &vault, "bin.dat").unwrap();
    assert_eq!(
        mailbox_read(&mut s, &owner).unwrap(),
        vec![("s".to_string(), Taint::Project, "a\u{fffd}b".to_string())]
    );
}

#[test]
fn a_facet_of_a_facet_narrows_further() {
    let mut host = Host::new();
    let mut l = ConsentLedger::new();
    let mut s = Session::new(&host.entropy());
    let owner = s.grant_message("m", &host.entropy(), &host.entropy());
    let a = s.derive_msg_prefix(&owner, "x/", &host.entropy()).unwrap();
    let b = s.derive_msg_prefix(&a, "y/", &host.entropy()).unwrap();
    let vault = grant_dir(&mut s, &mut host, "read", Taint::Project);
    assert!(post_from(&mut s, &host, &mut l, &b, "x/y/1", &vault, "main.txt").is_ok());
    assert!(post_from(&mut s, &host, &mut l, &b, "x/1", &vault, "main.txt").is_err());
    assert!(post_from(&mut s, &host, &mut l, &a, "x/1", &vault, "main.txt").is_ok());
    s.revoke(&a).unwrap();
    assert!(post_from(&mut s, &host, &mut l, &b, "x/y/2", &vault, "main.txt").is_err());
    assert!(post(&mut s, &mut l, &owner, "x/y/3", "").is_ok());
}

#[test]
fn a_capability_derived_to_read_does_not_run() {
    let mut host = Host::new();
    let mut l = ConsentLedger::new();
    let mut s = Session::new(&host.entropy());
    let repo = grant_dir(&mut s, &mut host, "read,write,list,exec", Taint::Project);
    let ro = s.derive_readonly(&repo, &host.entropy()).unwrap();
    assert!(read(&mut s, &host, &ro, "main.txt").is_ok());
    assert!(exec(&mut s, &mut host, &mut l, &ro).is_err());
    assert_eq!(host.ran, 0);
}

#[test]
fn commands_run_as_granted() {
    let mut host = Host::new();
    let mut l = ConsentLedger::new();
    let mut s = Session::new(&host.entropy());
    let repo = grant_dir(&mut s, &mut host, "read", Taint::Project);
    let c = s.grant_command(&repo, vec!["cat".into(), "main.txt".into()], &host.entropy()).unwrap();
    let i = s.exec(&mut l, &c).unwrap();
    let p = s.exec_plan(i).unwrap_or_else(|e| panic!("{}", e));
    assert_eq!(p.argv(), &["cat".to_string(), "main.txt".to_string()][..]);
    assert_eq!(p.env(), &[("PATH".to_string(), "/usr/bin:/bin:/usr/local/bin".to_string())][..]);
    assert_eq!(s.exec_done(p, Ok(b"out".to_vec())).unwrap(), b"out");
    let i = s.exec(&mut l, &c).unwrap();
    let p = s.exec_plan(i).unwrap_or_else(|e| panic!("{}", e));
    assert_eq!(s.exec_done(p, Err("no".into())).unwrap_err(), "exec failed: no");
}

/// What the trail says last.
fn last(s: &Session) -> (String, String, String) {
    let e = s.audit_log().last().unwrap();
    (e.op.clone(), e.detail.clone(), e.decision.clone())
}

fn refusal(op: &str, detail: &str, e: &str) -> (String, String, String) {
    (op.to_string(), detail.to_string(), format!("deny:{}", e))
}

#[test]
fn every_refusal_is_on_the_trail() {
    let mut host = Host::new();
    let mut s = Session::new(&host.entropy());
    let repo = grant_dir(&mut s, &mut host, "read", Taint::Project);
    let sink = s.grant_sink("x", &host.entropy());
    let owner = s.grant_message("m", &host.entropy(), &host.entropy());
    let facet = s.derive_msg_prefix(&owner, "", &host.entropy()).unwrap();
    let n = s.audit_log().len();
    let e = s.grant_command("gone", vec!["a".into(), "b".into()], &host.entropy()).unwrap_err();
    assert_eq!(last(&s), refusal("grant_cmd", "gone [a b]", &e));
    let e = s.grant_command("gone", vec![], &host.entropy()).unwrap_err();
    assert_eq!(last(&s), refusal("grant_cmd", "gone []", &e));
    let e = s.grant_http("http", "a b", 80, vec![], vec![], 1, &host.entropy()).unwrap_err();
    assert_eq!(last(&s), refusal("grant_http", "a b", &e));
    let e = s.derive_readonly("gone", &host.entropy()).unwrap_err();
    assert_eq!(last(&s), refusal("derive_readonly", "gone", &e));
    let e = s.derive_msg_oneshot("gone", &host.entropy()).unwrap_err();
    assert_eq!(last(&s), refusal("derive_message", "gone", &e));
    let e = s.sub_plan("gone", "src").unwrap_err();
    assert_eq!(last(&s), refusal("derive_sub", "gone /src", &e));
    let short = format!("{}…", &repo[..14]);
    let e = s.derive_sub(&repo, "src", Err("no".into()), &host.entropy()).unwrap_err();
    assert_eq!(last(&s), refusal("derive_sub", &format!("{} /src", short), &e));
    let e = s.derive_sub(&repo, "../x", Ok(9), &host.entropy()).unwrap_err();
    assert_eq!(last(&s), refusal("derive_sub", &format!("{} /../x", short), &e));
    let e = mailbox_read(&mut s, &facet).unwrap_err();
    assert_eq!(last(&s), refusal("mailbox_read", &format!("{}…", &facet[..14]), &e));
    let e = mailbox_read(&mut s, &sink).unwrap_err();
    assert_eq!(last(&s), refusal("mailbox_read", &format!("{}…", &sink[..14]), &e));
    assert_eq!(s.audit_log().len(), n + 10);
    assert!(s.verify_audit());
}

#[test]
fn a_reference_that_cannot_be_cut_is_left_out_of_a_broken_trail() {
    let mut host = Host::new();
    let mut s = Session::with_sink(&host.entropy());
    s.grant_sink("x", &host.entropy());
    settle_all(&mut s, false);
    assert!(s.derive_readonly("aééééééé", &host.entropy()).is_err());
    assert_eq!(last(&s).1, "…");
}

#[test]
fn consent_without_a_ledger_is_refused_on_the_trail() {
    let mut host = Host::new();
    let mut l = ConsentLedger::new();
    let mut s = Session::new(&host.entropy());
    s.set_policy(PolicyEngine { prompt_exec: true, ..PolicyEngine::allow_all() });
    let repo = grant_dir(&mut s, &mut host, "read", Taint::Project);
    let c = s.grant_command(&repo, vec!["cat".into(), "main.txt".into()], &host.entropy()).unwrap();
    let n = s.audit_log().len();
    let e = exec(&mut s, &mut host, &mut l, &c).unwrap_err();
    assert!(e.contains("无 consent 账本"));
    assert_eq!(s.audit_log().len(), n + 1);
    assert_eq!((last(&s).0, last(&s).2), ("policy.consent".to_string(), format!("deny:{}", e)));
    assert_eq!(host.ran, 0);
    assert_eq!(s.consent_approve(&mut l, "consent-1").unwrap_err(), "无 consent 账本");
    assert_eq!(last(&s), ("consent.approve".to_string(), "consent-1".to_string(), "deny".to_string()));
}

#[test]
fn derivation_gains_nothing() {
    let mut host = Host::new();
    let mut l = ConsentLedger::new();
    let mut s = Session::new(&host.entropy());
    let runner = grant_dir(&mut s, &mut host, "exec", Taint::Project);
    let c = s.grant_command(&runner, vec!["cat".into(), "main.txt".into()], &host.entropy()).unwrap();
    for r in [&runner, &c] {
        let ro = s.derive_readonly(r, &host.entropy()).unwrap();
        assert!(read(&mut s, &host, &ro, "main.txt").unwrap_err().ends_with(" 无 Read"));
        assert!(s.list(&ro, "").err().unwrap().ends_with(" 无 List"));
        assert!(exec(&mut s, &mut host, &mut l, &ro).unwrap_err().ends_with(" 无 Exec"));
    }
    let lister = grant_dir(&mut s, &mut host, "write,list", Taint::Project);
    let ro = s.derive_readonly(&lister, &host.entropy()).unwrap();
    assert!(s.list(&ro, "").is_ok());
    assert!(read(&mut s, &host, &ro, "main.txt").is_err());
}

#[test]
fn a_facet_of_a_one_shot_facet_serves_once() {
    let mut host = Host::new();
    let mut l = ConsentLedger::new();
    let mut s = Session::new(&host.entropy());
    let owner = s.grant_message("m", &host.entropy(), &host.entropy());
    let once = s.derive_msg_oneshot(&owner, &host.entropy()).unwrap();
    let longer = s.derive_msg_prefix(&once, "x/", &host.entropy()).unwrap();
    let repo = grant_dir(&mut s, &mut host, "read", Taint::Project);
    assert!(post_from(&mut s, &host, &mut l, &longer, "x/1", &repo, "main.txt").is_ok());
    assert!(post_from(&mut s, &host, &mut l, &longer, "x/2", &repo, "main.txt").is_err());
    assert_eq!(mailbox_read(&mut s, &owner).unwrap().len(), 1);
}

#[test]
fn lowering_the_safeguards_leaves_what_does_not_reach_out() {
    let mut host = Host::new();
    let mut s = Session::new(&host.entropy());
    let repo = grant_dir(&mut s, &mut host, "read", Taint::Project);
    let sub = derive_sub(&mut s, &mut host, &repo, "src").unwrap();
    let gone = s.derive_readonly(&repo, &host.entropy()).unwrap();
    s.revoke(&gone).unwrap();
    let sink = s.grant_sink("x", &host.entropy());
    let c = s.grant_command(&repo, vec!["cat".into()], &host.entropy()).unwrap();
    let owner = s.grant_message("m", &host.entropy(), &host.entropy());
    let facet = s.derive_msg_prefix(&owner, "", &host.entropy()).unwrap();
    s.set_mitigation_reduced(true);
    assert_eq!(last(&s).0, "mitigation");
    for r in [&repo, &sub, &sink, &c] {
        assert!(s.is_active(r));
    }
    assert!(!s.is_active(&gone) && !s.is_active(&owner) && !s.is_active(&facet));
    s.set_mitigation_reduced(false);
    assert!(!s.is_active(&owner) && !s.is_active(&facet));
}

#[test]
fn only_a_guest_begins_with_its_workspace() {
    assert_eq!(Policy::guest("/ws").bootstrap_root(), Some("/ws"));
    assert_eq!(Policy::control().bootstrap_root(), None);
}
