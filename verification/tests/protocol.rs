use std::collections::BTreeMap;

use capable_broker::audit::{verify_persisted, AuditSink};
use capable_broker::base64::{b64_decode, b64_encode};
use capable_broker::frame::{read_frame, FrameError, Source};
use capable_broker::net::{HostAddr, Ip};
use capable_broker::policy::{ConsentLedger, PolicyEngine};
use capable_broker::proto::{begin, handle, refs_shown, resume, try_handle, Outcome, Step, Waiting};
use capable_broker::request::{parse_request, Request, US};
use capable_broker::sandbox::{system_dir, Sandbox, SandboxOp};
use capable_broker::{Policy, Role, SandboxPolicy, Session, Taint};

/// A host with files in memory that carries requests through.
struct Host {
    files: BTreeMap<String, Vec<u8>>,
    held: Vec<String>,
    seed: u8,
    durable: bool,
    /// The service's log and its anchor, where it keeps one.
    log: Option<(AuditSink, Vec<String>, String)>,
}

impl Host {
    fn new() -> Host {
        let mut files = BTreeMap::new();
        files.insert("/ws/main.txt".to_string(), b"hello-redteam\n".to_vec());
        files.insert("/ws/src/secret.txt".to_string(), b"API_KEY=sk-xyz".to_vec());
        files.insert("/etc/hostname".to_string(), b"box\n".to_vec());
        Host { files, held: Vec::new(), seed: 0, durable: true, log: None }
    }

    fn entropy(&mut self) -> [u8; 16] {
        self.seed += 1;
        [self.seed; 16]
    }

    fn open(&mut self, path: &str) -> Result<u64, String> {
        let below = format!("{}/", path);
        if self.files.keys().any(|k| k.starts_with(&below)) {
            self.held.push(path.to_string());
            Ok(self.held.len() as u64 - 1)
        } else {
            Err("No such file or directory (os error 2)".to_string())
        }
    }

    fn file(&self, fd: u64, rel: &str) -> Result<Vec<u8>, String> {
        let path = format!("{}/{}", self.held[fd as usize], rel);
        self.files.get(&path).cloned().ok_or(format!("openat2 拒绝 {}(errno=2,越界/不存在)", rel))
    }

    fn names(&self, fd: u64) -> Vec<String> {
        let below = format!("{}/", self.held[fd as usize]);
        let mut v: Vec<String> = self
            .files
            .keys()
            .filter_map(|k| k.strip_prefix(&below))
            .map(|k| k.split('/').next().unwrap().to_string())
            .collect();
        v.dedup();
        v
    }

    /// Takes the steps of the confinement; gives the directories that a child can
    /// reach after them, or nothing where it was not confined.
    fn confine(&self, fd: u64, policy: SandboxPolicy) -> Option<Vec<String>> {
        let mut sandbox = Sandbox::apply(fd as i32, policy);
        let mut dirs = Vec::new();
        let mut confined = false;
        while let Some(op) = sandbox.next_op() {
            let ret = match op {
                SandboxOp::OpenSystemDir(i) => 100 + i as i32,
                SandboxOp::CreateRuleset { .. } => 50,
                SandboxOp::AllowBelow { dir, .. } if dir >= 100 => {
                    dirs.push(system_dir(dir as usize - 100).trim_end_matches('\0').to_string());
                    0
                }
                SandboxOp::AllowBelow { dir, .. } => {
                    dirs.push(self.held[dir as usize].clone());
                    0
                }
                SandboxOp::Restrict(50) => {
                    confined = true;
                    0
                }
                _ => 0,
            };
            assert!(sandbox.advance(ret).is_ok());
        }
        if confined {
            Some(dirs)
        } else {
            None
        }
    }

    /// What a child that prints a file prints.
    fn cat(&self, fd: u64, path: &str, allowed: &Option<Vec<String>>) -> Vec<u8> {
        let path =
            if path.starts_with('/') { path.to_string() } else { format!("{}/{}", self.held[fd as usize], path) };
        let reached = match allowed {
            Some(dirs) => dirs.iter().any(|d| path.starts_with(&format!("{}/", d))),
            None => true,
        };
        if reached {
            self.files.get(&path).cloned().unwrap_or_default()
        } else {
            Vec::new()
        }
    }

    fn settle(&mut self, s: &mut Session) {
        while let Some(e) = s.next_unsettled() {
            if let Some((sink, lines, anchor)) = &mut self.log {
                let rec = sink.record(&s.key, &e.op, &e.detail, &e.decision);
                lines.push(rec.line().to_string());
                *anchor = rec.anchor().to_string();
                sink.commit(rec);
            }
            s.settle(self.durable);
        }
    }

    fn carry_out(&mut self, w: &Waiting) -> Outcome {
        match w {
            Waiting::OpenDir { root, .. } => Outcome::Opened(self.open(root)),
            Waiting::OpenSub { seg, fd, .. } => {
                let path = format!("{}/{}", self.held[*fd as usize], seg);
                Outcome::Opened(self.open(&path))
            }
            Waiting::Reading(p) => Outcome::Bytes(self.file(p.fd(), p.rel())),
            Waiting::Forwarding(p) => Outcome::Bytes(self.file(p.fd(), p.rel())),
            Waiting::Listing(p) => Outcome::Names(Ok(self.names(p.fd()))),
            Waiting::Running(p) => {
                let allowed = self.confine(p.fd(), p.policy());
                Outcome::Bytes(match p.argv()[0].as_str() {
                    "/bin/cat" => Ok(self.cat(p.fd(), &p.argv()[1], &allowed)),
                    _ => Ok((p.argv()[1..].join(" ") + "\n").into_bytes()),
                })
            }
            Waiting::Looking(p) => {
                let a = HostAddr { ip: Ip::V4([93, 184, 216, 34]), port: p.port(), shown: "93.184.216.34".into() };
                Outcome::Found(Ok(vec![a]))
            }
            Waiting::Fetching(_) => Outcome::Answered(Ok(b"HTTP/1.0 200 OK\r\n\r\nweb".to_vec())),
            _ => Outcome::Settled,
        }
    }

    fn call(&mut self, s: &mut Session, l: &mut ConsentLedger, pol: &Policy, body: &str) -> String {
        let e = self.entropy();
        let m = self.entropy();
        let mut step = handle(s, l, pol, body, &e, &m);
        loop {
            self.settle(s);
            match step {
                Step::Reply(r) => return r,
                Step::Wait(w) => {
                    let o = self.carry_out(&w);
                    step = resume(s, w, o, &e);
                }
            }
        }
    }
}

fn field(reply: &str, i: usize) -> String {
    reply.split('\t').nth(i).unwrap_or("").to_string()
}

fn payload(reply: &str) -> String {
    String::from_utf8_lossy(&b64_decode(&field(reply, 2))).into_owned()
}

#[test]
fn guest_cannot_mint_bootstrap_oneshot_control_can() {
    let mut host = Host::new();
    let mut l = ConsentLedger::new();
    let ws = "/ws";
    let mut sess = Session::new(&host.entropy());
    let opened = host.open(ws);
    sess.set_bootstrap(ws, opened, &host.entropy());
    let pol = Policy::guest(ws);
    let mut call = |s: &mut Session, p: &Policy, b: &str| host.call(s, &mut l, p, b);
    assert!(call(&mut sess, &pol, &format!("GRANT_DIR\t{}\tread\tproject", ws)).starts_with("ERR"));
    assert!(call(&mut sess, &pol, "GRANT_SINK\tx").starts_with("ERR"));
    assert!(call(&mut sess, &pol, "GRANT_HTTP\thttp\texample.com\t80\tGET\t/**\t4096").starts_with("ERR"));
    assert!(call(&mut sess, &pol, "GRANT_MSG\tagent:x").starts_with("ERR"), "guest 不得铸新 mailbox");
    let b = call(&mut sess, &pol, "BOOTSTRAP");
    assert!(b.starts_with("CAP"), "BOOTSTRAP 应返回预注入根: {}", b);
    assert!(call(&mut sess, &pol, "BOOTSTRAP").starts_with("ERR"), "BOOTSTRAP 必须一次性");
    let capref = field(&b, 1);
    assert!(call(&mut sess, &pol, &format!("GRANT_CMD\t{}\t/bin/sh", capref)).starts_with("ERR"));
    let mut csess = Session::new(&[200; 16]);
    let cpol = Policy::control();
    assert!(call(&mut csess, &cpol, &format!("GRANT_DIR\t{}\tread\tproject", ws)).starts_with("CAP"));
    let m = call(&mut csess, &cpol, "GRANT_MSG\tagent:newton");
    let owner = field(&m, 1);
    let body = b64_encode(b"green-msg");
    assert!(call(&mut csess, &cpol, &format!("INVOKE\t{}\tpost\thi\t{}", owner, body)).starts_with("OK"));
    let d = call(&mut csess, &cpol, &format!("DERIVE\t{}\tmsg_prefix\tbuild/", owner));
    let deleg = field(&d, 1);
    assert!(call(&mut csess, &cpol, &format!("INVOKE\t{}\tpost\tbuild/ok\t{}", deleg, body)).starts_with("ERR"));
    assert!(call(&mut csess, &cpol, &format!("INVOKE\t{}\tmailbox_read", deleg)).starts_with("ERR"));
    let inbox = call(&mut csess, &cpol, &format!("INVOKE\t{}\tmailbox_read", owner));
    assert!(inbox.starts_with("OK"), "owner 应能读收件箱: {}", inbox);
    assert_eq!(payload(&inbox), "green\thi\tgreen-msg");
}

#[test]
fn l5_consent_wire_flow_and_guest_cannot_self_approve() {
    let mut host = Host::new();
    let mut l = ConsentLedger::new();
    let root = "/ws";
    let mut g = Session::new(&host.entropy());
    g.set_policy(PolicyEngine { prompt_exec: true, ..PolicyEngine::allow_all() });
    g.set_consent();
    let cpol = Policy::control();
    let d = host.call(&mut g, &mut l, &cpol, &format!("GRANT_DIR\t{}\tread,list,exec\tproject", root));
    let dref = field(&d, 1);
    let c = host.call(&mut g, &mut l, &cpol, &format!("GRANT_CMD\t{}\t/bin/echo{}hi", dref, US));
    let cref = field(&c, 1);

    let r = host.call(&mut g, &mut l, &cpol, &format!("INVOKE\t{}\texec", cref));
    assert!(r.starts_with("CONSENT\t"), "应回 CONSENT 帧: {}", r);
    let id = field(&r, 1);

    let gpol = Policy::guest(root);
    assert!(
        host.call(&mut g, &mut l, &gpol, &format!("CONSENT_APPROVE\t{}", id)).starts_with("ERR"),
        "guest 不得自批"
    );
    assert!(
        host.call(&mut g, &mut l, &gpol, &format!("CONSENT_DESCRIBE\t{}", id)).starts_with("ERR"),
        "guest 不得读 consent 详情"
    );
    assert!(host.call(&mut g, &mut l, &gpol, "CONSENT_LIST").starts_with("ERR"), "guest 不得列 consent");

    let mut c = Session::new(&host.entropy());
    c.set_consent();
    assert!(host.call(&mut c, &mut l, &cpol, &format!("CONSENT_APPROVE\t{}", id)).starts_with("OK"));

    let r2 = host.call(&mut g, &mut l, &cpol, &format!("INVOKE\t{}\texec", cref));
    assert!(r2.starts_with("OK"), "批准后 exec 应成功: {}", r2);
    assert!(host.call(&mut g, &mut l, &cpol, &format!("INVOKE\t{}\texec", cref)).starts_with("CONSENT\t"));
}

#[test]
fn jit_consent_approve_and_deny_end_to_end() {
    let mut host = Host::new();
    let mut l = ConsentLedger::new();
    let cpol = Policy::control();
    let engine = PolicyEngine { prompt_exec: true, ..PolicyEngine::allow_all() };
    let mut worker = Session::with_sink(&host.entropy());
    worker.set_policy(engine);
    worker.set_consent();
    let mut approver = Session::with_sink(&host.entropy());
    approver.set_policy(engine);
    approver.set_consent();

    let dir = host.call(&mut worker, &mut l, &cpol, "GRANT_DIR\t/ws\tread,list,exec\tproject");
    let dref = field(&dir, 1);
    let cmd = host.call(&mut worker, &mut l, &cpol, &format!("GRANT_CMD\t{}\t/bin/echo{}hi", dref, US));
    let cref = field(&cmd, 1);

    let r = host.call(&mut worker, &mut l, &cpol, &format!("INVOKE\t{}\texec", cref));
    assert_eq!(field(&r, 0), "CONSENT", "exec 应触发 CONSENT: {}", r);
    let id = field(&r, 1);
    assert!(!id.is_empty(), "CONSENT 应带请求 id");
    assert!(!r.contains("PATH"), "requester CONSENT 帧不得含 env: {}", r);
    assert!(!r.contains("env="), "requester CONSENT 帧不得含 env 详情: {}", r);
    let desc = host.call(&mut approver, &mut l, &cpol, &format!("CONSENT_DESCRIBE\t{}", id));
    assert_eq!(field(&desc, 0), "OK", "control 面应能读详情: {}", desc);
    let detail = payload(&desc);
    assert!(detail.contains("PATH") && detail.contains("env="), "详情应含 env(供审批人核对): {}", detail);
    let list = host.call(&mut approver, &mut l, &cpol, "CONSENT_LIST");
    assert_eq!(field(&list, 0), "OK");
    assert_eq!(payload(&list), format!("{}\t{}\t{}", id, worker.key, detail));

    let r2 = host.call(&mut worker, &mut l, &cpol, &format!("INVOKE\t{}\texec", cref));
    assert_eq!(field(&r2, 0), "CONSENT");
    assert_eq!(field(&r2, 1), id, "重复请求应同一 id");

    let a = host.call(&mut approver, &mut l, &cpol, &format!("CONSENT_APPROVE\t{}", id));
    assert_eq!(field(&a, 0), "OK");

    let ok = host.call(&mut worker, &mut l, &cpol, &format!("INVOKE\t{}\texec", cref));
    assert_eq!(field(&ok, 0), "OK", "批准后 exec 应执行: {}", ok);
    assert_eq!((field(&ok, 1).as_str(), payload(&ok).as_str()), ("yellow", "hi\n"));

    let r3 = host.call(&mut worker, &mut l, &cpol, &format!("INVOKE\t{}\texec", cref));
    assert_eq!(field(&r3, 0), "CONSENT");
    let id3 = field(&r3, 1);
    assert_ne!(id3, id, "应是新的 consent 请求");

    let d = host.call(&mut approver, &mut l, &cpol, &format!("CONSENT_DENY\t{}", id3));
    assert_eq!(field(&d, 0), "OK");
    let denied = host.call(&mut worker, &mut l, &cpol, &format!("INVOKE\t{}\texec", cref));
    assert_eq!(field(&denied, 0), "ERR", "被拒后 exec 不得执行: {}", denied);
}

#[test]
fn redteam_guest_attacks_all_denied_and_audit_intact() {
    let mut host = Host::new();
    let mut l = ConsentLedger::new();
    let pol = Policy::guest("/ws");
    let sink = AuditSink::open("audit.log", None, false, None).unwrap_or_else(|e| panic!("{}", e));
    host.log = Some((sink, Vec::new(), String::new()));
    let mut s = Session::with_sink(&host.entropy());
    let opened = host.open("/ws");
    s.set_bootstrap("/ws", opened, &host.entropy());
    host.settle(&mut s);
    let repo = field(&host.call(&mut s, &mut l, &pol, "BOOTSTRAP"), 1);
    let ok = host.call(&mut s, &mut l, &pol, &format!("INVOKE\t{}\tread\tmain.txt", repo));
    assert_eq!(field(&ok, 0), "OK", "合法 read 应成功: {}", ok);

    let forged = "cap_00000000000000000000000000000000";
    let r = host.call(&mut s, &mut l, &pol, &format!("INVOKE\t{}\tread\tmain.txt", forged));
    assert_eq!(field(&r, 0), "ERR", "伪造 ref 必须被拒: {}", r);

    for mint in [
        "GRANT_DIR\t/etc\tread\tproject".to_string(),
        "GRANT_SINK\thttps://evil.example.com".to_string(),
        format!("GRANT_CMD\t{}\t/bin/sh{}-c{}id", repo, US, US),
        "GRANT_HTTP\thttp\texample.com\t80\tGET\t/**\t4096".to_string(),
    ] {
        let r = host.call(&mut s, &mut l, &pol, &mint);
        assert_eq!(field(&r, 0), "ERR", "guest mint 必须被拒: {}", mint);
    }
    let r = host.call(&mut s, &mut l, &pol, "BOOTSTRAP");
    assert_eq!(field(&r, 0), "ERR", "二次 BOOTSTRAP 必须被拒: {}", r);
    for bad in ["/etc/passwd", "../../etc/passwd", "../../../etc/shadow"] {
        let r = host.call(&mut s, &mut l, &pol, &format!("INVOKE\t{}\tread\t{}", repo, bad));
        assert_eq!(field(&r, 0), "ERR", "路径逃逸必须被拒 ({}): {}", bad, r);
    }
    let sub = field(&host.call(&mut s, &mut l, &pol, &format!("DERIVE\t{}\tsub\tsrc", repo)), 1);
    let still = host.call(&mut s, &mut l, &pol, &format!("INVOKE\t{}\tread\tsecret.txt", sub));
    assert_eq!(field(&still, 0), "OK");
    assert_eq!(field(&still, 1), "secret");
    let r = host.call(&mut s, &mut l, &pol, &format!("REVOKE\t{}", repo));
    assert_eq!(field(&r, 0), "OK");
    let r = host.call(&mut s, &mut l, &pol, &format!("INVOKE\t{}\tread\tsecret.txt", sub));
    assert_eq!(field(&r, 0), "ERR", "撤销父后派生子必须失效: {}", r);
    let mut s2 = Session::with_sink(&host.entropy());
    let opened = host.open("/ws");
    s2.set_bootstrap("/ws", opened, &host.entropy());
    host.settle(&mut s2);
    let r = host.call(&mut s2, &mut l, &pol, &format!("INVOKE\t{}\tread\tmain.txt", repo));
    assert_eq!(field(&r, 0), "ERR", "跨会话重放必须被拒: {}", r);
    let repo2 = field(&host.call(&mut s2, &mut l, &pol, "BOOTSTRAP"), 1);
    let ok = host.call(&mut s2, &mut l, &pol, &format!("INVOKE\t{}\tread\tmain.txt", repo2));
    assert_eq!(field(&ok, 0), "OK");
    let mut huge = (16u32 * 1024 * 1024).to_be_bytes().to_vec();
    huge.extend([0u8; 16]);
    assert!(matches!(read_frame(&mut Source::new(huge)), Err(FrameError::TooLarge(_))), "超大帧后连接应被关闭");
    assert!(s.verify_audit() && s2.verify_audit());
    let (_, lines, anchor) = host.log.take().unwrap();
    assert_eq!(lines.len(), s.audit_log().len() + s2.audit_log().len());
    assert!(lines.iter().all(|l| !l.contains('\n')));
    let text = lines.join("\n") + "\n";
    let read: Vec<Result<String, String>> = text.lines().map(|l| Ok(l.to_string())).collect();
    assert!(verify_persisted(&Some(read.clone()), &Some(anchor.clone())).unwrap(), "verify-audit 应通过");
    assert!(!verify_persisted(&Some(read[..read.len() - 1].to_vec()), &Some(anchor)).unwrap());
}

#[test]
fn redteam_control_plane_http_canonical_and_exec_sandbox() {
    let mut host = Host::new();
    let mut l = ConsentLedger::new();
    let pol = Policy::control();
    let mut s = Session::new(&host.entropy());
    let http = field(&host.call(&mut s, &mut l, &pol, "GRANT_HTTP\thttp\texample.com\t80\tGET\t/**\t4096"), 1);
    for bad in [
        "/v1/%2e%2e/admin",
        "/v1/%2f..%2fadmin",
        "/v1/%5c..%5cadmin",
        "//evil.example.com/",
        "/x\r\nHost: evil",
    ] {
        let r = host.call(&mut s, &mut l, &pol, &format!("INVOKE\t{}\thttp_get\t{}", http, bad));
        assert_eq!(field(&r, 0), "ERR", "恶意 http target 必须被拒 ({}): {}", bad.escape_default(), r);
    }
    let good = host.call(&mut s, &mut l, &pol, &format!("INVOKE\t{}\thttp_get", http));
    assert_eq!((field(&good, 1).as_str(), payload(&good).as_str()), ("external", "web"));
    let cwd = field(&host.call(&mut s, &mut l, &pol, "GRANT_DIR\t/ws\tread,list,exec\tproject"), 1);
    let inside =
        field(&host.call(&mut s, &mut l, &pol, &format!("GRANT_CMD\t{}\t/bin/cat{}main.txt", cwd, US)), 1);
    let r = host.call(&mut s, &mut l, &pol, &format!("INVOKE\t{}\texec", inside));
    assert_eq!(field(&r, 0), "OK", "cwd 内 exec 应成功: {}", r);
    assert!(payload(&r).contains("hello-redteam"), "cwd 内 cat 应读到内容: {:?}", payload(&r));
    let outside =
        field(&host.call(&mut s, &mut l, &pol, &format!("GRANT_CMD\t{}\t/bin/cat{}/etc/hostname", cwd, US)), 1);
    assert!(!host.cat(0, "/etc/hostname", &None).is_empty(), "a child that is not confined reads it");
    let r = host.call(&mut s, &mut l, &pol, &format!("INVOKE\t{}\texec", outside));
    assert_eq!(field(&r, 0), "OK");
    assert!(payload(&r).is_empty(), "cwd 外 cat 应被 Landlock 拒(stdout 空),得到: {:?}", payload(&r));
}

#[test]
fn replies_have_their_form() {
    let mut host = Host::new();
    let mut l = ConsentLedger::new();
    let pol = Policy::control();
    let mut s = Session::new(&[0xaa; 4]);
    let repo = field(&host.call(&mut s, &mut l, &pol, "GRANT_DIR\t/ws\tread,list"), 1);
    let r = host.call(&mut s, &mut l, &pol, &format!("INVOKE\t{}\tlist", repo));
    assert_eq!(r, format!("OK\tproject\t{}", b64_encode(b"main.txt\nsrc")));
    let r = host.call(&mut s, &mut l, &pol, &format!("DESCRIBE\t{}", repo));
    assert_eq!(r, format!("OK\t\t<{}… dir root=/ws taint=project>", &repo[..14]));
    let sink = field(&host.call(&mut s, &mut l, &pol, "GRANT_SINK\tx"), 1);
    assert_eq!(host.call(&mut s, &mut l, &pol, &format!("INVOKE\t{}\tsend\tyellow\tYQ==", sink)), "OK\t\t");
    let r = host.call(&mut s, &mut l, &pol, &format!("INVOKE\t{}\tsend\tsecret\tYQ==", sink));
    assert!(r.starts_with("ERR\tIFC violation: secret 污点数据不能流入外发 sink "));
    let dump = payload(&host.call(&mut s, &mut l, &pol, "AUDIT"));
    let first = dump.lines().next().unwrap();
    let hash = &s.audit_log()[0].hash[..12];
    assert_eq!(first, format!("#0   grant_dir      [allow] {}… root=/ws taint=project  {}", &repo[..14], hash));
    assert!(dump.ends_with("in_process_chain_verify: ok(仅进程内完整性;持久化+锚点见 --audit-log)\n"));
}

#[test]
fn malformed_requests_say_what_is_missing() {
    let mut host = Host::new();
    let mut l = ConsentLedger::new();
    let pol = Policy::control();
    let mut s = Session::new(&host.entropy());
    for (body, reply) in [
        ("", "ERR\t未知 verb "),
        ("NOPE\tx", "ERR\t未知 verb NOPE"),
        ("GRANT_DIR", "ERR\tGRANT_DIR 缺 root"),
        ("GRANT_SINK", "ERR\tGRANT_SINK 缺 name"),
        ("GRANT_MSG", "ERR\tGRANT_MSG 缺 recipient"),
        ("GRANT_CMD", "ERR\tGRANT_CMD 缺 cwd_ref"),
        ("GRANT_HTTP", "ERR\tGRANT_HTTP 缺 scheme"),
        ("GRANT_HTTP\thttp", "ERR\tGRANT_HTTP 缺 host"),
        ("GRANT_HTTP\thttp\th", "ERR\tGRANT_HTTP 缺/坏 port"),
        ("GRANT_HTTP\thttp\th\t65536", "ERR\tGRANT_HTTP 缺/坏 port"),
        ("DERIVE", "ERR\tDERIVE 缺 ref"),
        ("DERIVE\tr", "ERR\tDERIVE 缺 how"),
        ("DERIVE\tr\tsub", "ERR\tsub 缺 seg"),
        ("DERIVE\tr\tmsg_prefix", "ERR\tmsg_prefix 缺 前缀"),
        ("DERIVE\tr\tup", "ERR\t未知 DERIVE up"),
        ("INVOKE", "ERR\tINVOKE 缺 ref"),
        ("INVOKE\tr", "ERR\tINVOKE 缺 verb"),
        ("INVOKE\tr\tpost", "ERR\tpost 缺 subject"),
        ("INVOKE\tr\tpost_from", "ERR\tpost_from 缺 subject"),
        ("INVOKE\tr\tpost_from\ts", "ERR\tpost_from 缺 src_ref"),
        ("INVOKE\tr\tfly", "ERR\t未知 INVOKE verb fly"),
        ("REVOKE", "ERR\tREVOKE 缺 ref"),
        ("DESCRIBE", "ERR\t缺 ref"),
        ("CONSENT_APPROVE", "ERR\tCONSENT_APPROVE 缺 id"),
        ("CONSENT_DENY", "ERR\tCONSENT_DENY 缺 id"),
        ("CONSENT_DESCRIBE", "ERR\tCONSENT_DESCRIBE 缺 id"),
        ("CONSENT_APPROVE\tx", "ERR\t无 consent 账本"),
        ("CONSENT_LIST", "OK\t\t"),
    ] {
        assert_eq!(host.call(&mut s, &mut l, &pol, body), reply, "{:?}", body);
    }
}

#[test]
fn requests_are_read_with_their_defaults() {
    match parse_request(Role::Control, "GRANT_HTTP\thttp\th\t+80\t get , héad ") {
        Ok(Request::GrantHttp { port, methods, paths, max_bytes, .. }) => {
            assert_eq!((port, max_bytes), (80, 1_048_576));
            assert_eq!(methods, vec!["GET", "HÉAD"]);
            assert_eq!(paths, vec!["/**"]);
        }
        _ => panic!("should be a grant"),
    }
    let body = format!("GRANT_CMD\tc\t{}a{}{}b", US, US, US);
    match parse_request(Role::Control, &body) {
        Ok(Request::GrantCmd { argv, .. }) => assert_eq!(argv, vec!["a", "b"]),
        _ => panic!("should be a grant"),
    }
    match parse_request(Role::Control, "GRANT_DIR\t/ws") {
        Ok(Request::GrantDir { ops, taint, .. }) => {
            assert_eq!(ops.len(), 1);
            assert_eq!(taint, Taint::Project);
        }
        _ => panic!("should be a grant"),
    }
    match parse_request(Role::Guest, "INVOKE\tr\tpost\ts\t/w==") {
        Ok(Request::Post { body, .. }) => assert_eq!(body, "\u{fffd}"),
        _ => panic!("should be a post"),
    }
}

#[test]
fn references_that_cannot_be_shown_are_told_apart() {
    let mut s = Session::new(&[1]);
    let mut l = ConsentLedger::new();
    let good = Request::Read { r: "ééééééé".to_string(), rel: String::new() };
    assert!(refs_shown(&s, &good));
    let bad = Request::Read { r: "aééééééé".to_string(), rel: String::new() };
    assert!(!refs_shown(&s, &bad));
    match begin(&mut s, &mut l, good, &[1], &[1]) {
        Step::Reply(r) => assert_eq!(r, "ERR\tcap ééééééé 无效/已撤销(ENOTCAPABLE)"),
        Step::Wait(_) => panic!("should be refused"),
    }
}

#[test]
fn a_trail_that_is_not_durable_withholds_data() {
    let mut host = Host::new();
    let mut l = ConsentLedger::new();
    let pol = Policy::control();
    let mut s = Session::with_sink(&host.entropy());
    let repo = field(&host.call(&mut s, &mut l, &pol, "GRANT_DIR\t/ws\tread"), 1);
    host.durable = false;
    let r = host.call(&mut s, &mut l, &pol, &format!("INVOKE\t{}\tread\tmain.txt", repo));
    assert_eq!(r, "ERR\tread 结果未能持久审计,fail-closed 拒绝返回");
    let r = host.call(&mut s, &mut l, &pol, &format!("INVOKE\t{}\tread\tmain.txt", repo));
    assert_eq!(r, "ERR\t审计 sink 写失败,fail-closed 拒绝后续敏感操作");
}

#[test]
fn a_request_that_cannot_be_handled_does_nothing() {
    let mut s = Session::new(&[1]);
    let mut l = ConsentLedger::new();
    let pol = Policy::control();
    let before = s.audit_log().len();
    assert!(try_handle(&mut s, &mut l, &pol, "INVOKE\taééééééé\tread", &[1], &[2]).is_none());
    assert_eq!(s.audit_log().len(), before);
    match try_handle(&mut s, &mut l, &pol, "INVOKE\tno-such\tread", &[1], &[2]) {
        Some(Step::Reply(r)) => assert_eq!(r, "ERR\tcap no-such 无效/已撤销(ENOTCAPABLE)"),
        _ => panic!("should be refused"),
    }
}

#[test]
fn a_guest_names_no_taint() {
    assert_eq!(Policy::control().grant_taint(Taint::Secret), Taint::Secret);
    assert_eq!(Policy::control().grant_taint(Taint::External), Taint::External);
    assert_eq!(Policy::guest("/ws").grant_taint(Taint::Secret), Taint::Project);
    assert_eq!(Policy::guest("/ws").grant_taint(Taint::Green), Taint::Project);
}

#[test]
fn a_posted_text_survives_the_wire() {
    for t in ["", "hi", "héllo\t世界\n"] {
        let body = format!("INVOKE\tcap_x\tpost\ts\t{}", b64_encode(t.as_bytes()));
        match parse_request(Role::Guest, &body) {
            Ok(Request::Post { r, subject, body }) => {
                assert_eq!((r.as_str(), subject.as_str(), body.as_str()), ("cap_x", "s", t));
            }
            _ => panic!("should be a post"),
        }
    }
}

#[test]
fn every_reply_begins_with_its_mark() {
    let mut host = Host::new();
    let mut l = ConsentLedger::new();
    let pol = Policy::control();
    let mut s = Session::new(&host.entropy());
    s.set_policy(PolicyEngine { prompt_exec: true, ..PolicyEngine::allow_all() });
    s.set_consent();
    let dir = field(&host.call(&mut s, &mut l, &pol, "GRANT_DIR\t/ws\tread,list"), 1);
    let cmd = field(&host.call(&mut s, &mut l, &pol, &format!("GRANT_CMD\t{}\techo", dir)), 1);
    for (body, mark) in [
        ("GRANT_SINK\tx".to_string(), "CAP\t"),
        ("".to_string(), "ERR\t"),
        ("AUDIT".to_string(), "OK\t"),
        (format!("DESCRIBE\t{}", dir), "OK\t"),
        (format!("INVOKE\t{}\tlist", dir), "OK\t"),
        (format!("INVOKE\t{}\texec", cmd), "CONSENT\t"),
        ("REVOKE\tgone".to_string(), "ERR\t"),
    ] {
        let r = host.call(&mut s, &mut l, &pol, &body);
        assert!(r.starts_with(mark), "{} -> {}", body, r);
    }
}
