//! Requests on the wire: fields between tabs, the first of which names what is
//! asked.

use crate::base64;
use crate::base64::b64_decode;
use crate::label;
use crate::label::{parse_ops, Op, Taint};
use crate::role::Role;
use crate::text;
use crate::text::{lossy_string, parse_number, split, str_eq, trim, upper_string};
use vstd::prelude::*;
use vstd::utf8::*;

verus! {

/// What stands between the arguments of a command and between path patterns.
pub const US: char = '\u{1f}';

/// A request.
pub enum Request {
    Bootstrap,
    GrantDir { root: String, ops: Vec<Op>, taint: Taint },
    GrantSink { name: String },
    GrantHttp {
        scheme: String,
        host: String,
        port: u16,
        methods: Vec<String>,
        paths: Vec<String>,
        max_bytes: usize,
    },
    GrantMsg { recipient: String },
    GrantCmd { cwd: String, argv: Vec<String> },
    DeriveSub { r: String, seg: String },
    DeriveReadonly { r: String },
    DeriveMsgPrefix { r: String, prefix: String },
    DeriveMsgOneshot { r: String },
    Read { r: String, rel: String },
    List { r: String, rel: String },
    Exec { r: String },
    HttpGet { r: String, path: String },
    Send { r: String, taint: Taint, data: Vec<u8> },
    Post { r: String, subject: String, body: String },
    PostFrom { r: String, subject: String, src: String, rel: String },
    MailboxRead { r: String },
    Revoke { r: String },
    ConsentApprove { id: String },
    ConsentDeny { id: String },
    ConsentDescribe { id: String },
    ConsentList,
    Describe { r: String },
    Audit,
}

/// A request, as contracts speak of it.
#[verifier::ext_equal]
pub enum RequestV {
    Bootstrap,
    GrantDir { root: Seq<char>, ops: Seq<Op>, taint: Taint },
    GrantSink { name: Seq<char> },
    GrantHttp {
        scheme: Seq<char>,
        host: Seq<char>,
        port: u16,
        methods: Seq<Seq<char>>,
        paths: Seq<Seq<char>>,
        max_bytes: usize,
    },
    GrantMsg { recipient: Seq<char> },
    GrantCmd { cwd: Seq<char>, argv: Seq<Seq<char>> },
    DeriveSub { r: Seq<char>, seg: Seq<char> },
    DeriveReadonly { r: Seq<char> },
    DeriveMsgPrefix { r: Seq<char>, prefix: Seq<char> },
    DeriveMsgOneshot { r: Seq<char> },
    Read { r: Seq<char>, rel: Seq<char> },
    List { r: Seq<char>, rel: Seq<char> },
    Exec { r: Seq<char> },
    HttpGet { r: Seq<char>, path: Seq<char> },
    Send { r: Seq<char>, taint: Taint, data: Seq<u8> },
    Post { r: Seq<char>, subject: Seq<char>, body: Seq<char> },
    PostFrom { r: Seq<char>, subject: Seq<char>, src: Seq<char>, rel: Seq<char> },
    MailboxRead { r: Seq<char> },
    Revoke { r: Seq<char> },
    ConsentApprove { id: Seq<char> },
    ConsentDeny { id: Seq<char> },
    ConsentDescribe { id: Seq<char> },
    ConsentList,
    Describe { r: Seq<char> },
    Audit,
}

impl View for Request {
    type V = RequestV;

    open spec fn view(&self) -> RequestV {
        match *self {
            Request::Bootstrap => RequestV::Bootstrap,
            Request::GrantDir { root, ops, taint } => RequestV::GrantDir { root: root@, ops: ops@, taint },
            Request::GrantSink { name } => RequestV::GrantSink { name: name@ },
            Request::GrantHttp { scheme, host, port, methods, paths, max_bytes } => RequestV::GrantHttp {
                scheme: scheme@,
                host: host@,
                port,
                methods: text::views(methods@),
                paths: text::views(paths@),
                max_bytes,
            },
            Request::GrantMsg { recipient } => RequestV::GrantMsg { recipient: recipient@ },
            Request::GrantCmd { cwd, argv } => RequestV::GrantCmd { cwd: cwd@, argv: text::views(argv@) },
            Request::DeriveSub { r, seg } => RequestV::DeriveSub { r: r@, seg: seg@ },
            Request::DeriveReadonly { r } => RequestV::DeriveReadonly { r: r@ },
            Request::DeriveMsgPrefix { r, prefix } => RequestV::DeriveMsgPrefix { r: r@, prefix: prefix@ },
            Request::DeriveMsgOneshot { r } => RequestV::DeriveMsgOneshot { r: r@ },
            Request::Read { r, rel } => RequestV::Read { r: r@, rel: rel@ },
            Request::List { r, rel } => RequestV::List { r: r@, rel: rel@ },
            Request::Exec { r } => RequestV::Exec { r: r@ },
            Request::HttpGet { r, path } => RequestV::HttpGet { r: r@, path: path@ },
            Request::Send { r, taint, data } => RequestV::Send { r: r@, taint, data: data@ },
            Request::Post { r, subject, body } => RequestV::Post { r: r@, subject: subject@, body: body@ },
            Request::PostFrom { r, subject, src, rel } => RequestV::PostFrom {
                r: r@,
                subject: subject@,
                src: src@,
                rel: rel@,
            },
            Request::MailboxRead { r } => RequestV::MailboxRead { r: r@ },
            Request::Revoke { r } => RequestV::Revoke { r: r@ },
            Request::ConsentApprove { id } => RequestV::ConsentApprove { id: id@ },
            Request::ConsentDeny { id } => RequestV::ConsentDeny { id: id@ },
            Request::ConsentDescribe { id } => RequestV::ConsentDescribe { id: id@ },
            Request::ConsentList => RequestV::ConsentList,
            Request::Describe { r } => RequestV::Describe { r: r@ },
            Request::Audit => RequestV::Audit,
        }
    }
}

/// The field at `i`, or what stands for it where there is none.
pub open spec fn field_or(f: Seq<Seq<char>>, i: int, default: Seq<char>) -> Seq<char> {
    if i < f.len() {
        f[i]
    } else {
        default
    }
}

/// What a guest that asks to mint is told.
pub open spec fn no_mint(verb: Seq<char>) -> Seq<char> {
    verb + ":guest 不能铸造能力。用 BOOTSTRAP 取预注入根 + DERIVE;mint 仅 control 面。"@
}

/// The methods that a list names: trimmed and in upper case.
pub open spec fn methods_of(s: Seq<char>) -> Seq<Seq<char>> {
    text::split_on(s, ',').map_values(|m: Seq<char>| text::upper(text::trimmed(m)))
}

/// The arguments that a field holds, empty ones left out.
pub open spec fn argv_of(s: Seq<char>) -> Seq<Seq<char>> {
    text::split_on(s, US).filter(|a: Seq<char>| a.len() > 0)
}

/// The size that a field names, or a mebibyte.
pub open spec fn size_of(f: Seq<Seq<char>>, i: int) -> usize {
    if i < f.len() && text::parse_dec(f[i], usize::MAX as nat) is Some {
        text::parse_dec(f[i], usize::MAX as nat)->0 as usize
    } else {
        1_048_576
    }
}

/// What a request to grant a network capability asks, or what is missing.
pub open spec fn http_request(f: Seq<Seq<char>>) -> Result<RequestV, Seq<char>> {
    if f.len() < 2 {
        Err("GRANT_HTTP 缺 scheme"@)
    } else if f.len() < 3 {
        Err("GRANT_HTTP 缺 host"@)
    } else if f.len() < 4 || text::parse_dec(f[3], 65535) is None {
        Err("GRANT_HTTP 缺/坏 port"@)
    } else {
        Ok(
            RequestV::GrantHttp {
                scheme: f[1],
                host: f[2],
                port: text::parse_dec(f[3], 65535)->0 as u16,
                methods: methods_of(field_or(f, 4, "GET"@)),
                paths: text::split_on(field_or(f, 5, "/**"@), US),
                max_bytes: size_of(f, 6),
            },
        )
    }
}

/// What a request to derive asks, or what is missing.
pub open spec fn derive_request(f: Seq<Seq<char>>) -> Result<RequestV, Seq<char>> {
    if f.len() < 2 {
        Err("DERIVE 缺 ref"@)
    } else if f.len() < 3 {
        Err("DERIVE 缺 how"@)
    } else if f[2] == "sub"@ {
        if f.len() < 4 {
            Err("sub 缺 seg"@)
        } else {
            Ok(RequestV::DeriveSub { r: f[1], seg: f[3] })
        }
    } else if f[2] == "readonly"@ {
        Ok(RequestV::DeriveReadonly { r: f[1] })
    } else if f[2] == "msg_prefix"@ {
        if f.len() < 4 {
            Err("msg_prefix 缺 前缀"@)
        } else {
            Ok(RequestV::DeriveMsgPrefix { r: f[1], prefix: f[3] })
        }
    } else if f[2] == "msg_oneshot"@ {
        Ok(RequestV::DeriveMsgOneshot { r: f[1] })
    } else {
        Err("未知 DERIVE "@ + f[2])
    }
}

/// What a request to use a capability asks, or what is missing. The taint of
/// what is posted is no part of it: the requester has no say in that.
pub open spec fn invoke_request(f: Seq<Seq<char>>) -> Result<RequestV, Seq<char>> {
    if f.len() < 2 {
        Err("INVOKE 缺 ref"@)
    } else if f.len() < 3 {
        Err("INVOKE 缺 verb"@)
    } else if f[2] == "read"@ {
        Ok(RequestV::Read { r: f[1], rel: field_or(f, 3, ""@) })
    } else if f[2] == "list"@ {
        Ok(RequestV::List { r: f[1], rel: field_or(f, 3, ""@) })
    } else if f[2] == "exec"@ {
        Ok(RequestV::Exec { r: f[1] })
    } else if f[2] == "http_get"@ {
        Ok(RequestV::HttpGet { r: f[1], path: field_or(f, 3, "/"@) })
    } else if f[2] == "send"@ {
        Ok(
            RequestV::Send {
                r: f[1],
                taint: label::taint_of(field_or(f, 3, "green"@)),
                data: base64::decoded(base64::unpadded(field_or(f, 4, ""@))),
            },
        )
    } else if f[2] == "post"@ {
        if f.len() < 4 {
            Err("post 缺 subject"@)
        } else {
            Ok(
                RequestV::Post {
                    r: f[1],
                    subject: f[3],
                    body: text::lossy(base64::decoded(base64::unpadded(field_or(f, 4, ""@)))),
                },
            )
        }
    } else if f[2] == "post_from"@ {
        if f.len() < 4 {
            Err("post_from 缺 subject"@)
        } else if f.len() < 5 {
            Err("post_from 缺 src_ref"@)
        } else {
            Ok(RequestV::PostFrom { r: f[1], subject: f[3], src: f[4], rel: field_or(f, 5, ""@) })
        }
    } else if f[2] == "mailbox_read"@ {
        Ok(RequestV::MailboxRead { r: f[1] })
    } else {
        Err("未知 INVOKE verb "@ + f[2])
    }
}

/// What a request to mint asks, or why not: a guest mints nothing.
pub open spec fn mint_request(role: Role, f: Seq<Seq<char>>) -> Result<RequestV, Seq<char>> {
    if role == Role::Guest {
        Err(no_mint(f[0]))
    } else if f[0] == "GRANT_DIR"@ {
        if f.len() < 2 {
            Err("GRANT_DIR 缺 root"@)
        } else {
            Ok(
                RequestV::GrantDir {
                    root: f[1],
                    ops: label::ops_of(text::split_on(field_or(f, 2, "read"@), ',')),
                    taint: label::taint_of(field_or(f, 3, "project"@)),
                },
            )
        }
    } else if f[0] == "GRANT_SINK"@ {
        if f.len() < 2 {
            Err("GRANT_SINK 缺 name"@)
        } else {
            Ok(RequestV::GrantSink { name: f[1] })
        }
    } else if f[0] == "GRANT_HTTP"@ {
        http_request(f)
    } else if f[0] == "GRANT_MSG"@ {
        if f.len() < 2 {
            Err("GRANT_MSG 缺 recipient"@)
        } else {
            Ok(RequestV::GrantMsg { recipient: f[1] })
        }
    } else {
        if f.len() < 2 {
            Err("GRANT_CMD 缺 cwd_ref"@)
        } else {
            Ok(RequestV::GrantCmd { cwd: f[1], argv: argv_of(field_or(f, 2, ""@)) })
        }
    }
}

/// Whether a request is one to mint.
pub open spec fn is_mint(verb: Seq<char>) -> bool {
    verb == "GRANT_DIR"@ || verb == "GRANT_SINK"@ || verb == "GRANT_HTTP"@ || verb == "GRANT_MSG"@ || verb
        == "GRANT_CMD"@
}

/// What a request about consent asks, or why not: a guest has no say in it.
pub open spec fn consent_request(role: Role, f: Seq<Seq<char>>) -> Result<RequestV, Seq<char>> {
    if f[0] == "CONSENT_APPROVE"@ {
        if role == Role::Guest {
            Err("consent 审批仅 control 面"@)
        } else if f.len() < 2 {
            Err("CONSENT_APPROVE 缺 id"@)
        } else {
            Ok(RequestV::ConsentApprove { id: f[1] })
        }
    } else if f[0] == "CONSENT_DENY"@ {
        if role == Role::Guest {
            Err("consent 审批仅 control 面"@)
        } else if f.len() < 2 {
            Err("CONSENT_DENY 缺 id"@)
        } else {
            Ok(RequestV::ConsentDeny { id: f[1] })
        }
    } else if f[0] == "CONSENT_DESCRIBE"@ {
        if role == Role::Guest {
            Err("consent 详情仅 control 面(含敏感 env)"@)
        } else if f.len() < 2 {
            Err("CONSENT_DESCRIBE 缺 id"@)
        } else {
            Ok(RequestV::ConsentDescribe { id: f[1] })
        }
    } else {
        if role == Role::Guest {
            Err("consent 列表仅 control 面"@)
        } else {
            Ok(RequestV::ConsentList)
        }
    }
}

/// Whether a request is about consent.
pub open spec fn is_consent(verb: Seq<char>) -> bool {
    verb == "CONSENT_APPROVE"@ || verb == "CONSENT_DENY"@ || verb == "CONSENT_DESCRIBE"@ || verb
        == "CONSENT_LIST"@
}

/// What the fields of a request ask in a role, or why that is not granted.
pub open spec fn parsed(role: Role, f: Seq<Seq<char>>) -> Result<RequestV, Seq<char>> {
    let verb = f[0];
    if verb == "BOOTSTRAP"@ {
        Ok(RequestV::Bootstrap)
    } else if is_mint(verb) {
        mint_request(role, f)
    } else if verb == "DERIVE"@ {
        derive_request(f)
    } else if verb == "INVOKE"@ {
        invoke_request(f)
    } else if verb == "REVOKE"@ {
        if f.len() < 2 {
            Err("REVOKE 缺 ref"@)
        } else {
            Ok(RequestV::Revoke { r: f[1] })
        }
    } else if is_consent(verb) {
        consent_request(role, f)
    } else if verb == "DESCRIBE"@ {
        if f.len() < 2 {
            Err("缺 ref"@)
        } else {
            Ok(RequestV::Describe { r: f[1] })
        }
    } else if verb == "AUDIT"@ {
        Ok(RequestV::Audit)
    } else {
        Err("未知 verb "@ + verb)
    }
}

/// A request or an error, as contracts speak of it.
pub open spec fn request_view(r: Result<Request, String>) -> Result<RequestV, Seq<char>> {
    match r {
        Ok(q) => Ok(q@),
        Err(e) => Err(e@),
    }
}

/// The field at `i`, or what stands for it.
fn field(f: &[String], i: usize, default: &str) -> (r: String)
    ensures
        r@ == field_or(text::views(f@), i as int, default@),
{
    if i < f.len() {
        assert(text::views(f@)[i as int] == f@[i as int]@);
        f[i].clone()
    } else {
        default.to_string()
    }
}

/// An error with this text.
fn fail(e: &str) -> (r: Result<Request, String>)
    ensures
        request_view(r) == Err::<RequestV, Seq<char>>(e@),
{
    Err(e.to_string())
}

/// The methods that a list names.
fn read_methods(s: &str) -> (r: Vec<String>)
    ensures
        text::views(r@) == methods_of(s@),
{
    let parts = split(s, ',');
    let ghost all = methods_of(s@);
    let mut out: Vec<String> = Vec::new();
    let mut i: usize = 0;
    while i < parts.len()
        invariant
            i <= parts@.len(),
            all == methods_of(s@),
            text::views(parts@) == text::split_on(s@, ','),
            text::views(out@) == all.take(i as int),
        decreases parts@.len() - i,
    {
        let ghost had = text::views(out@);
        assert(text::views(parts@)[i as int] == parts@[i as int]@);
        out.push(upper_string(trim(parts[i].as_str()).as_str()));
        assert(text::views(out@) =~= had.push(all[i as int]));
        assert(all.take(i + 1) =~= all.take(i as int).push(all[i as int]));
        i += 1;
    }
    assert(all.take(all.len() as int) =~= all);
    out
}

/// The arguments that a field holds.
fn read_argv(s: &str) -> (r: Vec<String>)
    ensures
        text::views(r@) == argv_of(s@),
{
    let parts = split(s, US);
    let ghost all = text::views(parts@);
    let ghost keep = |a: Seq<char>| a.len() > 0;
    let mut out: Vec<String> = Vec::new();
    let mut i: usize = 0;
    reveal(Seq::filter);
    assert(all.take(0) =~= Seq::empty());
    assert(text::views(out@) =~= all.take(0).filter(keep));
    while i < parts.len()
        invariant
            i <= parts@.len(),
            all == text::views(parts@),
            keep == (|a: Seq<char>| a.len() > 0),
            text::views(out@) == all.take(i as int).filter(keep),
        decreases parts@.len() - i,
    {
        reveal(Seq::filter);
        let ghost had = text::views(out@);
        assert(all.take(i + 1).drop_last() =~= all.take(i as int));
        assert(all.take(i + 1).last() == parts@[i as int]@);
        if parts[i].as_str().unicode_len() > 0 {
            out.push(parts[i].clone());
            assert(text::views(out@) =~= had.push(all[i as int]));
        }
        i += 1;
    }
    assert(all.take(parts@.len() as int) =~= all);
    out
}

/// The size that a field names.
fn read_size(f: &[String], i: usize) -> (r: usize)
    ensures
        r == size_of(text::views(f@), i as int),
{
    if i < f.len() {
        assert(text::views(f@)[i as int] == f@[i as int]@);
        match parse_number(f[i].as_str(), usize::MAX as u64) {
            Some(n) => {
                return n as usize;
            },
            None => {},
        }
    }
    1_048_576
}

fn parse_http(f: &[String]) -> (r: Result<Request, String>)
    requires
        f@.len() > 0,
    ensures
        request_view(r) == http_request(text::views(f@)),
{
    let ghost v = text::views(f@);
    if f.len() < 2 {
        return fail("GRANT_HTTP 缺 scheme");
    }
    if f.len() < 3 {
        return fail("GRANT_HTTP 缺 host");
    }
    if f.len() < 4 {
        return fail("GRANT_HTTP 缺/坏 port");
    }
    assert(v[1] == f@[1]@ && v[2] == f@[2]@ && v[3] == f@[3]@);
    let port: u16 = match parse_number(f[3].as_str(), 65535) {
        None => {
            return fail("GRANT_HTTP 缺/坏 port");
        },
        Some(n) => n as u16,
    };
    Ok(
        Request::GrantHttp {
            scheme: f[1].clone(),
            host: f[2].clone(),
            port,
            methods: read_methods(field(f, 4, "GET").as_str()),
            paths: split(field(f, 5, "/**").as_str(), US),
            max_bytes: read_size(f, 6),
        },
    )
}

fn parse_derive(f: &[String]) -> (r: Result<Request, String>)
    requires
        f@.len() > 0,
    ensures
        request_view(r) == derive_request(text::views(f@)),
{
    let ghost v = text::views(f@);
    if f.len() < 2 {
        return fail("DERIVE 缺 ref");
    }
    if f.len() < 3 {
        return fail("DERIVE 缺 how");
    }
    assert(v[1] == f@[1]@ && v[2] == f@[2]@);
    assert(f@.len() > 3 ==> v[3] == f@[3]@);
    let how = f[2].as_str();
    let r = f[1].clone();
    if str_eq(how, "sub") {
        if f.len() < 4 {
            return fail("sub 缺 seg");
        }
        Ok(Request::DeriveSub { r, seg: f[3].clone() })
    } else if str_eq(how, "readonly") {
        Ok(Request::DeriveReadonly { r })
    } else if str_eq(how, "msg_prefix") {
        if f.len() < 4 {
            return fail("msg_prefix 缺 前缀");
        }
        Ok(Request::DeriveMsgPrefix { r, prefix: f[3].clone() })
    } else if str_eq(how, "msg_oneshot") {
        Ok(Request::DeriveMsgOneshot { r })
    } else {
        Err("未知 DERIVE ".to_string().concat(how))
    }
}

fn parse_invoke(f: &[String]) -> (res: Result<Request, String>)
    requires
        f@.len() > 0,
    ensures
        request_view(res) == invoke_request(text::views(f@)),
{
    let ghost v = text::views(f@);
    if f.len() < 2 {
        return fail("INVOKE 缺 ref");
    }
    if f.len() < 3 {
        return fail("INVOKE 缺 verb");
    }
    assert(v[1] == f@[1]@ && v[2] == f@[2]@);
    assert(f@.len() > 3 ==> v[3] == f@[3]@);
    assert(f@.len() > 4 ==> v[4] == f@[4]@);
    let verb = f[2].as_str();
    let r = f[1].clone();
    if str_eq(verb, "read") {
        Ok(Request::Read { r, rel: field(f, 3, "") })
    } else if str_eq(verb, "list") {
        Ok(Request::List { r, rel: field(f, 3, "") })
    } else if str_eq(verb, "exec") {
        Ok(Request::Exec { r })
    } else if str_eq(verb, "http_get") {
        Ok(Request::HttpGet { r, path: field(f, 3, "/") })
    } else if str_eq(verb, "send") {
        Ok(
            Request::Send {
                r,
                taint: Taint::parse(field(f, 3, "green").as_str()),
                data: b64_decode(field(f, 4, "").as_str()),
            },
        )
    } else if str_eq(verb, "post") {
        if f.len() < 4 {
            return fail("post 缺 subject");
        }
        let body = lossy_string(b64_decode(field(f, 4, "").as_str()).as_slice());
        Ok(Request::Post { r, subject: f[3].clone(), body })
    } else if str_eq(verb, "post_from") {
        if f.len() < 4 {
            return fail("post_from 缺 subject");
        }
        if f.len() < 5 {
            return fail("post_from 缺 src_ref");
        }
        Ok(Request::PostFrom { r, subject: f[3].clone(), src: f[4].clone(), rel: field(f, 5, "") })
    } else if str_eq(verb, "mailbox_read") {
        Ok(Request::MailboxRead { r })
    } else {
        Err("未知 INVOKE verb ".to_string().concat(verb))
    }
}

fn parse_mint(role: Role, f: &[String]) -> (r: Result<Request, String>)
    requires
        f@.len() > 0,
    ensures
        request_view(r) == mint_request(role, text::views(f@)),
{
    let ghost v = text::views(f@);
    assert(v[0] == f@[0]@);
    assert(f@.len() > 1 ==> v[1] == f@[1]@);
    let verb = f[0].as_str();
    if role == Role::Guest {
        return Err(
            verb.to_string().concat(
                ":guest 不能铸造能力。用 BOOTSTRAP 取预注入根 + DERIVE;mint 仅 control 面。",
            ),
        );
    }
    if str_eq(verb, "GRANT_DIR") {
        if f.len() < 2 {
            return fail("GRANT_DIR 缺 root");
        }
        Ok(
            Request::GrantDir {
                root: f[1].clone(),
                ops: parse_ops(field(f, 2, "read").as_str()),
                taint: Taint::parse(field(f, 3, "project").as_str()),
            },
        )
    } else if str_eq(verb, "GRANT_SINK") {
        if f.len() < 2 {
            return fail("GRANT_SINK 缺 name");
        }
        Ok(Request::GrantSink { name: f[1].clone() })
    } else if str_eq(verb, "GRANT_HTTP") {
        parse_http(f)
    } else if str_eq(verb, "GRANT_MSG") {
        if f.len() < 2 {
            return fail("GRANT_MSG 缺 recipient");
        }
        Ok(Request::GrantMsg { recipient: f[1].clone() })
    } else {
        if f.len() < 2 {
            return fail("GRANT_CMD 缺 cwd_ref");
        }
        Ok(Request::GrantCmd { cwd: f[1].clone(), argv: read_argv(field(f, 2, "").as_str()) })
    }
}

fn parse_consent(role: Role, f: &[String]) -> (r: Result<Request, String>)
    requires
        f@.len() > 0,
    ensures
        request_view(r) == consent_request(role, text::views(f@)),
{
    let ghost v = text::views(f@);
    assert(v[0] == f@[0]@);
    assert(f@.len() > 1 ==> v[1] == f@[1]@);
    let verb = f[0].as_str();
    let guest = role == Role::Guest;
    if str_eq(verb, "CONSENT_APPROVE") {
        if guest {
            return fail("consent 审批仅 control 面");
        }
        if f.len() < 2 {
            return fail("CONSENT_APPROVE 缺 id");
        }
        Ok(Request::ConsentApprove { id: f[1].clone() })
    } else if str_eq(verb, "CONSENT_DENY") {
        if guest {
            return fail("consent 审批仅 control 面");
        }
        if f.len() < 2 {
            return fail("CONSENT_DENY 缺 id");
        }
        Ok(Request::ConsentDeny { id: f[1].clone() })
    } else if str_eq(verb, "CONSENT_DESCRIBE") {
        if guest {
            return fail("consent 详情仅 control 面(含敏感 env)");
        }
        if f.len() < 2 {
            return fail("CONSENT_DESCRIBE 缺 id");
        }
        Ok(Request::ConsentDescribe { id: f[1].clone() })
    } else {
        if guest {
            return fail("consent 列表仅 control 面");
        }
        Ok(Request::ConsentList)
    }
}

/// Reads a request in the role of the connection that it came over.
pub fn parse_request(role: Role, body: &str) -> (r: Result<Request, String>)
    ensures
        request_view(r) == parsed(role, text::split_on(body@, '\t')),
{
    let f = split(body, '\t');
    let ghost v = text::views(f@);
    assert(v.len() == f@.len());
    assert(v[0] == f@[0]@);
    assert(f@.len() > 1 ==> v[1] == f@[1]@);
    let verb = f[0].as_str();
    if str_eq(verb, "BOOTSTRAP") {
        Ok(Request::Bootstrap)
    } else if str_eq(verb, "GRANT_DIR") || str_eq(verb, "GRANT_SINK") || str_eq(verb, "GRANT_HTTP") || str_eq(
        verb,
        "GRANT_MSG",
    ) || str_eq(verb, "GRANT_CMD") {
        parse_mint(role, f.as_slice())
    } else if str_eq(verb, "DERIVE") {
        parse_derive(f.as_slice())
    } else if str_eq(verb, "INVOKE") {
        parse_invoke(f.as_slice())
    } else if str_eq(verb, "REVOKE") {
        if f.len() < 2 {
            return fail("REVOKE 缺 ref");
        }
        Ok(Request::Revoke { r: f[1].clone() })
    } else if str_eq(verb, "CONSENT_APPROVE") || str_eq(verb, "CONSENT_DENY") || str_eq(
        verb,
        "CONSENT_DESCRIBE",
    ) || str_eq(verb, "CONSENT_LIST") {
        parse_consent(role, f.as_slice())
    } else if str_eq(verb, "DESCRIBE") {
        if f.len() < 2 {
            return fail("缺 ref");
        }
        Ok(Request::Describe { r: f[1].clone() })
    } else if str_eq(verb, "AUDIT") {
        Ok(Request::Audit)
    } else {
        Err("未知 verb ".to_string().concat(verb))
    }
}

/// The words that ask to post differ from those before them in the order that
/// requests are told apart.
proof fn lemma_invoke_verbs()
    ensures
        "INVOKE"@ != "BOOTSTRAP"@,
        "INVOKE"@ != "DERIVE"@,
        !is_mint("INVOKE"@),
        "post"@ != "read"@,
        "post"@ != "list"@,
        "post"@ != "exec"@,
        "post"@ != "http_get"@,
        "post"@ != "send"@,
{
    reveal_strlit("INVOKE");
    reveal_strlit("BOOTSTRAP");
    reveal_strlit("DERIVE");
    reveal_strlit("GRANT_DIR");
    reveal_strlit("GRANT_SINK");
    reveal_strlit("GRANT_CMD");
    reveal_strlit("GRANT_HTTP");
    reveal_strlit("GRANT_MSG");
    reveal_strlit("post");
    reveal_strlit("read");
    reveal_strlit("list");
    reveal_strlit("exec");
    reveal_strlit("http_get");
    reveal_strlit("send");
    assert("INVOKE"@[0] == 'I');
    assert("post"@[0] == 'p');
}

/// A text that is posted arrives as it was: whoever sends its bytes in base64
/// asks to post that very text.
pub proof fn law_posted_text_survives(role: Role, r: Seq<char>, subject: Seq<char>, t: Seq<char>)
    ensures
        parsed(
            role,
            seq!["INVOKE"@, r, "post"@, subject, base64::encoded(encode_utf8(t))],
        ) == Ok::<RequestV, Seq<char>>(RequestV::Post { r, subject, body: t }),
{
    let f = seq!["INVOKE"@, r, "post"@, subject, base64::encoded(encode_utf8(t))];
    base64::law_base64_round_trip(encode_utf8(t));
    text::lemma_lossy_of_text(t);
    lemma_invoke_verbs();
    assert(f[0] == "INVOKE"@ && f[1] == r && f[2] == "post"@ && f[3] == subject);
}

} // verus!
