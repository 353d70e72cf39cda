//! The command line of the service, and how its client reads replies.

use crate::base64;
use crate::base64::b64_decode;
use crate::policy::PolicyEngine;
use crate::role::{Policy, Role};
use crate::text;
use crate::text::{chars_of, lossy_string, split, split_once, str_eq, trim_end};
use vstd::prelude::*;

verus! {

/// How many connections are served at one time.
pub const MAX_CONNS: usize = 64;

/// Where the service listens unless told otherwise.
pub const DEFAULT_SOCKET: &'static str = "/tmp/capable.sock";

/// What the flags of the service say.
pub struct Flags {
    pub workspace: Option<String>,
    pub trusted: bool,
    pub audit_log: Option<String>,
    pub engine: PolicyEngine,
}

/// Flags, as contracts speak of them.
#[verifier::ext_equal]
pub struct FlagsV {
    pub workspace: Option<Seq<char>>,
    pub trusted: bool,
    pub audit_log: Option<Seq<char>>,
    pub engine: PolicyEngine,
}

impl View for Flags {
    type V = FlagsV;

    open spec fn view(&self) -> FlagsV {
        FlagsV {
            workspace: text::option_view(self.workspace),
            trusted: self.trusted,
            audit_log: text::option_view(self.audit_log),
            engine: self.engine,
        }
    }
}

/// The argument at `i`, if there is one.
pub open spec fn arg_at(args: Seq<Seq<char>>, i: int) -> Option<Seq<char>> {
    if 0 <= i < args.len() {
        Some(args[i])
    } else {
        None
    }
}

/// What the arguments from `i` on make of the flags read before. An argument
/// that is not known is passed over.
pub open spec fn flags_from(args: Seq<Seq<char>>, i: int, f: FlagsV) -> FlagsV
    decreases args.len() + 1 - i,
{
    if i < 0 || i >= args.len() {
        f
    } else if args[i] == "--workspace"@ {
        flags_from(args, i + 2, FlagsV { workspace: arg_at(args, i + 1), ..f })
    } else if args[i] == "--trusted"@ {
        flags_from(args, i + 1, FlagsV { trusted: true, ..f })
    } else if args[i] == "--audit-log"@ {
        flags_from(args, i + 2, FlagsV { audit_log: arg_at(args, i + 1), ..f })
    } else if args[i] == "--prompt-exec"@ {
        flags_from(args, i + 1, FlagsV { engine: PolicyEngine { prompt_exec: true, ..f.engine }, ..f })
    } else if args[i] == "--prompt-http"@ {
        flags_from(args, i + 1, FlagsV { engine: PolicyEngine { prompt_http: true, ..f.engine }, ..f })
    } else if args[i] == "--prompt-post"@ {
        flags_from(args, i + 1, FlagsV { engine: PolicyEngine { prompt_post: true, ..f.engine }, ..f })
    } else if args[i] == "--deny-exec"@ {
        flags_from(args, i + 1, FlagsV { engine: PolicyEngine { deny_exec: true, ..f.engine }, ..f })
    } else {
        flags_from(args, i + 1, f)
    }
}

/// The flags before any is read: no action is refused or asked about.
pub open spec fn no_flags() -> FlagsV {
    FlagsV {
        workspace: None,
        trusted: false,
        audit_log: None,
        engine: PolicyEngine {
            deny_exec: false,
            prompt_exec: false,
            prompt_http: false,
            prompt_post: false,
        },
    }
}

/// What is to be done.
pub enum Invocation {
    /// Serve on a socket.
    Serve(String, Flags),
    /// Show what the service does.
    Demo,
    /// Verify a log.
    VerifyAudit(String),
    /// Say how the program is used.
    Usage,
}

/// What is to be done, as contracts speak of it.
#[verifier::ext_equal]
pub enum InvocationV {
    Serve(Seq<char>, FlagsV),
    Demo,
    VerifyAudit(Seq<char>),
    Usage,
}

impl View for Invocation {
    type V = InvocationV;

    open spec fn view(&self) -> InvocationV {
        match *self {
            Invocation::Serve(sock, f) => InvocationV::Serve(sock@, f@),
            Invocation::Demo => InvocationV::Demo,
            Invocation::VerifyAudit(log) => InvocationV::VerifyAudit(log@),
            Invocation::Usage => InvocationV::Usage,
        }
    }
}

/// What the arguments, the program's name first, ask for.
pub open spec fn invocation_of(args: Seq<Seq<char>>) -> InvocationV {
    if arg_at(args, 1) == Some("serve"@) {
        InvocationV::Serve(
            match arg_at(args, 2) {
                Some(s) => s,
                None => DEFAULT_SOCKET@,
            },
            flags_from(args, 3, no_flags()),
        )
    } else if arg_at(args, 1) == Some("demo"@) {
        InvocationV::Demo
    } else if arg_at(args, 1) == Some("verify-audit"@) {
        InvocationV::VerifyAudit(
            match arg_at(args, 2) {
                Some(s) => s,
                None => ""@,
            },
        )
    } else {
        InvocationV::Usage
    }
}

/// The argument at `i`, or what stands for it.
fn arg_or(args: &[String], i: usize, default: &str) -> (r: String)
    ensures
        r@ == (match arg_at(text::views(args@), i as int) {
            Some(s) => s,
            None => default@,
        }),
{
    if i < args.len() {
        assert(text::views(args@)[i as int] == args@[i as int]@);
        args[i].clone()
    } else {
        default.to_string()
    }
}

/// The argument at `i`, if there is one.
fn arg(args: &[String], i: usize) -> (r: Option<String>)
    ensures
        text::option_view(r) == arg_at(text::views(args@), i as int),
{
    if i < args.len() {
        assert(text::views(args@)[i as int] == args@[i as int]@);
        Some(args[i].clone())
    } else {
        None
    }
}

/// Reads the flags from the fourth argument on.
fn read_flags(args: &[String]) -> (r: Flags)
    ensures
        r@ == flags_from(text::views(args@), 3, no_flags()),
{
    let ghost all = text::views(args@);
    let mut f = Flags {
        workspace: None,
        trusted: false,
        audit_log: None,
        engine: PolicyEngine::allow_all(),
    };
    let mut i: usize = 3;
    let n: usize = args.len();
    while i < n
        invariant
            n == args@.len(),
            all == text::views(args@),
            flags_from(all, i as int, f@) == flags_from(all, 3, no_flags()),
        decreases n - i,
    {
        assert(all[i as int] == args@[i as int]@);
        let a = args[i].as_str();
        if str_eq(a, "--workspace") {
            f.workspace = arg_after(args, i);
            if n - i < 2 {
                assert(flags_from(all, i + 2, f@) == f@);
                return f;
            }
            i += 2;
        } else if str_eq(a, "--trusted") {
            f.trusted = true;
            i += 1;
        } else if str_eq(a, "--audit-log") {
            f.audit_log = arg_after(args, i);
            if n - i < 2 {
                assert(flags_from(all, i + 2, f@) == f@);
                return f;
            }
            i += 2;
        } else if str_eq(a, "--prompt-exec") {
            f.engine.prompt_exec = true;
            i += 1;
        } else if str_eq(a, "--prompt-http") {
            f.engine.prompt_http = true;
            i += 1;
        } else if str_eq(a, "--prompt-post") {
            f.engine.prompt_post = true;
            i += 1;
        } else if str_eq(a, "--deny-exec") {
            f.engine.deny_exec = true;
            i += 1;
        } else {
            i += 1;
        }
    }
    f
}

/// The argument after the one at `i`, if there is one.
fn arg_after(args: &[String], i: usize) -> (r: Option<String>)
    requires
        i < args@.len(),
    ensures
        text::option_view(r) == arg_at(text::views(args@), i + 1),
{
    let n: usize = args.len();
    arg(args, i + 1)
}

/// Reads the command line.
pub fn parse_args(args: &[String]) -> (r: Invocation)
    ensures
        r@ == invocation_of(text::views(args@)),
{
    if args.len() < 2 {
        return Invocation::Usage;
    }
    assert(text::views(args@)[1] == args@[1]@);
    let verb = args[1].as_str();
    if str_eq(verb, "serve") {
        Invocation::Serve(arg_or(args, 2, DEFAULT_SOCKET), read_flags(args))
    } else if str_eq(verb, "demo") {
        Invocation::Demo
    } else if str_eq(verb, "verify-audit") {
        Invocation::VerifyAudit(arg_or(args, 2, ""))
    } else {
        Invocation::Usage
    }
}

/// The role that the flags give a connection and the workspace that it is confined to, if
/// they give one.
pub open spec fn served_as(f: FlagsV) -> Option<(Role, Option<Seq<char>>)> {
    if f.trusted {
        Some((Role::Control, None))
    } else if f.workspace is Some {
        Some((Role::Guest, f.workspace))
    } else {
        None
    }
}

impl Flags {
    /// The policy that the service runs under: the control side's where it is
    /// trusted, else a guest's, which needs a workspace.
    pub fn policy(&self) -> (r: Result<Policy, String>)
        ensures
            r is Ok <==> self.trusted || self.workspace is Some,
            r is Ok ==> r->Ok_0.role == (if self.trusted {
                Role::Control
            } else {
                Role::Guest
            }),
            r is Ok ==> text::option_view(r->Ok_0.workspace) == (if self.trusted {
                None
            } else {
                text::option_view(self.workspace)
            }),
            served_as(self@) == (match r {
                Ok(p) => Some((p.role, text::option_view(p.workspace))),
                Err(_) => None,
            }),
            r is Err ==> r->Err_0@ == "serve: guest 模式需 --workspace <root>(或 --trusted 作可信控制面)"@,
    {
        if self.trusted {
            Ok(Policy::control())
        } else {
            match &self.workspace {
                Some(ws) => Ok(Policy::guest(ws.as_str())),
                None => Err("serve: guest 模式需 --workspace <root>(或 --trusted 作可信控制面)".to_string()),
            }
        }
    }
}

/// The permissions of the socket in a role.
pub open spec fn mode_of(role: Role) -> u32 {
    if role == Role::Control {
        0o600
    } else {
        0o660
    }
}

/// The permissions of the socket: only its owner reaches the control side, the
/// group a guest's.
pub fn socket_mode(role: Role) -> (r: u32)
    ensures
        r == (if role == Role::Control {
            0o600u32
        } else {
            0o660u32
        }),
        r == mode_of(role),
{
    if role == Role::Control {
        0o600
    } else {
        0o660
    }
}

/// The name of a role.
pub fn role_name(role: Role) -> (r: &'static str)
    ensures
        r@ == (if role == Role::Control {
            "control"@
        } else {
            "guest"@
        }),
{
    if role == Role::Control {
        "control"
    } else {
        "guest"
    }
}

/// Whether one more connection is served while so many are.
pub fn admits(served: usize) -> (r: bool)
    ensures
        r == (served < MAX_CONNS),
{
    served < MAX_CONNS
}

/// The reference that a reply hands out, or nothing.
pub open spec fn cap_in(reply: Seq<char>) -> Seq<char> {
    let f = text::split_on(reply, '\t');
    if f[0] == "CAP"@ {
        f[1]
    } else {
        Seq::empty()
    }
}

/// The reference that a reply hands out; nothing where it hands out none.
pub fn cap_of(reply: &str) -> (r: String)
    requires
        reply@ != "CAP"@,
    ensures
        r@ == ({
            let f = text::split_on(reply@, '\t');
            if f[0] == "CAP"@ {
                f[1]
            } else {
                Seq::empty()
            }
        }),
        r@ == cap_in(reply@),
{
    let f = split(reply, '\t');
    let ghost all = text::views(f@);
    assert(all[0] == f@[0]@);
    assert(f@.len() > 1 ==> all[1] == f@[1]@);
    if str_eq(f[0].as_str(), "CAP") {
        if f.len() < 2 {
            proof {
                lemma_one_piece(reply@);
            }
            return String::new();
        }
        f[1].clone()
    } else {
        String::new()
    }
}

/// A text that is split into one piece is that piece.
proof fn lemma_one_piece(s: Seq<char>)
    requires
        text::split_on(s, '\t').len() == 1,
    ensures
        text::split_on(s, '\t')[0] == s,
    decreases s.len(),
{
    if s.len() > 0 {
        let front = text::split_on(s.drop_last(), '\t');
        text::lemma_split_on_nonempty(s.drop_last(), '\t');
        assert(s.last() != '\t');
        lemma_one_piece(s.drop_last());
        assert(s =~= s.drop_last().push(s.last()));
    }
}

/// The text with a space in place of each tab.
pub open spec fn spaced(s: Seq<char>) -> Seq<char> {
    s.map_values(
        |c: char|
            if c == '\t' {
                ' '
            } else {
                c
            },
    )
}

/// What a client shows of a reply: the taint and the data of one that hands out
/// data, and any other with its tabs replaced.
pub open spec fn payload(reply: Seq<char>) -> Seq<char> {
    let ok = match text::cut(reply, '\t') {
        None => reply == "OK"@,
        Some((head, _)) => head == "OK"@,
    };
    if !ok {
        spaced(reply)
    } else {
        let (taint, data) = match text::cut(reply, '\t') {
            None => (""@, ""@),
            Some((_, rest)) => match text::cut(rest, '\t') {
                None => (rest, ""@),
                Some((taint, data)) => (taint, data),
            },
        };
        "["@ + taint + "] "@ + text::trimmed_back(
            text::lossy(base64::decoded(base64::unpadded(data))),
        )
    }
}

/// Puts a space in place of each tab.
fn space_tabs(s: &str) -> (r: String)
    ensures
        r@ == spaced(s@),
{
    let v = chars_of(s);
    let mut out = String::new();
    let mut i: usize = 0;
    while i < v.len()
        invariant
            i <= v@.len(),
            v@ == s@,
            out@ == spaced(s@).take(i as int),
        decreases v@.len() - i,
    {
        out.push(
            if v[i] == '\t' {
                ' '
            } else {
                v[i]
            },
        );
        assert(spaced(s@).take(i + 1) =~= spaced(s@).take(i as int).push(spaced(s@)[i as int]));
        i += 1;
    }
    assert(spaced(s@).take(s@.len() as int) =~= spaced(s@));
    out
}

/// Writes what a client shows of data and its taint.
fn show_payload(taint: &str, data: &str) -> (r: String)
    ensures
        r@ == "["@ + taint@ + "] "@ + text::trimmed_back(
            text::lossy(base64::decoded(base64::unpadded(data@))),
        ),
{
    let shown = lossy_string(b64_decode(data).as_slice());
    "[".to_string().concat(taint).concat("] ").concat(trim_end(shown.as_str()).as_str())
}

/// What a client shows of a reply.
pub fn ok_payload(reply: &str) -> (r: String)
    ensures
        r@ == payload(reply@),
{
    match split_once(reply, '\t') {
        None => if str_eq(reply, "OK") {
            show_payload("", "")
        } else {
            space_tabs(reply)
        },
        Some((head, rest)) => {
            if !str_eq(head.as_str(), "OK") {
                return space_tabs(reply);
            }
            match split_once(rest.as_str(), '\t') {
                None => show_payload(rest.as_str(), ""),
                Some((taint, data)) => show_payload(taint.as_str(), data.as_str()),
            }
        },
    }
}

} // verus!
