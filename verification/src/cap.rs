//! Capabilities: what the broker holds behind each reference.

use crate::label::{clone_ops, Op, Taint};
use crate::text;
use crate::text::clone_list;
use vstd::prelude::*;

verus! {

/// A reference to a capability: a text that cannot be guessed.
pub type CapRef = String;

/// What kind of thing a capability is for.
#[derive(Clone, Copy, PartialEq, Eq, Debug, Structural)]
pub enum CapKind {
    Dir,
    Sink,
    Command,
    Http,
    Message,
}

/// The name of a kind.
pub open spec fn kind_text(k: CapKind) -> Seq<char> {
    match k {
        CapKind::Dir => "dir"@,
        CapKind::Sink => "sink"@,
        CapKind::Command => "command"@,
        CapKind::Http => "http"@,
        CapKind::Message => "message"@,
    }
}

impl CapKind {
    /// The name of this kind.
    pub fn as_str(&self) -> (r: &'static str)
        ensures
            r@ == kind_text(*self),
    {
        match self {
            CapKind::Dir => "dir",
            CapKind::Sink => "sink",
            CapKind::Command => "command",
            CapKind::Http => "http",
            CapKind::Message => "message",
        }
    }
}

/// What requests a network capability allows: the origin, the methods and
/// paths, and how much of an answer is taken.
pub struct HttpSpec {
    pub scheme: String,
    pub host: String,
    pub port: u16,
    pub methods: Vec<String>,
    pub paths: Vec<String>,
    pub max_bytes: usize,
}

/// An `HttpSpec`, as contracts speak of it.
#[verifier::ext_equal]
pub struct HttpV {
    pub scheme: Seq<char>,
    pub host: Seq<char>,
    pub port: u16,
    pub methods: Seq<Seq<char>>,
    pub paths: Seq<Seq<char>>,
    pub max_bytes: usize,
}

impl View for HttpSpec {
    type V = HttpV;

    open spec fn view(&self) -> HttpV {
        HttpV {
            scheme: self.scheme@,
            host: self.host@,
            port: self.port,
            methods: text::views(self.methods@),
            paths: text::views(self.paths@),
            max_bytes: self.max_bytes,
        }
    }
}

impl Clone for HttpSpec {
    fn clone(&self) -> (r: HttpSpec)
        ensures
            r@ == self@,
    {
        HttpSpec {
            scheme: self.scheme.clone(),
            host: self.host.clone(),
            port: self.port,
            methods: clone_list(self.methods.as_slice()),
            paths: clone_list(self.paths.as_slice()),
            max_bytes: self.max_bytes,
        }
    }
}

/// What a message capability allows: posting to a mailbox under a subject
/// prefix, once or often, and reading the mailbox or not.
pub struct MsgSpec {
    pub mailbox: String,
    pub subject_prefix: String,
    pub one_shot: bool,
    pub can_receive: bool,
}

/// A `MsgSpec`, as contracts speak of it.
#[verifier::ext_equal]
pub struct MsgV {
    pub mailbox: Seq<char>,
    pub subject_prefix: Seq<char>,
    pub one_shot: bool,
    pub can_receive: bool,
}

impl View for MsgSpec {
    type V = MsgV;

    open spec fn view(&self) -> MsgV {
        MsgV {
            mailbox: self.mailbox@,
            subject_prefix: self.subject_prefix@,
            one_shot: self.one_shot,
            can_receive: self.can_receive,
        }
    }
}

impl Clone for MsgSpec {
    fn clone(&self) -> (r: MsgSpec)
        ensures
            r@ == self@,
    {
        MsgSpec {
            mailbox: self.mailbox.clone(),
            subject_prefix: self.subject_prefix.clone(),
            one_shot: self.one_shot,
            can_receive: self.can_receive,
        }
    }
}

/// A message in a mailbox, with where its data came from.
pub struct PostedMsg {
    pub subject: String,
    pub body: String,
    pub taint: Taint,
    pub from_session: String,
}

/// A message, as contracts speak of it.
#[verifier::ext_equal]
pub struct PostedV {
    pub subject: Seq<char>,
    pub body: Seq<char>,
    pub taint: Taint,
    pub from_session: Seq<char>,
}

impl View for PostedMsg {
    type V = PostedV;

    open spec fn view(&self) -> PostedV {
        PostedV {
            subject: self.subject@,
            body: self.body@,
            taint: self.taint,
            from_session: self.from_session@,
        }
    }
}

impl Clone for PostedMsg {
    fn clone(&self) -> (r: PostedMsg)
        ensures
            r@ == self@,
    {
        PostedMsg {
            subject: self.subject.clone(),
            body: self.body.clone(),
            taint: self.taint,
            from_session: self.from_session.clone(),
        }
    }
}

/// The messages of a mailbox, in the order in which they came.
pub struct Mailbox {
    pub msgs: Vec<PostedMsg>,
}

impl View for Mailbox {
    type V = Seq<PostedV>;

    open spec fn view(&self) -> Seq<PostedV> {
        self.msgs@.map_values(|m: PostedMsg| m@)
    }
}

/// A capability, which exists only inside the broker.
pub struct Cap {
    pub id: CapRef,
    pub kind: CapKind,
    pub revoked: bool,
    /// The root of a directory, the working directory of a command, or the
    /// origin of a network capability.
    pub root: String,
    pub ops: Vec<Op>,
    pub taint: Taint,
    /// The name of a sink, the recipient of a message, or the command shown.
    pub name: String,
    pub argv: Vec<String>,
    pub env: Vec<String>,
    /// The directory, held open since it was granted: the number by which the
    /// host finds it.
    pub dir_fd: Option<u64>,
    pub http: Option<HttpSpec>,
    pub msg: Option<MsgSpec>,
    /// The capability that this one was derived from.
    pub parent: Option<CapRef>,
}

/// A capability, as contracts speak of it.
#[verifier::ext_equal]
pub struct CapV {
    pub id: Seq<char>,
    pub kind: CapKind,
    pub revoked: bool,
    pub root: Seq<char>,
    pub ops: Seq<Op>,
    pub taint: Taint,
    pub name: Seq<char>,
    pub argv: Seq<Seq<char>>,
    pub env: Seq<Seq<char>>,
    pub dir_fd: Option<u64>,
    pub http: Option<HttpV>,
    pub msg: Option<MsgV>,
    pub parent: Option<Seq<char>>,
}

impl View for Cap {
    type V = CapV;

    open spec fn view(&self) -> CapV {
        CapV {
            id: self.id@,
            kind: self.kind,
            revoked: self.revoked,
            root: self.root@,
            ops: self.ops@,
            taint: self.taint,
            name: self.name@,
            argv: text::views(self.argv@),
            env: text::views(self.env@),
            dir_fd: self.dir_fd,
            http: match self.http {
                Some(h) => Some(h@),
                None => None,
            },
            msg: match self.msg {
                Some(m) => Some(m@),
                None => None,
            },
            parent: match self.parent {
                Some(p) => Some(p@),
                None => None,
            },
        }
    }
}

/// A capability of a kind with nothing else to it.
pub open spec fn bare(id: Seq<char>, kind: CapKind, taint: Taint) -> CapV {
    CapV {
        id,
        kind,
        revoked: false,
        root: Seq::empty(),
        ops: Seq::empty(),
        taint,
        name: Seq::empty(),
        argv: Seq::empty(),
        env: Seq::empty(),
        dir_fd: None,
        http: None,
        msg: None,
        parent: None,
    }
}

impl Cap {
    /// A capability of a kind with nothing else to it.
    pub fn new(id: CapRef, kind: CapKind, taint: Taint) -> (r: Cap)
        ensures
            r@ == bare(id@, kind, taint),
    {
        let r = Cap {
            id,
            kind,
            revoked: false,
            root: String::new(),
            ops: Vec::new(),
            taint,
            name: String::new(),
            argv: Vec::new(),
            env: Vec::new(),
            dir_fd: None,
            http: None,
            msg: None,
            parent: None,
        };
        assert(r@ =~= bare(id@, kind, taint));
        r
    }
}

impl Clone for Cap {
    fn clone(&self) -> (r: Cap)
        ensures
            r@ == self@,
    {
        Cap {
            id: self.id.clone(),
            kind: self.kind,
            revoked: self.revoked,
            root: self.root.clone(),
            ops: clone_ops(self.ops.as_slice()),
            taint: self.taint,
            name: self.name.clone(),
            argv: clone_list(self.argv.as_slice()),
            env: clone_list(self.env.as_slice()),
            dir_fd: self.dir_fd,
            http: match &self.http {
                Some(h) => Some(h.clone()),
                None => None,
            },
            msg: match &self.msg {
                Some(m) => Some(m.clone()),
                None => None,
            },
            parent: match &self.parent {
                Some(p) => Some(p.clone()),
                None => None,
            },
        }
    }
}

} // verus!
