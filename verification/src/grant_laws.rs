//! What holds of granting and deriving: what a new capability is, what can be done with
//! it, and what stays as it was.

use crate::cap::{CapKind, CapV, HttpV};
use crate::label;
use crate::label::{Op, Taint};
use crate::net;
use crate::session;
use crate::show;
use crate::state;
use crate::state::SessionV;
use crate::text;
use crate::use_laws;
use vstd::prelude::*;

verus! {

/// Whether a state is another with a capability added under a reference, or put there
/// in another's place, and with a longer trail.
pub open spec fn only_added(s: SessionV, t: SessionV, id: Seq<char>) -> bool {
    &&& t.caps.contains_key(id)
    &&& t.caps[id].id == id
    &&& forall|x: Seq<char>| x != id ==> (#[trigger] t.caps.contains_key(x) <==> s.caps.contains_key(x))
    &&& forall|x: Seq<char>| x != id && #[trigger] s.caps.contains_key(x) ==> t.caps[x] == s.caps[x]
    &&& t.repeated == (s.repeated || s.caps.contains_key(id))
    &&& t.key == s.key
    &&& t.sink == s.sink
    &&& t.last_ok == s.last_ok
    &&& t.bootstrap == s.bootstrap
    &&& t.broken == s.broken
    &&& t.exec_policy == s.exec_policy
    &&& t.l5 == s.l5
    &&& t.consent == s.consent
    &&& t.reduced == s.reduced
}

/// A reference is the word `cap_` and two hexadecimal digits for each random byte, and a
/// mailbox is named in the same way: so different bytes make different references.
pub proof fn law_references_differ(a: Seq<u8>, b: Seq<u8>)
    requires
        a.len() == b.len(),
    ensures
        state::cap_id(a) == "cap_"@ + text::hex(a),
        state::mailbox_id(a) == "mbox_"@ + text::hex(a),
        state::cap_id(a) == state::cap_id(b) <==> a == b,
        state::mailbox_id(a) == state::mailbox_id(b) <==> a == b,
{
    reveal_strlit("cap_");
    reveal_strlit("mbox_");
    if state::cap_id(a) == state::cap_id(b) {
        assert(state::cap_id(a).skip(4) =~= text::hex(a));
        assert(state::cap_id(b).skip(4) =~= text::hex(b));
        lemma_hex_injective(a, b);
    }
    if state::mailbox_id(a) == state::mailbox_id(b) {
        assert(state::mailbox_id(a).skip(5) =~= text::hex(a));
        assert(state::mailbox_id(b).skip(5) =~= text::hex(b));
        lemma_hex_injective(a, b);
    }
}

proof fn lemma_hex_injective(a: Seq<u8>, b: Seq<u8>)
    requires
        a.len() == b.len(),
        text::hex(a) == text::hex(b),
    ensures
        a == b,
    decreases a.len(),
{
    if a.len() == 0 {
        assert(a =~= b);
    } else {
        text::lemma_hex_shape(a.drop_last());
        text::lemma_hex_shape(b.drop_last());
        let n = 2 * (a.len() - 1);
        assert(text::hex(a).take(n) =~= text::hex(a.drop_last()));
        assert(text::hex(b).take(n) =~= text::hex(b.drop_last()));
        assert(text::hex(a).skip(n) =~= text::hex2(a.last()));
        assert(text::hex(b).skip(n) =~= text::hex2(b.last()));
        lemma_hex_injective(a.drop_last(), b.drop_last());
        assert(text::hex2(a.last())[0] == text::hex2(b.last())[0]);
        assert(text::hex2(a.last())[1] == text::hex2(b.last())[1]);
        assert(a.last() == b.last());
        assert(a =~= a.drop_last().push(a.last()));
        assert(b =~= b.drop_last().push(b.last()));
    }
}

/// A granted directory has the root, the operations, the taint and the descriptor that
/// it was granted with, comes from no other capability, and can be used at once. It is
/// granted just where the host could open it.
pub proof fn law_granted_dir(
    s: SessionV,
    root: Seq<char>,
    ops: Seq<Op>,
    taint: Taint,
    opened: Result<u64, Seq<char>>,
    entropy: Seq<u8>,
)
    ensures
        ({
            let (t, res) = s.granted_dir(root, ops, taint, opened, entropy);
            let id = "cap_"@ + text::hex(entropy);
            let c = t.caps[id];
            &&& res is Ok <==> opened is Ok
            &&& res is Ok ==> res->Ok_0 == id && only_added(s, t, id) && t.mailboxes == s.mailboxes
            &&& res is Ok ==> c.kind == CapKind::Dir && c.root == root && c.ops == ops && c.taint == taint && c.dir_fd
                == Some(opened->Ok_0) && c.parent is None && !c.revoked && c.http is None && c.msg is None
                && c.argv.len() == 0 && c.env.len() == 0 && c.name.len() == 0
            &&& res is Ok ==> state::active(t.caps, id)
            &&& res is Ok ==> use_laws::trail_grew(
                s,
                t,
                "grant_dir"@,
                show::shorted(id) + " root="@ + root + " taint="@ + label::taint_text(taint),
                "allow"@,
            )
            &&& res is Err ==> use_laws::only_trail(s, t) && res->Err_0 == "打开目录 "@ + root + " 失败: "@
                + opened->Err_0
        }),
{
    let id = state::cap_id(entropy);
    let t = s.granted_dir(root, ops, taint, opened, entropy).0;
    if opened is Ok {
        state::lemma_active_step(t.caps, id);
    }
}

/// Reading through a directory that was just granted: it passes just where reading was
/// among the operations that were granted and the path leads inwards, the host is
/// handed the descriptor that it had opened, and what is read has the taint that was
/// granted unless the path has the mark of secrets.
pub proof fn law_granted_dir_reads(
    s: SessionV,
    root: Seq<char>,
    ops: Seq<Op>,
    taint: Taint,
    fd: u64,
    entropy: Seq<u8>,
    rel: Seq<char>,
)
    requires
        !s.broken,
    ensures
        ({
            let (t, res) = s.granted_dir(root, ops, taint, Ok(fd), entropy);
            let read = t.read_check(res->Ok_0, rel);
            let list = t.list_check(res->Ok_0, rel);
            &&& read is Ok <==> ops.contains(Op::Read) && use_laws::inward(rel)
            &&& list is Ok <==> ops.contains(Op::List) && use_laws::inward(rel)
            &&& read is Ok ==> read->Ok_0.fd == fd && read->Ok_0.taint == if use_laws::marked_secret(
                root + "/"@ + rel,
            ) {
                Taint::Secret
            } else {
                taint
            }
            &&& list is Ok ==> list->Ok_0.fd == fd && list->Ok_0.taint == taint
        }),
{
    let (t, res) = s.granted_dir(root, ops, taint, Ok(fd), entropy);
    law_granted_dir(s, root, ops, taint, Ok(fd), entropy);
    use_laws::law_reading_passes(t, res->Ok_0, rel);
    if t.read_check(res->Ok_0, rel) is Ok {
        use_laws::law_read_taint(t, res->Ok_0, rel);
    }
}

/// A granted sink has its name and is harmless, and takes all data that is not secret.
pub proof fn law_granted_sink(s: SessionV, name: Seq<char>, entropy: Seq<u8>, taint: Taint)
    ensures
        ({
            let (t, id) = s.granted_sink(name, entropy);
            let c = t.caps[id];
            &&& id == "cap_"@ + text::hex(entropy)
            &&& only_added(s, t, id) && t.mailboxes == s.mailboxes
            &&& c.kind == CapKind::Sink && c.name == name && c.taint == Taint::Green && c.parent is None && !c.revoked
            &&& c.ops.len() == 0 && c.dir_fd is None && c.http is None && c.msg is None && c.argv.len() == 0
                && c.root.len() == 0
            &&& !s.broken ==> (t.send_check(id, taint) is Ok <==> taint != Taint::Secret)
            &&& use_laws::trail_grew(s, t, "grant_sink"@, show::shorted(id) + " "@ + name, "allow"@)
        }),
{
    let (t, id) = s.granted_sink(name, entropy);
    state::lemma_active_step(t.caps, id);
}

/// A granted message capability has a new, empty mailbox that its owner may read, takes
/// any subject, and serves any number of times.
pub proof fn law_granted_message(
    s: SessionV,
    recipient: Seq<char>,
    mailbox_entropy: Seq<u8>,
    entropy: Seq<u8>,
)
    ensures
        ({
            let (t, id) = s.granted_message(recipient, mailbox_entropy, entropy);
            let c = t.caps[id];
            let m = c.msg->0;
            let mailbox = "mbox_"@ + text::hex(mailbox_entropy);
            &&& id == "cap_"@ + text::hex(entropy)
            &&& only_added(s, t, id)
            &&& c.kind == CapKind::Message && c.name == recipient && c.taint == Taint::Green && c.parent is None
                && !c.revoked && c.msg is Some && c.http is None && c.dir_fd is None && c.ops.len() == 0
            &&& m.mailbox == mailbox && m.subject_prefix.len() == 0 && !m.one_shot && m.can_receive
            &&& t.mailboxes.contains_key(mailbox) && t.mailboxes[mailbox].len() == 0
            &&& forall|b: Seq<char>| b != mailbox ==> (#[trigger] t.mailboxes.contains_key(b)
                <==> s.mailboxes.contains_key(b))
            &&& forall|b: Seq<char>| b != mailbox && #[trigger] s.mailboxes.contains_key(b) ==> t.mailboxes[b]
                == s.mailboxes[b]
            &&& state::active(t.caps, id)
            &&& use_laws::trail_grew(s, t, "grant_message"@, show::shorted(id) + " to="@ + recipient, "allow"@)
        }),
{
    let (t, id) = s.granted_message(recipient, mailbox_entropy, entropy);
    state::lemma_active_step(t.caps, id);
}

/// What is posted through a message capability that was just granted is what its owner
/// reads, and nothing else is.
pub proof fn law_granted_message_delivers(
    s: SessionV,
    recipient: Seq<char>,
    mailbox_entropy: Seq<u8>,
    entropy: Seq<u8>,
    subject: Seq<char>,
    body: Seq<char>,
)
    requires
        !s.broken,
    ensures
        ({
            let (t, id) = s.granted_message(recipient, mailbox_entropy, entropy);
            let (u, res) = t.posted_literal(id, subject, body);
            &&& t.inbox(id) is Ok && t.inbox(id)->Ok_0.len() == 0
            &&& res is Ok
            &&& u.inbox(id) is Ok
            &&& session::shown_messages(u.inbox(id)->Ok_0) == seq![(subject, Taint::Green, body)]
        }),
{
    let (t, id) = s.granted_message(recipient, mailbox_entropy, entropy);
    let (u, res) = t.posted_literal(id, subject, body);
    law_granted_message(s, recipient, mailbox_entropy, entropy);
    assert(subject.take(0) =~= Seq::empty());
    assert(t.caps[id].msg->0.subject_prefix =~= Seq::empty());
    assert(u.caps == t.caps);
    assert(session::shown_messages(u.inbox(id)->Ok_0) =~= seq![(subject, Taint::Green, body)]);
}

/// A granted command runs in a directory that was granted, with its root and its
/// descriptor, and may do nothing but run; it is granted just where that directory can be
/// used.
pub proof fn law_granted_command(s: SessionV, cwd: Seq<char>, argv: Seq<Seq<char>>, entropy: Seq<u8>)
    ensures
        ({
            let (t, res) = s.granted_command(cwd, argv, entropy);
            let id = "cap_"@ + text::hex(entropy);
            let c = t.caps[id];
            &&& res is Ok <==> !s.broken && state::active(s.caps, cwd) && s.caps[cwd].kind == CapKind::Dir
            &&& res is Ok ==> res->Ok_0 == id && only_added(s, t, id) && t.mailboxes == s.mailboxes
            &&& res is Ok ==> c.kind == CapKind::Command && c.root == s.caps[cwd].root && c.dir_fd == s.caps[cwd].dir_fd
                && c.ops == seq![Op::Exec] && c.argv == argv && c.name == text::join_with(argv, " "@) && c.env == seq![
                "PATH=/usr/bin:/bin:/usr/local/bin"@,
            ] && c.taint == Taint::Yellow && c.parent is None && !c.revoked && c.http is None && c.msg is None
            &&& res is Ok ==> state::active(t.caps, id)
            &&& res is Ok ==> use_laws::trail_grew(
                s,
                t,
                "grant_cmd"@,
                show::shorted(id) + " ["@ + text::join_with(argv, " "@) + "]"@,
                "allow"@,
            )
            &&& res is Err ==> use_laws::only_trail(s, t)
        }),
{
    let (t, res) = s.granted_command(cwd, argv, entropy);
    if res is Ok {
        state::lemma_active_step(t.caps, res->Ok_0);
    }
}

/// A granted network capability is for the origin, the methods, the paths and the size
/// that it was granted with; it is granted just where the safeguards are not lowered and
/// the host is one that a request can name.
pub proof fn law_granted_http(s: SessionV, h: HttpV, entropy: Seq<u8>)
    ensures
        ({
            let (t, res) = s.granted_http(h, entropy);
            let id = "cap_"@ + text::hex(entropy);
            let c = t.caps[id];
            let origin = h.scheme + "://"@ + h.host + ":"@ + text::dec(h.port as nat);
            &&& res is Ok <==> !s.reduced && net::host_check(h.host) is Ok
            &&& res is Ok ==> res->Ok_0 == id && only_added(s, t, id) && t.mailboxes == s.mailboxes
            &&& res is Ok ==> c.kind == CapKind::Http && c.root == origin && c.http == Some(h) && c.taint
                == Taint::External && c.parent is None && !c.revoked && c.msg is None && c.dir_fd is None
                && c.ops.len() == 0 && c.argv.len() == 0
            &&& res is Ok ==> state::active(t.caps, id)
            &&& res is Ok ==> use_laws::trail_grew(s, t, "grant_http"@, show::shorted(id) + " "@ + origin, "allow"@)
            &&& res is Err ==> use_laws::only_trail(s, t)
        }),
{
    let (t, res) = s.granted_http(h, entropy);
    if res is Ok {
        state::lemma_active_step(t.caps, res->Ok_0);
    }
}

/// A subdirectory is derived just where the origin can be used, is a directory, the host
/// could open the subdirectory and its path leads inwards. Its root is the joined path,
/// and it can be used as long as its origin can.
pub proof fn law_derived_sub(
    s: SessionV,
    r: Seq<char>,
    seg: Seq<char>,
    opened: Result<u64, Seq<char>>,
    entropy: Seq<u8>,
)
    requires
        s.inv(),
        !s.caps.contains_key(state::cap_id(entropy)),
    ensures
        ({
            let (t, res) = s.derived_sub(r, seg, opened, entropy);
            let id = "cap_"@ + text::hex(entropy);
            let c = t.caps[id];
            &&& res is Ok <==> !s.broken && state::active(s.caps, r) && s.caps[r].kind == CapKind::Dir && opened is Ok
                && use_laws::inward(seg)
            &&& res is Ok ==> res->Ok_0 == id && only_added(s, t, id) && t.mailboxes == s.mailboxes
            &&& res is Ok ==> c.argv.len() == 0 && c.http is None && c.msg is None && !c.revoked
            &&& res is Ok ==> state::active(t.caps, id)
            &&& res is Ok ==> use_laws::trail_grew(
                s,
                t,
                "derive_sub"@,
                show::shorted(id) + " <- "@ + show::shorted(r) + " /"@ + seg,
                "allow"@,
            )
            &&& res is Err ==> use_laws::only_trail(s, t)
            &&& s.sub_begun(r, seg).1 is Ok <==> !s.broken && state::active(s.caps, r) && s.caps[r].kind == CapKind::Dir
            &&& s.sub_begun(r, seg).1 is Ok ==> Some(s.sub_begun(r, seg).1->Ok_0) == s.caps[r].dir_fd
                && s.sub_begun(r, seg).0 == s
        }),
{
    let (t, res) = s.derived_sub(r, seg, opened, entropy);
    if s.usable(r) is Ok {
        state::lemma_usable(s, r);
        use_laws::lemma_inward(s.caps[r].root, seg);
    }
    if res is Ok {
        let id = res->Ok_0;
        lemma_derived_active(s, t.caps[id], r);
    }
}

/// A capability derived from an active one is active.
proof fn lemma_derived_active(s: SessionV, c: CapV, r: Seq<char>)
    requires
        s.inv(),
        !s.caps.contains_key(c.id),
        s.usable(r) is Ok,
        c.parent == Some(r),
        !c.revoked,
    ensures
        state::active(s.with_cap(c).caps, c.id),
{
    state::lemma_usable(s, r);
    crate::session_laws::law_new_capability_changes_no_other(s, c, r);
    state::lemma_active_step(s.with_cap(c).caps, c.id);
}

/// A capability that only reads is derived just where its origin can be used, and can be
/// used as long as that can.
pub proof fn law_derived_readonly(s: SessionV, r: Seq<char>, entropy: Seq<u8>)
    requires
        s.inv(),
        !s.caps.contains_key(state::cap_id(entropy)),
    ensures
        ({
            let (t, res) = s.derived_readonly(r, entropy);
            let id = "cap_"@ + text::hex(entropy);
            &&& res is Ok <==> !s.broken && state::active(s.caps, r)
            &&& res is Ok ==> res->Ok_0 == id && only_added(s, t, id) && t.mailboxes == s.mailboxes
            &&& res is Ok ==> state::active(t.caps, id)
            &&& res is Ok ==> use_laws::trail_grew(
                s,
                t,
                "derive_readonly"@,
                show::shorted(id) + " <- "@ + show::shorted(r),
                "allow"@,
            )
            &&& res is Err ==> use_laws::only_trail(s, t)
        }),
{
    let (t, res) = s.derived_readonly(r, entropy);
    if res is Ok {
        lemma_derived_active(s, t.caps[res->Ok_0], r);
    }
}

/// A facet is derived just where its origin can be used and is for messages. It posts
/// under the prefix of its origin with the new text after it, and can be used as long as
/// its origin can.
pub proof fn law_derived_facet(s: SessionV, r: Seq<char>, more: Seq<char>, one_shot: bool, entropy: Seq<u8>)
    requires
        s.inv(),
        !s.caps.contains_key(state::cap_id(entropy)),
    ensures
        ({
            let (t, res) = s.derived_msg(r, more, one_shot, entropy);
            let id = "cap_"@ + text::hex(entropy);
            let c = t.caps[id];
            &&& res is Ok <==> !s.broken && state::active(s.caps, r) && s.caps[r].msg is Some
            &&& res is Ok ==> res->Ok_0 == id && only_added(s, t, id) && t.mailboxes == s.mailboxes
            &&& res is Ok ==> c.kind == CapKind::Message && c.msg->0.subject_prefix == s.caps[r].msg->0.subject_prefix
                + more && c.taint == Taint::Green && !c.revoked && c.http is None && c.dir_fd is None && c.argv.len()
                == 0
            &&& res is Ok ==> state::active(t.caps, id)
            &&& res is Ok ==> use_laws::trail_grew(s, t, "derive_message"@, show::shorted(id), "allow"@)
            &&& res is Err ==> use_laws::only_trail(s, t)
        }),
{
    let (t, res) = s.derived_msg(r, more, one_shot, entropy);
    if res is Ok {
        lemma_derived_active(s, t.caps[res->Ok_0], r);
    }
}

/// Revoking marks the one capability and changes no other and nothing else about it; a
/// reference that is not known is refused.
pub proof fn law_revocation_marks_one(s: SessionV, r: Seq<char>, other: Seq<char>)
    ensures
        ({
            let (t, res) = s.revoked(r);
            &&& res is Ok <==> s.caps.contains_key(r)
            &&& res is Ok ==> t.caps == s.caps.insert(r, CapV { revoked: true, ..s.caps[r] })
            &&& res is Err ==> t.caps == s.caps
            &&& other != r && s.caps.contains_key(other) ==> t.caps.contains_key(other) && t.caps[other] == s.caps[other]
            &&& t.mailboxes == s.mailboxes && t.key == s.key && t.l5 == s.l5 && t.broken == s.broken && t.bootstrap
                == s.bootstrap && t.reduced == s.reduced && t.consent == s.consent
            &&& use_laws::trail_grew(s, t, "revoke"@, show::shorted(r), state::verdict(res))
        }),
{
}

/// A new session holds nothing, lets every action pass outright, has no ledger to ask,
/// and runs commands with the usual limits and no change of identity.
pub proof fn law_fresh_session(entropy: Seq<u8>, sink: bool, r: Seq<char>)
    ensures
        ({
            let s = session::fresh(entropy, sink);
            &&& s.key == text::hex(entropy)
            &&& s.sink == sink
            &&& !s.caps.contains_key(r) && !s.mailboxes.contains_key(r)
            &&& s.audit.len() == 0 && s.unsettled == 0 && s.last_ok && s.durable()
            &&& s.bootstrap is None && !s.broken && !s.consent && !s.reduced
            &&& !s.l5.deny_exec && !s.l5.prompt_exec && !s.l5.prompt_http && !s.l5.prompt_post
            &&& s.exec_policy.drop_uid is None && s.exec_policy.drop_gid is None
            &&& s.exec_policy.rlimit_nproc == Some(256u64)
            &&& s.exec_policy.rlimit_fsize_bytes == Some(268435456u64)
            &&& s.exec_policy.rlimit_cpu_secs == Some(60u64)
        }),
{
}

/// What describing a capability says: its reference, its kind, its root and its taint,
/// and whether it was taken away. A reference that is not known is refused.
pub proof fn law_description(s: SessionV, r: Seq<char>)
    ensures
        s.described(r) is Ok <==> s.caps.contains_key(r),
        s.described(r) is Ok && state::active(s.caps, r) ==> s.described(r)->Ok_0 == "<"@ + show::shorted(r) + " "@
            + kind_word(s.caps[r].kind) + " root="@ + s.caps[r].root + " taint="@ + label::taint_text(s.caps[r].taint)
            + ">"@,
        s.described(r) is Ok && !state::active(s.caps, r) ==> s.described(r)->Ok_0 == "<"@ + show::shorted(r) + " "@
            + kind_word(s.caps[r].kind) + " root="@ + s.caps[r].root + " taint="@ + label::taint_text(s.caps[r].taint)
            + " REVOKED>"@,
{
    reveal_strlit("");
    reveal_strlit(" REVOKED");
    reveal_strlit(">");
    reveal_strlit(" REVOKED>");
    let front = "<"@ + show::shorted(r) + " "@ + kind_word(s.caps[r].kind) + " root="@ + s.caps[r].root + " taint="@
        + label::taint_text(s.caps[r].taint);
    assert(front + ""@ =~= front);
    assert(" REVOKED"@ + ">"@ =~= " REVOKED>"@);
    assert(front + " REVOKED"@ + ">"@ =~= front + (" REVOKED"@ + ">"@));
}

/// The word for a kind of capability.
pub open spec fn kind_word(k: CapKind) -> Seq<char> {
    match k {
        CapKind::Dir => "dir"@,
        CapKind::Sink => "sink"@,
        CapKind::Command => "command"@,
        CapKind::Http => "http"@,
        CapKind::Message => "message"@,
    }
}

/// What the wire calls each taint.
pub proof fn law_taint_words(t: Taint)
    ensures
        label::taint_text(t) == match t {
            Taint::Green => "green"@,
            Taint::Yellow => "yellow"@,
            Taint::Project => "project"@,
            Taint::Secret => "secret"@,
            Taint::External => "external"@,
            Taint::AgentGenerated => "agent_generated"@,
        },
{
}

/// What a session is given to begin with is its workspace, as the project's, to read and to
/// list and nothing else; where the host could not open it there is nothing.
pub proof fn law_bootstrap(
    s: SessionV,
    workspace: Seq<char>,
    opened: Result<u64, Seq<char>>,
    entropy: Seq<u8>,
    op: Op,
)
    ensures
        ({
            let t = session::bootstrapped(s, workspace, opened, entropy);
            let id = "cap_"@ + text::hex(entropy);
            let c = t.caps[id];
            &&& opened is Ok ==> t.bootstrap == Some(id) && t.caps.contains_key(id) && c.kind == CapKind::Dir && c.root
                == workspace && c.taint == Taint::Project && c.dir_fd == Some(opened->Ok_0) && c.parent is None
            &&& opened is Ok ==> (c.ops.contains(op) <==> op == Op::Read || op == Op::List)
            &&& opened is Err ==> t.bootstrap is None && t.caps == s.caps
        }),
{
    law_granted_dir(s, workspace, seq![Op::Read, Op::List], Taint::Project, opened, entropy);
    let ops = seq![Op::Read, Op::List];
    assert(ops[0] == Op::Read && ops[1] == Op::List);
    if ops.contains(op) {
        let k = ops.index_of(op);
        assert(k == 0 || k == 1);
    }
}

} // verus!
