//! What holds of requests: what each asks, each field in its own place, which fields
//! it may leave out, and what an incomplete one is told.

use crate::base64;
use crate::label;
use crate::label::{Op, Taint};
use crate::request;
use crate::request::RequestV;
use crate::role::Role;
use crate::text;
use crate::text_laws;
use vstd::prelude::*;
use vstd::utf8::*;

verus! {

/// What a request came to.
pub type Asked = Result<RequestV, Seq<char>>;

/// The words that a request begins with are all different.
pub proof fn lemma_words()
    ensures
        "BOOTSTRAP"@[0] == 'B',
        "GRANT_DIR"@[0] == 'G' && "GRANT_DIR"@[6] == 'D',
        "GRANT_SINK"@[0] == 'G' && "GRANT_SINK"@[6] == 'S',
        "GRANT_HTTP"@[0] == 'G' && "GRANT_HTTP"@[6] == 'H',
        "GRANT_MSG"@[0] == 'G' && "GRANT_MSG"@[6] == 'M',
        "GRANT_CMD"@[0] == 'G' && "GRANT_CMD"@[6] == 'C',
        "DERIVE"@[0] == 'D' && "DERIVE"@.len() == 6,
        "INVOKE"@[0] == 'I',
        "REVOKE"@[0] == 'R',
        "CONSENT_APPROVE"@[0] == 'C' && "CONSENT_APPROVE"@.len() == 15,
        "CONSENT_DENY"@[0] == 'C' && "CONSENT_DENY"@.len() == 12 && "CONSENT_DENY"@[8] == 'D',
        "CONSENT_DESCRIBE"@[0] == 'C' && "CONSENT_DESCRIBE"@.len() == 16,
        "CONSENT_LIST"@[0] == 'C' && "CONSENT_LIST"@.len() == 12 && "CONSENT_LIST"@[8] == 'L',
        "DESCRIBE"@[0] == 'D' && "DESCRIBE"@.len() == 8,
        "AUDIT"@[0] == 'A',
{
    reveal_strlit("BOOTSTRAP");
    reveal_strlit("GRANT_DIR");
    reveal_strlit("GRANT_SINK");
    reveal_strlit("GRANT_HTTP");
    reveal_strlit("GRANT_MSG");
    reveal_strlit("GRANT_CMD");
    reveal_strlit("DERIVE");
    reveal_strlit("INVOKE");
    reveal_strlit("REVOKE");
    reveal_strlit("CONSENT_APPROVE");
    reveal_strlit("CONSENT_DENY");
    reveal_strlit("CONSENT_DESCRIBE");
    reveal_strlit("CONSENT_LIST");
    reveal_strlit("DESCRIBE");
    reveal_strlit("AUDIT");
}

/// The words that say what is to be done with a capability are all different.
proof fn lemma_uses()
    ensures
        "read"@[0] == 'r',
        "list"@[0] == 'l',
        "exec"@[0] == 'e',
        "http_get"@[0] == 'h',
        "send"@[0] == 's',
        "post"@[0] == 'p' && "post"@.len() == 4,
        "post_from"@[0] == 'p' && "post_from"@.len() == 9,
        "mailbox_read"@[0] == 'm',
        "sub"@[0] == 's',
        "readonly"@[0] == 'r',
        "msg_prefix"@[0] == 'm' && "msg_prefix"@.len() == 10,
        "msg_oneshot"@[0] == 'm' && "msg_oneshot"@.len() == 11,
{
    reveal_strlit("read");
    reveal_strlit("list");
    reveal_strlit("exec");
    reveal_strlit("http_get");
    reveal_strlit("send");
    reveal_strlit("post");
    reveal_strlit("post_from");
    reveal_strlit("mailbox_read");
    reveal_strlit("sub");
    reveal_strlit("readonly");
    reveal_strlit("msg_prefix");
    reveal_strlit("msg_oneshot");
}

/// A request to forward what lies below a source, in either role: the message
/// capability, the subject, the source and the path below it each stand in their own
/// place, and without a path the source itself is meant.
pub proof fn law_forward_request(
    role: Role,
    r: Seq<char>,
    subject: Seq<char>,
    src: Seq<char>,
    rel: Seq<char>,
)
    ensures
        request::parsed(role, seq!["INVOKE"@, r, "post_from"@, subject, src, rel]) == Asked::Ok(
            RequestV::PostFrom { r, subject, src, rel },
        ),
        request::parsed(role, seq!["INVOKE"@, r, "post_from"@, subject, src]) == Asked::Ok(
            RequestV::PostFrom { r, subject, src, rel: Seq::empty() },
        ),
        request::parsed(role, seq!["INVOKE"@, r, "post_from"@, subject]) is Err,
        request::parsed(role, seq!["INVOKE"@, r, "post_from"@]) is Err,
{
    lemma_words();
    lemma_uses();
    reveal_strlit("");
    assert(""@ =~= Seq::empty());
    let f = seq!["INVOKE"@, r, "post_from"@, subject, src, rel];
    let g = seq!["INVOKE"@, r, "post_from"@, subject, src];
    let h = seq!["INVOKE"@, r, "post_from"@, subject];
    let k = seq!["INVOKE"@, r, "post_from"@];
    assert(f[0] == "INVOKE"@ && f[1] == r && f[2] == "post_from"@ && f[3] == subject && f[4] == src && f[5] == rel);
    assert(g[0] == "INVOKE"@ && g[1] == r && g[2] == "post_from"@ && g[3] == subject && g[4] == src);
    assert(h[0] == "INVOKE"@ && h[2] == "post_from"@);
    assert(k[0] == "INVOKE"@ && k[2] == "post_from"@);
}

/// A request to read or to list names the capability and then the path below it, and
/// without a path the directory itself is meant.
pub proof fn law_read_and_list_requests(role: Role, r: Seq<char>, rel: Seq<char>)
    ensures
        request::parsed(role, seq!["INVOKE"@, r, "read"@, rel]) == Asked::Ok(RequestV::Read { r, rel }),
        request::parsed(role, seq!["INVOKE"@, r, "read"@]) == Asked::Ok(RequestV::Read { r, rel: Seq::empty() }),
        request::parsed(role, seq!["INVOKE"@, r, "list"@, rel]) == Asked::Ok(RequestV::List { r, rel }),
        request::parsed(role, seq!["INVOKE"@, r, "list"@]) == Asked::Ok(RequestV::List { r, rel: Seq::empty() }),
{
    lemma_words();
    lemma_uses();
    reveal_strlit("");
    assert(""@ =~= Seq::empty());
    let a = seq!["INVOKE"@, r, "read"@, rel];
    let b = seq!["INVOKE"@, r, "read"@];
    let c = seq!["INVOKE"@, r, "list"@, rel];
    let d = seq!["INVOKE"@, r, "list"@];
    assert(a[0] == "INVOKE"@ && a[1] == r && a[2] == "read"@ && a[3] == rel);
    assert(b[0] == "INVOKE"@ && b[1] == r && b[2] == "read"@);
    assert(c[0] == "INVOKE"@ && c[1] == r && c[2] == "list"@ && c[3] == rel);
    assert(d[0] == "INVOKE"@ && d[1] == r && d[2] == "list"@);
}

/// A request to run a command, to fetch a path, or to read a mailbox names the
/// capability, and the path where there is one; without it the root is fetched.
pub proof fn law_use_requests(role: Role, r: Seq<char>, path: Seq<char>)
    ensures
        request::parsed(role, seq!["INVOKE"@, r, "exec"@]) == Asked::Ok(RequestV::Exec { r }),
        request::parsed(role, seq!["INVOKE"@, r, "http_get"@, path]) == Asked::Ok(RequestV::HttpGet { r, path }),
        request::parsed(role, seq!["INVOKE"@, r, "http_get"@]) == Asked::Ok(RequestV::HttpGet { r, path: seq!['/'] }),
        request::parsed(role, seq!["INVOKE"@, r, "mailbox_read"@]) == Asked::Ok(RequestV::MailboxRead { r }),
{
    lemma_words();
    lemma_uses();
    reveal_strlit("/");
    assert("/"@ =~= seq!['/']);
    let a = seq!["INVOKE"@, r, "exec"@];
    let b = seq!["INVOKE"@, r, "http_get"@, path];
    let c = seq!["INVOKE"@, r, "http_get"@];
    let d = seq!["INVOKE"@, r, "mailbox_read"@];
    assert(a[0] == "INVOKE"@ && a[1] == r && a[2] == "exec"@);
    assert(b[0] == "INVOKE"@ && b[1] == r && b[2] == "http_get"@ && b[3] == path);
    assert(c[0] == "INVOKE"@ && c[1] == r && c[2] == "http_get"@);
    assert(d[0] == "INVOKE"@ && d[1] == r && d[2] == "mailbox_read"@);
}

/// Data that is sent arrives as it was, under the taint that was named for it: whoever
/// sends bytes in base64 asks to send those very bytes. A taint that is left out is
/// green, and data that is left out is empty.
pub proof fn law_sent_data_survives(role: Role, r: Seq<char>, t: Taint, data: Seq<u8>)
    ensures
        request::parsed(
            role,
            seq!["INVOKE"@, r, "send"@, label::taint_text(t), base64::encoded(data)],
        ) == Asked::Ok(RequestV::Send { r, taint: t, data }),
        request::parsed(role, seq!["INVOKE"@, r, "send"@, label::taint_text(t)]) == Asked::Ok(
            RequestV::Send { r, taint: t, data: Seq::empty() },
        ),
        request::parsed(role, seq!["INVOKE"@, r, "send"@]) == Asked::Ok(
            RequestV::Send { r, taint: Taint::Green, data: Seq::empty() },
        ),
{
    lemma_words();
    lemma_uses();
    base64::law_base64_round_trip(data);
    base64::law_base64_round_trip(Seq::empty());
    label::law_taint_round_trip(t);
    label::law_taint_round_trip(Taint::Green);
    reveal_strlit("");
    assert(base64::encoded(Seq::empty()) =~= ""@);
    let a = seq!["INVOKE"@, r, "send"@, label::taint_text(t), base64::encoded(data)];
    let b = seq!["INVOKE"@, r, "send"@, label::taint_text(t)];
    let c = seq!["INVOKE"@, r, "send"@];
    assert(a[0] == "INVOKE"@ && a[1] == r && a[2] == "send"@ && a[3] == label::taint_text(t) && a[4]
        == base64::encoded(data));
    assert(b[0] == "INVOKE"@ && b[1] == r && b[2] == "send"@ && b[3] == label::taint_text(t));
    assert(c[0] == "INVOKE"@ && c[1] == r && c[2] == "send"@);
}

/// A message without a body is one with an empty body, and one without a subject is
/// refused.
pub proof fn law_post_may_be_empty(role: Role, r: Seq<char>, subject: Seq<char>)
    ensures
        request::parsed(role, seq!["INVOKE"@, r, "post"@, subject]) == Asked::Ok(
            RequestV::Post { r, subject, body: Seq::empty() },
        ),
        request::parsed(role, seq!["INVOKE"@, r, "post"@]) is Err,
{
    lemma_words();
    lemma_uses();
    base64::law_base64_round_trip(Seq::empty());
    text::lemma_lossy_of_text(Seq::empty());
    reveal_strlit("");
    assert(base64::encoded(Seq::empty()) =~= ""@);
    assert(encode_utf8(Seq::<char>::empty()) =~= Seq::<u8>::empty());
    let a = seq!["INVOKE"@, r, "post"@, subject];
    let b = seq!["INVOKE"@, r, "post"@];
    assert(a[0] == "INVOKE"@ && a[1] == r && a[2] == "post"@ && a[3] == subject);
    assert(b[0] == "INVOKE"@ && b[1] == r && b[2] == "post"@);
}

/// A request to derive names the capability, the way, and what the way needs.
pub proof fn law_derive_requests(role: Role, r: Seq<char>, what: Seq<char>)
    ensures
        request::parsed(role, seq!["DERIVE"@, r, "sub"@, what]) == Asked::Ok(RequestV::DeriveSub { r, seg: what }),
        request::parsed(role, seq!["DERIVE"@, r, "sub"@]) is Err,
        request::parsed(role, seq!["DERIVE"@, r, "readonly"@]) == Asked::Ok(RequestV::DeriveReadonly { r }),
        request::parsed(role, seq!["DERIVE"@, r, "msg_prefix"@, what]) == Asked::Ok(
            RequestV::DeriveMsgPrefix { r, prefix: what },
        ),
        request::parsed(role, seq!["DERIVE"@, r, "msg_prefix"@]) is Err,
        request::parsed(role, seq!["DERIVE"@, r, "msg_oneshot"@]) == Asked::Ok(RequestV::DeriveMsgOneshot { r }),
{
    lemma_words();
    lemma_uses();
    let a = seq!["DERIVE"@, r, "sub"@, what];
    let b = seq!["DERIVE"@, r, "sub"@];
    let c = seq!["DERIVE"@, r, "readonly"@];
    let d = seq!["DERIVE"@, r, "msg_prefix"@, what];
    let e = seq!["DERIVE"@, r, "msg_prefix"@];
    let g = seq!["DERIVE"@, r, "msg_oneshot"@];
    assert(a[0] == "DERIVE"@ && a[1] == r && a[2] == "sub"@ && a[3] == what);
    assert(b[0] == "DERIVE"@ && b[2] == "sub"@);
    assert(c[0] == "DERIVE"@ && c[1] == r && c[2] == "readonly"@);
    assert(d[0] == "DERIVE"@ && d[1] == r && d[2] == "msg_prefix"@ && d[3] == what);
    assert(e[0] == "DERIVE"@ && e[2] == "msg_prefix"@);
    assert(g[0] == "DERIVE"@ && g[1] == r && g[2] == "msg_oneshot"@);
}

/// What each role may ask without naming a use: to be handed its root, to revoke or
/// describe a capability, and to read the trail.
pub proof fn law_plain_requests(role: Role, r: Seq<char>)
    ensures
        request::parsed(role, seq!["BOOTSTRAP"@]) == Asked::Ok(RequestV::Bootstrap),
        request::parsed(role, seq!["REVOKE"@, r]) == Asked::Ok(RequestV::Revoke { r }),
        request::parsed(role, seq!["REVOKE"@]) is Err,
        request::parsed(role, seq!["DESCRIBE"@, r]) == Asked::Ok(RequestV::Describe { r }),
        request::parsed(role, seq!["DESCRIBE"@]) is Err,
        request::parsed(role, seq!["AUDIT"@]) == Asked::Ok(RequestV::Audit),
{
    lemma_words();
    assert(seq!["REVOKE"@, r][1] == r && seq!["DESCRIBE"@, r][1] == r);
    assert(seq!["REVOKE"@, r][0] == "REVOKE"@ && seq!["DESCRIBE"@, r][0] == "DESCRIBE"@);
    assert(seq!["REVOKE"@][0] == "REVOKE"@ && seq!["DESCRIBE"@][0] == "DESCRIBE"@);
    assert(seq!["BOOTSTRAP"@][0] == "BOOTSTRAP"@ && seq!["AUDIT"@][0] == "AUDIT"@);
}

/// The control side settles, describes and lists requests for consent, each by its id;
/// a guest does none of it, whatever it sends along.
pub proof fn law_consent_requests(id: Seq<char>, f: Seq<Seq<char>>)
    ensures
        request::parsed(Role::Control, seq!["CONSENT_APPROVE"@, id]) == Asked::Ok(RequestV::ConsentApprove { id }),
        request::parsed(Role::Control, seq!["CONSENT_DENY"@, id]) == Asked::Ok(RequestV::ConsentDeny { id }),
        request::parsed(Role::Control, seq!["CONSENT_DESCRIBE"@, id]) == Asked::Ok(RequestV::ConsentDescribe { id }),
        request::parsed(Role::Control, seq!["CONSENT_LIST"@]) == Asked::Ok(RequestV::ConsentList),
        f.len() > 0 && (f[0] == "CONSENT_APPROVE"@ || f[0] == "CONSENT_DENY"@ || f[0] == "CONSENT_DESCRIBE"@ || f[0]
            == "CONSENT_LIST"@) ==> request::parsed(Role::Guest, f) is Err,
{
    lemma_words();
    let a = seq!["CONSENT_APPROVE"@, id];
    let b = seq!["CONSENT_DENY"@, id];
    let c = seq!["CONSENT_DESCRIBE"@, id];
    let d = seq!["CONSENT_LIST"@];
    assert(a[0] == "CONSENT_APPROVE"@ && a[1] == id);
    assert(b[0] == "CONSENT_DENY"@ && b[1] == id);
    assert(c[0] == "CONSENT_DESCRIBE"@ && c[1] == id);
    assert(d[0] == "CONSENT_LIST"@);
}

/// What a guest is told that asks to mint, whatever it asks for, and that nobody is
/// given what no word stands for.
pub proof fn law_refused_requests(role: Role, f: Seq<Seq<char>>)
    requires
        f.len() > 0,
    ensures
        f[0] == "GRANT_DIR"@ || f[0] == "GRANT_SINK"@ || f[0] == "GRANT_HTTP"@ || f[0] == "GRANT_MSG"@ || f[0]
            == "GRANT_CMD"@ ==> request::parsed(Role::Guest, f) is Err,
        f[0] != "BOOTSTRAP"@ && f[0] != "GRANT_DIR"@ && f[0] != "GRANT_SINK"@ && f[0] != "GRANT_HTTP"@ && f[0]
            != "GRANT_MSG"@ && f[0] != "GRANT_CMD"@ && f[0] != "DERIVE"@ && f[0] != "INVOKE"@ && f[0] != "REVOKE"@
            && f[0] != "CONSENT_APPROVE"@ && f[0] != "CONSENT_DENY"@ && f[0] != "CONSENT_DESCRIBE"@ && f[0]
            != "CONSENT_LIST"@ && f[0] != "DESCRIBE"@ && f[0] != "AUDIT"@ ==> request::parsed(role, f) == Asked::Err(
            "未知 verb "@ + f[0],
        ),
        f[0] == "INVOKE"@ && f.len() >= 3 && f[2] != "read"@ && f[2] != "list"@ && f[2] != "exec"@ && f[2]
            != "http_get"@ && f[2] != "send"@ && f[2] != "post"@ && f[2] != "post_from"@ && f[2] != "mailbox_read"@
            ==> request::parsed(role, f) == Asked::Err("未知 INVOKE verb "@ + f[2]),
        f[0] == "DERIVE"@ && f.len() >= 3 && f[2] != "sub"@ && f[2] != "readonly"@ && f[2] != "msg_prefix"@ && f[2]
            != "msg_oneshot"@ ==> request::parsed(role, f) == Asked::Err("未知 DERIVE "@ + f[2]),
        (f[0] == "INVOKE"@ || f[0] == "DERIVE"@) && f.len() < 3 ==> request::parsed(role, f) is Err,
{
    lemma_words();
}

/// The name of an operation in a list.
pub open spec fn op_name(op: Op) -> Seq<char> {
    match op {
        Op::Read => "read"@,
        Op::Write => "write"@,
        Op::Delete => "delete"@,
        Op::List => "list"@,
        Op::Exec => "exec"@,
    }
}

/// The names of operations.
pub open spec fn op_names(ops: Seq<Op>) -> Seq<Seq<char>> {
    ops.map_values(|op: Op| op_name(op))
}

proof fn lemma_op_name(op: Op)
    ensures
        label::op_of(op_name(op)) == Some(op),
        !op_name(op).contains(','),
        op_name(op).len() > 0,
{
    reveal_strlit("read");
    reveal_strlit("write");
    reveal_strlit("delete");
    reveal_strlit("list");
    reveal_strlit("exec");
    assert("read"@[0] == 'r');
    assert("write"@[0] == 'w');
    assert("delete"@[0] == 'd');
    assert("list"@[0] == 'l');
    assert("exec"@[0] == 'e');
    let n = op_name(op);
    lemma_trim_plain(n);
}

proof fn lemma_trim_plain(s: Seq<char>)
    requires
        s.len() > 0,
        !text::is_space(s[0]),
        !text::is_space(s.last()),
    ensures
        text::trimmed(s) == s,
{
    let p = |c: char| text::is_space(c);
    assert(text::strip_front(s, p) == s);
    assert(text::strip_back(s, p) == s);
}

proof fn lemma_ops_of_names(ops: Seq<Op>)
    ensures
        label::ops_of(op_names(ops)) == ops,
    decreases ops.len(),
{
    if ops.len() == 0 {
        assert(label::ops_of(op_names(ops)) =~= ops);
    } else {
        lemma_ops_of_names(ops.drop_last());
        lemma_op_name(ops.last());
        assert(op_names(ops).drop_last() =~= op_names(ops.drop_last()));
        assert(ops.drop_last().push(ops.last()) =~= ops);
    }
}

/// The operations of a capability are read from a list of their names in the order of
/// the list, none added and none left out.
pub proof fn law_ops_round_trip(ops: Seq<Op>)
    requires
        ops.len() > 0,
    ensures
        label::ops_of(text::split_on(text::join_with(op_names(ops), ","@), ',')) == ops,
{
    reveal_strlit(",");
    assert(","@ =~= seq![',']);
    assert forall|i: int| 0 <= i < op_names(ops).len() implies !(#[trigger] op_names(ops)[i]).contains(',') by {
        lemma_op_name(ops[i]);
    }
    text::lemma_split_join(op_names(ops), ',');
    lemma_ops_of_names(ops);
}

/// A name that stands for no operation adds none to what a list grants, wherever in it
/// it stands.
pub proof fn law_unknown_op_grants_nothing(before: Seq<Seq<char>>, name: Seq<char>, after: Seq<Seq<char>>)
    requires
        forall|op: Op| text::trimmed(name) != #[trigger] op_name(op),
    ensures
        label::ops_of(before + seq![name] + after) == label::ops_of(before + after),
    decreases after.len(),
{
    assert(text::trimmed(name) != op_name(Op::Read));
    assert(text::trimmed(name) != op_name(Op::Write));
    assert(text::trimmed(name) != op_name(Op::Delete));
    assert(text::trimmed(name) != op_name(Op::List));
    assert(text::trimmed(name) != op_name(Op::Exec));
    let all = before + seq![name] + after;
    if after.len() == 0 {
        assert(all.drop_last() =~= before);
        assert(before + after =~= before);
    } else {
        let rest = after.drop_last();
        law_unknown_op_grants_nothing(before, name, rest);
        assert(all.drop_last() =~= before + seq![name] + rest);
        assert((before + after).drop_last() =~= before + rest);
    }
}

/// The control side grants a directory with the operations and the taint that it
/// names: reading where it names none, and the project's taint.
pub proof fn law_grant_dir_request(root: Seq<char>, ops: Seq<Op>, t: Taint)
    requires
        ops.len() > 0,
    ensures
        ({
            let names = text::join_with(op_names(ops), ","@);
            &&& request::parsed(Role::Control, seq!["GRANT_DIR"@, root, names, label::taint_text(t)]) == Asked::Ok(
                RequestV::GrantDir { root, ops, taint: t },
            )
            &&& request::parsed(Role::Control, seq!["GRANT_DIR"@, root, names]) == Asked::Ok(
                RequestV::GrantDir { root, ops, taint: Taint::Project },
            )
            &&& request::parsed(Role::Control, seq!["GRANT_DIR"@, root]) == Asked::Ok(
                RequestV::GrantDir { root, ops: seq![Op::Read], taint: Taint::Project },
            )
            &&& request::parsed(Role::Control, seq!["GRANT_DIR"@]) is Err
        }),
{
    lemma_words();
    let names = text::join_with(op_names(ops), ","@);
    law_ops_round_trip(ops);
    law_ops_round_trip(seq![Op::Read]);
    assert(op_names(seq![Op::Read]) =~= seq!["read"@]);
    label::law_taint_round_trip(t);
    label::law_taint_round_trip(Taint::Project);
    let a = seq!["GRANT_DIR"@, root, names, label::taint_text(t)];
    let b = seq!["GRANT_DIR"@, root, names];
    let c = seq!["GRANT_DIR"@, root];
    assert(a[0] == "GRANT_DIR"@ && a[1] == root && a[2] == names && a[3] == label::taint_text(t));
    assert(b[0] == "GRANT_DIR"@ && b[1] == root && b[2] == names);
    assert(c[0] == "GRANT_DIR"@ && c[1] == root);
    assert(seq!["GRANT_DIR"@][0] == "GRANT_DIR"@);
}

/// The control side grants a sink and a message capability by name.
pub proof fn law_grant_by_name_requests(name: Seq<char>)
    ensures
        request::parsed(Role::Control, seq!["GRANT_SINK"@, name]) == Asked::Ok(RequestV::GrantSink { name }),
        request::parsed(Role::Control, seq!["GRANT_SINK"@]) is Err,
        request::parsed(Role::Control, seq!["GRANT_MSG"@, name]) == Asked::Ok(RequestV::GrantMsg { recipient: name }),
        request::parsed(Role::Control, seq!["GRANT_MSG"@]) is Err,
{
    lemma_words();
    let a = seq!["GRANT_SINK"@, name];
    let b = seq!["GRANT_MSG"@, name];
    assert(a[0] == "GRANT_SINK"@ && a[1] == name && b[0] == "GRANT_MSG"@ && b[1] == name);
    assert(seq!["GRANT_SINK"@][0] == "GRANT_SINK"@ && seq!["GRANT_MSG"@][0] == "GRANT_MSG"@);
}

/// Whether a text can stand as one argument among others.
pub open spec fn argument(s: Seq<char>) -> bool {
    s.len() > 0 && !s.contains('\u{1f}')
}

/// The control side grants a command in a directory: the arguments are the texts
/// between the unit separators, in order.
pub proof fn law_grant_cmd_request(cwd: Seq<char>, argv: Seq<Seq<char>>)
    requires
        argv.len() > 0,
        forall|i: int| 0 <= i < argv.len() ==> argument(#[trigger] argv[i]),
    ensures
        request::parsed(
            Role::Control,
            seq!["GRANT_CMD"@, cwd, text::join_with(argv, seq!['\u{1f}'])],
        ) == Asked::Ok(RequestV::GrantCmd { cwd, argv }),
        request::parsed(Role::Control, seq!["GRANT_CMD"@, cwd]) == Asked::Ok(
            RequestV::GrantCmd { cwd, argv: Seq::empty() },
        ),
        request::parsed(Role::Control, seq!["GRANT_CMD"@]) is Err,
{
    lemma_words();
    let us = '\u{1f}';
    let keep = |a: Seq<char>| a.len() > 0;
    assert forall|i: int| 0 <= i < argv.len() implies !(#[trigger] argv[i]).contains(us) by {
        assert(argument(argv[i]));
    }
    text::lemma_split_join(argv, us);
    assert forall|i: int| 0 <= i < argv.len() implies keep(#[trigger] argv[i]) by {
        assert(argument(argv[i]));
    }
    lemma_keep_all(argv, keep);
    reveal_strlit("");
    assert(""@ =~= Seq::empty());
    assert(request::argv_of(""@) =~= Seq::empty()) by {
        reveal(Seq::filter);
        reveal_with_fuel(Seq::filter, 2);
        let one = text::split_on(""@, us);
        assert(one =~= seq![Seq::empty()]);
        assert(one.drop_last() =~= Seq::empty());
    }
    let a = seq!["GRANT_CMD"@, cwd, text::join_with(argv, seq![us])];
    let b = seq!["GRANT_CMD"@, cwd];
    assert(a[0] == "GRANT_CMD"@ && a[1] == cwd && a[2] == text::join_with(argv, seq![us]));
    assert(b[0] == "GRANT_CMD"@ && b[1] == cwd);
    assert(seq!["GRANT_CMD"@][0] == "GRANT_CMD"@);
}

proof fn lemma_keep_all(s: Seq<Seq<char>>, keep: spec_fn(Seq<char>) -> bool)
    requires
        forall|i: int| 0 <= i < s.len() ==> keep(#[trigger] s[i]),
    ensures
        s.filter(keep) == s,
    decreases s.len(),
{
    reveal(Seq::filter);
    if s.len() > 0 {
        assert forall|i: int| 0 <= i < s.drop_last().len() implies keep(#[trigger] s.drop_last()[i]) by {
            assert(keep(s[i]));
        }
        lemma_keep_all(s.drop_last(), keep);
        assert(keep(s[s.len() - 1]));
        assert(s.drop_last().push(s.last()) =~= s);
    } else {
        assert(s.filter(keep) =~= s);
    }
}

/// Whether a text is a method as it is sent: capital letters.
pub open spec fn method(s: Seq<char>) -> bool {
    s.len() > 0 && forall|i: int| 0 <= i < s.len() ==> 'A' <= #[trigger] s[i] <= 'Z'
}

proof fn lemma_method(m: Seq<char>)
    requires
        method(m),
    ensures
        !m.contains(','),
        text::upper(text::trimmed(m)) == m,
{
    lemma_trim_plain(m);
    assert(is_ascii_chars(m)) by {
        assert forall|i: int| 0 <= i < m.len() implies '\0' <= #[trigger] m[i] <= '\u{7f}' by {}
    }
    assert(m.map_values(|c: char| text::upper_char(c)) =~= m);
}

/// The control side grants a network capability: scheme, host, port, the methods
/// between commas, the path patterns between unit separators, and the most bytes that
/// are taken, each from its own field. What is left out is `GET`, everything, and a
/// mebibyte.
pub proof fn law_grant_http_request(
    scheme: Seq<char>,
    host: Seq<char>,
    port: u16,
    methods: Seq<Seq<char>>,
    paths: Seq<Seq<char>>,
    max_bytes: usize,
)
    requires
        methods.len() > 0 && paths.len() > 0,
        forall|i: int| 0 <= i < methods.len() ==> method(#[trigger] methods[i]),
        forall|i: int| 0 <= i < paths.len() ==> !(#[trigger] paths[i]).contains('\u{1f}'),
    ensures
        ({
            let m = text::join_with(methods, ","@);
            let p = text::join_with(paths, seq!['\u{1f}']);
            let n = text::dec(port as nat);
            &&& request::parsed(
                Role::Control,
                seq!["GRANT_HTTP"@, scheme, host, n, m, p, text::dec(max_bytes as nat)],
            ) == Asked::Ok(RequestV::GrantHttp { scheme, host, port, methods, paths, max_bytes })
            &&& request::parsed(Role::Control, seq!["GRANT_HTTP"@, scheme, host, n, m, p]) == Asked::Ok(
                RequestV::GrantHttp { scheme, host, port, methods, paths, max_bytes: 1048576 },
            )
            &&& request::parsed(Role::Control, seq!["GRANT_HTTP"@, scheme, host, n, m]) == Asked::Ok(
                RequestV::GrantHttp { scheme, host, port, methods, paths: seq!["/**"@], max_bytes: 1048576 },
            )
            &&& request::parsed(Role::Control, seq!["GRANT_HTTP"@, scheme, host, n]) == Asked::Ok(
                RequestV::GrantHttp {
                    scheme,
                    host,
                    port,
                    methods: seq!["GET"@],
                    paths: seq!["/**"@],
                    max_bytes: 1048576,
                },
            )
        }),
{
    lemma_words();
    let us = '\u{1f}';
    let m = text::join_with(methods, ","@);
    let p = text::join_with(paths, seq![us]);
    let n = text::dec(port as nat);
    let b = text::dec(max_bytes as nat);
    let up = |x: Seq<char>| text::upper(text::trimmed(x));
    reveal_strlit(",");
    reveal_strlit("GET");
    reveal_strlit("/**");
    assert(","@ =~= seq![',']);
    text::law_number_round_trip(port as nat, 65535);
    text::law_number_round_trip(max_bytes as nat, usize::MAX as nat);
    text::lemma_split_join(paths, us);
    assert(!"/**"@.contains(us));
    text::lemma_split_on_single("/**"@, us);
    assert(method("GET"@));
    lemma_method("GET"@);
    text::lemma_split_on_single("GET"@, ',');
    assert(request::methods_of("GET"@) =~= seq!["GET"@]);
    assert forall|i: int| 0 <= i < methods.len() implies !(#[trigger] methods[i]).contains(',') by {
        lemma_method(methods[i]);
    }
    text::lemma_split_join(methods, ',');
    assert forall|i: int| 0 <= i < methods.len() implies #[trigger] methods.map_values(up)[i] == methods[i] by {
        lemma_method(methods[i]);
    }
    assert(methods.map_values(up) =~= methods);
    let f = seq!["GRANT_HTTP"@, scheme, host, n, m, p, b];
    let g = seq!["GRANT_HTTP"@, scheme, host, n, m, p];
    let h = seq!["GRANT_HTTP"@, scheme, host, n, m];
    let k = seq!["GRANT_HTTP"@, scheme, host, n];
    assert(f[0] == "GRANT_HTTP"@ && f[1] == scheme && f[2] == host && f[3] == n && f[4] == m && f[5] == p && f[6] == b);
    assert(g[0] == "GRANT_HTTP"@ && g[1] == scheme && g[2] == host && g[3] == n && g[4] == m && g[5] == p);
    assert(h[0] == "GRANT_HTTP"@ && h[1] == scheme && h[2] == host && h[3] == n && h[4] == m);
    assert(k[0] == "GRANT_HTTP"@ && k[1] == scheme && k[2] == host && k[3] == n);
}

/// A network capability without a scheme, a host and a port that is a number below
/// 65536 is not asked for.
pub proof fn law_grant_http_needs_origin(f: Seq<Seq<char>>)
    requires
        f.len() > 0,
        f[0] == "GRANT_HTTP"@,
    ensures
        request::parsed(Role::Control, f) is Ok <==> f.len() >= 4 && text::parse_dec(f[3], 65535) is Some,
{
    lemma_words();
}

/// Fields without tabs that are sent with tabs between them are the fields that are
/// read.
pub proof fn law_fields_survive_the_wire(role: Role, f: Seq<Seq<char>>)
    requires
        f.len() > 0,
        forall|i: int| 0 <= i < f.len() ==> !(#[trigger] f[i]).contains('\t'),
    ensures
        request::parsed(role, text::split_on(text::join_with(f, "\t"@), '\t')) == request::parsed(role, f),
{
    reveal_strlit("\t");
    assert("\t"@ =~= seq!['\t']);
    text::lemma_split_join(f, '\t');
}

/// White space around the name of an operation does not count.
pub proof fn law_op_names_are_trimmed(before: Seq<char>, op: Op, after: Seq<char>)
    requires
        text_laws::blank(before),
        text_laws::blank(after),
    ensures
        label::op_of(before + op_name(op) + after) == Some(op),
{
    lemma_op_name(op);
    let n = op_name(op);
    reveal_strlit("read");
    reveal_strlit("write");
    reveal_strlit("delete");
    reveal_strlit("list");
    reveal_strlit("exec");
    assert(!text::is_space(n[0]) && !text::is_space(n.last()));
    text_laws::law_trimming(before, n, after);
    lemma_trim_plain(n);
}

/// A method is taken without the white space around it and in capital letters, however it
/// is written.
pub proof fn law_methods_are_capital(before: Seq<char>, m: Seq<char>, after: Seq<char>, i: int)
    requires
        text_laws::blank(before) && !before.contains(','),
        text_laws::blank(after) && !after.contains(','),
        m.len() > 0,
        forall|k: int| 0 <= k < m.len() ==> ('a' <= #[trigger] m[k] <= 'z') || ('A' <= m[k] <= 'Z'),
        0 <= i < m.len(),
    ensures
        ({
            let ms = request::methods_of(before + m + after);
            &&& ms.len() == 1
            &&& ms[0].len() == m.len()
            &&& 'a' <= m[i] <= 'z' ==> ms[0][i] as u32 == m[i] as u32 - 32
            &&& 'A' <= m[i] <= 'Z' ==> ms[0][i] == m[i]
        }),
{
    let s = before + m + after;
    text_laws::law_trimming(before, m, after);
    assert(!s.contains(',')) by {
        if s.contains(',') {
            let k = s.index_of(',');
            if k < before.len() {
                assert(before[k] == ',');
            } else if k < before.len() + m.len() {
                assert(m[k - before.len()] == ',');
            } else {
                assert(after[k - before.len() - m.len()] == ',');
            }
        }
    }
    text::lemma_split_on_single(s, ',');
    assert(is_ascii_chars(m)) by {
        assert forall|k: int| 0 <= k < m.len() implies '\0' <= #[trigger] m[k] <= '\u{7f}' by {}
    }
    text_laws::law_upper_case(m, i);
}

/// An empty argument is no argument, wherever it stands.
pub proof fn law_empty_arguments_fall_away(before: Seq<char>, after: Seq<char>)
    ensures
        request::argv_of(before + seq!['\u{1f}'] + after) == request::argv_of(before) + request::argv_of(after),
        request::argv_of(Seq::empty()) == Seq::<Seq<char>>::empty(),
    decreases after.len(),
{
    let us = '\u{1f}';
    let keep = |a: Seq<char>| a.len() > 0;
    let s = before + seq![us] + after;
    lemma_split_apart(before, us, after);
    Seq::filter_distributes_over_add(text::split_on(before, us), text::split_on(after, us), keep);
    reveal(Seq::filter);
    let no = text::split_on(Seq::empty(), us);
    assert(no =~= seq![Seq::empty()]);
    assert(no.drop_last() =~= Seq::empty());
    assert(Seq::<Seq<char>>::empty().filter(keep) =~= Seq::empty());
    assert(no.filter(keep) =~= Seq::empty());
}

/// Splitting two texts with the separator between them splits each.
pub proof fn lemma_split_apart(a: Seq<char>, c: char, b: Seq<char>)
    ensures
        text::split_on(a + seq![c] + b, c) == text::split_on(a, c) + text::split_on(b, c),
    decreases b.len(),
{
    let whole = a + seq![c] + b;
    let x = text::split_on(a, c);
    if b.len() == 0 {
        assert(whole.drop_last() =~= a);
        assert(x.push(Seq::empty()) =~= x + text::split_on(b, c));
    } else {
        let t = b.drop_last();
        let y = text::split_on(t, c);
        lemma_split_apart(a, c, t);
        text::lemma_split_on_nonempty(t, c);
        assert(whole.drop_last() =~= a + seq![c] + t);
        assert(whole.last() == b.last());
        if b.last() == c {
            assert((x + y).push(Seq::empty()) =~= x + y.push(Seq::empty()));
        } else {
            assert((x + y).drop_last() =~= x + y.drop_last());
            assert((x + y).last() == y.last());
            let last = y.last().push(b.last());
            assert((x + y.drop_last()).push(last) =~= x + y.drop_last().push(last));
        }
    }
}

/// A size that is no number counts as left out.
pub proof fn law_bad_size_is_left_out(f: Seq<Seq<char>>)
    requires
        f.len() >= 7,
        f[0] == "GRANT_HTTP"@,
        text::parse_dec(f[3], 65535) is Some,
        text::parse_dec(f[6], usize::MAX as nat) is None,
    ensures
        request::parsed(Role::Control, f) == request::parsed(Role::Control, f.take(6)),
        request::parsed(Role::Control, f) is Ok,
        request::parsed(Role::Control, f)->Ok_0->GrantHttp_max_bytes == 1048576,
{
    lemma_words();
    let g = f.take(6);
    assert(g[0] == f[0] && g[1] == f[1] && g[2] == f[2] && g[3] == f[3] && g[4] == f[4] && g[5] == f[5]);
}

} // verus!
