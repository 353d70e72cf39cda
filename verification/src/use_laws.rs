//! What holds of the use of capabilities: when each use is let pass, what the host is
//! then handed, under which taint data comes back, and what stays as it was.

use crate::audit;
use crate::cap::{CapKind, CapV, MsgV, PostedV};
use crate::label::{Op, Taint};
use crate::net;
use crate::path;
use crate::session;
use crate::show;
use crate::state;
use crate::state::{FetchV, LookupV, ReadV, SessionV};
use crate::text;
use vstd::prelude::*;
use vstd::utf8::*;

verus! {

/// Whether `mark` stands in a text, character by character, at some place.
pub open spec fn occurs(s: Seq<char>, mark: Seq<char>) -> bool {
    exists|i: int| #[trigger] occurs_at(s, mark, i)
}

/// Whether `mark` stands in a text at this place.
pub open spec fn occurs_at(s: Seq<char>, mark: Seq<char>, i: int) -> bool {
    &&& 0 <= i
    &&& i + mark.len() <= s.len()
    &&& forall|j: int| 0 <= j < mark.len() ==> s[i + j] == #[trigger] mark[j]
}

/// Whether a path has the mark of one that holds secrets.
pub open spec fn marked_secret(p: Seq<char>) -> bool {
    ||| occurs(p, ".ssh"@)
    ||| occurs(p, ".aws"@)
    ||| occurs(p, ".gnupg"@)
    ||| occurs(p, ".env"@)
    ||| occurs(p, "secret"@)
    ||| occurs(p, "vault"@)
    ||| occurs(p, "id_rsa"@)
    ||| occurs(p, "id_ed25519"@)
    ||| occurs(p, "credential"@)
    ||| occurs(p, ".pem"@)
}

proof fn lemma_occurs(s: Seq<char>, mark: Seq<char>)
    ensures
        text::holds_text(s, mark) <==> occurs(s, mark),
{
    if text::holds_text(s, mark) {
        let i = choose|i: int|
            0 <= i && i + mark.len() <= s.len() && #[trigger] s.subrange(i, i + mark.len()) == mark;
        assert forall|j: int| 0 <= j < mark.len() implies s[i + j] == #[trigger] mark[j] by {
            assert(s.subrange(i, i + mark.len())[j] == s[i + j]);
        }
        assert(occurs_at(s, mark, i));
    }
    if occurs(s, mark) {
        let i = choose|i: int| #[trigger] occurs_at(s, mark, i);
        assert(s.subrange(i, i + mark.len()) =~= mark);
    }
}

/// A path holds secrets just where one of ten marks stands in it.
pub proof fn law_secret_marks(p: Seq<char>)
    ensures
        path::secret_path(p) <==> marked_secret(p),
{
    let m = path::secret_marks();
    lemma_occurs(p, ".ssh"@);
    lemma_occurs(p, ".aws"@);
    lemma_occurs(p, ".gnupg"@);
    lemma_occurs(p, ".env"@);
    lemma_occurs(p, "secret"@);
    lemma_occurs(p, "vault"@);
    lemma_occurs(p, "id_rsa"@);
    lemma_occurs(p, "id_ed25519"@);
    lemma_occurs(p, "credential"@);
    lemma_occurs(p, ".pem"@);
    assert(m[0] == ".ssh"@ && m[1] == ".aws"@ && m[2] == ".gnupg"@ && m[3] == ".env"@ && m[4] == "secret"@);
    assert(m[5] == "vault"@ && m[6] == "id_rsa"@ && m[7] == "id_ed25519"@ && m[8] == "credential"@ && m[9]
        == ".pem"@);
}

/// What is read is marked with the taint of the capability wherever neither its root
/// nor the path below has the mark of secrets, and as secret where one has. So a read
/// through a capability that is secret is always secret, and no read is marked with
/// anything but these two.
pub proof fn law_read_taint(s: SessionV, r: Seq<char>, rel: Seq<char>)
    requires
        s.read_check(r, rel) is Ok,
    ensures
        ({
            let p = s.read_check(r, rel)->Ok_0;
            let c = s.caps[r];
            &&& marked_secret(c.root + "/"@ + rel) ==> p.taint == Taint::Secret
            &&& !marked_secret(c.root + "/"@ + rel) ==> p.taint == c.taint
            &&& c.taint == Taint::Secret ==> p.taint == Taint::Secret
            &&& s.read_begun(r, rel).1 == Ok::<ReadV, Seq<char>>(p)
        }),
{
    law_secret_marks(s.caps[r].root + "/"@ + rel);
}

/// Whether a path names something at or below where it starts.
pub open spec fn inward(rel: Seq<char>) -> bool {
    (rel.len() > 0 ==> rel[0] != '/') && forall|i: int|
        0 <= i < text::split_on(rel, '/').len() ==> #[trigger] text::split_on(rel, '/')[i] != ".."@
}

/// Joining a path to a root passes just where the path leads inwards.
pub proof fn lemma_inward(root: Seq<char>, rel: Seq<char>)
    ensures
        path::joined(root, rel) is Ok <==> inward(rel),
{
    reveal_strlit("/");
    let parts = text::split_on(rel, '/');
    if rel.len() > 0 {
        assert(rel.take(1)[0] == rel[0]);
        assert(rel[0] == '/' ==> rel.take(1) =~= "/"@);
    }
    if parts.contains(".."@) {
        assert(parts[parts.index_of(".."@)] == ".."@);
    }
    if !inward(rel) && !text::starts(rel, "/"@) {
        let i = choose|i: int| 0 <= i < parts.len() && #[trigger] parts[i] == ".."@;
        assert(parts.contains(".."@));
    }
}

/// Reading below a directory passes just where nothing has gone wrong with the trail,
/// the capability is active and allows it, holds a directory, and the path leads
/// neither to the root of the system nor upwards. The host is then handed that path
/// below that directory. Of listing the same holds with its own permission and the
/// taint of the capability.
pub proof fn law_reading_passes(s: SessionV, r: Seq<char>, rel: Seq<char>)
    ensures
        ({
            let c = s.caps[r];
            let open = !s.broken && state::active(s.caps, r) && inward(rel) && c.dir_fd is Some;
            let read = s.read_check(r, rel);
            let list = s.list_check(r, rel);
            &&& read is Ok <==> open && c.ops.contains(Op::Read)
            &&& list is Ok <==> open && c.ops.contains(Op::List)
            &&& read is Ok ==> read->Ok_0.r == r && read->Ok_0.rel == rel && Some(read->Ok_0.fd) == c.dir_fd
            &&& list is Ok ==> list->Ok_0.r == r && list->Ok_0.rel == rel && Some(list->Ok_0.fd) == c.dir_fd
                && list->Ok_0.taint == c.taint
            &&& s.read_begun(r, rel).1 is Ok <==> read is Ok
            &&& s.list_begun(r, rel).1 is Ok <==> list is Ok
            &&& list is Ok ==> s.list_begun(r, rel).1 == list
        }),
{
    lemma_inward(s.caps[r].root, rel);
}

/// Running a command passes just where nothing has gone wrong with the trail and the
/// capability is active, allows it, names a program and holds a directory. The host is
/// then handed the capability's own arguments and directory.
pub proof fn law_running_passes(s: SessionV, r: Seq<char>)
    ensures
        ({
            let c = s.caps[r];
            let run = s.exec_check(r);
            &&& run is Ok <==> !s.broken && state::active(s.caps, r) && c.ops.contains(Op::Exec) && c.argv.len() > 0
                && c.dir_fd is Some
            &&& run is Ok ==> run->Ok_0.r == r && run->Ok_0.argv == c.argv && Some(run->Ok_0.fd) == c.dir_fd
                && run->Ok_0.env == state::settings(c.env) && run->Ok_0.policy == s.exec_policy
            &&& s.durable() ==> (s.exec_planned(r).1 is Ok <==> run is Ok)
            &&& s.durable() && run is Ok ==> s.exec_planned(r).1 == run && s.exec_planned(r).0 == s
        }),
{
}

/// A setting is what stands before and after its first equals sign; one without that
/// sign is left out. The others stay as they are.
pub proof fn law_settings(env: Seq<Seq<char>>, key: Seq<char>, value: Seq<char>)
    requires
        !key.contains('='),
    ensures
        state::settings(Seq::empty()) == Seq::<(Seq<char>, Seq<char>)>::empty(),
        state::settings(env.push(key + "="@ + value)) == state::settings(env).push((key, value)),
        state::settings(env.push(key)) == state::settings(env),
{
    reveal_strlit("=");
    let e = key + "="@ + value;
    let n = key.len() as int;
    assert(e[n] == '=');
    e.index_of_first_ensures('=');
    let i = e.index_of_first('=')->0;
    if i < n {
        assert(key[i] == '=');
    }
    assert(e.take(n) =~= key);
    assert(e.skip(n + 1) =~= value);
    assert(env.push(e).drop_last() =~= env);
    assert(env.push(key).drop_last() =~= env);
}

/// What a command printed is handed on as it is, and what went wrong is said.
pub proof fn law_command_output_is_kept(s: SessionV, r: Seq<char>, out: Result<Seq<u8>, Seq<char>>)
    ensures
        out is Ok ==> s.exec_done(r, out).1 == out,
        out is Err ==> s.exec_done(r, out).1 == Err::<Seq<u8>, Seq<char>>("exec failed: "@ + out->Err_0),
{
}

/// A request to the network passes just where nothing has gone wrong with the trail, the
/// capability is active and for the network, the target has a canonical form whose path
/// a pattern covers, `GET` is allowed, the scheme is `http`, and the host serves no
/// metadata. What is then looked up is the capability's own host.
pub proof fn law_requesting_passes(s: SessionV, r: Seq<char>, path: Seq<char>)
    ensures
        ({
            let c = s.caps[r];
            let h = c.http->0;
            let p = s.http_check(r, path);
            let target = net::canonical(path)->Ok_0;
            &&& p is Ok <==> !s.broken && state::active(s.caps, r) && c.http is Some && net::canonical(path) is Ok
                && h.methods.contains("GET"@) && net::any_covers(h.paths, text::split_on(target, '?')[0]) && h.scheme
                == "http"@ && !net::metadata_host(h.host)
            &&& p is Ok ==> p->Ok_0.r == r && p->Ok_0.path == path && p->Ok_0.host == h.host && p->Ok_0.port == h.port
                && p->Ok_0.target == target && p->Ok_0.max_bytes == h.max_bytes
            &&& s.durable() && p is Ok ==> s.http_planned(r, path).1 == p && s.http_planned(r, path).0 == s
        }),
{
}

/// What came from the network is marked as external, whatever the capability says, and
/// is the body of the answer.
pub proof fn law_answer_is_external(s: SessionV, p: FetchV, raw: Vec<u8>)
    ensures
        ({
            let res = s.http_done(p, Ok(raw)).1;
            let answer = net::response_of(raw@);
            &&& res is Ok <==> answer is Ok
            &&& res is Ok ==> res->Ok_0.0 == Taint::External && res->Ok_0.1 == answer->Ok_0.1
        }),
{
}

/// Data goes to a sink just where nothing has gone wrong with the trail, the capability
/// is active and a sink, and the data is not secret.
pub proof fn law_sending_passes(s: SessionV, r: Seq<char>, taint: Taint)
    ensures
        s.send_check(r, taint) is Ok <==> !s.broken && state::active(s.caps, r) && s.caps[r].kind == CapKind::Sink
            && taint != Taint::Secret,
        s.durable() ==> s.send_done(r, taint).1 == s.send_check(r, taint),
        s.durable() ==> s.send_done(r, taint).0.mailboxes == s.mailboxes && s.send_done(r, taint).0.caps == s.caps,
{
}

/// A message goes through a facet just where nothing has gone wrong with the trail, the
/// facet is active and for messages, the data is not secret, the subject begins with
/// the facet's prefix, and the mailbox is there.
pub proof fn law_posting_passes(s: SessionV, r: Seq<char>, subject: Seq<char>, taint: Taint, body: Seq<char>)
    ensures
        ({
            let m = s.caps[r].msg->0;
            let n = m.subject_prefix.len() as int;
            s.posted(r, subject, taint, body).1 is Ok <==> !s.broken && state::active(s.caps, r) && s.caps[r].msg is Some
                && taint != Taint::Secret && n <= subject.len() && (forall|i: int|
                0 <= i < n ==> subject[i] == #[trigger] m.subject_prefix[i]) && s.mailboxes.contains_key(m.mailbox)
        }),
{
    let m = s.caps[r].msg->0;
    let n = m.subject_prefix.len() as int;
    if n <= subject.len() {
        if forall|i: int| 0 <= i < n ==> subject[i] == #[trigger] m.subject_prefix[i] {
            assert(subject.take(n) =~= m.subject_prefix);
        }
        if subject.take(n) == m.subject_prefix {
            assert forall|i: int| 0 <= i < n implies subject[i] == #[trigger] m.subject_prefix[i] by {
                assert(subject.take(n)[i] == subject[i]);
            }
        }
    }
}

/// A facet that does not serve once stays as it is when it is used, and posting changes
/// no other capability: one that serves once is marked as revoked and keeps the rest.
pub proof fn law_posting_spends_one_shots_only(
    s: SessionV,
    r: Seq<char>,
    subject: Seq<char>,
    taint: Taint,
    body: Seq<char>,
    other: Seq<char>,
)
    requires
        s.posted(r, subject, taint, body).1 is Ok,
    ensures
        ({
            let t = s.posted(r, subject, taint, body).0;
            &&& !s.caps[r].msg->0.one_shot ==> t.caps == s.caps
            &&& s.caps[r].msg->0.one_shot ==> t.caps.contains_key(r) && t.caps[r].revoked
            &&& other != r && s.caps.contains_key(other) ==> t.caps.contains_key(other) && t.caps[other] == s.caps[other]
            &&& t.audit == s.audit && t.key == s.key && t.l5 == s.l5 && t.broken == s.broken
        }),
{
    state::lemma_usable(s, r);
}

/// A text that the requester gives passes just where the capability owns its mailbox and
/// the message would go through as harmless.
pub proof fn law_literal_post_passes(s: SessionV, r: Seq<char>, subject: Seq<char>, body: Seq<char>)
    ensures
        ({
            let res = s.posted_literal(r, subject, body);
            &&& res.1 is Ok <==> s.posted(r, subject, Taint::Green, body).1 is Ok && s.caps[r].msg->0.can_receive
            &&& s.durable() ==> s.post_done(r, subject, body).1 == res.1 && s.post_done(r, subject, body).0.mailboxes
                == res.0.mailboxes && s.post_done(r, subject, body).0.caps == res.0.caps
        }),
{
}

/// What is forwarded is the file's own text under the taint that the reading found: the
/// requester has a say in neither.
pub proof fn law_forwarding_posts_what_was_read(
    s: SessionV,
    r: Seq<char>,
    subject: Seq<char>,
    p: ReadV,
    t: Seq<char>,
    e: Seq<char>,
)
    ensures
        s.forward_done(r, subject, p, Ok(encode_utf8(t))).1 == s.posted(r, subject, p.taint, t).1,
        s.forward_done(r, subject, p, Ok(encode_utf8(t))).0.mailboxes == s.posted(r, subject, p.taint, t).0.mailboxes,
        s.forward_done(r, subject, p, Ok(encode_utf8(t))).0.caps == s.posted(r, subject, p.taint, t).0.caps,
        s.forward_done(r, subject, p, Err(e)).1 == Err::<(), Seq<char>>(e),
        s.forward_done(r, subject, p, Err(e)).0.mailboxes == s.mailboxes,
        s.forward_done(r, subject, p, Err(e)).0.caps == s.caps,
{
    text::lemma_lossy_of_text(t);
}

/// To forward is to read from the source: it needs what a read of it needs, and the
/// host is handed what it would be for that read.
pub proof fn law_forwarding_reads_the_source(
    s: SessionV,
    r: Seq<char>,
    subject: Seq<char>,
    src: Seq<char>,
    rel: Seq<char>,
)
    requires
        s.durable(),
    ensures
        s.forward_planned(r, subject, src, rel).1 == s.read_begun(src, rel).1,
        s.read_begun(src, rel).1 is Ok ==> s.forward_planned(r, subject, src, rel).0 == s,
{
}

/// A mailbox is read just where nothing has gone wrong with the trail, the capability is
/// active, for messages, and owns the mailbox; what is read is all that it holds, in
/// order, and it holds it still.
pub proof fn law_inbox_passes(s: SessionV, r: Seq<char>)
    requires
        s.inv(),
    ensures
        ({
            let m = s.caps[r].msg->0;
            &&& s.inbox(r) is Ok <==> !s.broken && state::active(s.caps, r) && s.caps[r].msg is Some && m.can_receive
            &&& s.inbox(r) is Ok ==> s.inbox(r)->Ok_0 == s.mailboxes[m.mailbox]
            &&& s.inbox_begun(r).1 == s.inbox(r)
            &&& s.inbox_begun(r).0.mailboxes == s.mailboxes && s.inbox_begun(r).0.caps == s.caps
        }),
{
    if s.usable(r) is Ok {
        state::lemma_usable(s, r);
    }
}

/// A message that went through is read by the owner of the mailbox, as the last of its
/// messages, with the subject, the body and the taint that it was posted with.
pub proof fn law_posted_message_is_read(
    s: SessionV,
    owner: Seq<char>,
    r: Seq<char>,
    subject: Seq<char>,
    taint: Taint,
    body: Seq<char>,
)
    requires
        s.inv(),
        s.posted(r, subject, taint, body).1 is Ok,
        s.inbox(owner) is Ok,
        s.caps[owner].msg->0.mailbox == s.caps[r].msg->0.mailbox,
        !s.caps[r].msg->0.one_shot,
    ensures
        ({
            let t = s.posted(r, subject, taint, body).0;
            let before = session::shown_messages(s.inbox(owner)->Ok_0);
            &&& t.inbox(owner) is Ok
            &&& session::shown_messages(t.inbox(owner)->Ok_0) == before.push((subject, taint, body))
        }),
{
    state::lemma_usable(s, owner);
    state::lemma_usable(s, r);
    let t = s.posted(r, subject, taint, body).0;
    let before = s.inbox(owner)->Ok_0;
    let msg = PostedV { subject, body, taint, from_session: s.key };
    assert(t.inbox(owner)->Ok_0 == before.push(msg));
    assert(session::shown_messages(before.push(msg)) =~= session::shown_messages(before).push((subject, taint, body)));
}

/// Whether a state is another but for its trail.
pub open spec fn only_trail(s: SessionV, t: SessionV) -> bool {
    &&& t.key == s.key
    &&& t.caps == s.caps
    &&& t.sink == s.sink
    &&& t.last_ok == s.last_ok
    &&& t.bootstrap == s.bootstrap
    &&& t.broken == s.broken
    &&& t.exec_policy == s.exec_policy
    &&& t.mailboxes == s.mailboxes
    &&& t.l5 == s.l5
    &&& t.consent == s.consent
    &&& t.reduced == s.reduced
    &&& t.repeated == s.repeated
}

/// Whether a trail is another with this event after it, which the host has to make
/// durable where there is a log.
pub open spec fn trail_grew(s: SessionV, t: SessionV, op: Seq<char>, detail: Seq<char>, decision: Seq<char>) -> bool {
    &&& t.audit == s.audit.push(audit::next_event(s.audit, op, detail, decision))
    &&& t.unsettled == s.unsettled + if s.sink {
        1nat
    } else {
        0
    }
}

/// What the trail says of a read or a listing: which capability, which path below it,
/// and whether it was allowed or why not. Nothing else changes.
pub proof fn law_reads_on_the_trail(
    s: SessionV,
    r: Seq<char>,
    rel: Seq<char>,
    p: ReadV,
    b: Seq<u8>,
    names: Seq<Seq<char>>,
    e: Seq<char>,
)
    ensures
        s.read_begun(r, rel).1 is Ok ==> s.read_begun(r, rel).0 == s,
        s.read_begun(r, rel).1 is Err ==> only_trail(s, s.read_begun(r, rel).0) && trail_grew(
            s,
            s.read_begun(r, rel).0,
            "read"@,
            show::shorted(r) + " "@ + rel,
            "deny:"@ + s.read_begun(r, rel).1->Err_0,
        ),
        only_trail(s, s.read_noted(p, Ok(b))) && trail_grew(
            s,
            s.read_noted(p, Ok(b)),
            "read"@,
            show::shorted(p.r) + " "@ + p.rel,
            "allow"@,
        ),
        only_trail(s, s.read_noted(p, Err(e))) && trail_grew(
            s,
            s.read_noted(p, Err(e)),
            "read"@,
            show::shorted(p.r) + " "@ + p.rel,
            "deny:"@ + e,
        ),
        s.list_begun(r, rel).1 is Ok ==> s.list_begun(r, rel).0 == s,
        s.list_begun(r, rel).1 is Err ==> only_trail(s, s.list_begun(r, rel).0) && trail_grew(
            s,
            s.list_begun(r, rel).0,
            "list"@,
            show::shorted(r) + " "@ + rel,
            "deny:"@ + s.list_begun(r, rel).1->Err_0,
        ),
        only_trail(s, s.list_noted(p, Ok(names))) && trail_grew(
            s,
            s.list_noted(p, Ok(names)),
            "list"@,
            show::shorted(p.r) + " "@ + p.rel,
            "allow"@,
        ),
        only_trail(s, s.list_noted(p, Err(e))) && trail_grew(
            s,
            s.list_noted(p, Err(e)),
            "list"@,
            show::shorted(p.r) + " "@ + p.rel,
            "deny:"@ + e,
        ),
{
}

/// What the trail says of a command, a request to the network, and a sending, and that
/// none of them changes anything else of the session.
pub proof fn law_outcomes_on_the_trail(
    s: SessionV,
    r: Seq<char>,
    path: Seq<char>,
    taint: Taint,
    out: Result<Seq<u8>, Seq<char>>,
    p: FetchV,
    raw: Result<Vec<u8>, state::FetchError>,
)
    ensures
        ({
            let t = s.exec_done(r, out);
            only_trail(s, t.0) && trail_grew(s, t.0, "exec.result"@, show::shorted(r), state::verdict(t.1))
        }),
        ({
            let t = s.http_done(p, raw);
            only_trail(s, t.0) && trail_grew(
                s,
                t.0,
                "http.result"@,
                show::shorted(p.r) + " GET "@ + p.path,
                state::verdict(t.1),
            )
        }),
        only_trail(s, s.send_begun(r, taint)) && trail_grew(
            s,
            s.send_begun(r, taint),
            "send.intent"@,
            show::shorted(r) + " taint="@ + crate::label::taint_text(taint),
            "attempt"@,
        ),
        s.durable() ==> ({
            let t = s.send_done(r, taint);
            only_trail(s, t.0) && trail_grew(
                s,
                t.0,
                "send.result"@,
                show::shorted(r) + " taint="@ + crate::label::taint_text(taint),
                state::verdict(t.1),
            )
        }),
        s.durable() && s.exec_planned(r).1 is Err ==> only_trail(s, s.exec_planned(r).0) && trail_grew(
            s,
            s.exec_planned(r).0,
            "exec.result"@,
            show::shorted(r),
            "deny:"@ + s.exec_planned(r).1->Err_0,
        ),
        s.durable() && s.http_planned(r, path).1 is Err ==> only_trail(s, s.http_planned(r, path).0) && trail_grew(
            s,
            s.http_planned(r, path).0,
            "http.result"@,
            show::shorted(r) + " GET "@ + path,
            "deny:"@ + s.http_planned(r, path).1->Err_0,
        ),
{
}

/// What the trail says of posting: the facet, the subject, and where the text came from.
pub proof fn law_posts_on_the_trail(
    s: SessionV,
    r: Seq<char>,
    subject: Seq<char>,
    body: Seq<char>,
    src: Seq<char>,
    rel: Seq<char>,
    p: ReadV,
    data: Result<Seq<u8>, Seq<char>>,
)
    ensures
        s.durable() ==> trail_grew(
            s,
            s.post_done(r, subject, body).0,
            "post.result"@,
            show::shorted(r) + " subj="@ + subject + " src=literal"@,
            state::verdict(s.post_done(r, subject, body).1),
        ),
        trail_grew(
            s,
            s.forward_done(r, subject, p, data).0,
            "post.result"@,
            show::shorted(r) + " subj="@ + subject + " src="@ + show::shorted(p.r) + " "@ + p.rel,
            state::verdict(s.forward_done(r, subject, p, data).1),
        ),
        s.durable() && s.forward_planned(r, subject, src, rel).1 is Err ==> only_trail(
            s,
            s.forward_planned(r, subject, src, rel).0,
        ) && trail_grew(
            s,
            s.forward_planned(r, subject, src, rel).0,
            "post.result"@,
            show::shorted(r) + " subj="@ + subject + " src="@ + show::shorted(src) + " "@ + rel,
            "deny:"@ + s.forward_planned(r, subject, src, rel).1->Err_0,
        ),
        s.inbox_begun(r).1 is Ok ==> only_trail(s, s.inbox_begun(r).0) && trail_grew(
            s,
            s.inbox_begun(r).0,
            "mailbox_read"@,
            show::shorted(r),
            "allow"@,
        ),
{
}

/// An outcome is put on the trail as allowed, or as denied with the reason.
pub proof fn law_outcome_words(b: Seq<u8>, e: Seq<char>)
    ensures
        state::verdict(Ok::<Seq<u8>, Seq<char>>(b)) == "allow"@,
        state::verdict(Err::<Seq<u8>, Seq<char>>(e)) == "deny:"@ + e,
        state::verdict(Ok::<(), Seq<char>>(())) == "allow"@,
        state::verdict(Err::<(), Seq<char>>(e)) == "deny:"@ + e,
{
}

/// The host reports on one event at a time: one that could not be made durable breaks the
/// session for good, and nothing is durable while a report is owed.
pub proof fn law_reports(s: SessionV, ok: bool)
    requires
        s.unsettled > 0,
    ensures
        ({
            let t = s.settled(ok);
            &&& t.unsettled == s.unsettled - 1
            &&& t.broken == (s.broken || !ok)
            &&& t.durable() <==> s.unsettled == 1 && ok
            &&& !s.durable()
            &&& t.audit == s.audit && t.caps == s.caps && t.mailboxes == s.mailboxes && t.key == s.key && t.sink == s.sink
                && t.l5 == s.l5 && t.consent == s.consent && t.reduced == s.reduced && t.bootstrap == s.bootstrap
                && t.exec_policy == s.exec_policy && t.repeated == s.repeated
        }),
{
}

/// A request is sent just where the lookup passed and its text can be made; it goes to the
/// first address that was found, for the path and the capability that were asked for, and
/// no more of the answer is taken than was allowed.
pub proof fn law_lookup_leads_to_request(s: SessionV, p: LookupV, found: Result<Vec<net::HostAddr>, String>)
    ensures
        ({
            let (t, res) = s.http_found(p, found);
            let a = state::authority(p.host, p.port);
            let passed = net::lookup_check(p.host, found);
            &&& res is Ok <==> passed is Ok && net::request_fit(a, p.target)
            &&& res is Ok ==> t == s && res->Ok_0.r == p.r && res->Ok_0.path == p.path && res->Ok_0.addr
                == passed->Ok_0[0] && res->Ok_0.request == net::request_text(a, p.target) && res->Ok_0.max_bytes
                == p.max_bytes
            &&& passed is Err ==> res == Err::<FetchV, Seq<char>>(passed->Err_0)
            &&& res is Err ==> only_trail(s, t) && trail_grew(
                s,
                t,
                "http.result"@,
                show::shorted(p.r) + " GET "@ + p.path,
                "deny:"@ + res->Err_0,
            )
        }),
{
}

/// What is said of a request that could not be carried out, and of an answer that cannot be
/// read.
pub proof fn law_failed_requests(s: SessionV, p: FetchV, m: String, raw: Vec<u8>)
    ensures
        s.http_done(p, Err(state::FetchError::Connect(m))).1 == Err::<(Taint, Seq<u8>), Seq<char>>("connect 失败: "@ + m@),
        s.http_done(p, Err(state::FetchError::Write(m))).1 == Err::<(Taint, Seq<u8>), Seq<char>>("write 失败: "@ + m@),
        s.http_done(p, Err(state::FetchError::Read(m))).1 == Err::<(Taint, Seq<u8>), Seq<char>>("read 失败: "@ + m@),
        net::response_of(raw@) is Err ==> s.http_done(p, Ok(raw)).1 == Err::<(Taint, Seq<u8>), Seq<char>>(
            net::response_of(raw@)->Err_0,
        ),
{
}

/// Why a capability cannot be used: a broken trail goes before all else, and then a
/// reference that is not known or was taken away. What can be used is what is behind the
/// reference.
pub proof fn law_unusable(s: SessionV, r: Seq<char>)
    ensures
        s.broken ==> s.usable(r) == Err::<CapV, Seq<char>>(
            "审计 sink 写失败,fail-closed 拒绝后续敏感操作"@,
        ),
        !s.broken && !state::active(s.caps, r) ==> s.usable(r) == Err::<CapV, Seq<char>>(
            "cap "@ + show::shorted(r) + " 无效/已撤销(ENOTCAPABLE)"@,
        ),
        !s.broken && state::active(s.caps, r) ==> s.usable(r) == Ok::<CapV, Seq<char>>(s.caps[r]),
        s.usable(r) is Ok && s.caps[r].msg is None ==> s.usable_msg(r) == Err::<MsgV, Seq<char>>(
            "cap "@ + show::shorted(r) + " 不是 message"@,
        ),
        s.usable(r) is Ok && s.caps[r].msg is Some ==> s.usable_msg(r) == Ok::<MsgV, Seq<char>>(s.caps[r].msg->0),
{
}

/// Why a use is refused where the capability can be used: what it does not allow, or what
/// it is not.
pub proof fn law_refused_uses(s: SessionV, r: Seq<char>, rel: Seq<char>, taint: Taint, subject: Seq<char>, body: Seq<char>)
    requires
        s.usable(r) is Ok,
    ensures
        ({
            let c = s.caps[r];
            &&& !c.ops.contains(Op::Read) ==> s.read_check(r, rel) == Err::<ReadV, Seq<char>>(
                "DirCap "@ + show::shorted(r) + " 无 Read"@,
            )
            &&& !c.ops.contains(Op::List) ==> s.list_check(r, rel) == Err::<ReadV, Seq<char>>(
                "DirCap "@ + show::shorted(r) + " 无 List"@,
            )
            &&& !c.ops.contains(Op::Exec) ==> s.exec_check(r) == Err::<state::RunV, Seq<char>>(
                "CommandCap "@ + show::shorted(r) + " 无 Exec"@,
            )
            &&& c.http is None ==> s.http_check(r, rel) == Err::<LookupV, Seq<char>>("cap 不是 HttpCap"@)
            &&& c.kind != CapKind::Sink ==> s.send_check(r, taint) == Err::<(), Seq<char>>(
                "cap "@ + show::shorted(r) + " 不是 sink"@,
            )
            &&& c.msg is Some && !c.msg->0.can_receive ==> s.inbox(r) == Err::<Seq<PostedV>, Seq<char>>(
                "cap "@ + show::shorted(r) + " 是只投递 facet,无收件权限"@,
            )
            &&& c.msg is Some && !c.msg->0.can_receive ==> s.posted_literal(r, subject, body).0 == s
        }),
{
}

/// What the trail says of a grant or a derivation that was refused: what was asked for, and
/// why not.
pub proof fn law_refused_grants_on_the_trail(
    s: SessionV,
    r: Seq<char>,
    seg: Seq<char>,
    opened: Result<u64, Seq<char>>,
    ops: Seq<Op>,
    taint: Taint,
    argv: Seq<Seq<char>>,
    one_shot: bool,
    entropy: Seq<u8>,
)
    ensures
        ({
            let (t, res) = s.granted_dir(seg, ops, taint, opened, entropy);
            res is Err ==> trail_grew(
                s,
                t,
                "grant_dir"@,
                "root="@ + seg + " taint="@ + crate::label::taint_text(taint),
                "deny:"@ + res->Err_0,
            )
        }),
        ({
            let (t, res) = s.granted_command(r, argv, entropy);
            res is Err ==> trail_grew(
                s,
                t,
                "grant_cmd"@,
                show::briefed(r) + " ["@ + text::join_with(argv, " "@) + "]"@,
                "deny:"@ + res->Err_0,
            )
        }),
        ({
            let (t, res) = s.derived_sub(r, seg, opened, entropy);
            res is Err ==> trail_grew(s, t, "derive_sub"@, show::briefed(r) + " /"@ + seg, "deny:"@ + res->Err_0)
        }),
        ({
            let (t, res) = s.sub_begun(r, seg);
            res is Err ==> only_trail(s, t) && trail_grew(
                s,
                t,
                "derive_sub"@,
                show::briefed(r) + " /"@ + seg,
                "deny:"@ + res->Err_0,
            )
        }),
        ({
            let (t, res) = s.derived_readonly(r, entropy);
            res is Err ==> trail_grew(s, t, "derive_readonly"@, show::briefed(r), "deny:"@ + res->Err_0)
        }),
        ({
            let (t, res) = s.derived_msg(r, seg, one_shot, entropy);
            res is Err ==> trail_grew(s, t, "derive_message"@, show::briefed(r), "deny:"@ + res->Err_0)
        }),
        ({
            let (t, res) = s.inbox_begun(r);
            res is Err ==> only_trail(s, t) && trail_grew(
                s,
                t,
                "mailbox_read"@,
                show::briefed(r),
                "deny:"@ + res->Err_0,
            )
        }),
{
}

/// Whether a capability is active goes by its origins: it must be there and not be revoked,
/// and so must the one that it was derived from, and the one before that.
pub proof fn law_active_by_origin(caps: Map<Seq<char>, CapV>, r: Seq<char>)
    ensures
        state::active(caps, r) <==> caps.contains_key(r) && !caps[r].revoked && (caps[r].parent is None || state::active(
            caps,
            caps[r].parent->0,
        )),
{
    if caps.contains_key(r) && !caps[r].revoked {
        state::lemma_active_step(caps, r);
    } else {
        state::lemma_not_active(caps, r);
    }
}

} // verus!
