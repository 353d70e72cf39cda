//! What a caller is told where something is refused, and which of several reasons is
//! given.

use crate::audit;
use crate::capvm;
use crate::host_laws;
use crate::label::Taint;
use crate::log_laws;
use crate::log_laws::Line;
use crate::net;
use crate::net::HostAddr;
use crate::os;
use crate::path;
use crate::policy::{LedgerV, Status};
use crate::proto;
use crate::proto::{Outcome, WaitingV};
use crate::request;
use crate::request::RequestV;
use crate::role::Role;
use crate::show;
use crate::state::{LookupV, ReadV, RunV, SessionV};
use crate::target_laws;
use crate::text;
use vstd::prelude::*;

verus! {

/// Why a path is not joined to a root: being absolute goes before leading upwards, and both
/// name the path and the root.
pub proof fn law_join_refusals(root: Seq<char>, rel: Seq<char>)
    ensures
        rel.len() > 0 && rel[0] == '/' ==> path::joined(root, rel) == Err::<Seq<char>, Seq<char>>(
            "绝对路径不允许: "@ + rel + "(DirCap root="@ + root + ")"@,
        ),
        !(rel.len() > 0 && rel[0] == '/') && text::split_on(rel, '/').contains(".."@) ==> path::joined(root, rel) == Err::<
            Seq<char>,
            Seq<char>,
        >("path escapes capability root: "@ + rel + "(root="@ + root + ")"@),
{
    reveal_strlit("/");
    if rel.len() > 0 {
        assert(rel.take(1)[0] == rel[0]);
        assert(rel[0] == '/' ==> rel.take(1) =~= "/"@);
    }
}

/// A byte in hexadecimal, letters capital.
pub open spec fn capital_hex(b: u8) -> Seq<char> {
    seq!["0123456789ABCDEF"@[b as int / 16], "0123456789ABCDEF"@[b as int % 16]]
}

proof fn lemma_upper_hex(d: u8)
    requires
        d < 16,
    ensures
        net::upper_hex(d) == "0123456789ABCDEF"@[d as int],
{
    reveal_strlit("0123456789ABCDEF");
    let s = "0123456789ABCDEF"@;
    assert(s[0] == '0' && s[1] == '1' && s[2] == '2' && s[3] == '3' && s[4] == '4' && s[5] == '5' && s[6] == '6' && s[7]
        == '7');
    assert(s[8] == '8' && s[9] == '9' && s[10] == 'A' && s[11] == 'B' && s[12] == 'C' && s[13] == 'D' && s[14] == 'E'
        && s[15] == 'F');
}

proof fn lemma_no_escape_before(s: Seq<char>, i: int, k: int)
    requires
        0 <= i <= k <= s.len(),
        forall|j: int| i <= j < k ==> #[trigger] s[j] != '%',
    ensures
        net::escapes(s, i) == net::escapes(s, k),
    decreases k - i,
{
    if i < k {
        lemma_no_escape_before(s, i + 1, k);
    }
}

/// Why a percent sign is not let stand: the first one of a text that begins no whole escape
/// is malformed, and one that hides a slash, a dot or a backslash is named by its byte.
pub proof fn law_escape_refusals(s: Seq<char>, k: int)
    requires
        0 <= k < s.len(),
        s[k] == '%',
        forall|j: int| 0 <= j < k ==> #[trigger] s[j] != '%',
    ensures
        !(k + 2 < s.len() && target_laws::hex_char(s[k + 1]) && target_laws::hex_char(s[k + 2])) ==> net::escapes(s, 0)
            == Err::<(), Seq<char>>("malformed %-escape: "@ + text::debug_text(s)),
        k + 2 < s.len() && target_laws::hex_char(s[k + 1]) && target_laws::hex_char(s[k + 2]) && !target_laws::plain_escape(
            s,
            k,
        ) ==> net::escapes(s, 0) == Err::<(), Seq<char>>(
            "拒绝 percent-encoded separator/dot(%"@ + capital_hex(
                (net::hex_value(s[k + 1])->0 * 16 + net::hex_value(s[k + 2])->0) as u8,
            ) + "): "@ + text::debug_text(s),
        ),
{
    lemma_no_escape_before(s, 0, k);
    target_laws::lemma_plain_escape(s, k);
    if k + 2 < s.len() {
        target_laws::lemma_hex_pair(s[k + 1], s[k + 2]);
        let b = (net::hex_value(s[k + 1])->0 * 16 + net::hex_value(s[k + 2])->0) as u8;
        lemma_upper_hex(b / 16);
        lemma_upper_hex(b % 16);
        assert(net::upper_hex2(b) =~= capital_hex(b));
    }
}

/// Why a target is refused: not beginning with a slash goes first, then beginning with two,
/// then a character that may not stand in it, then an escape of the path, then one of the
/// query, and last a path that leads above the root.
pub proof fn law_target_refusals(raw: Seq<char>)
    ensures
        ({
            let t = net::canonical(raw);
            let one = raw.len() > 0 && raw[0] == '/';
            let two = raw.len() > 1 && raw[0] == '/' && raw[1] == '/';
            let path = raw.take(net::query_at(raw));
            let query = raw.skip(net::query_at(raw));
            let fit = one && !two && !net::has_unfit(raw);
            &&& !one ==> t == Err::<Seq<char>, Seq<char>>(
                "request-target 必须以 / 起始: "@ + text::debug_text(raw),
            )
            &&& two ==> t == Err::<Seq<char>, Seq<char>>(
                "拒绝 // 开头(authority-form 歧义): "@ + text::debug_text(raw),
            )
            &&& one && !two && net::has_unfit(raw) ==> t == Err::<Seq<char>, Seq<char>>(
                "request-target 含非法字符(control/空白/反斜杠): "@ + text::debug_text(raw),
            )
            &&& fit && net::escapes(path, 0) is Err ==> t == Err::<Seq<char>, Seq<char>>(net::escapes(path, 0)->Err_0)
            &&& fit && net::escapes(path, 0) is Ok && net::escapes(query, 0) is Err ==> t == Err::<Seq<char>, Seq<char>>(
                net::escapes(query, 0)->Err_0,
            )
            &&& fit && net::escapes(path, 0) is Ok && net::escapes(query, 0) is Ok && net::resolved(
                text::split_on(path, '/'),
            ) is None ==> t == Err::<Seq<char>, Seq<char>>("路径穿越到根之上: "@ + text::debug_text(path))
        }),
{
    reveal_strlit("/");
    reveal_strlit("//");
    if raw.len() > 0 {
        assert(raw.take(1)[0] == raw[0]);
        assert(raw[0] == '/' ==> raw.take(1) =~= "/"@);
    }
    if raw.len() > 1 {
        assert(raw.take(2)[0] == raw[0] && raw.take(2)[1] == raw[1]);
        assert(raw[0] == '/' && raw[1] == '/' ==> raw.take(2) =~= "//"@);
    }
}

/// Why a lookup is refused: a host that serves metadata goes first, then what the lookup
/// itself said, then finding nothing, and last the first address that is out of bounds.
pub proof fn law_lookup_refusals(host: Seq<char>, found: Result<Vec<HostAddr>, String>, k: int)
    ensures
        ({
            let r = net::lookup_check(host, found);
            let addrs = found->Ok_0@;
            &&& net::metadata_host(host) ==> r == Err::<Seq<HostAddr>, Seq<char>>(
                "egress 拒绝:metadata 主机 "@ + host,
            )
            &&& !net::metadata_host(host) && found is Err ==> r == Err::<Seq<HostAddr>, Seq<char>>(
                "DNS 解析失败: "@ + found->Err_0@,
            )
            &&& !net::metadata_host(host) && found is Ok && addrs.len() == 0 ==> r == Err::<Seq<HostAddr>, Seq<char>>(
                "egress 拒绝:"@ + host + " 无解析结果"@,
            )
            &&& !net::metadata_host(host) && found is Ok && 0 <= k < addrs.len() && net::blocked(addrs[k].ip) && (forall|j:
                int| 0 <= j < k ==> !net::blocked((#[trigger] addrs[j]).ip)) ==> r == Err::<Seq<HostAddr>, Seq<char>>(
                "egress 拒绝:"@ + host + " 解析到被禁 IP "@ + addrs[k].shown@ + "(private/loopback/link-local/metadata)"@,
            )
        }),
{
    if found is Ok {
        let addrs = found->Ok_0@;
        if 0 <= k < addrs.len() && net::blocked(addrs[k].ip) && (forall|j: int|
            0 <= j < k ==> !net::blocked((#[trigger] addrs[j]).ip)) {
            lemma_first_at(addrs, k);
        }
    }
}

proof fn lemma_first_at(addrs: Seq<HostAddr>, k: int)
    requires
        0 <= k < addrs.len(),
        net::blocked(addrs[k].ip),
        forall|j: int| 0 <= j < k ==> !net::blocked((#[trigger] addrs[j]).ip),
    ensures
        net::first_blocked(addrs) == k,
    decreases k,
{
    if k > 0 {
        let t = addrs.drop_first();
        assert forall|j: int| 0 <= j < k - 1 implies !net::blocked((#[trigger] t[j]).ip) by {
            assert(t[j] == addrs[j + 1]);
        }
        assert(t[k - 1] == addrs[k]);
        assert(!net::blocked(addrs[0].ip));
        lemma_first_at(t, k - 1);
    }
}

/// Why a host is refused, by what is wrong with it as a whole.
pub proof fn law_host_refusals(host: Seq<char>)
    ensures
        ({
            let r = net::host_check(host);
            let shown = text::debug_text(host);
            let n = text::byte_len(host);
            let sized = 0 < n <= 253 && host.len() > 0;
            &&& n == 0 || n > 253 ==> r == Err::<(), Seq<char>>("host 非法长度: "@ + shown)
            &&& sized && host[0] == '[' && (host.last() != ']' || host.len() < 3) ==> r == Err::<(), Seq<char>>(
                "IPv6 literal 括号不匹配: "@ + shown,
            )
            &&& sized && host[0] == '[' && host.last() == ']' && host.len() >= 3 && !net::is_v6_text(
                host.subrange(1, host.len() - 1),
            ) ==> r == Err::<(), Seq<char>>("非法 IPv6 literal: "@ + shown)
            &&& sized && host[0] != '[' && (host.contains('[') || host.contains(']') || host.contains(':')) ==> r == Err::<
                (),
                Seq<char>,
            >("host 含非法字符([]:): "@ + shown)
        }),
{
}

/// What is said of a log that does not read whole: of its first line that is wrong, how many
/// come before it and what is wrong with it.
pub proof fn law_log_refusals(lines: Seq<Line>, l: Seq<char>, e: Seq<char>, more: Line)
    ensures
        audit::replayed(lines) is Ok ==> audit::replayed(lines.push(Err(e))) == Err::<Seq<char>, Seq<char>>(e),
        audit::replayed(lines) is Err ==> audit::replayed(lines.push(more)) == audit::replayed(lines),
        ({
            let n = text::dec(lines.len());
            let f = text::split_on(l, '\t');
            let r = audit::replayed(lines.push(Ok(l)));
            let head = audit::replayed(lines)->Ok_0;
            let seq = text::parse_dec(f[0], u64::MAX as nat);
            &&& audit::replayed(lines) is Ok && f.len() != 7 ==> r == Err::<Seq<char>, Seq<char>>(
                "log 第 "@ + n + " 行字段数≠7"@,
            )
            &&& audit::replayed(lines) is Ok && f.len() == 7 && seq is None ==> r == Err::<Seq<char>, Seq<char>>("bad seq"@)
            &&& audit::replayed(lines) is Ok && f.len() == 7 && seq is Some && (seq->0 != lines.len() || f[5] != head)
                ==> r == Err::<Seq<char>, Seq<char>>("log 断链于 seq="@ + n)
            &&& audit::replayed(lines) is Ok && f.len() == 7 && seq == Some(lines.len()) && f[5] == head && f[6]
                != audit::text_digest(f[0] + "|"@ + f[1] + "|"@ + f[2] + "|"@ + f[3] + "|"@ + f[4] + "|"@ + f[5]) ==> r
                == Err::<Seq<char>, Seq<char>>("log 第 "@ + n + " 行内容被改"@)
        }),
{
    assert(lines.push(Err(e)).drop_last() =~= lines);
    assert(lines.push(Ok(l)).drop_last() =~= lines);
    assert(lines.push(more).drop_last() =~= lines);
}

/// Why a log is not taken up: what is wrong with it goes first, then a missing anchor, and
/// then one that names something else.
pub proof fn law_opening_refusals(
    path: Seq<char>,
    lines: Option<Seq<Line>>,
    anchor_exists: bool,
    anchor: Option<Seq<char>>,
)
    ensures
        ({
            let r = audit::opened(path, lines, anchor_exists, anchor);
            let end = audit::replayed(log_laws::lines_of(lines));
            &&& end is Err ==> r == Err::<audit::SinkV, Seq<char>>("log 重放失败: "@ + end->Err_0)
            &&& r is Err && end is Ok && anchor is None ==> r == Err::<audit::SinkV, Seq<char>>(
                "anchor 缺失/不可读,fail-closed"@,
            )
            &&& r is Err && end is Ok && anchor is Some ==> r == Err::<audit::SinkV, Seq<char>>(
                "anchor 与 log 不一致,fail-closed"@,
            )
        }),
{
}

/// What the control side is told of a request that cannot be settled, and of one that is not
/// known.
pub proof fn law_settling_refusals(s: SessionV, l: LedgerV, id: Seq<char>, approve: bool)
    ensures
        s.consent && !l.reqs.contains_key(id) ==> s.consent_settled(l, id, approve).2 == Err::<Seq<char>, Seq<char>>(
            "consent "@ + id + " 不存在"@,
        ),
        s.consent && !l.reqs.contains_key(id) ==> s.consent_detail(l, id) == Err::<Seq<char>, Seq<char>>(
            "consent "@ + id + " 不存在"@,
        ),
        s.consent && l.reqs.contains_key(id) && l.reqs[id].status != Status::Pending ==> s.consent_settled(l, id, approve).2
            == Err::<Seq<char>, Seq<char>>("consent "@ + id + " 非待决状态"@),
        !s.consent ==> s.consent_settled(l, id, approve).2 == Err::<Seq<char>, Seq<char>>("无 consent 账本"@),
        !s.consent ==> s.consent_detail(l, id) == Err::<Seq<char>, Seq<char>>("无 consent 账本"@),
{
}

/// What a process is told of a handle that stands for nothing.
pub proof fn law_handle_refusals(h: Seq<Option<Seq<char>>>, i: usize)
    requires
        i >= h.len() || h[i as int] is None,
    ensures
        capvm::resolved(h, i) == Err::<Seq<char>, Seq<char>>(
            "capvm: 句柄 "@ + text::dec(i as nat) + " 无效(越界/已关闭/伪造)—— 无 ambient authority"@,
        ),
        capvm::closed_result(h, i) == Err::<(), Seq<char>>("capvm: 关闭无效句柄 "@ + text::dec(i as nat)),
{
}

/// Why a request to the network is refused where the capability can be used and is for the
/// network: the target goes first, then the method, then the path, then the scheme, and
/// last a host that serves metadata.
pub proof fn law_request_refusals(s: SessionV, r: Seq<char>, path: Seq<char>)
    requires
        s.usable(r) is Ok,
        s.caps[r].http is Some,
    ensures
        ({
            let h = s.caps[r].http->0;
            let res = s.http_check(r, path);
            let t = net::canonical(path);
            let plain = text::split_on(t->Ok_0, '?')[0];
            let get = h.methods.contains("GET"@);
            let covered = net::any_covers(h.paths, plain);
            &&& t is Err ==> res == Err::<LookupV, Seq<char>>(t->Err_0)
            &&& t is Ok && !get ==> res == Err::<LookupV, Seq<char>>("HttpCap 未授权 GET"@)
            &&& t is Ok && get && !covered ==> res == Err::<LookupV, Seq<char>>(
                "canonical path "@ + plain + " 不在 HttpCap allowlist"@,
            )
            &&& t is Ok && get && covered && h.scheme != "http"@ ==> res == Err::<LookupV, Seq<char>>(
                "目前仅支持 http://(https 需 TLS,后续)"@,
            )
            &&& t is Ok && get && covered && h.scheme == "http"@ && net::metadata_host(h.host) ==> res == Err::<
                LookupV,
                Seq<char>,
            >("egress 拒绝:metadata 主机 "@ + h.host)
        }),
{
}

/// Why a message is refused where the facet can be used: secret data goes first, then a
/// subject outside the facet's prefix.
pub proof fn law_post_refusals(s: SessionV, r: Seq<char>, subject: Seq<char>, taint: Taint, body: Seq<char>)
    requires
        s.usable_msg(r) is Ok,
    ensures
        ({
            let m = s.caps[r].msg->0;
            let res = s.posted(r, subject, taint, body).1;
            &&& taint == Taint::Secret ==> res == Err::<(), Seq<char>>(
                "IFC violation: secret 污点数据不能经 MessageCap "@ + show::shorted(r) + " 外发. next: declassify."@,
            )
            &&& taint != Taint::Secret && !text::starts(subject, m.subject_prefix) ==> res == Err::<(), Seq<char>>(
                "衰减违规:subject "@ + text::debug_text(subject) + " 不在该 facet 的主题命名空间 "@ + text::debug_text(
                    m.subject_prefix,
                ) + " 内"@,
            )
            &&& !m.can_receive ==> s.posted_literal(r, subject, body).1 == Err::<(), Seq<char>>(
                "委托(只投递)facet "@ + show::shorted(r)
                    + " 禁止字面投递(防 taint 洗白);请用 post_from 由 broker 判定 taint"@,
            )
        }),
{
}

/// What is said where the intent to act could not be made durable: nothing is done.
pub proof fn law_durability_refusals(
    s: SessionV,
    r: Seq<char>,
    a: Seq<char>,
    b: Seq<char>,
    c: Seq<char>,
    taint: Taint,
)
    requires
        !s.durable(),
    ensures
        s.exec_planned(r).1 == Err::<RunV, Seq<char>>("exec 前置审计失败,fail-closed 不执行"@),
        s.http_planned(r, a).1 == Err::<LookupV, Seq<char>>("http 前置审计失败,fail-closed 不请求"@),
        s.send_done(r, taint).1 == Err::<(), Seq<char>>("send 前置审计失败,fail-closed 不发送"@),
        s.post_done(r, a, b).1 == Err::<(), Seq<char>>("post 前置审计失败,fail-closed 不投递"@),
        s.forward_planned(r, a, b, c).1 == Err::<ReadV, Seq<char>>("post 前置审计失败,fail-closed 不投递"@),
{
}

/// What a guest is told that asks to mint, and that asks for a say in consent.
pub proof fn law_guest_refusals(f: Seq<Seq<char>>)
    requires
        f.len() > 0,
    ensures
        f[0] == "GRANT_DIR"@ || f[0] == "GRANT_SINK"@ || f[0] == "GRANT_HTTP"@ || f[0] == "GRANT_MSG"@ || f[0]
            == "GRANT_CMD"@ ==> request::parsed(Role::Guest, f) == Err::<RequestV, Seq<char>>(
            f[0] + ":guest 不能铸造能力。用 BOOTSTRAP 取预注入根 + DERIVE;mint 仅 control 面。"@,
        ),
        f[0] == "CONSENT_APPROVE"@ || f[0] == "CONSENT_DENY"@ ==> request::parsed(Role::Guest, f) == Err::<
            RequestV,
            Seq<char>,
        >("consent 审批仅 control 面"@),
        f[0] == "CONSENT_DESCRIBE"@ ==> request::parsed(Role::Guest, f) == Err::<RequestV, Seq<char>>(
            "consent 详情仅 control 面(含敏感 env)"@,
        ),
        f[0] == "CONSENT_LIST"@ ==> request::parsed(Role::Guest, f) == Err::<RequestV, Seq<char>>(
            "consent 列表仅 control 面"@,
        ),
{
    crate::request_laws::lemma_words();
}

/// What is said of a directory whose records are not whole, and of one that the kernel
/// failed to list.
pub proof fn law_listing_refusals(buf: Seq<u8>, bufs: Seq<Seq<u8>>, errno: u64)
    ensures
        0 < buf.len() < 19 ==> os::names_in(buf, 0) == Err::<Seq<Seq<char>>, Seq<char>>(
            "getdents64 记录截断(头部越界)"@,
        ),
        buf.len() >= 19 && (buf[16] + 256 * buf[17] < 19 || buf[16] + 256 * buf[17] > buf.len()) ==> os::names_in(buf, 0)
            == Err::<Seq<Seq<char>>, Seq<char>>("getdents64 记录畸形(reclen 非法)"@),
        os::names_in_all(bufs) is Ok ==> os::listing(bufs, Some(errno)) == Err::<Seq<Seq<char>>, Seq<char>>(
            "getdents64 errno="@ + text::dec(errno as nat),
        ),
{
}

/// Which outcome of the host's part each step takes: a directory that was opened, bytes,
/// names, addresses, an answer, or nothing but the report on the trail.
pub proof fn law_outcomes_fit(w: WaitingV, o: Outcome)
    ensures
        w is OpenDir || w is OpenSub ==> (proto::fits(w, o) <==> o is Opened),
        w is Reading || w is Running || w is Forwarding ==> (proto::fits(w, o) <==> o is Bytes),
        w is Listing ==> (proto::fits(w, o) <==> o is Names),
        w is Looking ==> (proto::fits(w, o) <==> o is Found),
        w is Fetching ==> (proto::fits(w, o) <==> o is Answered),
        w is ReadHeld || w is ListHeld || w is Exec || w is Http || w is Send || w is Post || w is Forward || w is InboxHeld
            ==> (proto::fits(w, o) <==> o is Settled),
{
}

/// Why a label of a host name is refused: its length goes first, then a hyphen at an end,
/// then a character that may not stand in it; and the first label that is wrong is the one
/// that is spoken of.
pub proof fn law_label_refusals(ls: Seq<Seq<char>>, l: Seq<char>)
    ensures
        ({
            let fault = net::label_fault(l);
            let n = text::byte_len(l);
            let sized = 0 < n <= 63;
            let ends = l[0] == '-' || l.last() == '-';
            &&& !sized ==> fault == Some("host label 长度非法(空/连续点/超 63): "@)
            &&& sized && ends ==> fault == Some("host label 不得以连字符起止: "@)
            &&& sized && !ends && (exists|i: int|
                0 <= i < l.len() && !host_laws::alnum(#[trigger] l[i]) && l[i] != '-') ==> fault == Some(
                "host label 含非法字符(仅 alnum/-): "@,
            )
            &&& net::labels_fault(ls) is Some ==> net::labels_fault(ls.push(l)) == net::labels_fault(ls)
            &&& net::labels_fault(ls) is None ==> net::labels_fault(ls.push(l)) == fault
        }),
{
    assert(ls.push(l).drop_last() =~= ls);
    if exists|i: int| 0 <= i < l.len() && !host_laws::alnum(#[trigger] l[i]) && l[i] != '-' {
        let i = choose|i: int| 0 <= i < l.len() && !host_laws::alnum(#[trigger] l[i]) && l[i] != '-';
        assert(!net::label_char(l[i]));
    }
}

} // verus!
