//! Rules for requests to the network: which addresses are out of bounds, which
//! host names and request targets are well formed, and which paths an
//! allow-list covers.

use crate::text;
use crate::text::{
    chars_of, contains_char, debug_string, join, lossy_string, parse_number, split, split_words,
    starts_with, str_eq, string_of_range, trim_slashes,
};
use vstd::prelude::*;
use vstd::utf8::*;

verus! {

/// An IP address: four bytes, or eight groups of sixteen bits.
#[derive(Clone, Copy, Debug)]
pub enum Ip {
    V4([u8; 4]),
    V6([u16; 8]),
}

/// The IPv4 ranges that no request may go to: this network, loopback, private,
/// shared, link-local, documentation, relay, multicast and reserved.
pub open spec fn v4_blocked(a: u8, b: u8, c: u8) -> bool {
    ||| a == 0
    ||| a == 10
    ||| a == 100 && 64 <= b < 128
    ||| a == 127
    ||| a == 169 && b == 254
    ||| a == 172 && 16 <= b < 32
    ||| a == 192 && b == 0 && c == 2
    ||| a == 192 && b == 88 && c == 99
    ||| a == 192 && b == 168
    ||| a == 198 && b == 51 && c == 100
    ||| a == 203 && b == 0 && c == 113
    ||| a >= 224
}

/// Whether an IPv6 address carries an IPv4 one in its last two groups.
pub open spec fn carries_v4(s: Seq<u16>) -> bool {
    &&& s[0] == 0 && s[1] == 0 && s[2] == 0 && s[3] == 0 && s[4] == 0
    &&& s[5] == 0 || s[5] == 0xffff
}

/// The IPv6 ranges that no request may go to: unspecified, loopback, unique
/// local, link-local, multicast, and what carries a blocked IPv4 address.
pub open spec fn v6_blocked(s: Seq<u16>) -> bool {
    ||| carries_v4(s) && v4_blocked((s[6] / 256) as u8, (s[6] % 256) as u8, (s[7] / 256) as u8)
    ||| 0xfc00 <= s[0] <= 0xfdff
    ||| 0xfe80 <= s[0] <= 0xfebf
    ||| 0xff00 <= s[0]
}

/// Whether an address is out of bounds.
pub open spec fn blocked(ip: Ip) -> bool {
    match ip {
        Ip::V4(o) => v4_blocked(o@[0], o@[1], o@[2]),
        Ip::V6(s) => v6_blocked(s@),
    }
}

fn is_blocked_v4(a: u8, b: u8, c: u8) -> (r: bool)
    ensures
        r == v4_blocked(a, b, c),
{
    a == 0 || a == 10 || (a == 100 && 64 <= b && b < 128) || a == 127 || (a == 169 && b == 254) || (a == 172
        && 16 <= b && b < 32) || (a == 192 && b == 0 && c == 2) || (a == 192 && b == 88 && c == 99) || (a
        == 192 && b == 168) || (a == 198 && b == 51 && c == 100) || (a == 203 && b == 0 && c == 113) || a
        >= 224
}

/// Tells whether an address is out of bounds.
pub fn is_blocked_ip(ip: Ip) -> (r: bool)
    ensures
        r == blocked(ip),
{
    match ip {
        Ip::V4(o) => is_blocked_v4(o[0], o[1], o[2]),
        Ip::V6(s) => {
            let inner = s[0] == 0 && s[1] == 0 && s[2] == 0 && s[3] == 0 && s[4] == 0 && (s[5] == 0
                || s[5] == 0xffff);
            (inner && is_blocked_v4((s[6] / 256) as u8, (s[6] % 256) as u8, (s[7] / 256) as u8)) || (0xfc00
                <= s[0] && s[0] <= 0xfdff) || (0xfe80 <= s[0] && s[0] <= 0xfebf) || 0xff00 <= s[0]
        },
    }
}

/// No request goes to the loopback, private or link-local ranges, where the
/// metadata service of a cloud is found, whether written as IPv4 or carried in
/// IPv6.
pub proof fn law_local_ranges_blocked(o: [u8; 4], s: [u16; 8])
    requires
        o@[0] == 127 || o@[0] == 10 || (o@[0] == 192 && o@[1] == 168) || (o@[0] == 172 && 16 <= o@[1] < 32) || (
        o@[0] == 169 && o@[1] == 254),
        carries_v4(s@),
        s@[6] == o@[0] * 256 + o@[1],
        s@[7] == o@[2] * 256 + o@[3],
    ensures
        blocked(Ip::V4(o)),
        blocked(Ip::V6(s)),
{
}

/// A character that no request target may hold: control, white space in ASCII,
/// or a backslash.
pub open spec fn unfit(c: char) -> bool {
    (c as u32) < 0x20 || c as u32 == 0x7f || c == ' ' || c == '\\'
}

/// Whether a text holds a character that no request target may hold.
pub open spec fn has_unfit(s: Seq<char>) -> bool {
    exists|i: int| 0 <= i < s.len() && unfit(#[trigger] s[i])
}

/// The value of a hexadecimal digit.
pub open spec fn hex_value(c: char) -> Option<u8> {
    if '0' <= c && c <= '9' {
        Some((c as u32 - '0' as u32) as u8)
    } else if 'a' <= c && c <= 'f' {
        Some((c as u32 - 'a' as u32 + 10) as u8)
    } else if 'A' <= c && c <= 'F' {
        Some((c as u32 - 'A' as u32 + 10) as u8)
    } else {
        None
    }
}

/// The byte that two hexadecimal digits at `i` stand for.
pub open spec fn escaped_byte(s: Seq<char>, i: int) -> u8 {
    (hex_value(s[i])->0 * 16 + hex_value(s[i + 1])->0) as u8
}

/// Whether the percent sign at `i` is followed by two hexadecimal digits.
pub open spec fn escape_complete(s: Seq<char>, i: int) -> bool {
    i + 2 < s.len() && hex_value(s[i + 1]) is Some && hex_value(s[i + 2]) is Some
}

/// The bytes that may not stand escaped: slash, backslash and dot.
pub open spec fn separator_byte(b: u8) -> bool {
    b == 0x2f || b == 0x5c || b == 0x2e
}

/// A byte as two upper-case hexadecimal digits.
pub open spec fn upper_hex2(b: u8) -> Seq<char> {
    seq![upper_hex(b / 16), upper_hex(b % 16)]
}

/// An upper-case hexadecimal digit.
pub open spec fn upper_hex(d: u8) -> char {
    if d < 10 {
        text::digit_char(d as nat)
    } else {
        (('A' as u32 + d - 10) as u32) as char
    }
}

/// What the percent escapes of a text from `i` on come to: each must be
/// complete and must not hide a separator or a dot.
pub open spec fn escapes(s: Seq<char>, i: int) -> Result<(), Seq<char>>
    decreases s.len() - i,
{
    if i < 0 || i >= s.len() {
        Ok(())
    } else if s[i] != '%' {
        escapes(s, i + 1)
    } else if !escape_complete(s, i) {
        Err("malformed %-escape: "@ + text::debug_text(s))
    } else if separator_byte(escaped_byte(s, i + 1)) {
        Err(
            "拒绝 percent-encoded separator/dot(%"@ + upper_hex2(escaped_byte(s, i + 1)) + "): "@
                + text::debug_text(s),
        )
    } else {
        escapes(s, i + 3)
    }
}

/// The segments of a path after `.` and `..` are resolved and empty ones
/// dropped; nothing where `..` goes above the root.
pub open spec fn resolved(segs: Seq<Seq<char>>) -> Option<Seq<Seq<char>>>
    decreases segs.len(),
{
    if segs.len() == 0 {
        Some(Seq::empty())
    } else {
        match resolved(segs.drop_last()) {
            None => None,
            Some(out) => {
                let seg = segs.last();
                if seg == ""@ || seg == "."@ {
                    Some(out)
                } else if seg == ".."@ {
                    if out.len() == 0 {
                        None
                    } else {
                        Some(out.drop_last())
                    }
                } else {
                    Some(out.push(seg))
                }
            },
        }
    }
}

/// A path with its dot segments resolved, or why it cannot be.
pub open spec fn without_dots(path: Seq<char>) -> Result<Seq<char>, Seq<char>> {
    match resolved(text::split_on(path, '/')) {
        None => Err("路径穿越到根之上: "@ + text::debug_text(path)),
        Some(out) => Ok("/"@ + text::join_with(out, "/"@)),
    }
}

/// Where the query begins: the place of the first question mark, or the end.
pub open spec fn query_at(s: Seq<char>) -> int
    decreases s.len(),
{
    if s.len() == 0 || s[0] == '?' {
        0
    } else {
        1 + query_at(s.drop_first())
    }
}

/// The one form of a request target that is both held against an allow-list
/// and sent, or why the target is refused.
pub open spec fn canonical(raw: Seq<char>) -> Result<Seq<char>, Seq<char>> {
    let path = raw.take(query_at(raw));
    let query = raw.skip(query_at(raw));
    if !text::starts(raw, "/"@) {
        Err("request-target 必须以 / 起始: "@ + text::debug_text(raw))
    } else if text::starts(raw, "//"@) {
        Err("拒绝 // 开头(authority-form 歧义): "@ + text::debug_text(raw))
    } else if has_unfit(raw) {
        Err("request-target 含非法字符(control/空白/反斜杠): "@ + text::debug_text(raw))
    } else if escapes(path, 0) is Err {
        Err(escapes(path, 0)->Err_0)
    } else if escapes(query, 0) is Err {
        Err(escapes(query, 0)->Err_0)
    } else {
        match without_dots(path) {
            Err(e) => Err(e),
            Ok(p) => Ok(p + query),
        }
    }
}

fn hexval(c: char) -> (r: Option<u8>)
    ensures
        r == hex_value(c),
        r is Some ==> r->0 < 16,
{
    let u: u32 = c as u32;
    if '0' <= c && c <= '9' {
        Some((u - 48) as u8)
    } else if 'a' <= c && c <= 'f' {
        Some((u - 97 + 10) as u8)
    } else if 'A' <= c && c <= 'F' {
        Some((u - 65 + 10) as u8)
    } else {
        None
    }
}

fn upper_hex_char(d: u8) -> (r: char)
    requires
        d < 16,
    ensures
        r == upper_hex(d),
{
    let b: u8 = if d < 10 {
        48u8 + d
    } else {
        55u8 + d
    };
    b as char
}

/// Refuses percent escapes that are not complete or that hide a separator or a
/// dot.
fn reject_bad_percent(s: &str) -> (r: Result<(), String>)
    ensures
        match r {
            Ok(_) => escapes(s@, 0) is Ok,
            Err(e) => escapes(s@, 0) == Err::<(), Seq<char>>(e@),
        },
{
    let v = chars_of(s);
    let n: usize = v.len();
    let mut i: usize = 0;
    while i < n
        invariant
            v@ == s@,
            n == v@.len(),
            i <= n,
            escapes(s@, i as int) == escapes(s@, 0),
        decreases n - i,
    {
        if v[i] == '%' {
            if n - i <= 2 {
                return Err("malformed %-escape: ".to_string().concat(debug_string(s).as_str()));
            }
            let (h1, h2) = match (hexval(v[i + 1]), hexval(v[i + 2])) {
                (Some(a), Some(b)) => (a, b),
                _ => {
                    return Err("malformed %-escape: ".to_string().concat(debug_string(s).as_str()));
                },
            };
            let dec: u8 = h1 * 16 + h2;
            if dec == 0x2f || dec == 0x5c || dec == 0x2e {
                let mut e = "拒绝 percent-encoded separator/dot(%".to_string();
                let ghost front = e@;
                e.push(upper_hex_char(dec / 16));
                e.push(upper_hex_char(dec % 16));
                assert(e@ =~= front + upper_hex2(dec));
                return Err(e.concat("): ").concat(debug_string(s).as_str()));
            }
            i += 3;
        } else {
            i += 1;
        }
    }
    Ok(())
}

/// Resolves the dot segments of a path.
fn remove_dot_segments(path: &str) -> (r: Result<String, String>)
    ensures
        text::result_view(r) == without_dots(path@),
{
    let segs = split(path, '/');
    let ghost all = text::views(segs@);
    let mut out: Vec<String> = Vec::new();
    let mut i: usize = 0;
    assert(all.take(0) =~= Seq::empty());
    assert(text::views(out@) =~= Seq::empty());
    while i < segs.len()
        invariant
            i <= segs@.len(),
            all == text::views(segs@),
            all == text::split_on(path@, '/'),
            resolved(all.take(i as int)) == Some(text::views(out@)),
        decreases segs@.len() - i,
    {
        let ghost had = text::views(out@);
        assert(all.take(i + 1).drop_last() =~= all.take(i as int));
        assert(all.take(i + 1).last() == segs@[i as int]@);
        let seg = segs[i].as_str();
        if str_eq(seg, "") || str_eq(seg, ".") {
        } else if str_eq(seg, "..") {
            if out.len() == 0 {
                proof {
                    lemma_resolved_none(all, i + 1);
                }
                return Err("路径穿越到根之上: ".to_string().concat(debug_string(path).as_str()));
            }
            let _ = out.pop();
            assert(text::views(out@) =~= had.drop_last());
        } else {
            out.push(segs[i].clone());
            assert(text::views(out@) =~= had.push(seg@));
        }
        i += 1;
    }
    assert(all.take(segs@.len() as int) =~= all);
    let tail = join(out.as_slice(), "/");
    Ok("/".to_string().concat(tail.as_str()))
}

/// A path that goes above the root early does so as a whole.
proof fn lemma_resolved_none(segs: Seq<Seq<char>>, k: int)
    requires
        0 <= k <= segs.len(),
        resolved(segs.take(k)) is None,
    ensures
        resolved(segs) is None,
    decreases segs.len() - k,
{
    if k == segs.len() {
        assert(segs.take(k) =~= segs);
    } else {
        assert(segs.take(k + 1).drop_last() =~= segs.take(k));
        lemma_resolved_none(segs, k + 1);
    }
}

/// Tells whether a text holds a character that no request target may hold.
fn find_unfit(v: &[char]) -> (r: bool)
    ensures
        r == has_unfit(v@),
{
    let mut i: usize = 0;
    while i < v.len()
        invariant
            i <= v@.len(),
            forall|j: int| 0 <= j < i ==> !unfit(#[trigger] v@[j]),
        decreases v@.len() - i,
    {
        let c = v[i];
        let u: u32 = c as u32;
        if u < 0x20 || u == 0x7f || c == ' ' || c == '\\' {
            assert(unfit(v@[i as int]));
            return true;
        }
        i += 1;
    }
    false
}

/// Finds where the query begins.
fn find_query(v: &[char]) -> (r: usize)
    ensures
        r == query_at(v@),
        r <= v@.len(),
{
    let mut i: usize = 0;
    assert(v@.skip(0) =~= v@);
    while i < v.len() && v[i] != '?'
        invariant
            i <= v@.len(),
            query_at(v@) == i + query_at(v@.skip(i as int)),
        decreases v@.len() - i,
    {
        assert(v@.skip(i as int).drop_first() =~= v@.skip(i + 1));
        i += 1;
    }
    i
}

/// Brings a request target into the one form that is held against the
/// allow-list and sent, or refuses it: it must begin with a single slash, hold
/// no control character, space or backslash, escape no separator or dot, and
/// not climb above the root.
pub fn canonical_request_target(raw: &str) -> (r: Result<String, String>)
    ensures
        text::result_view(r) == canonical(raw@),
{
    if !starts_with(raw, "/") {
        return Err("request-target 必须以 / 起始: ".to_string().concat(debug_string(raw).as_str()));
    }
    if starts_with(raw, "//") {
        return Err("拒绝 // 开头(authority-form 歧义): ".to_string().concat(debug_string(raw).as_str()));
    }
    let v = chars_of(raw);
    if find_unfit(v.as_slice()) {
        return Err(
            "request-target 含非法字符(control/空白/反斜杠): ".to_string().concat(
                debug_string(raw).as_str(),
            ),
        );
    }
    let q: usize = find_query(v.as_slice());
    let path = string_of_range(v.as_slice(), 0, q);
    let query = string_of_range(v.as_slice(), q, v.len());
    assert(path@ =~= raw@.take(query_at(raw@)));
    assert(query@ =~= raw@.skip(query_at(raw@)));
    match reject_bad_percent(path.as_str()) {
        Err(e) => {
            return Err(e);
        },
        Ok(_) => {},
    }
    match reject_bad_percent(query.as_str()) {
        Err(e) => {
            return Err(e);
        },
        Ok(_) => {},
    }
    match remove_dot_segments(path.as_str()) {
        Err(e) => Err(e),
        Ok(norm) => Ok(norm.concat(query.as_str())),
    }
}

/// A decimal digit.
pub open spec fn is_digit(c: char) -> bool {
    '0' <= c && c <= '9'
}

/// Whether every character is a decimal digit.
pub open spec fn all_digits(s: Seq<char>) -> bool {
    forall|i: int| 0 <= i < s.len() ==> is_digit(#[trigger] s[i])
}

/// One part of a dotted IPv4 address: up to three digits, no leading zero, at
/// most 255.
pub open spec fn is_octet(s: Seq<char>) -> bool {
    &&& 1 <= s.len() <= 3
    &&& all_digits(s)
    &&& s.len() > 1 ==> s[0] != '0'
    &&& s.len() == 3 ==> (s[0] as u32 - 48) * 100 + (s[1] as u32 - 48) * 10 + (s[2] as u32 - 48) <= 255
}

/// A dotted IPv4 address.
pub open spec fn is_v4_text(s: Seq<char>) -> bool {
    let parts = text::split_on(s, '.');
    parts.len() == 4 && is_octet(parts[0]) && is_octet(parts[1]) && is_octet(parts[2]) && is_octet(parts[3])
}

/// One group of an IPv6 address: one to four hexadecimal digits.
pub open spec fn is_group(s: Seq<char>) -> bool {
    1 <= s.len() <= 4 && forall|i: int| 0 <= i < s.len() ==> hex_value(#[trigger] s[i]) is Some
}

/// Whether the first `n` parts are groups.
pub open spec fn groups_before(parts: Seq<Seq<char>>, n: int) -> bool {
    forall|i: int| 0 <= i < n ==> is_group(#[trigger] parts[i])
}

/// How many groups a list of parts between colons stands for: each part is a
/// group, and the last may be a dotted IPv4 address, which stands for two where
/// `dotted` allows it. More than eight parts are too many.
pub open spec fn group_count(s: Seq<char>, dotted: bool) -> Option<nat> {
    let parts = text::split_on(s, ':');
    let n = parts.len() as int;
    if s.len() == 0 {
        Some(0)
    } else if n > 8 {
        None
    } else if groups_before(parts, n) {
        Some(n as nat)
    } else if dotted && groups_before(parts, n - 1) && is_v4_text(parts.last()) {
        Some((n + 1) as nat)
    } else {
        None
    }
}

/// The place of the first double colon, or the length where there is none.
pub open spec fn double_colon(s: Seq<char>) -> int
    decreases s.len(),
{
    if s.len() < 2 {
        s.len() as int
    } else if s[0] == ':' && s[1] == ':' {
        0
    } else {
        1 + double_colon(s.drop_first())
    }
}

/// An IPv6 address: eight groups, or fewer with one double colon standing for
/// the groups left out.
pub open spec fn is_v6_text(s: Seq<char>) -> bool {
    let at = double_colon(s);
    if at >= s.len() {
        group_count(s, true) == Some(8nat)
    } else {
        let front = group_count(s.take(at), false);
        let back = group_count(s.skip(at + 2), true);
        front is Some && back is Some && front->0 + back->0 <= 7
    }
}

/// Whether a character may stand in a label of a host name.
pub open spec fn label_char(c: char) -> bool {
    is_digit(c) || ('a' <= c && c <= 'z') || ('A' <= c && c <= 'Z') || c == '-'
}

/// What is wrong with a label of a host name, if anything.
pub open spec fn label_fault(l: Seq<char>) -> Option<Seq<char>> {
    if text::byte_len(l) == 0 || text::byte_len(l) > 63 {
        Some("host label 长度非法(空/连续点/超 63): "@)
    } else if l[0] == '-' || l.last() == '-' {
        Some("host label 不得以连字符起止: "@)
    } else if exists|i: int| 0 <= i < l.len() && !label_char(#[trigger] l[i]) {
        Some("host label 含非法字符(仅 alnum/-): "@)
    } else {
        None
    }
}

/// What is wrong with the first label that something is wrong with.
pub open spec fn labels_fault(ls: Seq<Seq<char>>) -> Option<Seq<char>>
    decreases ls.len(),
{
    if ls.len() == 0 {
        None
    } else {
        match labels_fault(ls.drop_last()) {
            Some(e) => Some(e),
            None => label_fault(ls.last()),
        }
    }
}

/// What a host name comes to: an IPv6 address in brackets, a dotted IPv4
/// address, or a name of labels not all of which are digits.
pub open spec fn host_check(host: Seq<char>) -> Result<(), Seq<char>> {
    let labels = text::split_on(host, '.');
    let shown = text::debug_text(host);
    if text::byte_len(host) == 0 || text::byte_len(host) > 253 {
        Err("host 非法长度: "@ + shown)
    } else if host[0] == '[' {
        if host.last() != ']' || host.len() < 3 {
            Err("IPv6 literal 括号不匹配: "@ + shown)
        } else if is_v6_text(host.subrange(1, host.len() - 1)) {
            Ok(())
        } else {
            Err("非法 IPv6 literal: "@ + shown)
        }
    } else if host.contains('[') || host.contains(']') || host.contains(':') {
        Err("host 含非法字符([]:): "@ + shown)
    } else if is_v4_text(host) {
        Ok(())
    } else if labels_fault(labels) is Some {
        Err(labels_fault(labels)->0 + shown)
    } else if forall|i: int| 0 <= i < labels.len() ==> all_digits(#[trigger] labels[i]) {
        Err("host 形似 IPv4 但非法: "@ + shown)
    } else {
        Ok(())
    }
}

fn only_digits(v: &[char]) -> (r: bool)
    ensures
        r == all_digits(v@),
{
    let mut i: usize = 0;
    while i < v.len()
        invariant
            i <= v@.len(),
            forall|j: int| 0 <= j < i ==> is_digit(#[trigger] v@[j]),
        decreases v@.len() - i,
    {
        if v[i] < '0' || v[i] > '9' {
            assert(!is_digit(v@[i as int]));
            return false;
        }
        i += 1;
    }
    true
}

fn octet(s: &str) -> (r: bool)
    ensures
        r == is_octet(s@),
{
    let v = chars_of(s);
    let n: usize = v.len();
    if n == 0 || n > 3 || !only_digits(v.as_slice()) {
        return false;
    }
    if n > 1 && v[0] == '0' {
        return false;
    }
    if n == 3 {
        assert(is_digit(v@[0]) && is_digit(v@[1]) && is_digit(v@[2]));
        let x: u32 = (v[0] as u32 - 48) * 100 + (v[1] as u32 - 48) * 10 + (v[2] as u32 - 48);
        return x <= 255;
    }
    true
}

/// Tells whether a text is a dotted IPv4 address.
fn v4_text(s: &str) -> (r: bool)
    ensures
        r == is_v4_text(s@),
{
    let parts = split(s, '.');
    let ghost views = text::views(parts@);
    assert(views.len() == parts@.len());
    if parts.len() != 4 {
        return false;
    }
    assert(views[0] == parts@[0]@ && views[1] == parts@[1]@ && views[2] == parts@[2]@ && views[3]
        == parts@[3]@);
    octet(parts[0].as_str()) && octet(parts[1].as_str()) && octet(parts[2].as_str()) && octet(
        parts[3].as_str(),
    )
}

fn group(s: &str) -> (r: bool)
    ensures
        r == is_group(s@),
{
    let v = chars_of(s);
    if v.len() == 0 || v.len() > 4 {
        return false;
    }
    let mut i: usize = 0;
    while i < v.len()
        invariant
            i <= v@.len(),
            v@ == s@,
            forall|j: int| 0 <= j < i ==> hex_value(#[trigger] v@[j]) is Some,
        decreases v@.len() - i,
    {
        if hexval(v[i]).is_none() {
            assert(!(hex_value(v@[i as int]) is Some));
            return false;
        }
        i += 1;
    }
    true
}

/// Tells how many groups a list of parts between colons stands for.
fn count_groups(s: &str, dotted: bool) -> (r: Option<usize>)
    ensures
        match r {
            Some(n) => group_count(s@, dotted) == Some(n as nat),
            None => group_count(s@, dotted) is None,
        },
{
    if s.unicode_len() == 0 {
        return Some(0);
    }
    let parts = split(s, ':');
    let ghost views = text::views(parts@);
    let n: usize = parts.len();
    assert(views.len() == n);
    if n > 8 {
        return None;
    }
    let mut i: usize = 0;
    while i < n && group(parts[i].as_str())
        invariant
            i <= n,
            n == parts@.len(),
            views == text::views(parts@),
            groups_before(views, i as int),
        decreases n - i,
    {
        assert(views[i as int] == parts@[i as int]@);
        i += 1;
    }
    if i == n {
        return Some(n);
    }
    assert(views[i as int] == parts@[i as int]@);
    assert(!is_group(views[i as int]));
    if dotted && i == n - 1 && v4_text(parts[i].as_str()) {
        return Some(n + 1);
    }
    None
}

/// Tells whether a text is an IPv6 address.
fn v6_text(s: &str) -> (r: bool)
    ensures
        r == is_v6_text(s@),
{
    let v = chars_of(s);
    let n: usize = v.len();
    let mut at: usize = 0;
    assert(v@.skip(0) =~= v@);
    while at < n && !(n - at >= 2 && v[at] == ':' && v[at + 1] == ':')
        invariant
            at <= n,
            n == v@.len(),
            v@ == s@,
            double_colon(s@) == at + double_colon(v@.skip(at as int)),
        decreases n - at,
    {
        assert(v@.skip(at as int).drop_first() =~= v@.skip(at + 1));
        at += 1;
    }
    if at >= n {
        return match count_groups(s, true) {
            Some(k) => k == 8,
            None => false,
        };
    }
    let front = string_of_range(v.as_slice(), 0, at);
    let back = string_of_range(v.as_slice(), at + 2, n);
    assert(front@ =~= s@.take(at as int));
    assert(back@ =~= s@.skip(at + 2));
    match (count_groups(front.as_str(), false), count_groups(back.as_str(), true)) {
        (Some(a), Some(b)) => a <= 7 && b <= 7 - a,
        _ => false,
    }
}

/// The fault of a label of a host name, if it has one.
fn check_label(l: &str) -> (r: Option<&'static str>)
    ensures
        match r {
            Some(e) => label_fault(l@) == Some(e@),
            None => label_fault(l@) is None,
        },
{
    let bytes: usize = l.as_bytes().len();
    if bytes == 0 || bytes > 63 {
        return Some("host label 长度非法(空/连续点/超 63): ");
    }
    let v = chars_of(l);
    proof {
        if l@.len() == 0 {
            assert(encode_utf8(l@) =~= Seq::empty());
        }
    }
    if v[0] == '-' || v[v.len() - 1] == '-' {
        return Some("host label 不得以连字符起止: ");
    }
    let mut i: usize = 0;
    while i < v.len()
        invariant
            i <= v@.len(),
            v@ == l@,
            !(text::byte_len(l@) == 0 || text::byte_len(l@) > 63),
            !(l@[0] == '-' || l@.last() == '-'),
            forall|j: int| 0 <= j < i ==> label_char(#[trigger] v@[j]),
        decreases v@.len() - i,
    {
        let c = v[i];
        let ok = ('0' <= c && c <= '9') || ('a' <= c && c <= 'z') || ('A' <= c && c <= 'Z') || c == '-';
        if !ok {
            assert(!label_char(l@[i as int]));
            return Some("host label 含非法字符(仅 alnum/-): ");
        }
        i += 1;
    }
    None
}

/// The fault of the first label is the fault of the whole.
proof fn lemma_labels_fault(ls: Seq<Seq<char>>, k: int)
    requires
        0 <= k <= ls.len(),
        labels_fault(ls.take(k)) is Some,
    ensures
        labels_fault(ls) == labels_fault(ls.take(k)),
    decreases ls.len() - k,
{
    if k == ls.len() {
        assert(ls.take(k) =~= ls);
    } else {
        assert(ls.take(k + 1).drop_last() =~= ls.take(k));
        lemma_labels_fault(ls, k + 1);
    }
}

/// Checks a host: an IPv6 address in brackets, a dotted IPv4 address, or a host
/// name. A port is no part of it.
pub fn valid_host(host: &str) -> (r: Result<(), String>)
    ensures
        match r {
            Ok(_) => host_check(host@) is Ok,
            Err(e) => host_check(host@) == Err::<(), Seq<char>>(e@),
        },
{
    let bytes: usize = host.as_bytes().len();
    if bytes == 0 || bytes > 253 {
        return Err("host 非法长度: ".to_string().concat(debug_string(host).as_str()));
    }
    let v = chars_of(host);
    proof {
        if host@.len() == 0 {
            assert(encode_utf8(host@) =~= Seq::empty());
        }
    }
    if v[0] == '[' {
        if v[v.len() - 1] != ']' || v.len() < 3 {
            return Err("IPv6 literal 括号不匹配: ".to_string().concat(debug_string(host).as_str()));
        }
        let inner = string_of_range(v.as_slice(), 1, v.len() - 1);
        if v6_text(inner.as_str()) {
            return Ok(());
        }
        return Err("非法 IPv6 literal: ".to_string().concat(debug_string(host).as_str()));
    }
    if contains_char(host, '[') || contains_char(host, ']') || contains_char(host, ':') {
        return Err("host 含非法字符([]:): ".to_string().concat(debug_string(host).as_str()));
    }
    if v4_text(host) {
        return Ok(());
    }
    let labels = split(host, '.');
    let ghost all = text::views(labels@);
    let mut numeric = true;
    let mut i: usize = 0;
    assert(all.take(0) =~= Seq::empty());
    while i < labels.len()
        invariant
            i <= labels@.len(),
            all == text::views(labels@),
            all == text::split_on(host@, '.'),
            labels_fault(all.take(i as int)) is None,
            numeric == (forall|j: int| 0 <= j < i ==> all_digits(#[trigger] all[j])),
            host_check(host@) == (if labels_fault(all) is Some {
                Err::<(), Seq<char>>(labels_fault(all)->0 + text::debug_text(host@))
            } else if forall|j: int| 0 <= j < all.len() ==> all_digits(#[trigger] all[j]) {
                Err("host 形似 IPv4 但非法: "@ + text::debug_text(host@))
            } else {
                Ok(())
            }),
        decreases labels@.len() - i,
    {
        assert(all.take(i + 1).drop_last() =~= all.take(i as int));
        assert(all[i as int] == labels@[i as int]@);
        match check_label(labels[i].as_str()) {
            Some(e) => {
                proof {
                    lemma_labels_fault(all, i + 1);
                }
                return Err(e.to_string().concat(debug_string(host).as_str()));
            },
            None => {},
        }
        let lv = chars_of(labels[i].as_str());
        if !only_digits(lv.as_slice()) {
            assert(!all_digits(all[i as int]));
            numeric = false;
        }
        i += 1;
    }
    assert(all.take(labels@.len() as int) =~= all);
    if numeric {
        return Err("host 形似 IPv4 但非法: ".to_string().concat(debug_string(host).as_str()));
    }
    Ok(())
}

/// The names under which clouds serve their metadata.
pub open spec fn metadata_hosts() -> Seq<Seq<char>> {
    seq![
        "metadata.google.internal"@,
        "metadata"@,
        "instance-data"@,
        "metadata.azure.com"@,
    ]
}

/// A letter of ASCII in lower case.
pub open spec fn lower(c: char) -> char {
    if 'A' <= c && c <= 'Z' {
        ((c as u32 + 32) as u32) as char
    } else {
        c
    }
}

/// A text with its ASCII letters in lower case.
pub open spec fn lowered(s: Seq<char>) -> Seq<char> {
    s.map_values(|c: char| lower(c))
}

/// Whether a host serves metadata, in whatever case it is written.
pub open spec fn metadata_host(host: Seq<char>) -> bool {
    metadata_hosts().contains(lowered(host))
}

fn to_lower(s: &str) -> (r: String)
    ensures
        r@ == lowered(s@),
{
    let v = chars_of(s);
    let mut out = String::new();
    let mut i: usize = 0;
    while i < v.len()
        invariant
            i <= v@.len(),
            v@ == s@,
            out@ == lowered(s@).take(i as int),
        decreases v@.len() - i,
    {
        let c = v[i];
        if 'A' <= c && c <= 'Z' {
            let u: u8 = c as u8 + 32;
            out.push(u as char);
        } else {
            out.push(c);
        }
        assert(lowered(s@).take(i + 1) =~= lowered(s@).take(i as int).push(lowered(s@)[i as int]));
        i += 1;
    }
    assert(lowered(s@).take(s@.len() as int) =~= lowered(s@));
    out
}

/// Refuses the hosts that serve metadata; they are not even looked up.
pub fn refuse_metadata(host: &str) -> (r: Result<(), String>)
    ensures
        r is Ok <==> !metadata_host(host@),
        r is Err ==> r->Err_0@ == "egress 拒绝:metadata 主机 "@ + host@,
{
    let hl = to_lower(host);
    let h = hl.as_str();
    let ghost m = metadata_hosts();
    assert(m[0] == "metadata.google.internal"@ && m[1] == "metadata"@ && m[2] == "instance-data"@ && m[3]
        == "metadata.azure.com"@);
    if str_eq(h, "metadata.google.internal") || str_eq(h, "metadata") || str_eq(h, "instance-data") || str_eq(
        h,
        "metadata.azure.com",
    ) {
        return Err("egress 拒绝:metadata 主机 ".to_string().concat(host));
    }
    Ok(())
}

/// An address that a host name was resolved to, and how it is shown.
pub struct HostAddr {
    pub ip: Ip,
    pub port: u16,
    pub shown: String,
}

/// What a lookup of a host comes to: all its addresses, or why not. One address
/// out of bounds refuses them all.
pub open spec fn lookup_check(
    host: Seq<char>,
    found: Result<Vec<HostAddr>, String>,
) -> Result<Seq<HostAddr>, Seq<char>> {
    if metadata_host(host) {
        Err("egress 拒绝:metadata 主机 "@ + host)
    } else {
        match found {
            Err(e) => Err("DNS 解析失败: "@ + e@),
            Ok(addrs) => if addrs@.len() == 0 {
                Err("egress 拒绝:"@ + host + " 无解析结果"@)
            } else if first_blocked(addrs@) < addrs@.len() {
                Err(
                    "egress 拒绝:"@ + host + " 解析到被禁 IP "@ + addrs@[first_blocked(addrs@)].shown@
                        + "(private/loopback/link-local/metadata)"@,
                )
            } else {
                Ok(addrs@)
            },
        }
    }
}

/// The place of the first address out of bounds, or the length where there is
/// none.
pub open spec fn first_blocked(addrs: Seq<HostAddr>) -> int
    decreases addrs.len(),
{
    if addrs.len() == 0 || blocked(addrs[0].ip) {
        0
    } else {
        1 + first_blocked(addrs.drop_first())
    }
}

/// Checks what a host was resolved to. The addresses given back are the ones to
/// connect to; the host is not to be resolved again.
pub fn resolve_checked(host: &str, found: Result<Vec<HostAddr>, String>) -> (r: Result<Vec<HostAddr>, String>)
    ensures
        match r {
            Ok(a) => lookup_check(host@, found) == Ok::<Seq<HostAddr>, Seq<char>>(a@),
            Err(e) => lookup_check(host@, found) == Err::<Seq<HostAddr>, Seq<char>>(e@),
        },
{
    match refuse_metadata(host) {
        Err(e) => {
            return Err(e);
        },
        Ok(_) => {},
    }
    let addrs = match found {
        Err(e) => {
            return Err("DNS 解析失败: ".to_string().concat(e.as_str()));
        },
        Ok(a) => a,
    };
    if addrs.len() == 0 {
        return Err("egress 拒绝:".to_string().concat(host).concat(" 无解析结果"));
    }
    let mut i: usize = 0;
    assert(addrs@.skip(0) =~= addrs@);
    while i < addrs.len()
        invariant
            i <= addrs@.len(),
            addrs@.len() > 0,
            !metadata_host(host@),
            found == Ok::<Vec<HostAddr>, String>(addrs),
            first_blocked(addrs@) == i + first_blocked(addrs@.skip(i as int)),
        decreases addrs@.len() - i,
    {
        if is_blocked_ip(addrs[i].ip) {
            return Err(
                "egress 拒绝:".to_string().concat(host).concat(" 解析到被禁 IP ").concat(
                    addrs[i].shown.as_str(),
                ).concat("(private/loopback/link-local/metadata)"),
            );
        }
        assert(addrs@.skip(i as int).drop_first() =~= addrs@.skip(i + 1));
        i += 1;
    }
    Ok(addrs)
}

proof fn lemma_first_blocked(addrs: Seq<HostAddr>)
    ensures
        0 <= first_blocked(addrs) <= addrs.len(),
        forall|i: int| 0 <= i < first_blocked(addrs) ==> !blocked((#[trigger] addrs[i]).ip),
    decreases addrs.len(),
{
    if addrs.len() > 0 && !blocked(addrs[0].ip) {
        lemma_first_blocked(addrs.drop_first());
        assert forall|i: int| 0 <= i < first_blocked(addrs) implies !blocked((#[trigger] addrs[i]).ip) by {
            if i > 0 {
                assert(addrs.drop_first()[i - 1] == addrs[i]);
            }
        }
    }
}

/// A lookup that passes gives at least one address, every address it gives is
/// within bounds, and the host serves no metadata.
pub proof fn law_checked_addresses_in_bounds(host: Seq<char>, found: Result<Vec<HostAddr>, String>)
    requires
        lookup_check(host, found) is Ok,
    ensures
        lookup_check(host, found)->Ok_0.len() > 0,
        !metadata_host(host),
        forall|i: int|
            0 <= i < lookup_check(host, found)->Ok_0.len() ==> !blocked(
                (#[trigger] lookup_check(host, found)->Ok_0[i]).ip,
            ),
{
    lemma_first_blocked(found->Ok_0@);
}

/// Whether path segments match a pattern: `*` stands for one segment, `**` for
/// any number, and any other segment for itself.
pub open spec fn glob(pat: Seq<Seq<char>>, q: Seq<Seq<char>>) -> bool
    decreases pat.len(),
{
    if pat.len() == 0 {
        q.len() == 0
    } else if pat[0] == "**"@ {
        exists|i: int| 0 <= i <= q.len() && glob(pat.drop_first(), #[trigger] q.skip(i))
    } else {
        q.len() > 0 && (pat[0] == "*"@ || pat[0] == q[0]) && glob(pat.drop_first(), q.drop_first())
    }
}

/// Whether a path matches a pattern, slashes at the ends of either ignored.
pub open spec fn path_covered(pattern: Seq<char>, path: Seq<char>) -> bool {
    glob(
        text::split_on(text::no_slash_ends(pattern), '/'),
        text::split_on(text::no_slash_ends(path), '/'),
    )
}

/// Whether a path matches one of the patterns of an allow-list.
pub open spec fn any_covers(patterns: Seq<Seq<char>>, path: Seq<char>) -> bool {
    exists|i: int| 0 <= i < patterns.len() && path_covered(#[trigger] patterns[i], path)
}

/// Matches the segments from `i` on against the pattern from `j` on.
fn seg_match(pat: &[String], j: usize, q: &[String], i: usize) -> (r: bool)
    requires
        j <= pat@.len(),
        i <= q@.len(),
    ensures
        r == glob(text::views(pat@).skip(j as int), text::views(q@).skip(i as int)),
    decreases pat@.len() - j,
{
    let ghost pv = text::views(pat@);
    let ghost qv = text::views(q@);
    let np: usize = pat.len();
    if j == np {
        return i == q.len();
    }
    assert(pv.skip(j as int)[0] == pat@[j as int]@);
    assert(pv.skip(j as int).drop_first() =~= pv.skip(j + 1));
    if str_eq(pat[j].as_str(), "**") {
        let mut k: usize = i;
        loop
            invariant
                j < np,
                np == pat@.len(),
                i <= k <= q@.len(),
                pv == text::views(pat@),
                qv == text::views(q@),
                pv.skip(j as int)[0] == "**"@,
                pv.skip(j as int).drop_first() == pv.skip(j + 1),
                forall|m: int|
                    0 <= m < k - i ==> !glob(pv.skip(j + 1), #[trigger] qv.skip(i as int).skip(m)),
            decreases q@.len() - k,
        {
            assert(qv.skip(i as int).skip(k - i) =~= qv.skip(k as int));
            if seg_match(pat, j + 1, q, k) {
                proof {
                    let rest = qv.skip(i as int);
                    assert(0 <= k - i <= rest.len());
                    assert(glob(pv.skip(j as int).drop_first(), rest.skip(k - i)));
                    assert(glob(pv.skip(j as int), rest));
                }
                return true;
            }
            if k == q.len() {
                return false;
            }
            k += 1;
        }
    }
    if i == q.len() {
        return false;
    }
    assert(qv.skip(i as int)[0] == q@[i as int]@);
    assert(qv.skip(i as int).drop_first() =~= qv.skip(i + 1));
    (str_eq(pat[j].as_str(), "*") || str_eq(pat[j].as_str(), q[i].as_str())) && seg_match(
        pat,
        j + 1,
        q,
        i + 1,
    )
}

/// Tells whether a path matches a pattern of an allow-list.
pub fn path_matches(pattern: &str, path: &str) -> (r: bool)
    ensures
        r == path_covered(pattern@, path@),
{
    let pp = split(trim_slashes(pattern).as_str(), '/');
    let qp = split(trim_slashes(path).as_str(), '/');
    assert(text::views(pp@).skip(0) =~= text::views(pp@));
    assert(text::views(qp@).skip(0) =~= text::views(qp@));
    seg_match(pp.as_slice(), 0, qp.as_slice(), 0)
}

/// An answer to a request.
pub struct HttpResponse {
    pub status: u16,
    pub body: Vec<u8>,
}

/// A control character of ASCII.
pub open spec fn ascii_control(c: char) -> bool {
    (c as u32) < 0x20 || c as u32 == 0x7f
}

/// Whether a request line and host line can be made of these without one
/// breaking out of its line.
pub open spec fn request_fit(authority: Seq<char>, path: Seq<char>) -> bool {
    &&& forall|i: int| 0 <= i < path.len() ==> !ascii_control(#[trigger] path[i])
    &&& forall|i: int|
        0 <= i < authority.len() ==> !ascii_control(#[trigger] authority[i]) && authority[i] != ' '
}

/// The text of a request.
pub open spec fn request_text(authority: Seq<char>, path: Seq<char>) -> Seq<char> {
    "GET "@ + path + " HTTP/1.0\r\nHost: "@ + authority
        + "\r\nUser-Agent: capable/0.1\r\nAccept: */*\r\nConnection: close\r\n\r\n"@
}

fn free_of_control(s: &str, spaces: bool) -> (r: bool)
    ensures
        r == (forall|i: int|
            0 <= i < s@.len() ==> !ascii_control(#[trigger] s@[i]) && (spaces || s@[i] != ' ')),
{
    let v = chars_of(s);
    let mut i: usize = 0;
    while i < v.len()
        invariant
            i <= v@.len(),
            v@ == s@,
            forall|j: int|
                0 <= j < i ==> !ascii_control(#[trigger] s@[j]) && (spaces || s@[j] != ' '),
        decreases v@.len() - i,
    {
        let u: u32 = v[i] as u32;
        if u < 0x20 || u == 0x7f || (!spaces && v[i] == ' ') {
            assert(ascii_control(s@[i as int]) || (!spaces && s@[i as int] == ' '));
            return false;
        }
        i += 1;
    }
    true
}

/// Writes the request that is sent to a checked address. The target and the
/// host are held against control characters once more.
pub fn build_request(authority: &str, path: &str) -> (r: Result<String, String>)
    ensures
        r is Ok <==> request_fit(authority@, path@),
        r is Ok ==> r->Ok_0@ == request_text(authority@, path@),
        r is Err ==> r->Err_0@ == "fetch_get 拒绝:path/authority 含控制字符(注入防护)"@,
{
    let a = free_of_control(path, true);
    let b = free_of_control(authority, false);
    if !a || !b {
        return Err("fetch_get 拒绝:path/authority 含控制字符(注入防护)".to_string());
    }
    Ok(
        "GET ".to_string().concat(path).concat(" HTTP/1.0\r\nHost: ").concat(authority).concat(
            "\r\nUser-Agent: capable/0.1\r\nAccept: */*\r\nConnection: close\r\n\r\n",
        ),
    )
}

/// What is held of an answer after one more piece, and whether the limit was passed.
pub open spec fn absorbed(raw: Seq<u8>, chunk: Seq<u8>, max_bytes: nat) -> (Seq<u8>, bool) {
    if raw.len() + chunk.len() > max_bytes {
        ((raw + chunk).take(max_bytes as int), true)
    } else {
        (raw + chunk, false)
    }
}

/// Takes in a piece of an answer, up to the limit; tells whether the limit was
/// passed, after which nothing more is read.
pub fn absorb(raw: &mut Vec<u8>, chunk: &[u8], max_bytes: usize) -> (done: bool)
    ensures
        done == (old(raw)@.len() + chunk@.len() > max_bytes),
        final(raw)@ == (if done {
            (old(raw)@ + chunk@).take(max_bytes as int)
        } else {
            old(raw)@ + chunk@
        }),
        (final(raw)@, done) == absorbed(old(raw)@, chunk@, max_bytes as nat),
{
    raw.extend_from_slice(chunk);
    assert(raw@ =~= old(raw)@ + chunk@);
    if raw.len() > max_bytes {
        raw.truncate(max_bytes);
        assert(raw@ =~= (old(raw)@ + chunk@).take(max_bytes as int));
        return true;
    }
    false
}

/// Whether the blank line that ends the headers stands at `i`.
pub open spec fn blank_line(b: Seq<u8>, i: int) -> bool {
    b[i] == 13 && b[i + 1] == 10 && b[i + 2] == 13 && b[i + 3] == 10
}

/// The place of the first blank line, or the length where there is none.
pub open spec fn headers_end(b: Seq<u8>) -> int
    decreases b.len(),
{
    if b.len() < 4 {
        b.len() as int
    } else if blank_line(b, 0) {
        0
    } else {
        1 + headers_end(b.drop_first())
    }
}

/// The first line of some bytes, without its end.
pub open spec fn first_line(b: Seq<u8>) -> Seq<u8>
    decreases b.len(),
{
    if b.len() == 0 || b[0] == 13 || b[0] == 10 {
        Seq::empty()
    } else {
        seq![b[0]] + first_line(b.drop_first())
    }
}

/// The status that the first line of an answer gives: its second word.
pub open spec fn status_of(line: Seq<u8>) -> Option<nat> {
    let ws = text::words(text::lossy(line));
    if ws.len() < 2 {
        None
    } else {
        text::parse_dec(ws[1], 65535)
    }
}

/// What an answer comes to: its status, and its body, which is all that follows
/// the first blank line.
pub open spec fn response_of(raw: Seq<u8>) -> Result<(nat, Seq<u8>), Seq<char>> {
    let end = headers_end(raw);
    if end >= raw.len() {
        Err("HTTP 响应无 header 结束"@)
    } else {
        match status_of(first_line(raw.take(end))) {
            None => Err("无法解析 HTTP status"@),
            Some(n) => Ok((n, raw.skip(end + 4))),
        }
    }
}

/// Reads the first line of some bytes.
fn take_first_line(b: &[u8]) -> (r: usize)
    ensures
        r <= b@.len(),
        b@.take(r as int) == first_line(b@),
{
    let mut i: usize = 0;
    assert(b@.skip(0) =~= b@);
    assert(b@.take(0) + first_line(b@) =~= first_line(b@));
    while i < b.len() && b[i] != 13 && b[i] != 10
        invariant
            i <= b@.len(),
            b@.take(i as int) + first_line(b@.skip(i as int)) == first_line(b@),
        decreases b@.len() - i,
    {
        let ghost rest = b@.skip(i as int);
        assert(rest.drop_first() =~= b@.skip(i + 1));
        assert(b@.take(i + 1) =~= b@.take(i as int) + seq![rest[0]]);
        assert(b@.take(i as int) + (seq![rest[0]] + first_line(b@.skip(i + 1))) =~= (b@.take(i as int)
            + seq![rest[0]]) + first_line(b@.skip(i + 1)));
        i += 1;
    }
    assert(b@.take(i as int) + Seq::<u8>::empty() =~= b@.take(i as int));
    i
}

/// Reads an answer.
pub fn parse_http_response(raw: &[u8]) -> (r: Result<HttpResponse, String>)
    ensures
        match r {
            Ok(h) => response_of(raw@) == Ok::<(nat, Seq<u8>), Seq<char>>((h.status as nat, h.body@)),
            Err(e) => response_of(raw@) == Err::<(nat, Seq<u8>), Seq<char>>(e@),
        },
{
    let n: usize = raw.len();
    let mut i: usize = 0;
    assert(raw@.skip(0) =~= raw@);
    while i < n && !(n - i >= 4 && raw[i] == 13 && raw[i + 1] == 10 && raw[i + 2] == 13 && raw[i + 3] == 10)
        invariant
            i <= n,
            n == raw@.len(),
            headers_end(raw@) == i + headers_end(raw@.skip(i as int)),
        decreases n - i,
    {
        assert(raw@.skip(i as int).drop_first() =~= raw@.skip(i + 1));
        i += 1;
    }
    if i >= n {
        return Err("HTTP 响应无 header 结束".to_string());
    }
    let head = vstd::slice::slice_subrange(raw, 0, i);
    assert(head@ =~= raw@.take(i as int));
    let k = take_first_line(head);
    let line = vstd::slice::slice_subrange(head, 0, k);
    assert(line@ =~= head@.take(k as int));
    let shown = lossy_string(line);
    let ws = split_words(shown.as_str());
    let ghost views = text::views(ws@);
    assert(views.len() == ws@.len());
    if ws.len() < 2 {
        return Err("无法解析 HTTP status".to_string());
    }
    assert(views[1] == ws@[1]@);
    match parse_number(ws[1].as_str(), 65535) {
        None => Err("无法解析 HTTP status".to_string()),
        Some(status) => {
            let body = vstd::slice::slice_to_vec(vstd::slice::slice_subrange(raw, i + 4, n));
            assert(body@ =~= raw@.skip(i + 4));
            Ok(HttpResponse { status: status as u16, body })
        },
    }
}

} // verus!
