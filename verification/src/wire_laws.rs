//! What holds of frames, of base64, of the command line, and of how a client reads
//! replies.

use crate::base64;
use crate::cli;
use crate::cli::{FlagsV, InvocationV};
use crate::frame;
use crate::frame::{FrameError, FramePoll};
use crate::label;
use crate::label::Taint;
use crate::proto;
use crate::request_laws;
use crate::role::Role;
use crate::text;
use crate::text_laws;
use vstd::prelude::*;
use vstd::utf8::*;

verus! {

/// A frame is four bytes that hold the length of the body, the highest byte first, and the
/// body as it is.
pub proof fn law_frame_layout(body: Seq<u8>)
    requires
        body.len() < 0x1_0000_0000,
    ensures
        ({
            let f = frame::frame(body);
            &&& f.len() == body.len() + 4
            &&& f[0] * 16777216 + f[1] * 65536 + f[2] * 256 + f[3] == body.len()
            &&& f.skip(4) == body
        }),
{
    let f = frame::frame(body);
    let n = body.len() as u32;
    assert(f[0] == (n / 0x1000000) as u8);
    assert(f[1] == (n / 0x10000 % 0x100) as u8);
    assert(f[2] == (n / 0x100 % 0x100) as u8);
    assert(f[3] == (n % 0x100) as u8);
    assert(f.skip(4) =~= body);
}

/// A frame of which only a part has come is not taken for one: nothing at all is the end,
/// less than the header is a cut header, and less than the body a cut body. A body of up
/// to eight mebibytes is read, and a longer one refused by its header.
pub proof fn law_partial_frames(body: Seq<u8>, n: int)
    requires
        body.len() < 0x1_0000_0000,
        0 <= n < body.len() + 4,
    ensures
        ({
            let part = frame::frame_read(frame::frame(body).take(n));
            &&& n == 0 ==> part == Ok::<Option<Seq<u8>>, FrameError>(None)
            &&& 0 < n < 4 ==> part == Err::<Option<Seq<u8>>, FrameError>(FrameError::TruncatedHeader)
            &&& n >= 4 && body.len() <= 8388608 ==> part == Err::<Option<Seq<u8>>, FrameError>(
                FrameError::TruncatedBody,
            )
            &&& n >= 4 && body.len() > 8388608 ==> part == Err::<Option<Seq<u8>>, FrameError>(
                FrameError::TooLarge(body.len() as usize),
            )
        }),
{
    law_frame_layout(body);
    let f = frame::frame(body);
    let p = f.take(n);
    if n >= 4 {
        assert(p[0] == f[0] && p[1] == f[1] && p[2] == f[2] && p[3] == f[3]);
    }
}

/// The symbol of base64 for a number below 64.
pub open spec fn symbol(v: int) -> char {
    if v < 26 {
        ('A' as u32 + v) as u32 as char
    } else if v < 52 {
        ('a' as u32 + v - 26) as u32 as char
    } else if v < 62 {
        ('0' as u32 + v - 52) as u32 as char
    } else if v == 62 {
        '+'
    } else {
        '/'
    }
}

proof fn lemma_symbol(v: nat)
    requires
        v < 64,
    ensures
        base64::symbol(v) as char == symbol(v as int),
{
}

/// The four symbols for a number of 24 bits.
pub open spec fn symbols(n: int) -> Seq<char> {
    seq![symbol(n / 262144), symbol(n / 4096 % 64), symbol(n / 64 % 64), symbol(n % 64)]
}

/// Base64 takes three bytes as one number of 24 bits and writes it in four symbols, the
/// highest first; two bytes at the end take three symbols and one `=`, and one byte two
/// symbols and two.
pub proof fn law_base64_groups(a: u8, b: u8, c: u8, rest: Seq<u8>)
    ensures
        base64::encoded(Seq::empty()) == Seq::<char>::empty(),
        base64::encoded(seq![a, b, c] + rest) == symbols(a * 65536 + b * 256 + c) + base64::encoded(rest),
        base64::encoded(seq![a, b]) == symbols(a * 65536 + b * 256).take(3).push('='),
        base64::encoded(seq![a]) == symbols(a * 65536).take(2).push('=').push('='),
{
    let d = seq![a, b, c] + rest;
    assert(base64::head(d, 3) =~= seq![a, b, c]);
    assert(base64::tail(d, 3) =~= rest);
    lemma_group_three(a, b, c);
    lemma_encoded_two(a, b);
    lemma_encoded_one(a);
}

proof fn lemma_encoded_two(a: u8, b: u8)
    ensures
        base64::encoded(seq![a, b]) == symbols(a * 65536 + b * 256).take(3).push('='),
{
    let e = seq![a, b];
    assert(base64::head(e, 3) =~= e);
    assert(base64::tail(e, 3) =~= Seq::empty());
    lemma_group_three(a, b, 0);
    let whole = base64::group(seq![a, b, 0u8]);
    assert(base64::group(e) =~= whole.take(3).push('='));
    assert(base64::encoded(Seq::empty()) =~= Seq::empty());
    assert(base64::encoded(e) == base64::group(e) + base64::encoded(Seq::empty()));
    assert(base64::group(e) + Seq::<char>::empty() =~= base64::group(e));
}

proof fn lemma_encoded_one(a: u8)
    ensures
        base64::encoded(seq![a]) == symbols(a * 65536).take(2).push('=').push('='),
{
    let e = seq![a];
    assert(base64::head(e, 3) =~= e);
    assert(base64::tail(e, 3) =~= Seq::empty());
    lemma_group_three(a, 0, 0);
    let whole = base64::group(seq![a, 0u8, 0u8]);
    assert(base64::group(e) =~= whole.take(2).push('=').push('='));
    assert(base64::encoded(Seq::empty()) =~= Seq::empty());
    assert(base64::encoded(e) == base64::group(e) + base64::encoded(Seq::empty()));
    assert(base64::group(e) + Seq::<char>::empty() =~= base64::group(e));
}

proof fn lemma_bits(p: int, q: int, r: int, t: int, u: int, v: int)
    requires
        0 <= p < 64 && 0 <= q < 4 && 0 <= r < 16 && 0 <= t < 16 && 0 <= u < 4 && 0 <= v < 64,
    ensures
        ({
            let n = p * 262144 + q * 65536 + r * 4096 + t * 256 + u * 64 + v;
            &&& n / 262144 == p
            &&& n / 4096 % 64 == q * 16 + r
            &&& n / 64 % 64 == t * 4 + u
            &&& n % 64 == v
        }),
{
    let n = p * 262144 + q * 65536 + r * 4096 + t * 256 + u * 64 + v;
    assert(n / 4096 == p * 64 + q * 16 + r);
    assert(n / 64 == p * 4096 + q * 1024 + r * 64 + t * 4 + u);
}

proof fn lemma_group_three(a: u8, b: u8, c: u8)
    ensures
        base64::group(seq![a, b, c]) == symbols(a * 65536 + b * 256 + c),
{
    let x = a as nat;
    let y = b as nat;
    let z = c as nat;
    lemma_bits((x / 4) as int, (x % 4) as int, (y / 16) as int, (y % 16) as int, (z / 64) as int, (z % 64) as int);
    let n = a * 65536 + b * 256 + c;
    assert(n == x / 4 * 262144 + x % 4 * 65536 + y / 16 * 4096 + y % 16 * 256 + z / 64 * 64 + z % 64);
    lemma_symbol(x / 4);
    lemma_symbol((x % 4) * 16 + y / 16);
    lemma_symbol((y % 16) * 4 + z / 64);
    lemma_symbol(z % 64);
}

/// What hands out data is shown by a client as the taint in brackets and the text, without
/// white space at its back: what was sent is what is shown.
pub proof fn law_client_shows_data(t: Taint, s: Seq<char>)
    requires
        s.len() > 0 ==> !text::is_space(s.last()),
    ensures
        cli::payload(proto::data_reply(label::taint_text(t), encode_utf8(s))) == "["@ + label::taint_text(t) + "] "@ + s,
        cli::payload(proto::data_reply(Seq::empty(), encode_utf8(s))) == "[] "@ + s,
{
    lemma_taint_plain(t);
    lemma_payload(label::taint_text(t), s);
    lemma_payload(Seq::empty(), s);
    reveal_strlit("[");
    reveal_strlit("] ");
    reveal_strlit("[] ");
    assert("["@ + Seq::<char>::empty() + "] "@ =~= "[] "@);
}

proof fn lemma_taint_plain(t: Taint)
    ensures
        !label::taint_text(t).contains('\t'),
{
    reveal_strlit("green");
    reveal_strlit("yellow");
    reveal_strlit("project");
    reveal_strlit("secret");
    reveal_strlit("external");
    reveal_strlit("agent_generated");
}

proof fn lemma_payload(taint: Seq<char>, s: Seq<char>)
    requires
        !taint.contains('\t'),
        s.len() > 0 ==> !text::is_space(s.last()),
    ensures
        cli::payload(proto::data_reply(taint, encode_utf8(s))) == "["@ + taint + "] "@ + s,
{
    let data = base64::encoded(encode_utf8(s));
    let reply = proto::data_reply(taint, encode_utf8(s));
    reveal_strlit("OK\t");
    reveal_strlit("OK");
    reveal_strlit("\t");
    assert("\t"@ =~= seq!['\t']);
    assert(reply =~= "OK"@ + seq!['\t'] + (taint + seq!['\t'] + data));
    text_laws::law_cutting("OK"@, '\t', taint + seq!['\t'] + data);
    text_laws::law_cutting(taint, '\t', data);
    base64::law_base64_round_trip(encode_utf8(s));
    text::lemma_lossy_of_text(s);
    if s.len() > 0 {
        text_laws::law_trimming(Seq::empty(), seq![s[s.len() - 1]], Seq::empty());
    }
    assert(text::trimmed_back(s) == s);
}

/// What hands out no data is shown as it is, with its tabs as spaces.
pub proof fn law_client_shows_other_replies(e: Seq<char>, i: int)
    requires
        !e.contains('\t') || !text::starts(e, "OK\t"@),
        e != "OK"@,
    ensures
        cli::payload(e).len() == e.len(),
        0 <= i < e.len() ==> cli::payload(e)[i] == if e[i] == '\t' {
            ' '
        } else {
            e[i]
        },
{
    reveal_strlit("OK\t");
    reveal_strlit("OK");
    if e.contains('\t') {
        e.index_of_first_ensures('\t');
        let k = e.index_of_first('\t')->0;
        assert(0 <= k < e.len() && e[k] == '\t');
        if e.take(k) == "OK"@ {
            assert(e.take(k).len() == k);
            assert("OK"@.len() == 2);
            assert(e.take(k)[0] == e[0] && e.take(k)[1] == e[1]);
            assert(e.take(3) =~= "OK\t"@);
        }
    }
}

/// Whether two readings of flags differ in nothing.
pub open spec fn same_flags(a: FlagsV, b: FlagsV) -> bool {
    &&& a.workspace == b.workspace
    &&& a.trusted == b.trusted
    &&& a.audit_log == b.audit_log
    &&& a.engine.deny_exec == b.engine.deny_exec
    &&& a.engine.prompt_exec == b.engine.prompt_exec
    &&& a.engine.prompt_http == b.engine.prompt_http
    &&& a.engine.prompt_post == b.engine.prompt_post
}

proof fn lemma_flag_words()
    ensures
        "--workspace"@[2] == 'w' && "--workspace"@.len() == 11,
        "--trusted"@[2] == 't',
        "--audit-log"@[2] == 'a',
        "--prompt-exec"@[2] == 'p' && "--prompt-exec"@[9] == 'e',
        "--prompt-http"@[2] == 'p' && "--prompt-http"@[9] == 'h',
        "--prompt-post"@[2] == 'p' && "--prompt-post"@[9] == 'p',
        "--deny-exec"@[2] == 'd',
{
    reveal_strlit("--workspace");
    reveal_strlit("--trusted");
    reveal_strlit("--audit-log");
    reveal_strlit("--prompt-exec");
    reveal_strlit("--prompt-http");
    reveal_strlit("--prompt-post");
    reveal_strlit("--deny-exec");
}

/// The flag that an argument is, where it takes no value: what it makes of the flags.
pub open spec fn flag_sets(arg: Seq<char>, a: FlagsV, b: FlagsV) -> bool {
    &&& b.workspace == a.workspace
    &&& b.audit_log == a.audit_log
    &&& b.trusted == (a.trusted || arg == "--trusted"@)
    &&& b.engine.deny_exec == (a.engine.deny_exec || arg == "--deny-exec"@)
    &&& b.engine.prompt_exec == (a.engine.prompt_exec || arg == "--prompt-exec"@)
    &&& b.engine.prompt_http == (a.engine.prompt_http || arg == "--prompt-http"@)
    &&& b.engine.prompt_post == (a.engine.prompt_post || arg == "--prompt-post"@)
}

/// Flags are read from front to back. `--workspace` and `--audit-log` take the argument
/// after them; every other flag sets its own switch and no other; and what is no flag
/// changes nothing.
pub proof fn law_flags(args: Seq<Seq<char>>, i: int, f: FlagsV) -> (g: FlagsV)
    requires
        0 <= i < args.len(),
    ensures
        args[i] != "--workspace"@ && args[i] != "--audit-log"@ ==> flag_sets(args[i], f, g) && cli::flags_from(args, i, f)
            == cli::flags_from(args, i + 1, g),
        args[i] == "--workspace"@ ==> cli::flags_from(args, i, f) == cli::flags_from(args, i + 2, g) && same_flags(
            g,
            FlagsV { workspace: g.workspace, ..f },
        ) && (i + 1 < args.len() ==> g.workspace == Some(args[i + 1])) && (i + 1 == args.len() ==> g.workspace is None),
        args[i] == "--audit-log"@ ==> cli::flags_from(args, i, f) == cli::flags_from(args, i + 2, g) && same_flags(
            g,
            FlagsV { audit_log: g.audit_log, ..f },
        ) && (i + 1 < args.len() ==> g.audit_log == Some(args[i + 1])) && (i + 1 == args.len() ==> g.audit_log is None),
        cli::flags_from(args, args.len() as int, f) == f,
{
    lemma_flag_words();
    let a = args[i];
    let e = f.engine;
    if a == "--workspace"@ {
        FlagsV { workspace: cli::arg_at(args, i + 1), ..f }
    } else if a == "--audit-log"@ {
        FlagsV { audit_log: cli::arg_at(args, i + 1), ..f }
    } else {
        let engine = crate::policy::PolicyEngine {
            deny_exec: e.deny_exec || a == "--deny-exec"@,
            prompt_exec: e.prompt_exec || a == "--prompt-exec"@,
            prompt_http: e.prompt_http || a == "--prompt-http"@,
            prompt_post: e.prompt_post || a == "--prompt-post"@,
        };
        FlagsV { trusted: f.trusted || a == "--trusted"@, engine, ..f }
    }
}

/// What the words of the command line ask for: to serve on a socket, by default
/// `/tmp/capable.sock`, under the flags after it, which begin with none set; to show what
/// the service does; to verify a log; and to be told the usage where it is none of these.
pub proof fn law_command_line(args: Seq<Seq<char>>)
    ensures
        args.len() < 2 ==> cli::invocation_of(args) is Usage,
        args.len() >= 2 && args[1] == "serve"@ ==> cli::invocation_of(args) is Serve,
        args.len() >= 2 && args[1] == "demo"@ ==> cli::invocation_of(args) is Demo,
        args.len() >= 2 && args[1] == "verify-audit"@ ==> cli::invocation_of(args) is VerifyAudit,
        args.len() >= 2 && args[1] != "serve"@ && args[1] != "demo"@ && args[1] != "verify-audit"@ ==> cli::invocation_of(
            args,
        ) is Usage,
        args.len() >= 3 && args[1] == "verify-audit"@ ==> cli::invocation_of(args) == InvocationV::VerifyAudit(args[2]),
        args.len() >= 3 && args[1] == "serve"@ ==> cli::invocation_of(args)->Serve_0 == args[2],
        args.len() == 2 && args[1] == "serve"@ ==> cli::invocation_of(args)->Serve_0 == "/tmp/capable.sock"@,
        args.len() <= 3 && args.len() >= 2 && args[1] == "serve"@ ==> ({
            let f = cli::invocation_of(args)->Serve_1;
            &&& f.workspace is None && !f.trusted && f.audit_log is None
            &&& !f.engine.deny_exec && !f.engine.prompt_exec && !f.engine.prompt_http && !f.engine.prompt_post
        }),
        args.len() > 3 && args[1] == "serve"@ ==> ({
            let f = cli::no_flags();
            &&& cli::invocation_of(args)->Serve_1 == cli::flags_from(args, 3, f)
            &&& f.workspace is None && !f.trusted && f.audit_log is None
            &&& !f.engine.deny_exec && !f.engine.prompt_exec && !f.engine.prompt_http && !f.engine.prompt_post
        }),
{
    reveal_strlit("serve");
    reveal_strlit("demo");
    reveal_strlit("verify-audit");
    assert("serve"@[0] == 's' && "demo"@[0] == 'd' && "verify-audit"@[0] == 'v');
}

/// At most sixty-four connections are served at one time.
pub proof fn law_connection_limit()
    ensures
        cli::MAX_CONNS == 64,
{
}

/// What stands for no symbol of base64 is passed over within its group.
pub proof fn law_base64_passes_over(a: Seq<u8>, junk: u8, b: Seq<u8>)
    requires
        !(('A' as u8) <= junk <= ('Z' as u8)) && !(('a' as u8) <= junk <= ('z' as u8)) && !(('0' as u8) <= junk <= (
        '9' as u8)),
        junk != '+' as u8 && junk != '/' as u8,
    ensures
        base64::values(a + seq![junk] + b) == base64::values(a + b),
    decreases b.len(),
{
    let all = a + seq![junk] + b;
    if b.len() == 0 {
        assert(all.drop_last() =~= a);
        assert(a + b =~= a);
    } else {
        let t = b.drop_last();
        law_base64_passes_over(a, junk, t);
        assert(all.drop_last() =~= a + seq![junk] + t);
        assert((a + b).drop_last() =~= a + t);
    }
}

/// A reply with a taint and no data is shown with the taint alone.
pub proof fn law_client_shows_bare_taint(taint: Seq<char>)
    requires
        !taint.contains('\t'),
    ensures
        cli::payload("OK\t"@ + taint) == "["@ + taint + "] "@,
        cli::payload("OK\t"@ + taint + "\t"@) == "["@ + taint + "] "@,
{
    let none = Seq::<char>::empty();
    reveal_strlit("OK\t");
    reveal_strlit("OK");
    reveal_strlit("\t");
    reveal_strlit("");
    assert(""@ =~= none);
    assert("OK\t"@ + taint =~= "OK"@ + seq!['\t'] + taint);
    assert("OK\t"@ + taint + "\t"@ =~= "OK"@ + seq!['\t'] + (taint + seq!['\t'] + none));
    text_laws::law_cutting("OK"@, '\t', taint);
    text_laws::law_cutting("OK"@, '\t', taint + seq!['\t'] + none);
    text_laws::law_cutting(taint, '\t', none);
    base64::law_base64_round_trip(Seq::empty());
    assert(base64::encoded(Seq::empty()) =~= none);
    text::lemma_lossy_of_text(none);
    assert(encode_utf8(none) =~= Seq::empty());
    assert(text::trimmed_back(none) =~= none);
    let shown = "["@ + taint + "] "@;
    assert(shown + none =~= shown);
}

/// A reader that is told that the peer has closed comes to what reading the whole frame comes
/// to; while the peer is open it asks for more just as long as the frame is not there, at
/// least one byte and never beyond its end.
pub proof fn law_reader_agrees(got: Seq<u8>, r: FramePoll)
    requires
        frame::polled(got, true, r),
    ensures
        frame::frame_read(got) == Ok::<Option<Seq<u8>>, FrameError>(None) <==> r is Closed,
        r matches FramePoll::Body(b) ==> frame::frame_read(got) == Ok::<Option<Seq<u8>>, FrameError>(Some(b@)),
        r matches FramePoll::Bad(e) ==> frame::frame_read(got) == Err::<Option<Seq<u8>>, FrameError>(e),
        !(r is More),
{
}

/// While the peer is open a reader asks for no more than what the frame still lacks, and for
/// something until it has it all or knows that it is too long.
pub proof fn law_reader_asks_on(body: Seq<u8>, n: int, r: FramePoll)
    requires
        body.len() <= 8388608,
        0 <= n <= body.len() + 4,
        frame::polled(frame::frame(body).take(n), false, r),
    ensures
        n == body.len() + 4 ==> r is Body && r->Body_0@ == body,
        n < body.len() + 4 ==> r is More && 0 < r->More_0 <= body.len() + 4 - n,
        4 <= n < body.len() + 4 ==> r->More_0 == body.len() + 4 - n,
{
    law_frame_layout(body);
    let f = frame::frame(body);
    let p = f.take(n);
    if n >= 4 {
        assert(p[0] == f[0] && p[1] == f[1] && p[2] == f[2] && p[3] == f[3]);
    }
    if n == body.len() + 4 {
        assert(p =~= f);
        assert(f.subrange(4, n) =~= body);
    }
}

/// A trusted service serves the control side and is confined to nothing, whatever workspace
/// is named; any other serves a guest in the workspace that is named, and without one
/// nothing.
pub proof fn law_served_roles(f: FlagsV)
    ensures
        f.trusted ==> cli::served_as(f) == Some((Role::Control, None::<Seq<char>>)),
        !f.trusted && f.workspace is Some ==> cli::served_as(f) == Some((Role::Guest, f.workspace)),
        !f.trusted && f.workspace is None ==> cli::served_as(f) is None,
{
}

/// Nobody but the owner reaches the socket of the control side, and nobody but the owner and
/// the group that of a guest; those who do may read and write and not run it.
pub proof fn law_socket_permissions(role: Role)
    ensures
        cli::mode_of(role) / 64 == 6,
        cli::mode_of(role) % 8 == 0,
        cli::mode_of(Role::Control) / 8 % 8 == 0,
        cli::mode_of(Role::Guest) / 8 % 8 == 6,
{
}

/// A client finds in a reply the reference that it hands out, and nothing in any other
/// reply.
pub proof fn law_client_finds_reference(id: Seq<char>, taint: Seq<char>, data: Seq<u8>, e: Seq<char>)
    requires
        !id.contains('\t'),
    ensures
        cli::cap_in(proto::cap_reply(id)) == id,
        cli::cap_in(proto::data_reply(taint, data)).len() == 0,
        cli::cap_in("ERR\t"@ + e).len() == 0,
        cli::cap_in("CONSENT\t"@ + e).len() == 0,
{
    reveal_strlit("CAP");
    reveal_strlit("CAP\t");
    reveal_strlit("OK");
    reveal_strlit("OK\t");
    reveal_strlit("ERR");
    reveal_strlit("ERR\t");
    reveal_strlit("CONSENT");
    reveal_strlit("CONSENT\t");
    assert("CAP"@.len() == 3 && "OK"@.len() == 2 && "ERR"@.len() == 3 && "CONSENT"@.len() == 7);
    assert("CAP"@[0] == 'C' && "ERR"@[0] == 'E');
    assert("CAP\t"@ + id =~= "CAP"@.push('\t') + id);
    assert(!"CAP"@.contains('\t'));
    text::lemma_split_on_append("CAP"@, '\t', id);
    text::lemma_split_on_single("CAP"@, '\t');
    let rest = taint + "\t"@ + base64::encoded(data);
    assert(proto::data_reply(taint, data) =~= "OK"@ + seq!['\t'] + rest);
    lemma_first_field("OK"@, rest);
    assert("ERR\t"@ + e =~= "ERR"@ + seq!['\t'] + e);
    lemma_first_field("ERR"@, e);
    assert("CONSENT\t"@ + e =~= "CONSENT"@ + seq!['\t'] + e);
    lemma_first_field("CONSENT"@, e);
}

proof fn lemma_first_field(a: Seq<char>, b: Seq<char>)
    requires
        !a.contains('\t'),
    ensures
        text::split_on(a + seq!['\t'] + b, '\t')[0] == a,
{
    request_laws::lemma_split_apart(a, '\t', b);
    text::lemma_split_on_single(a, '\t');
}

} // verus!
