use capable_broker::audit::{anchor_path, digest_text};
use capable_broker::cli::{admits, cap_of, ok_payload, parse_args, role_name, socket_mode, Invocation};
use capable_broker::path::{path_within, resolve_contained, safe_join, Resolved};
use capable_broker::sha256::sha256_hex;
use capable_broker::show::{canon_list, is_showable, safe_display, short};
use capable_broker::{is_secret_path, parse_ops, rand_hex, Op, Role, Taint};

#[test]
fn sha256_known_digests() {
    assert_eq!(sha256_hex(b""), "e3b0c44298fc1c149afbf4c8996fb92427ae41e4649b934ca495991b7852b855");
    assert_eq!(sha256_hex(b"abc"), "ba7816bf8f01cfea414140de5dae2223b00361a396177a9cb410ff61f20015ad");
    assert_eq!(
        sha256_hex(b"abcdbcdecdefdefgefghfghighijhijkijkljklmklmnlmnomnopnopq"),
        "248d6a61d20638b8e5c026930c3e6039a33ce45964ff2167f6ecedd419db06c1"
    );
    assert_eq!(
        sha256_hex(&vec![b'a'; 1000]),
        "41edece42d63e8d9bf515a9ba6932e1c20cbc9f5a5d134645adb5db1b9737ea3"
    );
    assert_eq!(digest_text("abc"), sha256_hex(b"abc"));
}

#[test]
fn taints_and_operations_by_name() {
    let all = [
        Taint::Green,
        Taint::Yellow,
        Taint::Project,
        Taint::Secret,
        Taint::External,
        Taint::AgentGenerated,
    ];
    for t in all {
        assert_eq!(Taint::parse(t.as_str()), t);
        assert_eq!(t.is_sensitive(), t == Taint::Secret);
    }
    assert_eq!(Taint::parse("anything"), Taint::Green);
    assert_eq!(parse_ops("read, write,x,exec"), vec![Op::Read, Op::Write, Op::Exec]);
    assert_eq!(parse_ops("delete,list"), vec![Op::Delete, Op::List]);
    assert!(parse_ops("").is_empty());
}

#[test]
fn paths_stay_below_their_root() {
    assert_eq!(safe_join("/ws/", "a//./b").unwrap(), "/ws/a/b");
    assert_eq!(safe_join("/ws", "").unwrap(), "/ws");
    assert_eq!(safe_join("/ws", "/a").unwrap_err(), "绝对路径不允许: /a(DirCap root=/ws)");
    assert_eq!(safe_join("/ws", "a/../b").unwrap_err(), "path escapes capability root: a/../b(root=/ws)");
    let p = |s: &str| Some(s.as_bytes().to_vec());
    assert!(path_within(&p("/a/b"), &p("/a/b/c")));
    assert!(path_within(&p("/a/b"), &p("/a/b")));
    assert!(!path_within(&p("/a/b"), &p("/a/bc")));
    assert!(!path_within(&None, &p("/a")));
}

fn resolved(s: &str) -> Result<Resolved, String> {
    Ok(Resolved { bytes: s.as_bytes().to_vec(), shown: s.to_string() })
}

#[test]
fn what_resolves_out_of_the_root_is_refused() {
    assert!(resolve_contained("/ws", "a", resolved("/ws/a"), resolved("/ws")).is_ok());
    assert!(resolve_contained("/ws", "a", resolved("/etc/a"), resolved("/ws")).is_err());
    assert!(resolve_contained("/ws", "../a", resolved("/ws/a"), resolved("/ws")).is_err());
    assert_eq!(
        resolve_contained("/ws", "a", Err("gone".to_string()), resolved("/ws")).err().unwrap(),
        "resolve failed: gone"
    );
}

#[test]
fn secret_paths_are_known_by_their_marks() {
    for p in ["/h/.ssh/id", "/a/.env", "x/secret.txt", "k.pem", "my-credentials", "vault/x", "/h/.aws/c"] {
        assert!(is_secret_path(p), "{}", p);
    }
    assert!(!is_secret_path("/ws/main.txt"));
}

#[test]
fn references_are_shortened() {
    assert_eq!(short("cap_0123456789"), "cap_0123456789");
    assert_eq!(short("cap_0123456789a"), "cap_0123456789…");
    assert!(is_showable("ééééééééé"));
    assert!(!is_showable("aéééééééé"));
}

#[test]
fn texts_are_shown_without_control_characters() {
    assert_eq!(safe_display("a\tb\u{1b}[0m\u{85}"), "a\\x09b\\x1b[0m\\x85");
    let long = safe_display(&"\n".repeat(500));
    assert!(long.len() <= 167 && long.ends_with('…'));
    assert!(!long.contains('\n'));
    assert_eq!(safe_display(&"x".repeat(160)), "x".repeat(160));
}

#[test]
fn lists_are_shown_item_by_item() {
    let v = |items: &[&str]| items.iter().map(|s| s.to_string()).collect::<Vec<String>>();
    assert_eq!(canon_list(&v(&[]), 240), "(空)");
    assert_eq!(canon_list(&v(&["a b"]), 240), "\"a b\"");
    assert_eq!(canon_list(&v(&["a", "b"]), 240), "\"a\" \"b\"");
    assert_eq!(canon_list(&v(&["q\"\\\u{7}"]), 240), "\"q\\\"\\\\\\x07\"");
    let cut = canon_list(&v(&["x"; 200]), 40);
    assert!(cut.len() == 40 && cut.contains('…'), "{}", cut);
    let one = canon_list(&[("y".repeat(1000))], 40);
    assert_eq!(one, format!("\"{}…\"", "y".repeat(35)));
    assert_eq!(canon_list(&v(&["\t\t"]), 9), "\"\\x09…\"");
    assert_eq!(canon_list(&v(&["\t\t"]), 8), "\"…\"   ");
    assert_eq!(canon_list(&v(&["abcd", "efgh"]), 11), "\"abcd\"…  ");
    assert_eq!(canon_list(&v(&["abcd", "efgh"]), 12), "\"abcd\" \"…\"");
    for cap in 5..60 {
        for items in [&["\t\t"][..], &[][..], &["", "", "", ""], &["世界", "\"\""], &["x", "\u{7f}y", "z z"]] {
            let shown = canon_list(&v(items), cap);
            assert!(shown.len() <= cap, "{} over {}", shown, cap);
            let full = canon_list(&v(items), 1000);
            if full.len() <= cap {
                assert_eq!(shown, full);
            } else {
                assert_eq!(shown.len(), cap);
            }
        }
    }
}

#[test]
fn a_list_that_fits_is_shown_in_full() {
    let v = |items: &[&str]| items.iter().map(|s| s.to_string()).collect::<Vec<String>>();
    assert_eq!(canon_list(&v(&["aaab"]), 12), "\"aaab\"");
    assert_eq!(canon_list(&v(&["aaac"]), 12), "\"aaac\"");
    for (items, full) in [
        (v(&["aaab"]), "\"aaab\""),
        (v(&["a", "", "b c"]), "\"a\" \"\" \"b c\""),
        (v(&["\t", "世"]), "\"\\x09\" \"世\""),
    ] {
        let n = full.len();
        // The full form takes all of the cap, all but one byte, and all but six.
        assert_eq!(canon_list(&items, n), full);
        assert_eq!(canon_list(&items, n + 1), full);
        assert_eq!(canon_list(&items, n + 6), full);
        let cut = canon_list(&items, n - 1);
        assert!(cut.len() == n - 1 && cut.contains('…'), "{}", cut);
    }
    let long = |last: &str| canon_list(&["a".repeat(231) + last], 240);
    assert_eq!(long("b"), format!("\"{}b\"", "a".repeat(231)));
    assert_ne!(long("b"), long("c"));
}

#[test]
fn random_bytes_are_written_in_hexadecimal() {
    assert_eq!(rand_hex(&[0x00, 0x0f, 0xf0, 0xff]), "000ff0ff");
    assert_eq!(rand_hex(&[]), "");
}

fn args(a: &[&str]) -> Vec<String> {
    a.iter().map(|s| s.to_string()).collect()
}

#[test]
fn the_command_line_is_read() {
    match parse_args(&args(&["p", "serve", "/s", "--workspace", "/w", "--prompt-exec", "x", "--audit-log", "/l"])) {
        Invocation::Serve(sock, f) => {
            assert_eq!(sock, "/s");
            assert_eq!(f.workspace.as_deref(), Some("/w"));
            assert_eq!(f.audit_log.as_deref(), Some("/l"));
            assert!(f.engine.prompt_exec && !f.engine.deny_exec && !f.trusted);
            assert!(matches!(f.policy(), Ok(p) if p.role == Role::Guest));
        }
        _ => panic!("should serve"),
    }
    match parse_args(&args(&["p", "serve"])) {
        Invocation::Serve(sock, f) => {
            assert_eq!(sock, "/tmp/capable.sock");
            assert_eq!(
                f.policy().err().unwrap(),
                "serve: guest 模式需 --workspace <root>(或 --trusted 作可信控制面)"
            );
        }
        _ => panic!("should serve"),
    }
    match parse_args(&args(&["p", "serve", "s", "--trusted", "--deny-exec", "--prompt-http", "--prompt-post", "--workspace"])) {
        Invocation::Serve(_, f) => {
            assert!(f.engine.deny_exec && f.engine.prompt_http && f.engine.prompt_post);
            assert!(f.workspace.is_none());
            assert!(matches!(f.policy(), Ok(p) if p.role == Role::Control));
        }
        _ => panic!("should serve"),
    }
    assert!(matches!(parse_args(&args(&["p", "demo"])), Invocation::Demo));
    assert!(matches!(parse_args(&args(&["p", "verify-audit", "l"])), Invocation::VerifyAudit(l) if l == "l"));
    assert!(matches!(parse_args(&args(&["p"])), Invocation::Usage));
    assert!(matches!(parse_args(&args(&["p", "other"])), Invocation::Usage));
}

#[test]
fn the_service_keeps_its_bounds() {
    assert_eq!(socket_mode(Role::Control), 0o600);
    assert_eq!(socket_mode(Role::Guest), 0o660);
    assert_eq!((role_name(Role::Control), role_name(Role::Guest)), ("control", "guest"));
    assert!(admits(63) && !admits(64));
    assert_eq!(anchor_path("/l/audit.log"), "/l/audit.log.anchor");
}

#[test]
fn replies_are_read_by_a_client() {
    assert_eq!(cap_of("CAP\tcap_1"), "cap_1");
    assert_eq!(cap_of("ERR\tno"), "");
    assert_eq!(ok_payload("OK\tproject\taGkK"), "[project] hi");
    assert_eq!(ok_payload("OK\t\t"), "[] ");
    assert_eq!(ok_payload("OK"), "[] ");
    assert_eq!(ok_payload("ERR\ta\tb"), "ERR a b");
}
