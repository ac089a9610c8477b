use vinsly::codec::encode_bytes;
use vinsly::registry::TerminalManager;
use vinsly::terminal::{
    close_all_terminals, close_terminal, create_terminal, get_default_shell, plan_terminal,
    register_terminal, resize_terminal, write_to_terminal, TerminalError,
};

fn table_of(ids: &[&str]) -> TerminalManager<u32> {
    let mut m: TerminalManager<u32> = TerminalManager::new();
    for (i, id) in ids.iter().enumerate() {
        m.add(id.to_string(), i as u32);
    }
    m
}

#[test]
fn default_shell_prefers_the_variable() {
    assert_eq!(get_default_shell(Some("/bin/zsh".to_string()), false), "/bin/zsh");
    assert_eq!(get_default_shell(None, false), "/bin/bash");
    assert_eq!(get_default_shell(Some("C:\\Windows\\pwsh.exe".to_string()), true), "C:\\Windows\\pwsh.exe");
    assert_eq!(get_default_shell(None, true), "cmd.exe");
}

#[test]
fn plan_rejects_zero_dimensions() {
    assert!(matches!(plan_terminal(None, None, None, None, true, false, 0, 24), Err(TerminalError::InvalidSize)));
    assert!(matches!(plan_terminal(None, None, None, None, true, false, 80, 0), Err(TerminalError::InvalidSize)));
}

#[test]
fn plan_for_a_login_shell() {
    let p = plan_terminal(
        Some("/work".to_string()),
        None,
        Some("/home/u".to_string()),
        Some("/bin/zsh".to_string()),
        false,
        false,
        80,
        24,
    )
    .ok()
    .unwrap();
    assert_eq!(p.cwd, "/work");
    assert_eq!(p.program, "/bin/zsh");
    assert_eq!(p.args, vec!["-il".to_string()]);
    let env: Vec<(&str, &str)> = p.env.iter().map(|(k, v)| (k.as_str(), v.as_str())).collect();
    assert_eq!(
        env,
        vec![
            ("TERM", "xterm-256color"),
            ("COLORTERM", "truecolor"),
            ("HOME", "/home/u"),
            ("LANG", "en_US.UTF-8"),
        ]
    );
    assert_eq!((p.size.cols, p.size.rows), (80, 24));
}

#[test]
fn plan_defaults_to_home_then_root() {
    let p = plan_terminal(None, Some("/bin/sh".to_string()), Some("/home/u".to_string()), None, true, false, 1, 1)
        .ok()
        .unwrap();
    assert_eq!(p.cwd, "/home/u");
    assert_eq!(p.program, "/bin/sh");
    assert_eq!(p.env.len(), 3);
    let q = plan_terminal(None, None, None, None, true, false, 1, 1).ok().unwrap();
    assert_eq!(q.cwd, "/");
    assert_eq!(q.program, "/bin/bash");
    assert_eq!(q.env.len(), 2);
}

#[test]
fn plan_on_windows_adds_nothing() {
    let p = plan_terminal(None, None, Some("C:\\Users\\u".to_string()), None, false, true, 80, 24)
        .ok()
        .unwrap();
    assert_eq!(p.program, "cmd.exe");
    assert!(p.args.is_empty());
    assert!(p.env.is_empty());
    assert_eq!(p.cwd, "C:\\Users\\u");
}

#[test]
fn create_registers_under_a_fresh_id() {
    let mut m: TerminalManager<u32> = TerminalManager::new();
    let a = create_terminal(&mut m, 7).ok().unwrap();
    let b = create_terminal(&mut m, 8).ok().unwrap();
    assert_eq!(a.len(), 36);
    assert_ne!(a, b);
    assert_eq!(m.len(), 2);
    assert_eq!(*m.get_mut(&a).unwrap(), 7);
}

#[test]
fn register_refuses_an_id_in_use() {
    let mut m = table_of(&["a"]);
    assert_eq!(register_terminal(&mut m, "a".to_string(), 9), Err(9));
    assert_eq!(m.len(), 1);
    assert_eq!(register_terminal(&mut m, "b".to_string(), 9), Ok("b".to_string()));
}

#[test]
fn write_decodes_the_payload() {
    let mut m = table_of(&["a", "b"]);
    let (rec, bytes) = write_to_terminal(&mut m, "b", "ZWNobyBoaQo=").ok().unwrap();
    assert_eq!(*rec, 1);
    assert_eq!(bytes, b"echo hi\n".to_vec());
}

#[test]
fn write_to_unknown_id_is_not_found() {
    let mut m = table_of(&["a"]);
    assert!(matches!(write_to_terminal(&mut m, "zz", "aGk="), Err(TerminalError::NotFound)));
    assert_eq!(m.len(), 1);
}

#[test]
fn write_with_bad_payload_is_an_encoding_error() {
    let mut m = table_of(&["a"]);
    assert!(matches!(write_to_terminal(&mut m, "a", "not base64!"), Err(TerminalError::Encoding)));
}

#[test]
fn resize_finds_only_live_sessions() {
    let mut m = table_of(&["a", "b"]);
    assert!(matches!(resize_terminal(&mut m, "zz"), Err(TerminalError::NotFound)));
    assert_eq!(m.len(), 2);
    assert_eq!(*m.get_mut("a").unwrap(), 0);
    assert_eq!(*m.get_mut("b").unwrap(), 1);
    *resize_terminal(&mut m, "a").ok().unwrap() = 5;
    assert_eq!(*m.get_mut("a").unwrap(), 5);
}

#[test]
fn close_twice_is_not_found_the_second_time() {
    let mut m = table_of(&["a", "b"]);
    assert_eq!(close_terminal(&mut m, "a").ok(), Some(0));
    assert!(matches!(close_terminal(&mut m, "a"), Err(TerminalError::NotFound)));
    assert!(matches!(close_terminal(&mut m, "a"), Err(TerminalError::NotFound)));
    assert_eq!(m.len(), 1);
}

#[test]
fn write_after_close_is_not_found() {
    let mut m = table_of(&["a"]);
    assert!(close_terminal(&mut m, "a").is_ok());
    let data = encode_bytes(b"echo hi\n");
    assert!(matches!(write_to_terminal(&mut m, "a", &data), Err(TerminalError::NotFound)));
}

#[test]
fn close_all_returns_every_id_once() {
    let mut m = table_of(&["a", "b", "c"]);
    let closed = close_all_terminals(&mut m);
    let mut ids: Vec<String> = closed.into_iter().map(|(id, _)| id).collect();
    ids.sort();
    assert_eq!(ids, vec!["a".to_string(), "b".to_string(), "c".to_string()]);
    assert_eq!(m.len(), 0);
    for id in ["a", "b", "c"] {
        assert!(matches!(close_terminal(&mut m, id), Err(TerminalError::NotFound)));
        assert!(matches!(resize_terminal(&mut m, id), Err(TerminalError::NotFound)));
        assert!(matches!(write_to_terminal(&mut m, id, "aGk="), Err(TerminalError::NotFound)));
    }
    assert!(close_all_terminals(&mut m).is_empty());
}

#[test]
fn successive_writes_hand_over_payloads_in_order() {
    let mut m = table_of(&["a"]);
    let mut delivered: Vec<u8> = Vec::new();
    for chunk in [&b"echo "[..], &b"h"[..], &[0u8, 255][..], &b"i\n"[..]] {
        let (_, bytes) = write_to_terminal(&mut m, "a", &encode_bytes(chunk)).ok().unwrap();
        delivered.extend(bytes);
    }
    assert_eq!(delivered, b"echo h\x00\xffi\n".to_vec());
}

#[test]
fn close_and_close_all_report_a_session_once() {
    let mut m = table_of(&["a", "b"]);
    assert!(close_terminal(&mut m, "a").is_ok());
    let rest: Vec<String> = close_all_terminals(&mut m).into_iter().map(|(id, _)| id).collect();
    assert_eq!(rest, vec!["b".to_string()]);
    assert!(close_terminal(&mut m, "b").is_err());
    assert!(close_all_terminals(&mut m).is_empty());
}
