//! Telnet handling and the per-connection read state.

use durthang::net::{
    frame_line, is_complete_escape, naws_packet, parse_telnet, refuse, safe_prompt_end, LatencySource, LinkState,
    LoginStep, PendingLatency, DO, DONT, IAC, OPT_ECHO, OPT_GMCP, OPT_NAWS, SB, SE, WILL, WONT,
};

#[test]
fn naws_packet_plain_sizes() {
    assert_eq!(naws_packet(80, 24), vec![IAC, SB, OPT_NAWS, 0, 80, 0, 24, IAC, SE]);
}

#[test]
fn naws_packet_doubles_iac_bytes() {
    assert_eq!(naws_packet(255, 0x1FF), vec![IAC, SB, OPT_NAWS, 0, 255, 255, 1, 255, 255, IAC, SE]);
}

#[test]
fn refuse_answers() {
    assert_eq!(refuse(DO), WONT);
    assert_eq!(refuse(WILL), DONT);
    assert_eq!(refuse(WONT), WONT);
}

#[test]
fn parse_telnet_plain_text() {
    let mut resp = Vec::new();
    let r = parse_telnet(b"hello world", &mut resp);
    assert_eq!(r.text, "hello world");
    assert!(r.gmcp.is_empty());
    assert!(resp.is_empty());
}

#[test]
fn parse_telnet_decodes_utf8_text_and_gmcp() {
    let mut resp = Vec::new();
    let mut buf: Vec<u8> = "caf\u{e9} ".as_bytes().to_vec();
    buf.extend_from_slice(&[IAC, SB, OPT_GMCP]);
    buf.extend_from_slice(" Room.Info {\"name\":\"P\u{e9}\"} ".as_bytes());
    buf.extend_from_slice(&[IAC, SE]);
    buf.extend_from_slice(b"hi!");
    let r = parse_telnet(&buf, &mut resp);
    assert_eq!(r.text, "caf\u{e9} hi!");
    assert_eq!(r.gmcp, vec!["Room.Info {\"name\":\"P\u{e9}\"}".to_string()]);
    assert!(resp.is_empty());
}

#[test]
fn parse_telnet_replaces_invalid_utf8() {
    let mut resp = Vec::new();
    let r = parse_telnet(&[b'a', 0xfe, b'b'], &mut resp);
    assert_eq!(r.text, "a\u{fffd}b");
}

#[test]
fn parse_telnet_accepts_naws_echo_gmcp() {
    let mut resp = Vec::new();
    let buf = [IAC, DO, OPT_NAWS, IAC, WILL, OPT_ECHO, IAC, WILL, OPT_GMCP, b'a'];
    let r = parse_telnet(&buf, &mut resp);
    assert_eq!(r.text, "a");
    assert_eq!(resp, vec![IAC, WILL, OPT_NAWS, IAC, DO, OPT_ECHO, IAC, DO, OPT_GMCP]);
}

#[test]
fn parse_telnet_refuses_other_options() {
    let mut resp = vec![7u8];
    let r = parse_telnet(&[IAC, DO, 24, IAC, WILL, 3], &mut resp);
    assert_eq!(r.text, "");
    assert_eq!(resp, vec![7, IAC, WONT, 24, IAC, DONT, 3]);
}

#[test]
fn parse_telnet_unescapes_iac_and_extracts_gmcp() {
    let mut resp = Vec::new();
    let mut buf = vec![b'x', IAC, IAC, b'y', IAC, SB, OPT_GMCP];
    buf.extend_from_slice(b" Room.Info {\"num\":1} ");
    buf.extend_from_slice(&[IAC, SE, b'z']);
    let r = parse_telnet(&buf, &mut resp);
    assert_eq!(r.gmcp, vec!["Room.Info {\"num\":1}".to_string()]);
    assert_eq!(r.text, "x\u{fffd}yz");
    assert!(resp.is_empty());
}

#[test]
fn parse_telnet_skips_empty_gmcp_and_other_subnegotiations() {
    let mut resp = Vec::new();
    let buf = [IAC, SB, OPT_GMCP, b' ', IAC, SE, IAC, SB, 24, b'q', IAC, SE, b'k'];
    let r = parse_telnet(&buf, &mut resp);
    assert!(r.gmcp.is_empty());
    assert_eq!(r.text, "k");
}

#[test]
fn escape_completeness() {
    assert!(is_complete_escape(b"\x1b[31m"));
    assert!(!is_complete_escape(b"\x1b[31"));
    assert!(is_complete_escape(b"\x1b]0;title\x07"));
    assert!(!is_complete_escape(b"\x1b]0;title"));
    assert!(is_complete_escape(b"\x1b(B"));
    assert!(!is_complete_escape(b"\x1b("));
    assert!(is_complete_escape(b"\x1bM"));
    assert!(!is_complete_escape(b"\x1b"));
}

#[test]
fn safe_prompt_end_cuts_unfinished_escape() {
    assert_eq!(safe_prompt_end(b"HP:100> "), 8);
    assert_eq!(safe_prompt_end(b"HP:100\x1b[3"), 6);
    assert_eq!(safe_prompt_end(b"HP\x1b[31m>"), 8);
    assert_eq!(safe_prompt_end(b""), 0);
}

#[test]
fn frame_line_appends_crlf() {
    assert_eq!(frame_line("look"), b"look\r\n".to_vec());
    assert_eq!(frame_line("é"), vec![0xC3, 0xA9, 13, 10]);
}

#[test]
fn latency_staleness() {
    let p = PendingLatency::new(LatencySource::Probe, 1_000);
    assert_eq!(p.max_age(), 3_000);
    assert!(!p.is_stale(4_000));
    assert!(p.is_stale(4_001));
    let u = PendingLatency::new(LatencySource::UserCommand, 0);
    assert_eq!(u.max_age(), 10_000);
    assert!(!u.is_stale(10_000));
}

#[test]
fn lines_and_prompt_are_split() {
    let mut link = LinkState::new(false);
    let out = link.on_server_text("one\r\ntwo\npart", &None, 0);
    assert_eq!(out.lines, vec!["one".to_string(), "two".to_string()]);
    assert_eq!(out.prompt.as_deref(), Some("part"));
    assert!(out.send.is_none());
    assert!(out.latency_ms.is_none());
    assert_eq!(link.line_buf, "");
}

#[test]
fn unfinished_escape_is_kept_for_the_next_read() {
    let mut link = LinkState::new(false);
    let out = link.on_server_text("HP\x1b[3", &None, 0);
    assert_eq!(out.prompt.as_deref(), Some("HP"));
    assert_eq!(link.line_buf, "\x1b[3");
    let out = link.on_server_text("1m>\n", &None, 0);
    assert_eq!(out.lines, vec!["\x1b[31m>".to_string()]);
}

#[test]
fn auto_login_sends_name_then_password() {
    let login = Some(("hero".to_string(), Some("secret".to_string())));
    let mut link = LinkState::new(true);
    let out = link.on_server_text("Welcome!\nBy what name? ", &login, 0);
    assert_eq!(out.send, Some(b"hero\r\n".to_vec()));
    assert_eq!(link.login_step, LoginStep::SendPassword);
    let out = link.on_server_text("Password: ", &login, 0);
    assert_eq!(out.send, Some(b"secret\r\n".to_vec()));
    assert_eq!(link.login_step, LoginStep::Done);
    let out = link.on_server_text("> ", &login, 0);
    assert!(out.send.is_none());
}

#[test]
fn auto_login_without_password_stops_after_name() {
    let login = Some(("hero".to_string(), None));
    let mut link = LinkState::new(true);
    link.on_server_text("name? ", &login, 0);
    let out = link.on_server_text("Password: ", &login, 0);
    assert!(out.send.is_none());
    assert_eq!(link.login_step, LoginStep::Done);
}

#[test]
fn latency_is_measured_from_user_command_to_output() {
    let mut link = LinkState::new(false);
    link.on_user_line(1_000);
    let out = link.on_server_text("You see nothing.\n", &None, 1_120);
    assert_eq!(out.latency_ms, Some(120));
    assert!(link.pending_latency.is_none());
}

#[test]
fn stale_measurement_gives_no_sample() {
    let mut link = LinkState::new(false);
    link.probe_sent(0);
    let out = link.on_server_text("x\n", &None, 5_000);
    assert!(out.latency_ms.is_none());
}

#[test]
fn probe_is_due_only_without_measurement() {
    let mut link = LinkState::new(false);
    assert!(link.probe_due(0));
    link.probe_sent(0);
    assert!(!link.probe_due(1_000));
    assert!(link.probe_due(3_001));
    link.on_user_line(10);
    link.on_user_line(20);
    assert_eq!(link.pending_latency.unwrap().started_ms, 10);
}
