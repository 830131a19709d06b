use bird_lg::access::{check_access, Denial, IpAddress, IpNetwork};
use bird_lg::bird::{bird_read_line, daemon_address, DaemonAddress, confirms_restriction, is_numeric, line_wants_more, BirdSession, Phase, ReadOutcome, SessionAction};
use bird_lg::proxy::Settings;
use bird_lg::traceroute::{
    args_to_string, clean_traceroute_output, finish_traceroute_output, parse_traceroute_flags, plan_traceroute,
    probe_candidates,
    Autodetect, DetectAction, TracerouteConfig, TracerouteError,
};

fn frame(line: &str) -> (String, bool) {
    let mut out = Vec::new();
    let more = bird_read_line(line.as_bytes(), &mut out);
    (String::from_utf8(out).unwrap(), more)
}

#[test]
fn framing_terminal_status_line() {
    assert_eq!(frame("0000 ok\n"), ("ok\n".to_string(), false));
    assert_eq!(frame("8001 bad\n"), ("bad\n".to_string(), false));
    assert_eq!(frame("9001 err\n"), ("err\n".to_string(), false));
}

#[test]
fn framing_continuing_status_line() {
    assert_eq!(frame("1002-table\n"), ("table\n".to_string(), true));
    assert_eq!(frame("2002-x\n"), ("x\n".to_string(), true));
}

#[test]
fn framing_continuation_line_strips_one_byte() {
    assert_eq!(frame(" extra\n"), ("extra\n".to_string(), true));
    // A three-digit prefix is no status code: only the alignment byte goes.
    assert_eq!(frame("200 ok\n"), ("00 ok\n".to_string(), true));
}

#[test]
fn framing_short_lines() {
    assert_eq!(frame("0000\n"), ("".to_string(), false));
    assert_eq!(frame("0000 \n"), ("".to_string(), false));
    assert_eq!(frame("x"), ("".to_string(), true));
    assert_eq!(frame(""), ("".to_string(), true));
}

#[test]
fn numeric_bytes() {
    assert!(is_numeric(b'0'));
    assert!(is_numeric(b'9'));
    assert!(!is_numeric(b'a'));
    assert!(!is_numeric(b' '));
}

#[test]
fn line_length_cap() {
    assert!(line_wants_more(b""));
    assert!(line_wants_more(b"abc"));
    assert!(!line_wants_more(b"abc\n"));
    let long = vec![b'a'; 1024];
    assert!(!line_wants_more(&long));
    assert!(line_wants_more(&long[..1023]));
}

#[test]
fn restriction_marker() {
    assert!(confirms_restriction(b"Access restricted\n"));
    assert!(!confirms_restriction(b"Access denied\n"));
}

fn line(s: &str) -> ReadOutcome {
    ReadOutcome::Line(s.as_bytes().to_vec())
}

#[test]
fn session_runs_command_after_restriction() {
    let mut s = BirdSession::new("show status");
    assert_eq!(s.phase(), Phase::Greeting);
    match s.step(line("0001 BIRD 2.0.8 ready.\n")) {
        SessionAction::Send(c) => assert_eq!(c, "restrict\n"),
        other => panic!("unexpected {:?}", other),
    }
    match s.step(line("0016 Access restricted\n")) {
        SessionAction::Send(c) => assert_eq!(c, "show status\n"),
        other => panic!("unexpected {:?}", other),
    }
    assert!(matches!(s.step(line("1000-BIRD 2.0.8\n")), SessionAction::Read));
    assert!(matches!(s.step(line(" Router ID is 1.2.3.4\n")), SessionAction::Read));
    match s.step(line("0013 Daemon is up and running\n")) {
        SessionAction::Finish(out) => {
            assert_eq!(String::from_utf8(out).unwrap(), "BIRD 2.0.8\nRouter ID is 1.2.3.4\nDaemon is up and running\n")
        },
        other => panic!("unexpected {:?}", other),
    }
    assert_eq!(s.phase(), Phase::Done);
}

#[test]
fn session_fails_without_restriction() {
    let mut s = BirdSession::new("show status");
    s.step(line("0001 BIRD 2.0.8 ready.\n"));
    assert!(matches!(s.step(line("8007 Access denied\n")), SessionAction::Fail));
    assert_eq!(s.phase(), Phase::Failed);
    assert!(matches!(s.step(line("0016 Access restricted\n")), SessionAction::Fail));
    assert!(matches!(s.step(line("0000 ok\n")), SessionAction::Fail));
}

#[test]
fn session_read_error_ends_reply() {
    let mut s = BirdSession::new("show route");
    s.step(line("0001 ready.\n"));
    s.step(line("0016 Access restricted\n"));
    s.step(line("1007-a\n"));
    match s.step(ReadOutcome::Error(b"broken pipe".to_vec())) {
        SessionAction::Finish(out) => assert_eq!(out, b"a\nbroken pipe".to_vec()),
        other => panic!("unexpected {:?}", other),
    }
}

fn v4(a: u8, b: u8, c: u8, d: u8) -> IpAddress {
    IpAddress { v6: false, bits: u128::from(u32::from_be_bytes([a, b, c, d])) }
}

fn net4(a: u8, b: u8, c: u8, d: u8, len: u8) -> IpNetwork {
    IpNetwork { v6: false, addr: u128::from(u32::from_be_bytes([a, b, c, d])), prefix_len: len }
}

#[test]
fn empty_allow_list_admits_everyone() {
    assert_eq!(check_access(&[], &v4(203, 0, 113, 9), false, &None, None), Ok(()));
    let v6 = IpAddress { v6: true, bits: 1 };
    assert_eq!(check_access(&[], &v6, false, &None, None), Ok(()));
}

#[test]
fn allow_list_admits_only_contained_addresses() {
    let nets = [net4(10, 0, 0, 0, 8), net4(192, 168, 1, 7, 32)];
    assert_eq!(check_access(&nets, &v4(10, 20, 30, 40), false, &None, None), Ok(()));
    assert_eq!(check_access(&nets, &v4(192, 168, 1, 7), false, &None, None), Ok(()));
    assert_eq!(check_access(&nets, &v4(192, 168, 1, 8), false, &None, None), Err(Denial::Forbidden));
    assert_eq!(check_access(&nets, &v4(11, 0, 0, 1), false, &None, None), Err(Denial::Forbidden));
    let v6 = IpAddress { v6: true, bits: 0x0a00_0001 };
    assert_eq!(check_access(&nets, &v6, false, &None, None), Err(Denial::Forbidden));
}

#[test]
fn v6_prefixes() {
    let all = IpNetwork { v6: true, addr: 0, prefix_len: 0 };
    let doc = IpNetwork { v6: true, addr: 0x2001_0db8u128 << 96, prefix_len: 32 };
    let inside = IpAddress { v6: true, bits: (0x2001_0db8u128 << 96) | 5 };
    let outside = IpAddress { v6: true, bits: 0x2001_0db9u128 << 96 };
    assert!(all.contains(&outside));
    assert!(doc.contains(&inside));
    assert!(!doc.contains(&outside));
    assert!(!doc.contains(&v4(1, 2, 3, 4)));
}

#[test]
fn bearer_token_rules() {
    let token = Some("s3cret".to_string());
    let ip = v4(127, 0, 0, 1);
    assert_eq!(check_access(&[], &ip, true, &token, Some("Bearer s3cret")), Ok(()));
    assert_eq!(check_access(&[], &ip, true, &token, Some("Bearer wrong")), Err(Denial::Unauthorized));
    assert_eq!(check_access(&[], &ip, true, &token, Some("s3cret")), Err(Denial::Unauthorized));
    assert_eq!(check_access(&[], &ip, true, &token, None), Err(Denial::Unauthorized));
    assert_eq!(check_access(&[], &ip, true, &None, Some("Bearer s3cret")), Err(Denial::Misconfigured));
    assert_eq!(check_access(&[], &ip, false, &None, None), Ok(()));
}

fn proxy_settings(nets: Vec<IpNetwork>) -> Settings {
    Settings {
        bird_socket: "/var/run/bird/bird.ctl".to_string(),
        listen: "8000".to_string(),
        allowed_nets: nets,
        traceroute_bin: None,
        traceroute_flags: Vec::new(),
        traceroute_raw: false,
        traceroute_max_concurrent: 2,
        bird_restrict_cmds: true,
        auth_enabled: true,
        auth_token: Some("t".to_string()),
    }
}

#[test]
fn settings_check_request() {
    let s = proxy_settings(vec![net4(10, 0, 0, 0, 8)]);
    assert!(s.has_access(&v4(10, 1, 1, 1)));
    assert!(!s.has_access(&v4(9, 1, 1, 1)));
    assert_eq!(s.check_request(&v4(10, 1, 1, 1), Some("Bearer t")), Ok(()));
    assert_eq!(s.check_request(&v4(9, 1, 1, 1), Some("Bearer t")), Err(Denial::Forbidden));
    assert_eq!(s.check_request(&v4(10, 1, 1, 1), None), Err(Denial::Unauthorized));
}

fn view(c: &TracerouteConfig) -> (String, Vec<String>) {
    (c.bin.clone(), c.flags.clone())
}

fn strs(v: &[&str]) -> Vec<String> {
    v.iter().map(|s| s.to_string()).collect()
}

#[test]
fn candidates_for_configuration() {
    let only = probe_candidates(&Some("tr".to_string()), &strs(&["-n"]));
    assert_eq!(only.iter().map(view).collect::<Vec<_>>(), vec![("tr".to_string(), strs(&["-n"]))]);
    let custom = probe_candidates(&Some("tr".to_string()), &Vec::new());
    assert_eq!(custom.len(), 7);
    assert_eq!(view(&custom[0]), ("tr".to_string(), strs(&["-q1", "-N32", "-w1"])));
    assert_eq!(view(&custom[2]), ("tr".to_string(), Vec::new()));
    assert_eq!(view(&custom[3]), ("mtr".to_string(), strs(&["-w", "-c1", "-Z1", "-G1", "-b"])));
    let standard = probe_candidates(&None, &strs(&["-x"]));
    assert_eq!(standard.len(), 4);
    assert_eq!(view(&standard[1]), ("traceroute".to_string(), strs(&["-q1", "-N32", "-w1"])));
    assert_eq!(view(&standard[3]), ("traceroute".to_string(), Vec::new()));
}

#[test]
fn autodetect_adopts_second_of_three() {
    let outcomes = [false, true, false];
    let mut d = Autodetect::new(3);
    let mut probes = Vec::new();
    loop {
        match d.next_action() {
            DetectAction::Probe(i) => {
                probes.push(i);
                d.record(outcomes[i]);
            },
            DetectAction::Done(r) => {
                assert_eq!(r, Some(1));
                break;
            },
        }
    }
    assert_eq!(probes, vec![0, 1]);
    // Asking again probes nothing more.
    assert_eq!(d.next_action(), DetectAction::Done(Some(1)));
    assert_eq!(d.next_action(), DetectAction::Done(Some(1)));
}

#[test]
fn autodetect_all_fail() {
    let mut d = Autodetect::new(2);
    assert_eq!(d.next_action(), DetectAction::Probe(0));
    d.record(false);
    assert_eq!(d.next_action(), DetectAction::Probe(1));
    d.record(false);
    assert_eq!(d.next_action(), DetectAction::Done(None));
}

#[test]
fn every_run_uses_the_detected_tool() {
    let detected = Some(TracerouteConfig { bin: "traceroute".to_string(), flags: strs(&["-q1", "-w1"]) });
    for _ in 0..3 {
        let inv = plan_traceroute(&detected, "  -4 'example host' ").unwrap();
        assert_eq!(inv.program, "traceroute");
        assert_eq!(inv.args, strs(&["-q1", "-w1", "-4", "example host"]));
    }
    assert_eq!(plan_traceroute(&None, "1.1.1.1").err(), Some(TracerouteError::NotSupported));
    assert_eq!(plan_traceroute(&detected, "'unclosed").err(), Some(TracerouteError::InvalidArguments));
}

#[test]
fn traceroute_error_messages() {
    assert_eq!(TracerouteError::NotSupported.message(), "Traceroute not supported on this node");
    assert_eq!(TracerouteError::InvalidArguments.message(), "Failed to parse args: invalid shell syntax");
}

#[test]
fn command_line_for_logs() {
    assert_eq!(args_to_string("mtr", &strs(&["-w", "-c1"]), &strs(&["127.0.0.1"])), "mtr -w -c1 127.0.0.1");
    assert_eq!(args_to_string("traceroute", &[], &[]), "traceroute");
}

#[test]
fn silent_hops_are_removed_and_counted() {
    let raw = "traceroute to x (1.2.3.4), 30 hops max\n 1  10.0.0.1  0.5 ms\n 2  *\n 3  *\n 4  1.2.3.4  9 ms\n";
    assert_eq!(
        clean_traceroute_output(raw),
        "traceroute to x (1.2.3.4), 30 hops max\n 1  10.0.0.1  0.5 ms\n 4  1.2.3.4  9 ms\n\n2 hops not responding."
    );
    assert_eq!(clean_traceroute_output("  1  a\n"), "1  a");
    assert_eq!(finish_traceroute_output(" 1  *\n", true), " 1  *\n");
    assert_eq!(finish_traceroute_output(" 1  *\n", false), "\n\n1 hops not responding.");
}


#[test]
fn configured_flags_are_shell_words() {
    assert_eq!(parse_traceroute_flags(Some("-q1 \"-w 1\"")), strs(&["-q1", "-w 1"]));
    assert!(parse_traceroute_flags(Some("'open")).is_empty());
    assert!(parse_traceroute_flags(None).is_empty());
}

#[test]
fn peerless_connections() {
    let open = Settings { auth_enabled: false, ..proxy_settings(Vec::new()) };
    assert_eq!(open.check_peer(None, None), Ok(()));
    let closed = proxy_settings(vec![net4(10, 0, 0, 0, 8)]);
    assert_eq!(closed.check_peer(None, Some("Bearer t")), Err(Denial::Forbidden));
    assert_eq!(closed.check_peer(Some(v4(10, 0, 0, 1)), Some("Bearer t")), Ok(()));
    let token_only = proxy_settings(Vec::new());
    assert_eq!(token_only.check_peer(None, None), Err(Denial::Unauthorized));
}

#[test]
fn daemon_addresses() {
    assert!(matches!(daemon_address("/var/run/bird/bird.ctl"), DaemonAddress::Unix(p) if p == "/var/run/bird/bird.ctl"));
    assert!(matches!(daemon_address("bird.ctl"), DaemonAddress::Unix(p) if p == "bird.ctl"));
    assert!(matches!(daemon_address("3000"), DaemonAddress::Tcp(a) if a == "127.0.0.1:3000"));
    assert!(matches!(daemon_address("10.0.0.1:3000"), DaemonAddress::Tcp(a) if a == "10.0.0.1:3000"));
}

#[test]
fn empty_configured_token_is_a_secret() {
    let token = Some(String::new());
    let ip = v4(127, 0, 0, 1);
    assert_eq!(check_access(&[], &ip, true, &token, Some("Bearer ")), Ok(()));
    assert_eq!(check_access(&[], &ip, true, &token, None), Err(Denial::Unauthorized));
}
