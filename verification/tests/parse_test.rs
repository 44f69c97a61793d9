use devports::proc::cwd::parse_lsof_cwd;
use devports::proc::ps::{parse_pid_lines, parse_pid_pairs, parse_ps_line, PsField, PsParseError};
use devports::text::IntParseError;
use devports::scan::lsof::parse_lsof_listeners;
use devports::scan::ss::parse_ss;

const LSOF_MACOS: &str = "COMMAND   PID USER   FD   TYPE             DEVICE SIZE/OFF NODE NAME
node    12345 dev   21u  IPv4 0x8c5d1d2a9b1c3e4f      0t0  TCP *:3000 (LISTEN)
node    22334 dev   22u  IPv6 0x1a2b3c4d5e6f7a8b      0t0  TCP [::1]:3001 (LISTEN)
";

const PS_SAMPLE: &str = "12345     1 12345 node /Users/dev/app/server.js\n";

#[test]
fn parse_lsof_fixture() {
    let input = LSOF_MACOS;
    let parsed = parse_lsof_listeners(input);

    assert_eq!(parsed.len(), 2);
    assert_eq!(parsed[0].pid, 12345);
    assert_eq!(parsed[0].port, 3000);
    assert_eq!(parsed[1].pid, 22334);
    assert_eq!(parsed[1].port, 3001);
}

#[test]
fn lsof_protocol_and_skipped_lines() {
    let input = "HEADER\nshort line\nnode abc x TCP *:1 (LISTEN)\nnode 9 u TCP 127.0.0.1:8080\nudp 10 u UDP *:53\n";
    let parsed = parse_lsof_listeners(input);
    assert_eq!(parsed.len(), 2);
    assert_eq!(parsed[0].port, 8080);
    assert_eq!(parsed[0].pid, 9);
    assert_eq!(parsed[0].protocol, "tcp");
    assert_eq!(parsed[1].port, 53);
    assert_eq!(parsed[1].protocol, "unknown");
    assert!(parse_lsof_listeners("").is_empty());
}

#[test]
fn parse_ps_fixture_line() {
    let line = PS_SAMPLE.trim();
    let info = parse_ps_line(line).expect("parse ps line");

    assert_eq!(info.pid, 12345);
    assert_eq!(info.ppid, 1);
    assert_eq!(info.pgid, 12345);
    assert!(info.command.contains("server.js"));
}

#[test]
fn parse_ps_errors_follow_std() {
    assert_eq!(parse_ps_line("").unwrap_err(), PsParseError::Missing(PsField::Pid));
    assert_eq!(
        parse_ps_line("12 x 3").unwrap_err(),
        PsParseError::Invalid(IntParseError::InvalidDigit)
    );
    assert_eq!(parse_ps_line("12 1").unwrap_err(), PsParseError::Missing(PsField::Pgid));
    assert_eq!(
        parse_ps_line("1 99999999999 2").unwrap_err(),
        PsParseError::Invalid(IntParseError::PosOverflow)
    );
    assert_eq!(
        parse_ps_line("-99999999999 1 2").unwrap_err(),
        PsParseError::Invalid(IntParseError::NegOverflow)
    );
    assert_eq!(
        parse_ps_line("1 - 2").unwrap_err(),
        PsParseError::Invalid(IntParseError::InvalidDigit)
    );
    // std checks each character before the running value: a bad digit past
    // the overflow point still reports the overflow first.
    assert_eq!(
        parse_ps_line("99999999999x 1 2").unwrap_err(),
        PsParseError::Invalid(IntParseError::PosOverflow)
    );
    assert_eq!(
        parse_ps_line("1x99999999999 1 2").unwrap_err(),
        PsParseError::Invalid(IntParseError::InvalidDigit)
    );
    assert_eq!(PsParseError::Missing(PsField::Pid).message(), "missing pid");
    assert_eq!(
        PsParseError::Invalid(IntParseError::InvalidDigit).message(),
        "invalid digit found in string"
    );
    for (text, kind) in [
        ("x", IntParseError::InvalidDigit),
        ("3000000000", IntParseError::PosOverflow),
        ("-3000000000", IntParseError::NegOverflow),
        ("+", IntParseError::InvalidDigit),
        ("-", IntParseError::InvalidDigit),
        ("99999999999x", IntParseError::PosOverflow),
        ("1x99999999999", IntParseError::InvalidDigit),
        ("", IntParseError::Empty),
    ] {
        let std_err = text.parse::<i32>().unwrap_err();
        assert_eq!(format!("{:?}", std_err.kind()), format!("{:?}", kind));
        assert_eq!(kind.message(), std_err.to_string());
    }
    let info = parse_ps_line("+7 -1 7").unwrap();
    assert_eq!((info.pid, info.ppid, info.pgid), (7, -1, 7));
    assert_eq!(info.command, "");
    assert!(parse_ps_line("2147483648 1 1").is_err());
    assert_eq!(parse_ps_line("-2147483648 1 1").unwrap().pid, i32::MIN);
}

#[test]
fn parse_ss_listing() {
    let input = "State  Recv-Q Send-Q Local Address:Port Peer Address:Port Process
LISTEN 0      511          0.0.0.0:5173      0.0.0.0:*     users:((\"node\",pid=4242,fd=23))
LISTEN 0      128        [::]:22           [::]:*
LISTEN 0      4096     127.0.0.1:8080      0.0.0.0:*     users:((\"python3\",pid=77,fd=3),(\"python3\",pid=78,fd=3))
";
    let parsed = parse_ss(input);
    assert_eq!(parsed.len(), 2);
    assert_eq!((parsed[0].port, parsed[0].pid), (5173, 4242));
    assert_eq!(parsed[0].protocol, "tcp");
    assert_eq!((parsed[1].port, parsed[1].pid), (8080, 77));
}

#[test]
fn pid_lines_and_pairs() {
    assert_eq!(parse_pid_lines("  101\n 102 \nnot a pid\n\n103"), vec![101, 102, 103]);
    assert_eq!(
        parse_pid_pairs("  1     0\n 20     1\nbogus\n 21    20 extra\n"),
        vec![(1, 0), (20, 1), (21, 20)]
    );
}

#[test]
fn lsof_cwd_line() {
    let out = "COMMAND PID USER FD TYPE DEVICE SIZE/OFF NODE NAME\nnode 5 dev cwd DIR 1,4 640 2 /Users/dev/web\nnode 5 dev txt REG 1,4 1 3 /usr/bin/node\n";
    assert_eq!(parse_lsof_cwd(out), Some("/Users/dev/web".to_string()));
    let relative = "node 5 dev cwd DIR 1,4 640 2 web\nnode 5 dev cwd DIR 1,4 640 2 /abs\n";
    assert_eq!(parse_lsof_cwd(relative), None);
    assert_eq!(parse_lsof_cwd("nothing here"), None);
}

#[test]
fn ps_line_reads_back_what_was_printed() {
    for (pid, ppid, pgid, cmd) in [
        (4242, 1, 4242, "node /srv/app/server.js --port 3000"),
        (-7, 0, 2147483647, ""),
        (i32::MIN, i32::MAX, 12, "sh"),
    ] {
        let line = format!("{pid} {ppid} {pgid} {cmd}");
        let info = parse_ps_line(&line).unwrap();
        assert_eq!((info.pid, info.ppid, info.pgid), (pid, ppid, pgid));
        assert_eq!(info.command, cmd);
    }
    for bad in ["", "12 3", "a 1 2 x", "1 2 99999999999 x"] {
        assert!(parse_ps_line(bad).is_err());
    }
}

#[test]
fn lsof_header_is_skipped_and_chunks_concatenate() {
    let header = "node 5 u TCP *:4000 (LISTEN)";
    let a = "node 9 u TCP 127.0.0.1:8080\nshort line\n";
    let b = "node 10 u TCP *:9090 (LISTEN)\n";
    let whole = parse_lsof_listeners(&format!("{header}\n{a}{b}"));
    let first = parse_lsof_listeners(&format!("{header}\n{a}"));
    let second = parse_lsof_listeners(&format!("{header}\n{b}"));
    let ports: Vec<u16> = whole.iter().map(|r| r.port).collect();
    assert_eq!(ports, vec![8080, 9090]);
    let joined: Vec<u16> = first.iter().chain(second.iter()).map(|r| r.port).collect();
    assert_eq!(ports, joined);
}
