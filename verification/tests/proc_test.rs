use devports::proc::kill::{group_target, group_wait_step, kill_order, kill_plan, pid_target, signal_flag, KillPlan, WaitStep};
use devports::proc::ps::process_tree;
use devports::scan::model::{ListenerRecord, ScanRecord};
use devports::scan::{keep_lsof_listing, scan_listeners, ProcessFacts};
use devports::proc::ps::PsInfo;
use devports::render::table::{conflict_message, doctor_report_lines, list_table_lines};
use devports::config::doctor::{DoctorIssue, DoctorReport};
use devports::scan::model::JoinedPortRecord;
use devports::{ensure_port_available, listener_on_port, start_command};
use devports::config::ServiceConfig;

fn rec(port: u16, pid: i32, pgid: Option<i32>) -> ScanRecord {
    ScanRecord {
        port,
        protocol: "tcp".to_string(),
        pid,
        ppid: None,
        pgid,
        command: "node".to_string(),
        cwd: None,
        repo_root: None,
    }
}

#[test]
fn process_tree_collects_descendants_once_in_order() {
    let pairs = vec![(1, 0), (10, 1), (12, 10), (11, 10), (13, 12), (50, 2), (12, 10)];
    assert_eq!(process_tree(10, &pairs), vec![10, 11, 12, 13]);
    assert_eq!(process_tree(99, &pairs), vec![99]);
    assert_eq!(process_tree(1, &pairs), vec![1, 10, 11, 12, 13]);
    let cyclic = vec![(2, 1), (1, 2)];
    assert_eq!(process_tree(1, &cyclic), vec![1, 2]);
}

#[test]
fn kill_plans_and_targets() {
    assert_eq!(kill_plan(&rec(1, 10, Some(7)), true), KillPlan::KillGroup { pgid: 7 });
    assert_eq!(kill_plan(&rec(1, 10, None), true), KillPlan::KillPid { pid: 10 });
    assert_eq!(kill_plan(&rec(1, 10, Some(7)), false), KillPlan::TermGroupThenWait { pgid: 7 });
    assert_eq!(kill_plan(&rec(1, 10, None), false), KillPlan::TermTreeThenKill { pid: 10 });
    assert_eq!(group_wait_step(&vec![], false), WaitStep::Done);
    assert_eq!(group_wait_step(&vec![3], true), WaitStep::Escalate);
    assert_eq!(group_wait_step(&vec![3], false), WaitStep::Wait);
    assert_eq!(kill_order(&vec![10, 13, 11, 12]), vec![13, 12, 11, 10]);
    assert_eq!(signal_flag(true), "-KILL");
    assert_eq!(signal_flag(false), "-TERM");
    assert_eq!(group_target(4242), "-4242");
    assert_eq!(pid_target(-5), "-5");
}

#[test]
fn scan_records_are_sorted_by_port_stably() {
    let listeners = vec![
        ListenerRecord { port: 5000, protocol: "tcp".to_string(), pid: 1 },
        ListenerRecord { port: 3000, protocol: "tcp".to_string(), pid: 2 },
        ListenerRecord { port: 5000, protocol: "tcp".to_string(), pid: 3 },
    ];
    let facts = vec![
        ProcessFacts { ps: Some(PsInfo { pid: 1, ppid: 0, pgid: 1, command: "a".to_string() }), cwd: Some("/w".to_string()), repo_root: None },
        ProcessFacts { ps: None, cwd: None, repo_root: None },
        ProcessFacts { ps: None, cwd: None, repo_root: Some("/r".to_string()) },
    ];
    let out = scan_listeners(listeners, facts);
    let pids: Vec<i32> = out.iter().map(|r| r.pid).collect();
    assert_eq!(pids, vec![2, 1, 3]);
    assert_eq!(out[0].command, "<unknown>");
    assert_eq!(out[1].command, "a");
    assert_eq!(out[1].ppid, Some(0));
    assert_eq!(out[2].repo_root.as_deref(), Some("/r"));
    assert!(keep_lsof_listing(&Some(vec![ListenerRecord { port: 1, protocol: "tcp".to_string(), pid: 1 }])));
    assert!(!keep_lsof_listing(&Some(vec![])));
    assert!(!keep_lsof_listing(&None));
}

#[test]
fn ports_in_use_and_start_commands() {
    let records = vec![rec(3000, 1, None), rec(3000, 2, None)];
    assert!(ensure_port_available(&records, 4000).is_ok());
    let err = ensure_port_available(&records, 3000).unwrap_err();
    assert_eq!(err.message(), "port 3000 is already in use");
    assert_eq!(listener_on_port(&records, 3000).unwrap().pid, 1);
    assert_eq!(listener_on_port(&records, 1).unwrap_err().message(), "no listener found for port 1");
    let svc = ServiceConfig { repo: "/p".to_string(), port: 1, start: None, tags: vec![] };
    assert_eq!(start_command(&svc, true).unwrap_err().message(), "service is missing start command");
    let svc = ServiceConfig { repo: "/p".to_string(), port: 1, start: Some("make dev".to_string()), tags: vec![] };
    assert_eq!(start_command(&svc, false).unwrap_err().message(), "repo does not exist: /p");
    assert_eq!(start_command(&svc, true).unwrap(), "make dev");
}

#[test]
fn rendered_tables() {
    let rows = vec![JoinedPortRecord {
        service_name: Some("web".to_string()),
        configured_port: Some(3000),
        record: rec(3000, 41, Some(40)),
    }];
    assert_eq!(
        list_table_lines(&rows),
        vec![
            "PORT    SERVICE               PID       PGID      MATCH     COMMAND".to_string(),
            "3000    web                   41        40        ok        node".to_string(),
        ]
    );
    assert_eq!(doctor_report_lines(&DoctorReport { issues: vec![] }), vec!["doctor: ok".to_string()]);
    let report = DoctorReport {
        issues: vec![DoctorIssue { level: "warn".to_string(), code: "missing_start".to_string(), message: "service web has no start command".to_string() }],
    };
    assert_eq!(doctor_report_lines(&report), vec!["[warn] missing_start: service web has no start command".to_string()]);
    assert_eq!(
        conflict_message(&rec(3000, 41, None)),
        "port conflict: port=3000 pid=41 pgid=- cmd=node cwd=- repo_root=-"
    );
}
