use devports::config::{Config, ServiceConfig};
use devports::error::DevportsError;
use devports::scan::model::ScanRecord;
use devports::{lan_service_url, local_service_url, open_url, service_url, urls_lines};

fn record(port: u16, pid: i32) -> ScanRecord {
    ScanRecord {
        port,
        protocol: "tcp".to_string(),
        pid,
        ppid: Some(1),
        pgid: Some(pid),
        command: "node server.js".to_string(),
        cwd: None,
        repo_root: None,
    }
}

fn service(repo: &str, port: u16, start: Option<&str>) -> ServiceConfig {
    ServiceConfig {
        repo: repo.to_string(),
        port,
        start: start.map(|s| s.to_string()),
        tags: vec![],
    }
}

#[test]
fn service_url_defaults_to_local_loopback() {
    assert_eq!(service_url(5173), "http://127.0.0.1:5173");
    assert_eq!(local_service_url(3000), "http://127.0.0.1:3000");
}

#[test]
fn lan_service_url_keeps_hostname_urls_available() {
    let url = lan_service_url(4173);

    assert!(url.starts_with("http://"));
    assert!(url.ends_with(":4173"));
}

#[test]
fn open_reports_missing_service_from_config() {
    let cfg = Config::new();
    let err = open_url(&cfg, "web", &vec![]).expect_err("missing service should error");

    assert!(
        err.message().contains("service not found in config: web"),
        "unexpected error: {err:?}"
    );
}

#[test]
fn open_requires_service_to_be_listening() {
    let mut cfg = Config::new();
    cfg.insert("web".to_string(), service("/tmp/web", 65534, None));

    let err = open_url(&cfg, "web", &vec![]).expect_err("non-listening service should error");

    assert!(
        err.message().contains(
            "service 'web' is configured for http://127.0.0.1:65534 but is not listening"
        ),
        "unexpected error: {err:?}"
    );
}

#[test]
fn open_gives_the_local_url_of_a_listening_service() {
    let mut cfg = Config::new();
    cfg.insert("web".to_string(), service("/tmp/web", 3000, None));
    let url = open_url(&cfg, "web", &vec![record(3000, 7)]).expect("listening service opens");
    assert_eq!(url, "http://127.0.0.1:3000");
}

#[test]
fn urls_explains_when_no_services_are_configured() {
    let cfg = Config::new();
    let lines = urls_lines(&cfg, &vec![], None);
    let stdout = lines.join("\n");
    assert!(
        stdout.contains("no configured services; add one with `devports config add <name> --repo <path> --port <port>`"),
        "unexpected stdout: {stdout}"
    );
}

#[test]
fn urls_lists_services_in_name_order_with_status() {
    let mut cfg = Config::new();
    cfg.insert("web".to_string(), service("/p/web", 3000, Some("vite")));
    cfg.insert("api".to_string(), service("/p/api", 4000, None));
    let lines = urls_lines(&cfg, &vec![record(3000, 11)], Some("devbox.local"));
    assert_eq!(
        lines,
        vec![
            "api                  http://devbox.local:4000 DOWN".to_string(),
            "web                  http://devbox.local:3000 LISTEN".to_string(),
        ]
    );
}

#[test]
fn error_messages_match_the_command_line() {
    assert_eq!(
        DevportsError::NoListener { port: 3000 }.message(),
        "no listener found for port 3000"
    );
    assert_eq!(
        DevportsError::PortInUse { record: record(8080, 5) }.message(),
        "port 8080 is already in use"
    );
    assert_eq!(
        DevportsError::ConfigExists.message(),
        "config already exists (use --force to overwrite)"
    );
    assert_eq!(
        DevportsError::MissingStartCommand.message(),
        "service is missing start command"
    );
    assert_eq!(
        DevportsError::RepoMissing { repo: "/nowhere".to_string() }.message(),
        "repo does not exist: /nowhere"
    );
}
