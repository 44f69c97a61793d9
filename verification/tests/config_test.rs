use devports::config::doctor::doctor;
use devports::config::{add_service, default_config_path, init_config, Config, ServiceConfig};
use devports::path::{component_count, starts_with_path};
use devports::proc::repo::{repo_markers, repo_root_candidates, resolve_repo_root};
use devports::scan::model::ScanRecord;
use devports::{join_records, start_log_path};

fn service(repo: &str, port: u16, start: Option<&str>) -> ServiceConfig {
    ServiceConfig {
        repo: repo.to_string(),
        port,
        start: start.map(|s| s.to_string()),
        tags: vec![],
    }
}

fn listener(port: u16, pid: i32, cwd: Option<&str>, repo_root: Option<&str>) -> ScanRecord {
    ScanRecord {
        port,
        protocol: "tcp".to_string(),
        pid,
        ppid: Some(1),
        pgid: Some(pid),
        command: "vite".to_string(),
        cwd: cwd.map(|s| s.to_string()),
        repo_root: repo_root.map(|s| s.to_string()),
    }
}

#[test]
fn doctor_warns_for_unmapped_local_dev_listener() {
    let cfg = Config::new();
    let home = "/home/dev";
    let running = vec![ScanRecord {
        port: 4123,
        protocol: "tcp".to_string(),
        pid: 100,
        ppid: Some(1),
        pgid: Some(100),
        command: "vite".to_string(),
        cwd: Some(format!("{home}/projects/web")),
        repo_root: None,
    }];

    let report = doctor(&cfg, &running, &vec![], Some(home));

    assert_eq!(report.issues.len(), 1);
    assert_eq!(report.issues[0].code, "unmapped_listener");
    assert_eq!(report.issues[0].message, "listening port 4123 pid 100 not mapped in config");
    assert!(!report.has_errors());
}

#[test]
fn doctor_ignores_unmapped_system_listener_noise() {
    let cfg = Config::new();
    let running = vec![ScanRecord {
        port: 8080,
        protocol: "tcp".to_string(),
        pid: 200,
        ppid: Some(1),
        pgid: Some(200),
        command: "system-daemon".to_string(),
        cwd: Some("/System/Library/CoreServices".to_string()),
        repo_root: None,
    }];

    let report = doctor(&cfg, &running, &vec![], Some("/Users/dev"));

    assert!(
        report.issues.is_empty(),
        "unexpected issues: {:?}",
        report.issues
    );
}

#[test]
fn doctor_reports_services_duplicates_and_listeners_in_order() {
    let mut cfg = Config::new();
    cfg.insert("web".to_string(), service("/p/web", 3000, Some("vite")));
    cfg.insert("api".to_string(), service("/p/api", 3000, Some("   ")));
    cfg.insert("docs".to_string(), service("/p/docs", 4000, Some("mkdocs serve")));
    // Name order: api, docs, web.
    let running = vec![
        listener(3000, 1, None, Some("/p/web")),
        listener(5000, 2, None, Some("/p/other")),
    ];
    let report = doctor(&cfg, &running, &vec![true, false, true], None);
    let got: Vec<(String, String, String)> = report
        .issues
        .iter()
        .map(|i| (i.level.clone(), i.code.clone(), i.message.clone()))
        .collect();
    assert_eq!(
        got,
        vec![
            ("warn".to_string(), "missing_start".to_string(), "service api has no start command".to_string()),
            ("error".to_string(), "missing_repo".to_string(), "service docs repo missing: /p/docs".to_string()),
            ("error".to_string(), "duplicate_port".to_string(), "port 3000 is assigned to: api, web".to_string()),
            ("warn".to_string(), "unmapped_listener".to_string(), "listening port 5000 pid 2 not mapped in config".to_string()),
        ]
    );
    assert!(report.has_errors());
}

#[test]
fn config_insert_keeps_names_ordered_and_replaces() {
    let mut cfg = Config::new();
    cfg.insert("web".to_string(), service("/a", 1, None));
    cfg.insert("api".to_string(), service("/b", 2, None));
    cfg.insert("web".to_string(), service("/c", 3, None));
    assert_eq!(cfg.len(), 2);
    let names: Vec<&str> = cfg.entries().iter().map(|(n, _)| n.as_str()).collect();
    assert_eq!(names, vec!["api", "web"]);
    assert_eq!(cfg.get("web").unwrap().repo, "/c");
    assert!(cfg.get("docs").is_none());
    assert_eq!(
        cfg.service("docs").unwrap_err().message(),
        "service not found in config: docs"
    );
}

#[test]
fn add_service_sets_fields_without_tags() {
    let mut cfg = Config::new();
    add_service(&mut cfg, "web".to_string(), "~/projects/web".to_string(), 3000, Some("vite".to_string()));
    let svc = cfg.service("web").unwrap();
    assert_eq!(svc.repo, "~/projects/web");
    assert_eq!(svc.port, 3000);
    assert_eq!(svc.start.as_deref(), Some("vite"));
    assert!(svc.tags.is_empty());
}

#[test]
fn match_service_prefers_the_deepest_repository() {
    let mut cfg = Config::new();
    cfg.insert("mono".to_string(), service("/p/mono", 3000, None));
    cfg.insert("web".to_string(), service("/p/mono/apps/web", 3001, None));
    cfg.insert("monolith".to_string(), service("/p/monolith", 3002, None));
    let (name, svc) = cfg.match_service(None, Some("/p/mono/apps/web/src")).unwrap();
    assert_eq!((name, svc.port), ("web", 3001));
    let (name, _) = cfg.match_service(Some("/p/mono/tools"), Some("/p/mono/apps/web")).unwrap();
    assert_eq!(name, "mono");
    assert!(cfg.match_service(None, Some("/p/monolithic")).is_none());
    assert!(cfg.match_service(None, None).is_none());
    let (name, _) = cfg.match_service(None, Some("/p/monolith/x")).unwrap();
    assert_eq!(name, "monolith");
}

#[test]
fn join_records_attaches_services() {
    let mut cfg = Config::new();
    cfg.insert("web".to_string(), service("/p/web", 3000, None));
    let joined = join_records(&vec![listener(3001, 5, Some("/p/web/src"), None), listener(80, 6, None, None)], &cfg);
    assert_eq!(joined[0].service_name.as_deref(), Some("web"));
    assert_eq!(joined[0].configured_port, Some(3000));
    assert_eq!(joined[1].service_name, None);
    assert_eq!(joined[1].configured_port, None);
}

#[test]
fn paths_compare_by_components() {
    assert!(starts_with_path("/a/b/c", "/a/b"));
    assert!(starts_with_path("/a//b/", "/a/b"));
    assert!(!starts_with_path("/a/bc", "/a/b"));
    assert!(!starts_with_path("a/b", "/a"));
    assert!(starts_with_path("./a/b", "./a"));
    assert!(!starts_with_path("./a", "a"));
    assert_eq!(component_count("/a/./b/"), 3);
    assert_eq!(component_count("a"), 1);
    assert_eq!(component_count(""), 0);
}

#[test]
fn default_paths() {
    assert_eq!(default_config_path(Some("/home/dev")), "/home/dev/.devports/config.yml");
    assert_eq!(default_config_path(Some("/")), "/.devports/config.yml");
    assert_eq!(default_config_path(None), "./.devports/config.yml");
    assert_eq!(start_log_path("/p/web"), "/p/web/.devports/start.log");
    assert_eq!(start_log_path("/p/web/"), "/p/web/.devports/start.log");
}

#[test]
fn init_refuses_to_overwrite_without_force() {
    assert_eq!(init_config(false, false).unwrap(), "services: {}\n");
    assert_eq!(init_config(true, true).unwrap(), "services: {}\n");
    assert_eq!(
        init_config(true, false).unwrap_err().message(),
        "config already exists (use --force to overwrite)"
    );
}

#[test]
fn repo_roots_are_searched_from_the_directory_up() {
    assert_eq!(
        repo_root_candidates("/home/dev/web/src"),
        vec!["/home/dev/web/src", "/home/dev/web", "/home/dev", "/home", "/"]
    );
    assert_eq!(repo_root_candidates("a/b"), vec!["a/b", "a", ""]);
    assert_eq!(repo_root_candidates("/"), vec!["/"]);
    let cands = repo_root_candidates("/home/dev/web/src");
    assert_eq!(
        resolve_repo_root(&cands, &vec![false, true, false, false, true]),
        Some("/home/dev/web".to_string())
    );
    assert_eq!(resolve_repo_root(&cands, &vec![false; 5]), None);
    assert_eq!(
        repo_markers("/home/dev"),
        ("/home/dev/.git".to_string(), "/home/dev/.jcn-root".to_string())
    );
}
