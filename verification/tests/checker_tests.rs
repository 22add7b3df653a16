use cackle::checker::{Checker, SourceLocation, Usage, UNKNOWN_CRATE_ID};
use cackle::config::{Config, PackageConfig, PermConfig};
use cackle::proxy::CanContinueResponse;

fn perm(grant: &[&str], exclude: &[&str]) -> PermConfig {
    let mut p = PermConfig::empty();
    for g in grant {
        p.grant.push(g.to_string());
    }
    for e in exclude {
        p.exclude.push(e.to_string());
    }
    p
}

fn pkg(allow: &[&str]) -> PackageConfig {
    let mut c = PackageConfig::empty();
    for a in allow {
        c.allow.push(a.to_string());
    }
    c
}

fn parts(names: &[&str]) -> Vec<String> {
    names.iter().map(|s| s.to_string()).collect()
}

fn api_names(checker: &Checker, path: &[&str]) -> Vec<String> {
    let matched = checker.apis_for_path(&parts(path));
    let mut names = Vec::new();
    let mut i = 0;
    while i < matched.len() {
        names.push(checker.permission_name(matched.id_at(i)).clone());
        i += 1;
    }
    names.sort();
    names
}

fn test_config() -> Config {
    let mut config = Config::empty();
    config.perms.push(("fs".to_string(), perm(&["std::env"], &["std::env::var"])));
    config.perms.push(("env".to_string(), perm(&["std::env"], &[])));
    config.perms.push(("env2".to_string(), perm(&["std::env"], &[])));
    config
}

#[test]
fn test_apis_for_path() {
    let checker = Checker::from_config(&test_config());
    assert_eq!(api_names(&checker, &["std", "env", "var"]), vec!["env", "env2"]);
    assert_eq!(api_names(&checker, &["std", "env", "exe"]), vec!["env", "env2", "fs"]);
}

#[test]
fn empty_path_matches_no_permission() {
    let checker = Checker::from_config(&test_config());
    let matched = checker.apis_for_path(&Vec::new());
    assert_eq!(matched.len(), 0);
}

#[test]
fn exclude_at_same_prefix_wins() {
    let mut config = Config::empty();
    config.perms.push(("x".to_string(), perm(&["a"], &["a"])));
    let checker = Checker::from_config(&config);
    let matched = checker.apis_for_path(&parts(&["a"]));
    assert_eq!(matched.len(), 0);
}

#[test]
fn longer_grant_wins_over_shorter_exclude() {
    let mut config = Config::empty();
    let mut p = perm(&["a::b"], &["a"]);
    p.grant.push("a".to_string());
    config.perms.push(("x".to_string(), p));
    let checker = Checker::from_config(&config);
    assert_eq!(checker.apis_for_path(&parts(&["a"])).len(), 0);
    assert_eq!(checker.apis_for_path(&parts(&["a", "b"])).len(), 1);
}

fn loc(file: &str, line: u32) -> Usage {
    Usage::Source(SourceLocation { filename: file.to_string(), line_number: line })
}

#[test]
fn disallowed_usage_recorded_once_per_crate_and_perm() {
    let mut config = Config::empty();
    config.perms.push(("fs".to_string(), perm(&["std::fs"], &[])));
    config.perms.push(("env".to_string(), perm(&["std::env"], &[])));
    config.crates.push(("p1".to_string(), pkg(&["env"])));
    let mut checker = Checker::from_config(&config);
    let crate_id = checker.crate_id_from_name(&"p1".to_string());
    checker.path_used(crate_id, &parts(&["std", "fs", "File", "open"]), &loc("src/lib.rs", 11));
    checker.path_used(crate_id, &parts(&["std", "fs", "File", "open"]), &loc("src/other.rs", 2));
    let info = &checker.crate_infos[crate_id];
    assert_eq!(info.disallowed_usage.len(), 2);
    // The allowed permission `env` was never used, so it is still counted
    // as unused.
    assert_eq!(info.unused_allowed_perms.len(), 1);
    assert_eq!(checker.report_problems(), CanContinueResponse::Deny);
}

#[test]
fn unused_allowed_is_allowed_minus_observed() {
    let mut config = Config::empty();
    config.perms.push(("fs".to_string(), perm(&["std::fs"], &[])));
    config.perms.push(("env".to_string(), perm(&["std::env"], &[])));
    config.crates.push(("p1".to_string(), pkg(&["env", "fs"])));
    let mut checker = Checker::from_config(&config);
    let crate_id = checker.crate_id_from_name(&"p1".to_string());
    checker.report_crate_used(crate_id);
    assert_eq!(checker.crate_infos[crate_id].unused_allowed_perms.len(), 2);
    checker.path_used(crate_id, &parts(&["std", "fs", "read"]), &loc("a.rs", 1));
    // `fs` was observed, so only `env` remains unused.
    let info = &checker.crate_infos[crate_id];
    assert_eq!(info.unused_allowed_perms.len(), 1);
    assert_eq!(info.disallowed_usage.len(), 0);
    assert_eq!(checker.report_problems(), CanContinueResponse::Proceed);
    let unused = checker.check_unused().unwrap_err();
    assert_eq!(unused.unknown_crates.len(), 0);
    assert_eq!(unused.unused_allow_apis.len(), 1);
    assert_eq!(unused.unused_allow_apis[0].0, "p1");
    assert_eq!(unused.unused_allow_apis[0].1, vec!["env".to_string()]);
}

#[test]
fn config_for_missing_package_reported() {
    let mut config = Config::empty();
    config.crates.push(("ghost_pkg".to_string(), pkg(&[])));
    let checker = Checker::from_config(&config);
    let unused = checker.check_unused().unwrap_err();
    assert_eq!(unused.unknown_crates, vec!["ghost_pkg".to_string()]);
    let problems = cackle::problem::problems_from_unused(&unused);
    // Exactly one warning names the package.
    let mut count = 0;
    let mut i = 0;
    while i < problems.len() {
        if let Some(cackle::problem::Problem::UnusedPackageConfig(name)) = problems.get(i) {
            if name == "ghost_pkg" {
                count += 1;
            }
        }
        i += 1;
    }
    assert_eq!(count, 1);
}

#[test]
fn usage_report_lines() {
    let mut config = Config::empty();
    config.perms.push(("fs".to_string(), perm(&["std::fs"], &[])));
    config.crates.push(("p1".to_string(), pkg(&[])));
    let mut checker = Checker::from_config(&config);
    let crate_id = checker.crate_id_from_name(&"p1".to_string());
    checker.path_used(crate_id, &parts(&["std", "fs", "read"]), &loc("src/lib.rs", 11));
    let lines = checker.usage_report(None);
    assert_eq!(
        lines,
        vec![
            "Crate 'p1' uses disallowed APIs:".to_string(),
            "  fs:".to_string(),
            "    src/lib.rs:12".to_string(),
        ]
    );
    let capped = checker.usage_report(Some(0));
    assert_eq!(capped.len(), 2);
    assert_eq!(UNKNOWN_CRATE_ID, 0);
}
