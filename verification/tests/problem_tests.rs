use cackle::crate_index::{BuildScriptId, CrateSel, PackageId, Version};
use cackle::problem::{
    deduplication_matches, ApiUsage, ApiUsages, PermUsages, Problem, ProblemList, Severity,
    SourceLocation, SymbolOrDebugName,
};

fn pkg_id(name: &str) -> PackageId {
    PackageId {
        name: name.to_string(),
        version: Version { major: 0, minor: 0, patch: 0 },
        name_is_unique: true,
    }
}

fn create_usage(from: &str, to: &str) -> ApiUsage {
    ApiUsage {
        source_location: SourceLocation { filename: "lib.rs".to_string(), line: 1, column: None },
        from: SymbolOrDebugName::Symbol(from.to_string()),
        to: SymbolOrDebugName::Symbol(to.to_string()),
        to_name: vec!["foo".to_string(), "bar".to_string()],
        to_source: to.to_string(),
        debug_data: None,
    }
}

fn clone_usages(usages: &[ApiUsage]) -> Vec<ApiUsage> {
    let mut out = Vec::new();
    for u in usages.iter() {
        out.push(ApiUsage {
            source_location: SourceLocation {
                filename: u.source_location.filename.clone(),
                line: u.source_location.line,
                column: u.source_location.column,
            },
            from: match &u.from {
                SymbolOrDebugName::Symbol(s) => SymbolOrDebugName::Symbol(s.clone()),
                SymbolOrDebugName::DebugName(s) => SymbolOrDebugName::DebugName(s.clone()),
            },
            to: match &u.to {
                SymbolOrDebugName::Symbol(s) => SymbolOrDebugName::Symbol(s.clone()),
                SymbolOrDebugName::DebugName(s) => SymbolOrDebugName::DebugName(s.clone()),
            },
            to_name: u.to_name.clone(),
            to_source: u.to_source.clone(),
            debug_data: u.debug_data.clone(),
        });
    }
    out
}

fn create_problem(package: &str, permissions_and_usage: &[(&str, &[ApiUsage])]) -> Problem {
    let mut usages = PermUsages::new();
    for (perm_name, usage) in permissions_and_usage {
        usages.append_usages(perm_name.to_string(), clone_usages(usage));
    }
    Problem::DisallowedApiUsage(ApiUsages {
        crate_sel: CrateSel::Primary(pkg_id(package)),
        usages,
    })
}

#[test]
fn test_condense() {
    let mut problems = ProblemList::new();
    problems.push(create_problem("foo2", &[("net", &[create_usage("bbb", "net_stuff")])]));
    problems.push(create_problem("foo1", &[("net", &[create_usage("aaa", "net_stuff")])]));
    problems.push(create_problem("foo1", &[("net", &[create_usage("bbb", "net_stuff")])]));
    problems.push(create_problem("foo1", &[("fs", &[create_usage("aaa", "fs_stuff")])]));

    let problems = problems.grouped_by_type_and_crate();

    let mut package_names = Vec::new();
    for p in &problems.problems {
        if let Problem::DisallowedApiUsage(u) = p {
            package_names.push(u.crate_sel.pkg_id().name().clone());
        }
    }
    package_names.sort();
    assert_eq!(package_names, vec!["foo1", "foo2"]);
}

#[test]
fn grouping_twice_changes_nothing() {
    let mut problems = ProblemList::new();
    problems.push(create_problem("a", &[("net", &[create_usage("s1", "t1")])]));
    problems.push(Problem::SelectSandbox);
    problems.push(create_problem("a", &[("fs", &[create_usage("s2", "t2")])]));
    let once = problems.grouped_by_type_and_crate();
    let once_summaries: Vec<String> = once.problems.iter().map(|p| p.summary_string()).collect();
    let twice = once.grouped_by_type_and_crate();
    let twice_summaries: Vec<String> =
        twice.problems.iter().map(|p| p.summary_string()).collect();
    assert_eq!(once_summaries, twice_summaries);
    assert_eq!(once_summaries.len(), 2);
}

#[test]
fn grouping_merges_usages_per_permission() {
    let mut problems = ProblemList::new();
    problems.push(create_problem("a", &[("net", &[create_usage("s1", "t1")])]));
    problems.push(create_problem("a", &[("net", &[create_usage("s2", "t2")])]));
    let grouped = problems.grouped_by_type_and_crate();
    assert_eq!(grouped.len(), 1);
    if let Some(Problem::DisallowedApiUsage(u)) = grouped.get(0) {
        assert_eq!(u.usages.entries.len(), 1);
        assert_eq!(u.usages.entries[0].0, "net");
        assert_eq!(u.usages.entries[0].1.len(), 2);
    } else {
        panic!("expected a disallowed-API problem");
    }
}

#[test]
fn dedup_key_ignores_debug_data_and_fixes_message() {
    let mut with_debug = create_usage("aaa", "net_stuff");
    with_debug.debug_data = Some("volatile".to_string());
    let a = create_problem("foo", &[("net", &[create_usage("aaa", "net_stuff")])]);
    let b = create_problem("foo", &[("net", &[with_debug])]);
    assert!(deduplication_matches(&a, &b));
    assert_eq!(a.summary_string(), b.summary_string());
}

#[test]
fn version_disambiguation_in_display() {
    let mut two_versions = pkg_id("foo");
    two_versions.version = Version { major: 0, minor: 2, patch: 0 };
    two_versions.name_is_unique = false;
    let p = create_problem_for(two_versions, "net");
    assert_eq!(p.summary_string(), "`foo[0.2.0]` uses API `net`");

    let mut unique = pkg_id("foo");
    unique.version = Version { major: 0, minor: 2, patch: 0 };
    let q = create_problem_for(unique, "net");
    assert_eq!(q.summary_string(), "`foo` uses API `net`");
}

fn create_problem_for(pkg: PackageId, perm: &str) -> Problem {
    let mut usages = PermUsages::new();
    usages.append_usages(perm.to_string(), vec![create_usage("a", "b")]);
    Problem::DisallowedApiUsage(ApiUsages { crate_sel: CrateSel::Primary(pkg), usages })
}

#[test]
fn build_script_display_has_suffix() {
    let sel = CrateSel::BuildScript(BuildScriptId { pkg_id: pkg_id("zap") });
    assert_eq!(sel.display_string(), "zap.build");
}

#[test]
fn severity_split() {
    assert_eq!(Problem::SelectSandbox.severity(), Severity::Error);
    assert_eq!(
        Problem::UnusedPackageConfig("x".to_string()).severity(),
        Severity::Warning
    );
    assert_eq!(
        Problem::ImportStdApi("fs".to_string()).severity(),
        Severity::Warning
    );
}

#[test]
fn replace_splices_follow_ups() {
    let mut list = ProblemList::new();
    list.push(Problem::Message("one".to_string()));
    list.push(Problem::Message("two".to_string()));
    let mut replacement = ProblemList::new();
    replacement.push(Problem::Message("sub".to_string()));
    let removed = list.replace(0, replacement);
    assert_eq!(removed.summary_string(), "one");
    assert_eq!(list.len(), 2);
    assert_eq!(list.get(0).unwrap().summary_string(), "sub");
    assert_eq!(list.get(1).unwrap().summary_string(), "two");
}

fn usage_at(file: &str, from: &str, to: &str, line: u32, column: Option<u32>) -> ApiUsage {
    ApiUsage {
        source_location: SourceLocation { filename: file.to_string(), line, column },
        from: SymbolOrDebugName::Symbol(from.to_string()),
        to: SymbolOrDebugName::Symbol(to.to_string()),
        to_name: vec![to.to_string()],
        to_source: to.to_string(),
        debug_data: None,
    }
}

#[test]
fn usage_listing_groups_by_file_and_caller() {
    let usages = vec![
        usage_at("b.rs", "s2", "t2", 1, None),
        usage_at("a.rs", "s1", "t1", 3, Some(7)),
        usage_at("a.rs", "s1", "t3", 9, None),
    ];
    let lines = cackle::problem::display_usages(&usages);
    assert_eq!(
        lines,
        vec![
            "    a.rs".to_string(),
            "      s1".to_string(),
            "        -> t1 [3:7]".to_string(),
            "        -> t3 [9]".to_string(),
            "    b.rs".to_string(),
            "      s2".to_string(),
            "        -> t2 [1]".to_string(),
        ]
    );
}

#[test]
fn details_expand_usages_and_idle_permissions() {
    let problem = create_problem("p", &[("net", &[create_usage("caller", "target")])]);
    let details = problem.details_lines();
    assert_eq!(details[0], "'p' uses disallowed APIs:");
    assert_eq!(details[1], "  net:");
    assert_eq!(details[2], "    lib.rs");
    assert_eq!(details[3], "      caller");
    assert_eq!(details[4], "        -> target [1]");

    let warning = Problem::UnusedAllowApi(cackle::problem::UnusedAllowApi {
        crate_name: "p".to_string(),
        permissions: vec!["fs".to_string()],
    });
    assert_eq!(
        warning.details_lines(),
        vec![
            "`pkg.p` allows APIs that aren't used:".to_string(),
            "    fs".to_string(),
        ]
    );
}

#[test]
fn first_usage_and_group_key() {
    let a = ApiUsages {
        crate_sel: CrateSel::Primary(pkg_id("p")),
        usages: {
            let mut u = PermUsages::new();
            u.append_usages("net".to_string(), vec![create_usage("caller", "t1")]);
            u
        },
    };
    let b = ApiUsages {
        crate_sel: CrateSel::Primary(pkg_id("p")),
        usages: {
            let mut u = PermUsages::new();
            // Same caller and position, a longer target: the grouping key
            // collapses the two so only the shortest target is shown.
            u.append_usages("net".to_string(), vec![create_usage("caller", "wrap<t1>")]);
            u
        },
    };
    assert_eq!(a.first_usage().unwrap().to_source, "t1");
    assert!(cackle::problem::usage_group_key_matches(&a, &b));
    let other = ApiUsages {
        crate_sel: CrateSel::Primary(pkg_id("q")),
        usages: {
            let mut u = PermUsages::new();
            u.append_usages("net".to_string(), vec![create_usage("caller", "t1")]);
            u
        },
    };
    assert!(!cackle::problem::usage_group_key_matches(&a, &other));
}
