use cackle::crate_index::{CrateIndex, CrateSel, PackageId, PackageRecord, Version};
use cackle::link_info::{has_supported_extension, LinkInfo};
use cackle::proxy::{build_command_args, driver_step, DriverAction, DriverEvent};
use cackle::u64_to_string;

fn record(name: &str, version: Version, dir: &str, is_proc_macro: bool) -> PackageRecord {
    PackageRecord {
        name: name.to_string(),
        version,
        directory: dir.to_string(),
        description: None,
        documentation: None,
        is_proc_macro,
    }
}

fn v(major: u64, minor: u64, patch: u64) -> Version {
    Version { major, minor, patch }
}

fn sample_index() -> CrateIndex {
    CrateIndex::from_packages(
        "ws/Cargo.toml".to_string(),
        vec![
            record("foo", v(0, 1, 0), "/deps/foo-0.1.0", false),
            record("foo", v(0, 2, 0), "/deps/foo-0.2.0", false),
            record("serde", v(1, 0, 0), "/deps/serde", false),
            record("m", v(1, 0, 0), "/deps/m", true),
        ],
    )
}

#[test]
fn index_tracks_versions_and_uniqueness() {
    let idx = sample_index();
    assert_eq!(idx.package_infos.len(), 4);
    // Two versions of `foo` make its name non-unique; serde stays unique.
    assert!(!idx.package_infos[0].0.name_is_unique);
    assert!(!idx.package_infos[1].0.name_is_unique);
    assert!(idx.package_infos[2].0.name_is_unique);
    let newest = idx.newest_package_id_with_name(&"foo".to_string()).unwrap();
    assert_eq!(*newest.version(), v(0, 2, 0));
    assert!(idx.newest_package_id_with_name(&"nope".to_string()).is_none());
    assert_eq!(idx.non_unique_names_joined(), "foo,foo");
}

#[test]
fn proc_macro_detection() {
    let idx = sample_index();
    let macros = idx.proc_macros();
    assert_eq!(macros.len(), 1);
    assert_eq!(macros[0].name(), "m");

    // Without `allow_proc_macro` the package is reported; with it, not.
    let config = cackle::config::Config::empty();
    let problems = cackle::proxy::proc_macro_problems(&idx, &config);
    assert_eq!(problems.len(), 1);
    assert_eq!(problems.get(0).unwrap().summary_string(), "`m` is a proc macro");

    let mut allowing = cackle::config::Config::empty();
    let mut pc = cackle::config::PackageConfig::empty();
    pc.allow_proc_macro = true;
    allowing.crates.push(("m".to_string(), pc));
    let none = cackle::proxy::proc_macro_problems(&idx, &allowing);
    assert_eq!(none.len(), 0);
}

#[test]
fn package_id_from_environment_values() {
    let p = PackageId::from_parts(
        &"my-pkg".to_string(),
        &"1.2.3".to_string(),
        &"foo,my-pkg".to_string(),
    )
    .unwrap();
    assert_eq!(p.name(), "my-pkg");
    assert_eq!(*p.version(), v(1, 2, 3));
    assert!(!p.name_is_unique);
    assert_eq!(p.crate_name(), "my_pkg");

    let unique = PackageId::from_parts(
        &"solo".to_string(),
        &"0.1.0".to_string(),
        &"foo,bar".to_string(),
    )
    .unwrap();
    assert!(unique.name_is_unique);

    let bad = PackageId::from_parts(
        &"p".to_string(),
        &"not-a-version".to_string(),
        &"".to_string(),
    );
    match bad {
        Ok(_) => panic!("an invalid version string must be rejected"),
        Err(err) => {
            assert_eq!(err, "Package `p` has invalid version string `not-a-version`")
        }
    }
}

#[test]
fn crate_sel_from_environment_values() {
    let sel = CrateSel::from_parts(
        PackageId { name: "p".to_string(), version: v(1, 0, 0), name_is_unique: true },
        Some(&"build_script_build".to_string()),
    );
    assert!(matches!(sel, CrateSel::BuildScript(_)));
    let primary = CrateSel::from_parts(
        PackageId { name: "p".to_string(), version: v(1, 0, 0), name_is_unique: true },
        Some(&"p".to_string()),
    );
    assert!(matches!(primary, CrateSel::Primary(_)));
}

#[test]
fn supported_extensions() {
    assert!(has_supported_extension(&"/t/debug/deps/libfoo.rlib".to_string()));
    assert!(has_supported_extension(&"foo.o".to_string()));
    assert!(!has_supported_extension(&"foo.so".to_string()));
    assert!(!has_supported_extension(&"/a.rlib/bar".to_string()));
    assert!(!has_supported_extension(&".rlib".to_string()));
    // Trailing separators name the same file.
    assert!(has_supported_extension(&"/t/libfoo.rlib/".to_string()));
    assert!(!has_supported_extension(&".rlib/".to_string()));
}

fn args(list: &[&str]) -> Vec<String> {
    list.iter().map(|s| s.to_string()).collect()
}

#[test]
fn link_info_from_argument_list() {
    let sel = CrateSel::Primary(PackageId {
        name: "p".to_string(),
        version: v(1, 0, 0),
        name_is_unique: true,
    });
    let info = LinkInfo::from_args(
        sel,
        &args(&["cc", "crt.o", "-lm", "libp.rlib", "-o", "target/out"]),
    )
    .unwrap();
    assert_eq!(info.object_paths, vec!["crt.o".to_string(), "libp.rlib".to_string()]);
    assert_eq!(info.output_file, "target/out");
    assert!(!info.is_build_script());
    let under = info.object_paths_under(&"lib".to_string());
    assert_eq!(under.len(), 0);
}

#[test]
fn linker_argv_without_output_is_an_error() {
    let sel = CrateSel::Primary(PackageId {
        name: "p".to_string(),
        version: v(1, 0, 0),
        name_is_unique: true,
    });
    match LinkInfo::from_args(sel, &args(&["cc", "a.o"])) {
        Ok(_) => panic!("a command line without an output must be rejected"),
        Err(err) => assert_eq!(err, "Failed to find output file in linker command line"),
    }
}

#[test]
fn build_arguments() {
    let config = cackle::config::Config::empty();
    assert_eq!(
        build_command_args(&config, &None),
        vec!["build".to_string(), "--all-targets".to_string()]
    );
    let mut custom = cackle::config::Config::empty();
    custom.common.build_flags = Some(vec!["--workspace".to_string()]);
    custom.common.features = vec!["a".to_string(), "b".to_string()];
    assert_eq!(
        build_command_args(&custom, &Some("x86_64-unknown-linux-gnu".to_string())),
        vec![
            "build".to_string(),
            "--workspace".to_string(),
            "--target".to_string(),
            "x86_64-unknown-linux-gnu".to_string(),
            "--features".to_string(),
            "a,b".to_string(),
        ]
    );
}

#[test]
fn driver_dispatch() {
    assert_eq!(
        driver_step(&DriverEvent::CargoExited { success: true }),
        DriverAction::FinishSuccess
    );
    assert_eq!(
        driver_step(&DriverEvent::CargoExited { success: false }),
        DriverAction::FailBuild
    );
    assert_eq!(driver_step(&DriverEvent::AbortRequested), DriverAction::KillCargo);
    assert_eq!(driver_step(&DriverEvent::ConnectionReady), DriverAction::SpawnHandler);
    assert_eq!(driver_step(&DriverEvent::Idle), DriverAction::SleepBriefly);
}

#[test]
fn decimal_rendering() {
    assert_eq!(u64_to_string(0), "0");
    assert_eq!(u64_to_string(42), "42");
    assert_eq!(u64_to_string(10_000_000), "10000000");
    assert_eq!(v(1, 22, 333).display_string(), "1.22.333");
}

#[test]
fn path_attribution_walks_parents() {
    let idx = sample_index();
    let owner = idx.package_id_for_path(&"/deps/serde/src/lib.rs".to_string()).unwrap();
    assert_eq!(owner.name(), "serde");
    assert!(idx.package_id_for_path(&"/elsewhere/x.c".to_string()).is_none());
}

#[test]
fn sample_crate_read_file_returns_nothing() {
    assert!(cackle::crab1::read_file("tmp.txt").is_none());
    cackle::crab1::call_read_file();
}
