use cackle::config::SandboxKind;
use cackle::config_editor::{
    apply_edit, edit_title, fixes_for_problem, ConfigEditor, Edit,
};
use cackle::crate_index::{BuildScriptId, PackageId, Version};
use cackle::problem::{DisallowedBuildInstruction, Problem, ProblemList, UnsafeUsage};
use cackle::problem_store::ProblemStore;
use cackle::problems_ui::{Key, Mode, ProblemsUi};
use cackle::proxy::disallowed_instructions;

fn pkg_id(name: &str) -> PackageId {
    PackageId {
        name: name.to_string(),
        version: Version { major: 1, minor: 0, patch: 0 },
        name_is_unique: true,
    }
}

fn bs_id(name: &str) -> BuildScriptId {
    BuildScriptId { pkg_id: pkg_id(name) }
}

#[test]
fn editor_round_trip_is_identity() {
    let text = "# a comment\n\n[pkg.serde]\nallow_unsafe = true\n\n# trailing\n";
    let editor = ConfigEditor::from_toml_string(text);
    assert_eq!(editor.to_toml(), text);
    let empty = ConfigEditor::from_toml_string("");
    assert_eq!(empty.to_toml(), "");
}

#[test]
fn allow_unsafe_edit_touches_only_its_table() {
    let text = "# keep me\n[pkg.other]\nallow_unsafe = true\n";
    let mut editor = ConfigEditor::from_toml_string(text);
    let edit = Edit::AllowUnsafe { pkg: "serde".to_string() };
    assert!(apply_edit(&edit, &mut editor).is_ok());
    assert_eq!(
        editor.to_toml(),
        "# keep me\n[pkg.other]\nallow_unsafe = true\n\n\n[pkg.serde]\nallow_unsafe = true"
    );
}

#[test]
fn allow_api_edit_extends_existing_array() {
    let text = "[pkg.p]\nallow = [\n    \"env\",\n]\n";
    let mut editor = ConfigEditor::from_toml_string(text);
    let edit = Edit::AllowApi { pkg: "p".to_string(), api: "fs".to_string() };
    assert!(apply_edit(&edit, &mut editor).is_ok());
    assert_eq!(editor.to_toml(), "[pkg.p]\nallow = [\n    \"env\",\n    \"fs\",\n]\n");
}

#[test]
fn sandbox_edit_sets_kind() {
    let mut editor = ConfigEditor::from_toml_string("");
    let edit = Edit::SelectSandboxKind { kind: SandboxKind::Bubblewrap };
    assert!(apply_edit(&edit, &mut editor).is_ok());
    assert_eq!(editor.to_toml(), "\n\n[sandbox]\nkind = \"bubblewrap\"");
    assert_eq!(edit_title(&edit), "Use sandbox `bubblewrap`");
}

#[test]
fn build_script_path_converges() {
    // A package with a build script and no permission for it.
    let problem = Problem::UsesBuildScript(bs_id("p"));
    let fixes = fixes_for_problem(&problem);
    assert_eq!(fixes.len(), 1);
    let mut editor = ConfigEditor::from_toml_string("");
    assert!(apply_edit(&fixes[0], &mut editor).is_ok());
    assert_eq!(editor.to_toml(), "\n\n[pkg.p]\nallow_build_scripts = true");

    // On the next run the build script prints a directive the configuration
    // does not yet allow.
    let printed = vec!["cargo:rustc-link-lib=foo".to_string()];
    let bad = disallowed_instructions(&printed, &Vec::new());
    assert_eq!(bad, vec!["cargo:rustc-link-lib=foo".to_string()]);
    let problem2 = Problem::DisallowedBuildInstruction(DisallowedBuildInstruction {
        build_script_id: bs_id("p"),
        instruction: bad[0].clone(),
    });
    let fixes2 = fixes_for_problem(&problem2);
    assert_eq!(fixes2.len(), 1);
    assert!(apply_edit(&fixes2[0], &mut editor).is_ok());
    assert_eq!(
        editor.to_toml(),
        "\n\n[pkg.p]\nallow_build_instructions = [\n    \"cargo:rustc-link-lib=foo\",\n]\nallow_build_scripts = true"
    );

    // With the instruction allowed, a rerun is clean.
    let allowed = vec!["cargo:rustc-link-lib=foo".to_string()];
    assert_eq!(disallowed_instructions(&printed, &allowed).len(), 0);
    // Wildcard entries cover prefixes too.
    let wild = vec!["cargo:rustc-link-*".to_string()];
    assert_eq!(disallowed_instructions(&printed, &wild).len(), 0);
}

fn unsafe_problem(name: &str) -> Problem {
    Problem::DisallowedUnsafe(UnsafeUsage {
        crate_sel: cackle::crate_index::CrateSel::Primary(pkg_id(name)),
        locations: Vec::new(),
    })
}

#[test]
fn auto_apply_resolves_single_edit_problems() {
    let mut store = ProblemStore::new();
    let mut list = ProblemList::new();
    list.push(Problem::UsesBuildScript(bs_id("one")));
    list.push(unsafe_problem("two"));
    list.push(Problem::SelectSandbox);
    store.add(list);

    let ui = ProblemsUi::new("cackle.toml".to_string());
    let mut editor = ConfigEditor::from_toml_string("");
    ui.accept_all_single_edits(&mut store, &mut editor);

    // The two problems with exactly one edit were applied and resolved; the
    // sandbox selection, which offers several edits, remains.
    assert!(store.entries[0].resolved);
    assert!(store.entries[1].resolved);
    assert!(!store.entries[2].resolved);
    assert_eq!(store.len(), 1);
    let text = editor.to_toml();
    assert!(text.contains("[pkg.one]"));
    assert!(text.contains("allow_build_scripts = true"));
    assert!(text.contains("[pkg.two]"));
    assert!(text.contains("allow_unsafe = true"));
}

#[test]
fn key_handling_state_machine() {
    let mut store = ProblemStore::new();
    let mut list = ProblemList::new();
    list.push(Problem::SelectSandbox);
    store.add(list);
    let mut editor = ConfigEditor::from_toml_string("");
    let mut ui = ProblemsUi::new("cackle.toml".to_string());

    assert!(!ui.quit_requested());
    // Open the edit list for the selected problem.
    assert!(ui.handle_key(Key::Enter, &mut store, &mut editor).is_ok());
    assert_eq!(ui.modes, vec![Mode::SelectProblem, Mode::SelectEdit]);
    // Move down the edit list and apply.
    assert!(ui.handle_key(Key::Down, &mut store, &mut editor).is_ok());
    assert_eq!(ui.edit_index, 1);
    assert!(ui.handle_key(Key::Enter, &mut store, &mut editor).is_ok());
    assert_eq!(ui.modes, vec![Mode::SelectProblem]);
    assert!(editor.to_toml().contains("kind = \"bubblewrap\""));
    assert_eq!(store.len(), 0);

    // Help pushes, escape pops.
    assert!(ui.handle_key(Key::CharH, &mut store, &mut editor).is_ok());
    assert_eq!(ui.modes, vec![Mode::SelectProblem, Mode::Help]);
    assert!(ui.handle_key(Key::Esc, &mut store, &mut editor).is_ok());
    assert_eq!(ui.modes, vec![Mode::SelectProblem]);
    // Quit clears the stack.
    assert!(ui.handle_key(Key::CharQ, &mut store, &mut editor).is_ok());
    assert!(ui.quit_requested());
}

#[test]
fn enter_without_edits_is_an_error() {
    let mut store = ProblemStore::new();
    let mut list = ProblemList::new();
    list.push(Problem::Message("free text".to_string()));
    store.add(list);
    let mut editor = ConfigEditor::from_toml_string("");
    let mut ui = ProblemsUi::new("cackle.toml".to_string());
    let r = ui.handle_key(Key::Enter, &mut store, &mut editor);
    assert_eq!(
        r.unwrap_err(),
        "Sorry. No automatic edits exist for this problem"
    );
}

#[test]
fn store_deduplicates_and_aborts() {
    let mut store = ProblemStore::new();
    let mut list = ProblemList::new();
    list.push(Problem::Message("same".to_string()));
    list.push(Problem::Message("same".to_string()));
    list.push(Problem::Message("other".to_string()));
    store.add(list);
    assert_eq!(store.len(), 3);
    assert_eq!(store.iterate_with_duplicates(), vec![0, 1, 2]);
    assert_eq!(store.deduplicated_indices(), vec![0, 2]);
    store.abort();
    assert!(store.aborted);
    assert_eq!(store.len(), 0);
}

#[test]
fn unrecognized_keys_change_nothing() {
    let mut store = ProblemStore::new();
    let mut list = ProblemList::new();
    list.push(Problem::SelectSandbox);
    store.add(list);
    let mut editor = ConfigEditor::from_toml_string("# text\n");
    let mut ui = ProblemsUi::new("cackle.toml".to_string());

    // A key the screen does not react to leaves everything as it was.
    assert!(ui.handle_key(Key::Other, &mut store, &mut editor).is_ok());
    assert_eq!(ui.modes, vec![Mode::SelectProblem]);
    assert_eq!(ui.problem_index, 0);
    assert_eq!(editor.to_toml(), "# text\n");
    // Escape never pops the base mode.
    assert!(ui.handle_key(Key::Esc, &mut store, &mut editor).is_ok());
    assert_eq!(ui.modes, vec![Mode::SelectProblem]);
    // Enter in the auto-accept prompt enables the flag and runs the pass.
    assert!(ui.handle_key(Key::CharA, &mut store, &mut editor).is_ok());
    assert_eq!(ui.modes, vec![Mode::SelectProblem, Mode::PromptAutoAccept]);
    assert!(ui.handle_key(Key::Enter, &mut store, &mut editor).is_ok());
    assert!(ui.accept_single_enabled);
    assert_eq!(ui.modes, vec![Mode::SelectProblem]);
    // The sandbox problem offers three edits, so it was not auto-applied.
    assert_eq!(store.len(), 1);
    // Once enabled, pressing `a` again prompts no more.
    assert!(ui.handle_key(Key::CharA, &mut store, &mut editor).is_ok());
    assert_eq!(ui.modes, vec![Mode::SelectProblem]);
}

#[test]
fn selection_wraps_both_ways() {
    let mut store = ProblemStore::new();
    let mut list = ProblemList::new();
    list.push(Problem::Message("a".to_string()));
    list.push(Problem::Message("b".to_string()));
    store.add(list);
    let mut editor = ConfigEditor::from_toml_string("");
    let mut ui = ProblemsUi::new("cackle.toml".to_string());
    assert!(ui.handle_key(Key::Down, &mut store, &mut editor).is_ok());
    assert_eq!(ui.problem_index, 1);
    assert!(ui.handle_key(Key::Down, &mut store, &mut editor).is_ok());
    assert_eq!(ui.problem_index, 0);
    assert!(ui.handle_key(Key::Up, &mut store, &mut editor).is_ok());
    assert_eq!(ui.problem_index, 1);
}

#[test]
fn rustc_wrapper_rewrites_the_command_line() {
    let rewritten = cackle::proxy::rustc_wrapper_args(
        &vec!["--crate-name".to_string(), "foo".to_string()],
        false,
        &"/bin/proxy".to_string(),
    );
    assert_eq!(
        rewritten,
        vec![
            "-Funsafe-code".to_string(),
            "--crate-name".to_string(),
            "foo".to_string(),
            "-C".to_string(),
            "linker=/bin/proxy".to_string(),
        ]
    );
    let permissive = cackle::proxy::rustc_wrapper_args(
        &vec!["x".to_string()],
        true,
        &"/bin/proxy".to_string(),
    );
    assert_eq!(
        permissive,
        vec!["x".to_string(), "-C".to_string(), "linker=/bin/proxy".to_string()]
    );
}
