//! The decisions of the build driver and its subprocess proxies: what one
//! request is answered with, which arguments the build is started with,
//! which `cargo:` directives of a build script are disallowed, and what
//! the polling accept loop does on each event.  Process spawning, sockets
//! and waiting stay outside the library.

use vstd::prelude::*;

use crate::config::Config;
use crate::link_info::LinkInfo;
use crate::problem::{BuildScriptOutput, UnsafeUsage};
use crate::textutil::{is_prefix_of, join_char, join_spec, str_starts_with};

verus! {

/// The answer a waiting subprocess receives.
#[derive(Clone, Copy, PartialEq, Eq, Structural, Debug)]
pub enum CanContinueResponse {
    Proceed,
    Deny,
    GiveUp,
}

/// One request from a subprocess to the driver.
pub enum Request {
    /// A linker invocation asks whether it may run the real linker.
    Rustc { link_info: LinkInfo },
    /// A proxied build script finished and reports what it wrote.
    BuildScriptComplete { output: BuildScriptOutput },
    /// A compilation found unsafe code it is not allowed to use.
    UnsafeUsage { usage: UnsafeUsage },
}

/// What a finished handler answers its subprocess: the response it
/// produced, or give-up when it failed.
pub fn response_for_outcome(outcome: &Option<CanContinueResponse>) -> (r: CanContinueResponse)
    ensures
        match *outcome {
            Some(resp) => r == resp,
            None => r == CanContinueResponse::GiveUp,
        },
{
    match outcome {
        Some(resp) => *resp,
        None => CanContinueResponse::GiveUp,
    }
}

/// The arguments the build is started with: `build`, then the configured
/// build flags (or `--all-targets` when none are configured), the target
/// when one was requested, and the features joined with commas.
pub open spec fn build_args_spec(c: Config, target: Option<String>) -> Seq<Seq<char>> {
    let base = seq!["build"@] + (match c.common.build_flags {
        Some(flags) => flags@.map_values(|f: String| f@),
        None => seq!["--all-targets"@],
    });
    let with_target = match target {
        Some(t) => base + seq!["--target"@, t@],
        None => base,
    };
    if c.common.features@.len() > 0 {
        with_target + seq![
            "--features"@,
            join_spec(c.common.features@.map_values(|f: String| f@), ','),
        ]
    } else {
        with_target
    }
}

/// Builds the cargo argument list for the build invocation.
pub fn build_command_args(config: &Config, target: &Option<String>) -> (r: Vec<String>)
    ensures
        r@.map_values(|a: String| a@) == build_args_spec(*config, *target),
{
    let mut out: Vec<String> = Vec::new();
    let mut s = String::new();
    s.append("build");
    proof {
        assert(s@ =~= "build"@);
    }
    out.push(s);
    match &config.common.build_flags {
        Some(flags) => {
            let mut i: usize = 0;
            while i < flags.len()
                invariant
                    i <= flags@.len(),
                    out@.len() == i + 1,
                    out@[0]@ == "build"@,
                    forall|k: int| 1 <= k < out@.len() ==> (#[trigger] out@[k])@ == flags@[k - 1]@,
                decreases flags@.len() - i,
            {
                out.push(flags[i].clone());
                i = i + 1;
            }
            proof {
                assert(out@.map_values(|a: String| a@) =~= seq!["build"@] + flags@.map_values(
                    |f: String| f@,
                ));
            }
        },
        None => {
            let mut a = String::new();
            a.append("--all-targets");
            proof {
                assert(a@ =~= "--all-targets"@);
            }
            out.push(a);
            proof {
                assert(out@.map_values(|x: String| x@) =~= seq!["build"@, "--all-targets"@]);
            }
        },
    }
    let ghost base = out@.map_values(|a: String| a@);
    proof {
        assert(base =~= seq!["build"@] + (match config.common.build_flags {
            Some(flags) => flags@.map_values(|f: String| f@),
            None => seq!["--all-targets"@],
        }));
    }
    match target {
        Some(t) => {
            let mut a = String::new();
            a.append("--target");
            proof {
                assert(a@ =~= "--target"@);
            }
            out.push(a);
            out.push(t.clone());
            proof {
                assert(out@.map_values(|x: String| x@) =~= base + seq!["--target"@, t@]);
            }
        },
        None => {},
    }
    let ghost with_target = out@.map_values(|a: String| a@);
    if config.common.features.len() > 0 {
        let mut a = String::new();
        a.append("--features");
        proof {
            assert(a@ =~= "--features"@);
        }
        out.push(a);
        proof {
            reveal_strlit(",");
            assert(","@ =~= seq![',']);
        }
        let joined = join_char(&config.common.features, ",", Ghost(','));
        out.push(joined);
        proof {
            assert(out@.map_values(|x: String| x@) =~= with_target + seq![
                "--features"@,
                join_spec(config.common.features@.map_values(|f: String| f@), ','),
            ]);
        }
    }
    proof {
        assert(out@.map_values(|a: String| a@) =~= build_args_spec(*config, *target));
    }
    out
}

/// Whether one allowlist entry covers a directive: the entry spells it
/// out, or ends in `*` and its stem is a prefix of it.
pub open spec fn entry_covers(entry: Seq<char>, instr: Seq<char>) -> bool {
    entry == instr || (entry.len() > 0 && entry.last() == '*' && is_prefix_of(
        entry.drop_last(),
        instr,
    ))
}

/// Whether some allowlist entry covers a directive.
pub open spec fn instruction_allowed(instr: Seq<char>, allowed: Seq<Seq<char>>) -> bool {
    exists|j: int| 0 <= j < allowed.len() && entry_covers(#[trigger] allowed[j], instr)
}

/// The `cargo:` directives among the first `i` output lines that no
/// allowlist entry covers.
pub open spec fn disallowed_instructions_spec(
    lines: Seq<Seq<char>>,
    allowed: Seq<Seq<char>>,
    i: int,
) -> Seq<Seq<char>>
    decreases i,
{
    if i <= 0 {
        Seq::empty()
    } else {
        let rest = disallowed_instructions_spec(lines, allowed, i - 1);
        if is_prefix_of("cargo:"@, lines[i - 1]) && !instruction_allowed(lines[i - 1], allowed) {
            rest.push(lines[i - 1])
        } else {
            rest
        }
    }
}

/// The directives a build script emitted that the configuration does not
/// permit: lines starting `cargo:` not covered by the allowlist.
pub fn disallowed_instructions(output_lines: &Vec<String>, allowed: &Vec<String>) -> (r: Vec<
    String,
>)
    ensures
        r@.map_values(|s: String| s@) == disallowed_instructions_spec(
            output_lines@.map_values(|s: String| s@),
            allowed@.map_values(|s: String| s@),
            output_lines@.len() as int,
        ),
{
    let ghost lv = output_lines@.map_values(|s: String| s@);
    let ghost av = allowed@.map_values(|s: String| s@);
    let mut out: Vec<String> = Vec::new();
    let mut i: usize = 0;
    proof {
        assert(out@.map_values(|s: String| s@) =~= disallowed_instructions_spec(lv, av, 0));
    }
    while i < output_lines.len()
        invariant
            i <= output_lines@.len(),
            lv == output_lines@.map_values(|s: String| s@),
            av == allowed@.map_values(|s: String| s@),
            out@.map_values(|s: String| s@) == disallowed_instructions_spec(lv, av, i as int),
        decreases output_lines@.len() - i,
    {
        let line = &output_lines[i];
        let is_directive = str_starts_with(line.as_str(), "cargo:");
        let mut covered = false;
        if is_directive {
            let mut j: usize = 0;
            while j < allowed.len()
                invariant
                    i < output_lines@.len(),
                    j <= allowed@.len(),
                    av == allowed@.map_values(|s: String| s@),
                    lv == output_lines@.map_values(|s: String| s@),
                    line@ == lv[i as int],
                    covered == exists|k: int|
                        0 <= k < j && entry_covers(#[trigger] av[k], lv[i as int]),
                decreases allowed@.len() - j,
            {
                let entry = &allowed[j];
                proof {
                    assert(av[j as int] == allowed@[j as int]@);
                    assert(lv[i as int] == output_lines@[i as int]@);
                }
                if *entry == *line {
                    covered = true;
                    proof {
                        assert(entry_covers(av[j as int], lv[i as int]));
                    }
                } else {
                    let n = entry.as_str().unicode_len();
                    if n > 0 && entry.as_str().get_char(n - 1) == '*' {
                        let stem = entry.as_str().substring_char(0, n - 1);
                        proof {
                            assert(stem@ =~= av[j as int].drop_last());
                            assert(av[j as int].last() == av[j as int][n - 1]);
                        }
                        if str_starts_with(line.as_str(), stem) {
                            covered = true;
                            proof {
                                assert(entry_covers(av[j as int], lv[i as int]));
                            }
                        }
                    }
                }
                j = j + 1;
            }
        }
        proof {
            if is_directive {
                assert(covered == instruction_allowed(lv[i as int], av));
            }
        }
        if is_directive && !covered {
            out.push(line.clone());
            proof {
                assert(out@.map_values(|s: String| s@) =~= disallowed_instructions_spec(
                    lv,
                    av,
                    i + 1,
                ));
            }
        } else {
            proof {
                assert(out@.map_values(|s: String| s@) =~= disallowed_instructions_spec(
                    lv,
                    av,
                    i + 1,
                ));
            }
        }
        i = i + 1;
    }
    out
}

/// What the accept loop observed on one tick.
pub enum DriverEvent {
    /// The build finished; whether its exit status was clean.
    CargoExited { success: bool },
    /// A handler thread reported a failure.
    HandlerFailed { message: String },
    /// The front end asked for the run to stop.
    AbortRequested,
    /// A subprocess connected with a request.
    ConnectionReady,
    /// Nothing happened.
    Idle,
}

/// What the accept loop does next.
#[derive(Clone, Copy, PartialEq, Eq, Structural, Debug)]
pub enum DriverAction {
    /// Tear down and report a clean build.
    FinishSuccess,
    /// Tear down and surface the captured output as a build failure.
    FailBuild,
    /// Fail the run with the handler's error.
    ReportError,
    /// Kill the cargo subprocess; pending handlers finish and are dropped.
    KillCargo,
    /// Accept the connection and hand the request to a new handler.
    SpawnHandler,
    /// Sleep briefly before polling again.
    SleepBriefly,
}

/// The dispatch of the polling accept loop: a finished build ends the
/// loop one way or the other, handler errors fail the run, an abort kills
/// the build, a connection spawns a handler, and silence sleeps.
pub fn driver_step(event: &DriverEvent) -> (r: DriverAction)
    ensures
        match *event {
            DriverEvent::CargoExited { success } => r == if success {
                DriverAction::FinishSuccess
            } else {
                DriverAction::FailBuild
            },
            DriverEvent::HandlerFailed { .. } => r == DriverAction::ReportError,
            DriverEvent::AbortRequested => r == DriverAction::KillCargo,
            DriverEvent::ConnectionReady => r == DriverAction::SpawnHandler,
            DriverEvent::Idle => r == DriverAction::SleepBriefly,
        },
{
    match event {
        DriverEvent::CargoExited { success } => {
            if *success {
                DriverAction::FinishSuccess
            } else {
                DriverAction::FailBuild
            }
        },
        DriverEvent::HandlerFailed { .. } => DriverAction::ReportError,
        DriverEvent::AbortRequested => DriverAction::KillCargo,
        DriverEvent::ConnectionReady => DriverAction::SpawnHandler,
        DriverEvent::Idle => DriverAction::SleepBriefly,
    }
}

/// Whether the configuration permits this package to be a proc macro.
pub open spec fn proc_macro_allowed(c: Config, name: Seq<char>) -> bool {
    exists|i: int|
        0 <= i < c.crates@.len() && (#[trigger] c.crates@[i]).0@ == name
            && c.crates@[i].1.allow_proc_macro
}

/// The proc-macro problems among the first `i` proc-macro packages.
pub open spec fn proc_macro_problems_spec(
    macros: Seq<crate::crate_index::PackageId>,
    c: Config,
    i: int,
) -> Seq<crate::problem::Problem>
    decreases i,
{
    if i <= 0 {
        Seq::empty()
    } else {
        let rest = proc_macro_problems_spec(macros, c, i - 1);
        if proc_macro_allowed(c, macros[i - 1].name@) {
            rest
        } else {
            rest.push(crate::problem::Problem::IsProcMacro(macros[i - 1]))
        }
    }
}

/// Before any symbol is read: one `IsProcMacro` problem per proc-macro
/// package in the tree, except the packages the configuration explicitly
/// allows to be proc macros.
pub fn proc_macro_problems(
    index: &crate::crate_index::CrateIndex,
    config: &Config,
) -> (r: crate::problem::ProblemList)
    ensures
        r.problems@.len() == proc_macro_problems_spec(
            crate::crate_index::proc_macro_ids(
                index.package_infos@,
                index.package_infos@.len() as int,
            ),
            *config,
            crate::crate_index::proc_macro_ids(
                index.package_infos@,
                index.package_infos@.len() as int,
            ).len() as int,
        ).len(),
        forall|t: int|
            0 <= t < r.problems@.len() ==> #[trigger] r.problems@[t]
                == proc_macro_problems_spec(
                crate::crate_index::proc_macro_ids(
                    index.package_infos@,
                    index.package_infos@.len() as int,
                ),
                *config,
                crate::crate_index::proc_macro_ids(
                    index.package_infos@,
                    index.package_infos@.len() as int,
                ).len() as int,
            )[t],
{
    let macros = index.proc_macros();
    let ghost mseq = macros@;
    let mut out = crate::problem::ProblemList::new();
    let mut i: usize = 0;
    while i < macros.len()
        invariant
            mseq == macros@,
            i <= macros@.len(),
            out.problems@ == proc_macro_problems_spec(mseq, *config, i as int),
        decreases macros@.len() - i,
    {
        let mut allowed = false;
        let mut k: usize = 0;
        while k < config.crates.len()
            invariant
                i < macros@.len(),
                mseq == macros@,
                k <= config.crates@.len(),
                allowed == exists|w: int|
                    0 <= w < k && (#[trigger] config.crates@[w]).0@ == mseq[i as int].name@
                        && config.crates@[w].1.allow_proc_macro,
            decreases config.crates@.len() - k,
        {
            if config.crates[k].0 == macros[i].name && config.crates[k].1.allow_proc_macro {
                allowed = true;
                proof {
                    assert(config.crates@[k as int].0@ == mseq[i as int].name@
                        && config.crates@[k as int].1.allow_proc_macro);
                }
            }
            k = k + 1;
        }
        proof {
            assert(allowed == proc_macro_allowed(*config, mseq[i as int].name@));
        }
        if !allowed {
            out.push(crate::problem::Problem::IsProcMacro(macros[i].duplicate()));
            proof {
                assert(out.problems@ =~= proc_macro_problems_spec(mseq, *config, i + 1));
            }
        } else {
            proof {
                assert(out.problems@ =~= proc_macro_problems_spec(mseq, *config, i + 1));
            }
        }
        i = i + 1;
    }
    out
}

/// Allowing the exact directive covers it on the next run.
pub proof fn lemma_allowing_instruction_covers(instr: Seq<char>, allowed: Seq<Seq<char>>)
    ensures
        instruction_allowed(instr, allowed.push(instr)),
{
    assert(allowed.push(instr)[allowed.len() as int] == instr);
    assert(entry_covers(allowed.push(instr)[allowed.len() as int], instr));
}

/// Once every directive a build script prints is covered by the
/// allowlist, a rerun reports nothing: the convergence step of the
/// edit-and-retry cycle.
pub proof fn lemma_all_allowed_instructions_clean(
    lines: Seq<Seq<char>>,
    allowed: Seq<Seq<char>>,
    k: int,
)
    requires
        forall|i: int|
            0 <= i < lines.len() && is_prefix_of("cargo:"@, #[trigger] lines[i])
                ==> instruction_allowed(lines[i], allowed),
        k <= lines.len(),
    ensures
        disallowed_instructions_spec(lines, allowed, k).len() == 0,
    decreases k,
{
    if k > 0 {
        lemma_all_allowed_instructions_clean(lines, allowed, k - 1);
    }
}

/// The rustc invocation a wrapped compile runs: the real arguments,
/// preceded by `-Funsafe-code` when the package may not use unsafe code,
/// and the linker overridden so the link step comes back to the proxy.
pub open spec fn rustc_args_spec(
    args: Seq<Seq<char>>,
    allow_unsafe: bool,
    self_path: Seq<char>,
) -> Seq<Seq<char>> {
    (if allow_unsafe {
        Seq::empty()
    } else {
        seq!["-Funsafe-code"@]
    }) + args + seq!["-C"@, "linker="@ + self_path]
}

/// Rewrites a rustc command line for the wrapped compile.
pub fn rustc_wrapper_args(args: &Vec<String>, allow_unsafe: bool, self_path: &String) -> (r: Vec<
    String,
>)
    ensures
        r@.map_values(|a: String| a@) == rustc_args_spec(
            args@.map_values(|a: String| a@),
            allow_unsafe,
            self_path@,
        ),
{
    let ghost av = args@.map_values(|a: String| a@);
    let mut out: Vec<String> = Vec::new();
    if !allow_unsafe {
        let mut f = String::new();
        f.append("-Funsafe-code");
        proof {
            assert(f@ =~= "-Funsafe-code"@);
        }
        out.push(f);
    }
    let ghost head: Seq<Seq<char>> = if allow_unsafe {
        Seq::empty()
    } else {
        seq!["-Funsafe-code"@]
    };
    proof {
        assert(out@.map_values(|a: String| a@) =~= head + av.take(0));
    }
    let mut i: usize = 0;
    while i < args.len()
        invariant
            av == args@.map_values(|a: String| a@),
            head == (if allow_unsafe {
                Seq::<Seq<char>>::empty()
            } else {
                seq!["-Funsafe-code"@]
            }),
            i <= args@.len(),
            out@.len() == head.len() + i,
            out@.map_values(|a: String| a@) == head + av.take(i as int),
        decreases args@.len() - i,
    {
        let ghost pre = out@;
        out.push(args[i].clone());
        proof {
            assert(out@ =~= pre.push(out@.last()));
            assert(out@.last()@ == av[i as int]);
            let mv = out@.map_values(|a: String| a@);
            let target = head + av.take(i + 1);
            assert(av.take(i + 1) =~= av.take(i as int).push(av[i as int]));
            assert forall|k: int| 0 <= k < mv.len() implies mv[k] == target[k] by {
                if k < pre.len() {
                    assert(out@[k] == pre[k]);
                    assert(pre.map_values(|a: String| a@)[k] == (head + av.take(i as int))[k]);
                }
            }
            assert(mv =~= target);
        }
        i = i + 1;
    }
    proof {
        assert(av.take(av.len() as int) =~= av);
    }
    let ghost mid = out@.map_values(|a: String| a@);
    let mut c = String::new();
    c.append("-C");
    proof {
        assert(c@ =~= "-C"@);
    }
    out.push(c);
    let mut linker = String::new();
    linker.append("linker=");
    linker.append(self_path.as_str());
    proof {
        assert(linker@ =~= "linker="@ + self_path@);
    }
    out.push(linker);
    proof {
        assert(out@.map_values(|a: String| a@) =~= mid + seq![
            "-C"@,
            "linker="@ + self_path@,
        ]);
        assert(out@.map_values(|a: String| a@) =~= rustc_args_spec(av, allow_unsafe, self_path@));
    }
    out
}

} // verus!
