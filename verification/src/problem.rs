//! Policy violations and warnings: a closed tagged variant of everything
//! the tool can report, an ordered mergeable list of them, deduplication
//! keys, and the grouping operators that combine disallowed-API records.

use vstd::prelude::*;

use crate::config::PermConfig;
use crate::crate_index::{crate_sel_display, BuildScriptId, CrateSel, PackageId};

verus! {

/// A source position, with an optional column.
pub struct SourceLocation {
    pub filename: String,
    pub line: u32,
    pub column: Option<u32>,
}

/// Either a linker symbol or a name recovered from debug data.
pub enum SymbolOrDebugName {
    Symbol(String),
    DebugName(String),
}

/// One observed reference to an API matching a permission.
pub struct ApiUsage {
    pub source_location: SourceLocation,
    pub from: SymbolOrDebugName,
    pub to: SymbolOrDebugName,
    pub to_name: Vec<String>,
    pub to_source: String,
    /// Volatile diagnostic detail; ignored when deduplicating.
    pub debug_data: Option<String>,
}

/// Usages keyed by permission name, keys strictly ascending.
pub struct PermUsages {
    pub entries: Vec<(String, Vec<ApiUsage>)>,
}

/// The disallowed usages of one crate.
pub struct ApiUsages {
    pub crate_sel: CrateSel,
    pub usages: PermUsages,
}

/// Unsafe code observed in a crate.
pub struct UnsafeUsage {
    pub crate_sel: CrateSel,
    pub locations: Vec<SourceLocation>,
}

/// What a build script wrote before failing or finishing.
pub struct BuildScriptOutput {
    pub build_script_id: BuildScriptId,
    pub stdout: Vec<u8>,
    pub stderr: Vec<u8>,
}

pub struct BuildScriptFailed {
    pub build_script_id: BuildScriptId,
    pub output: BuildScriptOutput,
}

pub struct DisallowedBuildInstruction {
    pub build_script_id: BuildScriptId,
    pub instruction: String,
}

pub struct UnusedAllowApi {
    pub crate_name: String,
    pub permissions: Vec<String>,
}

pub struct AvailableApi {
    pub pkg_id: PackageId,
    pub api: String,
    pub config: PermConfig,
}

/// A top-level module of a package shares its name with a restricted API.
pub struct PossibleExportedApi {
    pub pkg_id: PackageId,
    pub api: String,
    /// The symbol that exposed the module; diagnostic only.
    pub symbol: String,
}

impl PossibleExportedApi {
    /// The API prefix the package may be providing.
    pub fn api_path(&self) -> (r: String)
        ensures
            r@ == self.pkg_id.name@ + "::"@ + self.api@,
    {
        let mut out = String::new();
        out.append(self.pkg_id.name.as_str());
        out.append("::");
        out.append(self.api.as_str());
        proof {
            assert(out@ =~= self.pkg_id.name@ + "::"@ + self.api@);
        }
        out
    }
}

/// Everything the tool can report: policy errors and warnings.
pub enum Problem {
    Message(String),
    MissingConfiguration(String),
    UsesBuildScript(BuildScriptId),
    DisallowedUnsafe(UnsafeUsage),
    IsProcMacro(PackageId),
    DisallowedApiUsage(ApiUsages),
    BuildScriptFailed(BuildScriptFailed),
    DisallowedBuildInstruction(DisallowedBuildInstruction),
    UnusedPackageConfig(String),
    UnusedAllowApi(UnusedAllowApi),
    SelectSandbox,
    ImportStdApi(String),
    AvailableApi(AvailableApi),
    PossibleExportedApi(PossibleExportedApi),
}

#[derive(Clone, Copy, PartialEq, Eq, Structural, Debug)]
pub enum Severity {
    Warning,
    Error,
}

impl Problem {
    /// Warnings do not block the build; everything else does.  The
    /// optional-std-API suggestion is informational and counts as a
    /// warning.
    pub fn severity(&self) -> (r: Severity)
        ensures
            r == self.severity_spec(),
    {
        match self {
            Problem::UnusedAllowApi(..) => Severity::Warning,
            Problem::UnusedPackageConfig(..) => Severity::Warning,
            Problem::PossibleExportedApi(..) => Severity::Warning,
            Problem::AvailableApi(..) => Severity::Warning,
            Problem::ImportStdApi(..) => Severity::Warning,
            _ => Severity::Error,
        }
    }

    pub open spec fn severity_spec(self) -> Severity {
        match self {
            Problem::UnusedAllowApi(..) => Severity::Warning,
            Problem::UnusedPackageConfig(..) => Severity::Warning,
            Problem::PossibleExportedApi(..) => Severity::Warning,
            Problem::AvailableApi(..) => Severity::Warning,
            Problem::ImportStdApi(..) => Severity::Warning,
            _ => Severity::Error,
        }
    }

    /// Whether resolving this problem must wake the subprocess waiting on
    /// it.
    pub open spec fn retry_spec(self) -> bool {
        self is BuildScriptFailed || self is DisallowedUnsafe
    }

    pub fn should_send_retry_to_subprocess(&self) -> (r: bool)
        ensures
            r == self.retry_spec(),
    {
        match self {
            Problem::BuildScriptFailed(..) => true,
            Problem::DisallowedUnsafe(..) => true,
            _ => false,
        }
    }

    /// The package a problem is about, when it names one.
    pub fn pkg_id(&self) -> (r: Option<&PackageId>)
        ensures
            match *self {
                Problem::UsesBuildScript(ref b) => r == Some(&b.pkg_id),
                Problem::DisallowedUnsafe(ref d) => r matches Some(p) && *p
                    == d.crate_sel.pkg_id_spec(),
                Problem::IsProcMacro(ref p) => r == Some(p),
                Problem::DisallowedApiUsage(ref d) => r matches Some(p) && *p
                    == d.crate_sel.pkg_id_spec(),
                Problem::BuildScriptFailed(ref d) => r == Some(&d.build_script_id.pkg_id),
                Problem::DisallowedBuildInstruction(ref d) => r == Some(
                    &d.build_script_id.pkg_id,
                ),
                Problem::AvailableApi(ref d) => r == Some(&d.pkg_id),
                Problem::PossibleExportedApi(ref d) => r == Some(&d.pkg_id),
                _ => r is None,
            },
    {
        match self {
            Problem::Message(_) => None,
            Problem::MissingConfiguration(_) => None,
            Problem::UsesBuildScript(build_script_id) => Some(&build_script_id.pkg_id),
            Problem::DisallowedUnsafe(d) => Some(d.crate_sel.pkg_id()),
            Problem::IsProcMacro(pkg_id) => Some(pkg_id),
            Problem::DisallowedApiUsage(d) => Some(d.crate_sel.pkg_id()),
            Problem::BuildScriptFailed(d) => Some(&d.build_script_id.pkg_id),
            Problem::DisallowedBuildInstruction(d) => Some(&d.build_script_id.pkg_id),
            Problem::UnusedPackageConfig(_) => None,
            Problem::UnusedAllowApi(_) => None,
            Problem::SelectSandbox => None,
            Problem::ImportStdApi(_) => None,
            Problem::AvailableApi(d) => Some(&d.pkg_id),
            Problem::PossibleExportedApi(d) => Some(&d.pkg_id),
        }
    }

    /// A free-text problem.
    pub fn new_message(text: String) -> (r: Problem)
        ensures
            r == Problem::Message(text),
    {
        Problem::Message(text)
    }
}

/// An ordered, mergeable collection of problems.
pub struct ProblemList {
    pub problems: Vec<Problem>,
}

impl ProblemList {
    pub fn new() -> (r: ProblemList)
        ensures
            r.problems@.len() == 0,
    {
        ProblemList { problems: Vec::new() }
    }

    /// A list holding one problem.
    pub fn from_problem(problem: Problem) -> (r: ProblemList)
        ensures
            r.problems@ == seq![problem],
    {
        let mut problems: Vec<Problem> = Vec::new();
        problems.push(problem);
        proof {
            assert(problems@ =~= seq![problem]);
        }
        ProblemList { problems }
    }

    pub fn push(&mut self, problem: Problem)
        ensures
            final(self).problems@ == old(self).problems@.push(problem),
    {
        self.problems.push(problem);
    }

    /// Appends every problem of `other`, in order.
    pub fn merge(&mut self, other: ProblemList)
        ensures
            final(self).problems@ == old(self).problems@ + other.problems@,
    {
        let mut other = other;
        self.problems.append(&mut other.problems);
    }

    pub fn get(&self, index: usize) -> (r: Option<&Problem>)
        ensures
            index < self.problems@.len() ==> r == Some(&self.problems@[index as int]),
            index >= self.problems@.len() ==> r is None,
    {
        if index < self.problems.len() {
            Some(&self.problems[index])
        } else {
            None
        }
    }

    pub fn is_empty(&self) -> (r: bool)
        ensures
            r == (self.problems@.len() == 0),
    {
        self.problems.len() == 0
    }

    pub fn len(&self) -> (r: usize)
        ensures
            r == self.problems@.len(),
    {
        self.problems.len()
    }

    /// Replaces the problem at `index` by the problems of `replacement`,
    /// keeping everything else in place, and hands the replaced problem
    /// back.
    pub fn replace(&mut self, index: usize, replacement: ProblemList) -> (r: Problem)
        requires
            index < old(self).problems@.len(),
        ensures
            r == old(self).problems@[index as int],
            final(self).problems@ == old(self).problems@.take(index as int)
                + replacement.problems@ + old(self).problems@.skip(index as int + 1),
    {
        let ghost orig = self.problems@;
        let ghost repl = replacement.problems@;
        let removed = self.problems.remove(index);
        let mut rest = replacement;
        let n = rest.problems.len();
        let mut k: usize = 0;
        while k < n
            invariant
                index < orig.len(),
                self.problems@.len() == orig.len() - 1 + k,
                n == repl.len(),
                k <= n,
                self.problems@ == orig.take(index as int) + repl.take(k as int) + orig.skip(
                    index as int + 1,
                ),
                rest.problems@ == repl.skip(k as int),
            decreases n - k,
        {
            let item = rest.problems.remove(0);
            let cur_len = self.problems.len();
            proof {
                assert(item == repl[k as int]);
                assert(index as int + k as int <= cur_len as int);
            }
            self.problems.insert(index + k, item);
            proof {
                assert(self.problems@ =~= orig.take(index as int) + repl.take(k + 1)
                    + orig.skip(index as int + 1));
                assert(rest.problems@ =~= repl.skip(k + 1));
            }
            k = k + 1;
        }
        proof {
            assert(repl.take(n as int) =~= repl);
        }
        removed
    }

    /// Whether every problem in the list would wake its subprocess when
    /// resolved.
    pub fn should_send_retry_to_subprocess(&self) -> (r: bool)
        ensures
            r == forall|i: int|
                0 <= i < self.problems@.len() ==> (#[trigger] self.problems@[i]).retry_spec(),
    {
        let mut i: usize = 0;
        while i < self.problems.len()
            invariant
                i <= self.problems@.len(),
                forall|k: int| 0 <= k < i ==> (#[trigger] self.problems@[k]).retry_spec(),
            decreases self.problems@.len() - i,
        {
            if !self.problems[i].should_send_retry_to_subprocess() {
                return false;
            }
            i = i + 1;
        }
        true
    }
}

/// Permission entries stay strictly sorted by key.
pub open spec fn entries_sorted(es: Seq<(String, Vec<ApiUsage>)>) -> bool {
    forall|i: int, j: int|
        0 <= i < j < es.len() ==> crate::textutil::lex_lt(
            (#[trigger] es[i]).0@,
            (#[trigger] es[j]).0@,
        )
}

impl PermUsages {
    pub open spec fn wf(self) -> bool {
        entries_sorted(self.entries@)
    }

    pub fn new() -> (r: PermUsages)
        ensures
            r.entries@.len() == 0,
            r.wf(),
    {
        PermUsages { entries: Vec::new() }
    }

    /// Records usages against a permission: appended to the permission's
    /// list when it exists, inserted at its sorted position otherwise.
    pub fn append_usages(&mut self, key: String, us: Vec<ApiUsage>)
        requires
            old(self).wf(),
        ensures
            final(self).wf(),
            pu_entry_views(final(self).entries@) == merge_entry_one(
                pu_entry_views(old(self).entries@),
                key,
                us@,
            ),
    {
        let ghost orig = self.entries@;
        let n = self.entries.len();
        let mut i: usize = 0;
        while i < n && crate::textutil::str_lex_lt(self.entries[i].0.as_str(), key.as_str())
            invariant
                *self == *old(self),
                old(self).wf(),
                orig == self.entries@,
                n == orig.len(),
                i <= n,
                forall|k: int|
                    0 <= k < i ==> crate::textutil::lex_lt((#[trigger] orig[k]).0@, key@),
            decreases n - i,
        {
            i = i + 1;
        }
        if i < n && self.entries[i].0 == key {
            proof {
                lemma_merge_entry_at(pu_entry_views(orig), key, us@, i as int);
            }
            let entry = crate::textutil::vec_mut_ref(&mut self.entries, i);
            let mut us = us;
            let ghost us0 = us@;
            entry.1.append(&mut us);
            proof {
                assert(pu_entry_views(self.entries@) =~= pu_entry_views(orig).take(i as int)
                    + seq![(orig[i as int].0, orig[i as int].1@ + us0)] + pu_entry_views(
                    orig,
                ).skip(i as int + 1));
                assert forall|a: int, b: int|
                    0 <= a < b < self.entries@.len() implies crate::textutil::lex_lt(
                    (#[trigger] self.entries@[a]).0@,
                    (#[trigger] self.entries@[b]).0@,
                ) by {
                    assert(self.entries@[a].0@ == orig[a].0@);
                    assert(self.entries@[b].0@ == orig[b].0@);
                }
            }
        } else {
            proof {
                lemma_merge_entry_at(pu_entry_views(orig), key, us@, i as int);
            }
            self.entries.insert(i, (key, us));
            proof {
                assert(pu_entry_views(self.entries@) =~= pu_entry_views(orig).take(i as int)
                    + seq![(self.entries@[i as int].0, self.entries@[i as int].1@)]
                    + pu_entry_views(orig).skip(i as int));
                assert forall|a: int, b: int|
                    0 <= a < b < self.entries@.len() implies crate::textutil::lex_lt(
                    (#[trigger] self.entries@[a]).0@,
                    (#[trigger] self.entries@[b]).0@,
                ) by {
                    let aa = if a < i {
                        a
                    } else {
                        a - 1
                    };
                    let bb = if b < i {
                        b
                    } else {
                        b - 1
                    };
                    if a == i {
                        assert(self.entries@[b].0@ == orig[bb].0@);
                        assert(!crate::textutil::lex_lt(orig[i as int].0@, key@));
                        crate::textutil::lemma_lex_total_neq(key@, orig[i as int].0@);
                        if bb != i {
                            crate::textutil::lemma_lex_trans(
                                key@,
                                orig[i as int].0@,
                                orig[bb].0@,
                            );
                        }
                    } else if b == i {
                        assert(self.entries@[a].0@ == orig[aa].0@);
                    } else {
                        assert(self.entries@[a].0@ == orig[aa].0@);
                        assert(self.entries@[b].0@ == orig[bb].0@);
                    }
                }
            }
        }
    }
}

/// The entries of a permission map, payloads as sequences.
pub open spec fn pu_entry_views(es: Seq<(String, Vec<ApiUsage>)>) -> Seq<(String, Seq<ApiUsage>)> {
    es.map_values(|e: (String, Vec<ApiUsage>)| (e.0, e.1@))
}

/// Merging one permission's usages into sorted entries.
pub open spec fn merge_entry_one(
    a: Seq<(String, Seq<ApiUsage>)>,
    key: String,
    us: Seq<ApiUsage>,
) -> Seq<(String, Seq<ApiUsage>)>
    decreases a.len(),
{
    if a.len() == 0 {
        seq![(key, us)]
    } else if a[0].0@ == key@ {
        seq![(a[0].0, a[0].1 + us)] + a.skip(1)
    } else if crate::textutil::lex_lt(key@, a[0].0@) {
        seq![(key, us)] + a
    } else {
        seq![a[0]] + merge_entry_one(a.skip(1), key, us)
    }
}

/// The scan position determines what merging does: an equal key appends to
/// that entry, otherwise the new entry lands there.
proof fn lemma_merge_entry_at(a: Seq<(String, Seq<ApiUsage>)>, key: String, us: Seq<ApiUsage>, i: int)
    requires
        0 <= i <= a.len(),
        forall|k: int| 0 <= k < i ==> crate::textutil::lex_lt((#[trigger] a[k]).0@, key@),
        i < a.len() ==> !crate::textutil::lex_lt(a[i].0@, key@),
    ensures
        merge_entry_one(a, key, us) == if i < a.len() && a[i].0@ == key@ {
            a.take(i) + seq![(a[i].0, a[i].1 + us)] + a.skip(i + 1)
        } else {
            a.take(i) + seq![(key, us)] + a.skip(i)
        },
    decreases i,
{
    if a.len() == 0 {
        assert(merge_entry_one(a, key, us) =~= a.take(i) + seq![(key, us)] + a.skip(i));
    } else if i == 0 {
        if a[0].0@ == key@ {
            assert(merge_entry_one(a, key, us) =~= a.take(0) + seq![(a[0].0, a[0].1 + us)]
                + a.skip(1));
        } else {
            crate::textutil::lemma_lex_total_neq(key@, a[0].0@);
            assert(merge_entry_one(a, key, us) =~= a.take(0) + seq![(key, us)] + a.skip(0));
        }
    } else {
        assert(crate::textutil::lex_lt(a[0].0@, key@));
        assert(a[0].0@ != key@) by {
            if a[0].0@ == key@ {
                crate::textutil::lemma_lex_irrefl(key@);
            }
        }
        assert(!crate::textutil::lex_lt(key@, a[0].0@)) by {
            if crate::textutil::lex_lt(key@, a[0].0@) {
                crate::textutil::lemma_lex_asym(key@, a[0].0@);
            }
        }
        assert forall|k: int| 0 <= k < i - 1 implies crate::textutil::lex_lt(
            (#[trigger] a.skip(1)[k]).0@,
            key@,
        ) by {
            assert(a[k + 1].0@ == a.skip(1)[k].0@);
        }
        lemma_merge_entry_at(a.skip(1), key, us, i - 1);
        if i < a.len() && a[i].0@ == key@ {
            assert(seq![a[0]] + (a.skip(1).take(i - 1) + seq![(a.skip(1)[i - 1].0, a.skip(1)[i
                - 1].1 + us)] + a.skip(1).skip(i)) =~= a.take(i) + seq![(a[i].0, a[i].1 + us)]
                + a.skip(i + 1));
        } else {
            assert(seq![a[0]] + (a.skip(1).take(i - 1) + seq![(key, us)] + a.skip(1).skip(i - 1))
                =~= a.take(i) + seq![(key, us)] + a.skip(i));
        }
    }
}

/// What grouping sees of a problem: disallowed-API records with their
/// crate and entry views, everything else untouched.
pub enum GroupView {
    Plain(Problem),
    Grouped(CrateSel, Seq<(String, Seq<ApiUsage>)>),
}

pub open spec fn gp_view(p: Problem) -> GroupView {
    match p {
        Problem::DisallowedApiUsage(u) => GroupView::Grouped(
            u.crate_sel,
            pu_entry_views(u.usages.entries@),
        ),
        other => GroupView::Plain(other),
    }
}

pub open spec fn gl_view(ps: Seq<Problem>) -> Seq<GroupView> {
    ps.map_values(|p: Problem| gp_view(p))
}

/// The grouping key of one record: the rendered crate selector, extended
/// with the first permission when grouping by crate and API.
pub open spec fn gp_key(g: GroupView, by_api: bool) -> Option<Seq<char>> {
    match g {
        GroupView::Plain(_) => None,
        GroupView::Grouped(sel, es) => Some(
            if by_api && es.len() > 0 {
                crate_sel_display(sel) + seq!['-'] + es[0].0@
            } else {
                crate_sel_display(sel)
            },
        ),
    }
}

/// One accumulator entry: the key the group was opened under, and the
/// group.
pub open spec fn find_key(acc: Seq<(Option<Seq<char>>, GroupView)>, k: Seq<char>) -> int
    decreases acc.len(),
{
    if acc.len() == 0 {
        0
    } else if acc[0].0 == Some(k) {
        0
    } else {
        1 + find_key(acc.skip(1), k)
    }
}

/// Merging one record's entries into a group.
pub open spec fn merge_entries(
    a: Seq<(String, Seq<ApiUsage>)>,
    b: Seq<(String, Seq<ApiUsage>)>,
) -> Seq<(String, Seq<ApiUsage>)>
    decreases b.len(),
{
    if b.len() == 0 {
        a
    } else {
        merge_entries(merge_entry_one(a, b[0].0, b[0].1), b.skip(1))
    }
}

pub open spec fn merge_grouped(a: GroupView, b: GroupView) -> GroupView {
    match (a, b) {
        (GroupView::Grouped(sel, es1), GroupView::Grouped(_, es2)) => GroupView::Grouped(
            sel,
            merge_entries(es1, es2),
        ),
        _ => a,
    }
}

/// One step of grouping: a keyed record merges into the group already
/// opened under its key, or opens a new one; anything else passes through.
pub open spec fn group_step(
    acc: Seq<(Option<Seq<char>>, GroupView)>,
    g: GroupView,
    by_api: bool,
) -> Seq<(Option<Seq<char>>, GroupView)> {
    match gp_key(g, by_api) {
        None => acc.push((None, g)),
        Some(k) => {
            let i = find_key(acc, k);
            if i < acc.len() {
                acc.update(i, (acc[i].0, merge_grouped(acc[i].1, g)))
            } else {
                acc.push((Some(k), g))
            }
        },
    }
}

pub open spec fn group_fold(
    acc: Seq<(Option<Seq<char>>, GroupView)>,
    gs: Seq<GroupView>,
    by_api: bool,
) -> Seq<(Option<Seq<char>>, GroupView)>
    decreases gs.len(),
{
    if gs.len() == 0 {
        acc
    } else {
        group_fold(group_step(acc, gs[0], by_api), gs.skip(1), by_api)
    }
}

pub open spec fn drop_keys(acc: Seq<(Option<Seq<char>>, GroupView)>) -> Seq<GroupView> {
    acc.map_values(|e: (Option<Seq<char>>, GroupView)| e.1)
}

/// What grouping a list produces, at grouping granularity.
pub open spec fn grouped_spec(gs: Seq<GroupView>, by_api: bool) -> Seq<GroupView> {
    drop_keys(group_fold(Seq::empty(), gs, by_api))
}

proof fn lemma_find_key_absent(acc: Seq<(Option<Seq<char>>, GroupView)>, k: Seq<char>)
    requires
        forall|w: int| 0 <= w < acc.len() ==> (#[trigger] acc[w]).0 != Some(k),
    ensures
        find_key(acc, k) == acc.len(),
    decreases acc.len(),
{
    if acc.len() > 0 {
        assert forall|w: int| 0 <= w < acc.skip(1).len() implies (#[trigger] acc.skip(1)[w]).0
            != Some(k) by {
            assert(acc[w + 1].0 != Some(k));
        }
        lemma_find_key_absent(acc.skip(1), k);
    }
}

proof fn lemma_find_key_at(acc: Seq<(Option<Seq<char>>, GroupView)>, k: Seq<char>, i: int)
    requires
        0 <= i < acc.len(),
        acc[i].0 == Some(k),
        forall|w: int| 0 <= w < i ==> (#[trigger] acc[w]).0 != Some(k),
    ensures
        find_key(acc, k) == i,
    decreases i,
{
    if i == 0 {
    } else {
        assert forall|w: int| 0 <= w < i - 1 implies (#[trigger] acc.skip(1)[w]).0 != Some(
            k,
        ) by {
            assert(acc[w + 1].0 != Some(k));
        }
        assert(acc.skip(1)[i - 1].0 == Some(k));
        lemma_find_key_at(acc.skip(1), k, i - 1);
    }
}

/// The accumulator a by-crate grouping run builds: keys pairwise distinct,
/// each stored key matching its group's own key.
pub open spec fn acc_ok(acc: Seq<(Option<Seq<char>>, GroupView)>) -> bool {
    &&& forall|i: int, j: int|
        0 <= i < j < acc.len() && (#[trigger] acc[i]).0 is Some ==> acc[i].0 != (
        #[trigger] acc[j]).0
    &&& forall|i: int|
        0 <= i < acc.len() ==> (#[trigger] acc[i]).0 == gp_key(acc[i].1, false)
}

proof fn lemma_fold_keeps_acc_ok(
    acc: Seq<(Option<Seq<char>>, GroupView)>,
    gs: Seq<GroupView>,
)
    requires
        acc_ok(acc),
    ensures
        acc_ok(group_fold(acc, gs, false)),
    decreases gs.len(),
{
    if gs.len() > 0 {
        let acc2 = group_step(acc, gs[0], false);
        assert(acc_ok(acc2)) by {
            match gp_key(gs[0], false) {
                Option::None => {
                    assert forall|i: int, j: int|
                        0 <= i < j < acc2.len() && (#[trigger] acc2[i]).0 is Some implies acc2[
                        i
                    ].0 != (#[trigger] acc2[j]).0 by {
                        if j < acc.len() {
                            assert(acc[i].0 != acc[j].0);
                        }
                    }
                },
                Option::Some(k) => {
                    lemma_find_key_bound(acc, k);
                    let i = find_key(acc, k);
                    if i < acc.len() {
                        assert(acc2 == acc.update(
                            i,
                            (acc[i].0, merge_grouped(acc[i].1, gs[0])),
                        ));
                        assert(gp_key(merge_grouped(acc[i].1, gs[0]), false) == gp_key(
                            acc[i].1,
                            false,
                        ));
                        assert forall|a: int, b: int|
                            0 <= a < b < acc2.len() && (#[trigger] acc2[a]).0 is Some implies
                            acc2[a].0 != (#[trigger] acc2[b]).0 by {
                            if a == i {
                                assert(acc2[a].0 == acc[i].0);
                            } else {
                                assert(acc2[a] == acc[a]);
                            }
                            if b == i {
                                assert(acc2[b].0 == acc[i].0);
                            } else {
                                assert(acc2[b] == acc[b]);
                            }
                            assert(acc[a].0 is Some);
                            assert(acc[a].0 != acc[b].0);
                        }
                        assert forall|w: int| 0 <= w < acc2.len() implies (
                        #[trigger] acc2[w]).0 == gp_key(acc2[w].1, false) by {
                            if w != i {
                                assert(acc2[w] == acc[w]);
                            }
                        }
                    } else {
                        lemma_find_key_bound(acc, k);
                        assert forall|a: int, b: int|
                            0 <= a < b < acc2.len() && (#[trigger] acc2[a]).0 is Some implies
                            acc2[a].0 != (#[trigger] acc2[b]).0 by {
                            if b < acc.len() {
                                assert(acc[a].0 != acc[b].0);
                            } else {
                                assert(acc2[b].0 == Some(k));
                                assert(acc2[a].0 == acc[a].0);
                            }
                        }
                    }
                },
            }
        }
        lemma_fold_keeps_acc_ok(acc2, gs.skip(1));
    }
}

proof fn lemma_find_key_bound(acc: Seq<(Option<Seq<char>>, GroupView)>, k: Seq<char>)
    ensures
        0 <= find_key(acc, k) <= acc.len(),
        find_key(acc, k) < acc.len() ==> acc[find_key(acc, k)].0 == Some(k),
        find_key(acc, k) == acc.len() ==> forall|w: int|
            0 <= w < acc.len() ==> (#[trigger] acc[w]).0 != Some(k),
    decreases acc.len(),
{
    if acc.len() > 0 && acc[0].0 != Some(k) {
        lemma_find_key_bound(acc.skip(1), k);
        if find_key(acc, k) == acc.len() {
            assert forall|w: int| 0 <= w < acc.len() implies (#[trigger] acc[w]).0 != Some(
                k,
            ) by {
                if w > 0 {
                    assert(acc.skip(1)[w - 1].0 != Some(k));
                }
            }
        }
    }
}

/// Grouping a second time changes nothing: after one pass the group keys
/// are pairwise distinct, so every element passes through unmerged.
pub proof fn lemma_grouping_idempotent(gs: Seq<GroupView>)
    ensures
        grouped_spec(grouped_spec(gs, false), false) == grouped_spec(gs, false),
{
    let out = group_fold(Seq::empty(), gs, false);
    assert(acc_ok(Seq::empty()));
    lemma_fold_keeps_acc_ok(Seq::empty(), gs);
    lemma_fold_no_merge(Seq::empty(), out);
    assert(Seq::<(Option<Seq<char>>, GroupView)>::empty() + out =~= out);
    assert(drop_keys(out) =~= grouped_spec(gs, false));
}

/// Folding records whose keys are already distinct appends them unchanged.
proof fn lemma_fold_no_merge(
    acc: Seq<(Option<Seq<char>>, GroupView)>,
    rest: Seq<(Option<Seq<char>>, GroupView)>,
)
    requires
        acc_ok(acc + rest),
    ensures
        group_fold(acc, drop_keys(rest), false) == acc + rest,
    decreases rest.len(),
{
    if rest.len() == 0 {
        assert(group_fold(acc, drop_keys(rest), false) =~= acc + rest);
        assert(acc + rest =~= acc);
    } else {
        let g = rest[0].1;
        assert(drop_keys(rest)[0] == g);
        let whole = acc + rest;
        assert(whole[acc.len() as int] == rest[0]);
        assert(rest[0].0 == gp_key(g, false));
        let acc2 = group_step(acc, g, false);
        assert(acc2 == acc.push(rest[0])) by {
            match gp_key(g, false) {
                Option::None => {
                    assert(acc2 =~= acc.push((None, g)));
                    assert((None::<Seq<char>>, g) == rest[0]);
                },
                Option::Some(k) => {
                    assert forall|w: int| 0 <= w < acc.len() implies (#[trigger] acc[w]).0
                        != Some(k) by {
                        assert(whole[w] == acc[w]);
                        assert(whole[w].0 != whole[acc.len() as int].0);
                    }
                    lemma_find_key_absent(acc, k);
                    assert(acc2 =~= acc.push((Some(k), g)));
                    assert((Some(k), g) == rest[0]);
                },
            }
        }
        assert(acc.push(rest[0]) + rest.skip(1) =~= acc + rest);
        assert(drop_keys(rest).skip(1) =~= drop_keys(rest.skip(1)));
        lemma_fold_no_merge(acc.push(rest[0]), rest.skip(1));
    }
}

/// Disallowed-API problems carry sorted permission entries.
pub open spec fn problem_usages_wf(p: Problem) -> bool {
    match p {
        Problem::DisallowedApiUsage(u) => u.usages.wf(),
        _ => true,
    }
}

/// The first slot whose stored key spells `key`.
fn find_key_slot(keys: &Vec<Option<String>>, key: &String) -> (r: usize)
    ensures
        r <= keys@.len(),
        r < keys@.len() ==> key_view_matches(keys@[r as int], key@),
        forall|t: int| 0 <= t < r ==> !key_view_matches(#[trigger] keys@[t], key@),
{
    let n = keys.len();
    let mut w: usize = 0;
    while w < n
        invariant
            n == keys@.len(),
            w <= n,
            forall|t: int| 0 <= t < w ==> !key_view_matches(#[trigger] keys@[t], key@),
        decreases n - w,
    {
        let hit = match &keys[w] {
            Some(k) => *k == *key,
            None => false,
        };
        if hit {
            return w;
        }
        proof {
            assert(!key_view_matches(keys@[w as int], key@));
        }
        w = w + 1;
    }
    n
}

impl ProblemList {
    /// Combines all disallowed API usages for a crate.
    pub fn grouped_by_type_and_crate(self) -> (r: ProblemList)
        requires
            forall|i: int|
                0 <= i < self.problems@.len() ==> problem_usages_wf(
                    #[trigger] self.problems@[i],
                ),
        ensures
            gl_view(r.problems@) == grouped_spec(gl_view(self.problems@), false),
            forall|i: int|
                0 <= i < r.problems@.len() ==> problem_usages_wf(#[trigger] r.problems@[i]),
    {
        self.grouped_by(false)
    }

    /// Combines all disallowed API usages for a crate and API.
    pub fn grouped_by_type_crate_and_api(self) -> (r: ProblemList)
        requires
            forall|i: int|
                0 <= i < self.problems@.len() ==> problem_usages_wf(
                    #[trigger] self.problems@[i],
                ),
        ensures
            gl_view(r.problems@) == grouped_spec(gl_view(self.problems@), true),
            forall|i: int|
                0 <= i < r.problems@.len() ==> problem_usages_wf(#[trigger] r.problems@[i]),
    {
        self.grouped_by(true)
    }

    /// Walks the list once, merging disallowed-API records that share the
    /// grouping key into the group opened by the first of them; every other
    /// problem, and the relative order of first occurrences, is preserved.
    fn grouped_by(self, by_api: bool) -> (r: ProblemList)
        requires
            forall|i: int|
                0 <= i < self.problems@.len() ==> problem_usages_wf(
                    #[trigger] self.problems@[i],
                ),
        ensures
            gl_view(r.problems@) == grouped_spec(gl_view(self.problems@), by_api),
            forall|i: int|
                0 <= i < r.problems@.len() ==> problem_usages_wf(#[trigger] r.problems@[i]),
    {
        let ghost input = gl_view(self.problems@);
        let mut rest = self;
        let mut merged: Vec<Problem> = Vec::new();
        let mut keys: Vec<Option<String>> = Vec::new();
        proof {
            assert(acc_pairs(keys@, merged@) =~= Seq::<(Option<Seq<char>>, GroupView)>::empty());
            assert(gl_view(rest.problems@) =~= input);
        }
        while rest.problems.len() > 0
            invariant
                keys@.len() == merged@.len(),
                forall|t: int|
                    0 <= t < rest.problems@.len() ==> problem_usages_wf(
                        #[trigger] rest.problems@[t],
                    ),
                forall|t: int|
                    0 <= t < merged@.len() ==> problem_usages_wf(#[trigger] merged@[t]),
                forall|t: int|
                    0 <= t < merged@.len() ==> ((#[trigger] keys@[t]) is Some <==> merged@[t]
                        is DisallowedApiUsage),
                drop_keys(
                    group_fold(acc_pairs(keys@, merged@), gl_view(rest.problems@), by_api),
                ) == grouped_spec(input, by_api),
            decreases rest.problems@.len(),
        {
            let ghost acc0 = acc_pairs(keys@, merged@);
            let ghost rest0 = rest.problems@;
            let p = rest.problems.remove(0);
            let ghost g = gp_view(p);
            proof {
                assert(gl_view(rest0)[0] == g);
                assert(gl_view(rest.problems@) =~= gl_view(rest0).skip(1));
                assert(group_fold(acc0, gl_view(rest0), by_api) == group_fold(
                    group_step(acc0, g, by_api),
                    gl_view(rest.problems@),
                    by_api,
                ));
            }
            match p {
                Problem::DisallowedApiUsage(u) => {
                    let mut key = u.crate_sel.display_string();
                    if by_api && u.usages.entries.len() > 0 {
                        key.append("-");
                        key.append(u.usages.entries[0].0.as_str());
                        proof {
                            reveal_strlit("-");
                            assert("-"@ =~= seq!['-']);
                            assert(key@ =~= crate_sel_display(u.crate_sel) + seq!['-']
                                + u.usages.entries@[0].0@);
                        }
                    }
                    proof {
                        assert(gp_key(g, by_api) == Some(key@));
                    }
                    let found = find_key_slot(&keys, &key);
                    if found < merged.len() {
                        proof {
                            assert(acc0[found as int].0 == Some(key@));
                            assert forall|t: int| 0 <= t < found implies (
                            #[trigger] acc0[t]).0 != Some(key@) by {
                                assert(!key_view_matches(keys@[t], key@));
                            }
                            lemma_find_key_at(acc0, key@, found as int);
                        }
                        let ghost target0 = merged@[found as int];
                        let slot = crate::textutil::vec_mut_ref(&mut merged, found);
                        match slot {
                            Problem::DisallowedApiUsage(t) => {
                                let ghost sel0 = t.crate_sel;
                                let mut src = u.usages.entries;
                                let ghost src0 = pu_entry_views(src@);
                                let ghost t_entries0 = pu_entry_views(t.usages.entries@);
                                proof {
                                    assert(target0 == Problem::DisallowedApiUsage(*t));
                                    assert(gp_view(target0) == GroupView::Grouped(
                                        sel0,
                                        t_entries0,
                                    ));
                                    assert(g == GroupView::Grouped(u.crate_sel, src0));
                                }
                                while src.len() > 0
                                    invariant
                                        t.usages.wf(),
                                        t.crate_sel == sel0,
                                        merge_entries(
                                            pu_entry_views(t.usages.entries@),
                                            pu_entry_views(src@),
                                        ) == merge_entries(t_entries0, src0),
                                    decreases src@.len(),
                                {
                                    let ghost src_before = pu_entry_views(src@);
                                    let ghost t_before = pu_entry_views(t.usages.entries@);
                                    let e = src.remove(0);
                                    proof {
                                        assert(pu_entry_views(src@) =~= src_before.skip(1));
                                        assert(src_before[0] == (e.0, e.1@));
                                    }
                                    t.usages.append_usages(e.0, e.1);
                                    proof {
                                        assert(pu_entry_views(t.usages.entries@)
                                            == merge_entry_one(t_before, e.0, e.1@));
                                        assert(merge_entries(t_before, src_before)
                                            == merge_entries(
                                            merge_entry_one(t_before, e.0, e.1@),
                                            src_before.skip(1),
                                        ));
                                    }
                                }
                                proof {
                                    assert(pu_entry_views(src@) =~= Seq::<
                                        (String, Seq<ApiUsage>),
                                    >::empty());
                                    assert(pu_entry_views(t.usages.entries@) == merge_entries(
                                        t_entries0,
                                        src0,
                                    ));
                                    assert(t.crate_sel == sel0);
                                    assert(gp_view(Problem::DisallowedApiUsage(*t))
                                        == merge_grouped(gp_view(target0), g));
                                }
                            },
                            _ => {
                                proof {
                                    assert(false);
                                }
                            },
                        }
                        proof {
                            assert(gp_view(merged@[found as int]) == merge_grouped(
                                gp_view(target0),
                                g,
                            ));
                            assert(acc_pairs(keys@, merged@) =~= group_step(acc0, g, by_api));
                        }
                    } else {
                        proof {
                            assert forall|t: int| 0 <= t < acc0.len() implies (
                            #[trigger] acc0[t]).0 != Some(key@) by {
                                assert(!key_view_matches(keys@[t], key@));
                            }
                            lemma_find_key_absent(acc0, key@);
                        }
                        merged.push(Problem::DisallowedApiUsage(u));
                        keys.push(Some(key));
                        proof {
                            assert(acc_pairs(keys@, merged@) =~= group_step(acc0, g, by_api));
                        }
                    }
                },
                other => {
                    proof {
                        assert(gp_key(gp_view(other), by_api) is None);
                        assert(g == gp_view(other));
                    }
                    merged.push(other);
                    keys.push(None);
                    proof {
                        assert(acc_pairs(keys@, merged@) =~= group_step(acc0, g, by_api));
                    }
                },
            }
        }
        proof {
            assert(gl_view(rest.problems@).len() == 0);
            assert(group_fold(
                acc_pairs(keys@, merged@),
                gl_view(rest.problems@),
                by_api,
            ) == acc_pairs(keys@, merged@));
            assert(gl_view(merged@) =~= drop_keys(acc_pairs(keys@, merged@)));
        }
        ProblemList { problems: merged }
    }
}

/// The accumulator as the fold sees it: stored key views paired with the
/// group views.
pub open spec fn acc_pairs(keys: Seq<Option<String>>, merged: Seq<Problem>) -> Seq<
    (Option<Seq<char>>, GroupView),
> {
    Seq::new(
        keys.len(),
        |i: int|
            (
                match keys[i] {
                    Some(k) => Some(k@),
                    None => None,
                },
                gp_view(merged[i]),
            ),
    )
}

pub open spec fn key_view_matches(k: Option<String>, v: Seq<char>) -> bool {
    match k {
        Some(s) => s@ == v,
        None => false,
    }
}

/// The fold over what remains, starting from the accumulator built so far.
pub open spec fn group_fold_prefix_inv(
    keys: Seq<Option<String>>,
    merged: Seq<Problem>,
    rest: Seq<Problem>,
    by_api: bool,
) -> Seq<GroupView> {
    drop_keys(group_fold(acc_pairs(keys, merged), gl_view(rest), by_api))
}

/// View-level equality of source positions.
pub open spec fn loc_eq(a: SourceLocation, b: SourceLocation) -> bool {
    a.filename@ == b.filename@ && a.line == b.line && a.column == b.column
}

/// View-level equality of symbol-or-debug names.
pub open spec fn sdn_eq(a: SymbolOrDebugName, b: SymbolOrDebugName) -> bool {
    match (a, b) {
        (SymbolOrDebugName::Symbol(x), SymbolOrDebugName::Symbol(y)) => x@ == y@,
        (SymbolOrDebugName::DebugName(x), SymbolOrDebugName::DebugName(y)) => x@ == y@,
        _ => false,
    }
}

/// The fields of a usage that matter for identity; the volatile debug data
/// does not.
pub open spec fn usage_key_eq(a: ApiUsage, b: ApiUsage) -> bool {
    &&& loc_eq(a.source_location, b.source_location)
    &&& sdn_eq(a.from, b.from)
    &&& sdn_eq(a.to, b.to)
    &&& crate::config::views_of(a.to_name@) == crate::config::views_of(b.to_name@)
    &&& a.to_source@ == b.to_source@
}

pub open spec fn usage_lists_eq(a: Seq<ApiUsage>, b: Seq<ApiUsage>) -> bool {
    a.len() == b.len() && forall|i: int|
        0 <= i < a.len() ==> usage_key_eq(#[trigger] a[i], #[trigger] b[i])
}

pub open spec fn perm_usages_eq(a: PermUsages, b: PermUsages) -> bool {
    &&& a.entries@.len() == b.entries@.len()
    &&& forall|i: int|
        0 <= i < a.entries@.len() ==> (#[trigger] a.entries@[i]).0@ == (
        #[trigger] b.entries@[i]).0@ && usage_lists_eq(a.entries@[i].1@, b.entries@[i].1@)
}

pub open spec fn sel_eq(a: CrateSel, b: CrateSel) -> bool {
    &&& (a is BuildScript) == (b is BuildScript)
    &&& crate::crate_index::pkg_matches(a.pkg_id_spec(), b.pkg_id_spec())
}

pub open spec fn perm_config_eq(a: PermConfig, b: PermConfig) -> bool {
    &&& crate::config::views_of(a.grant@) == crate::config::views_of(b.grant@)
    &&& crate::config::views_of(a.exclude@) == crate::config::views_of(b.exclude@)
}

/// The deduplication key: problems compare by everything the user would
/// act on, leaving out volatile diagnostic detail — the debug data of
/// disallowed-API usages and the symbol of a possibly-exported API.
pub open spec fn dedup_eq(a: Problem, b: Problem) -> bool {
    match (a, b) {
        (Problem::Message(x), Problem::Message(y)) => x@ == y@,
        (Problem::MissingConfiguration(x), Problem::MissingConfiguration(y)) => x@ == y@,
        (Problem::UsesBuildScript(x), Problem::UsesBuildScript(y)) => crate::crate_index::pkg_matches(
            x.pkg_id,
            y.pkg_id,
        ),
        (Problem::DisallowedUnsafe(x), Problem::DisallowedUnsafe(y)) => {
            &&& sel_eq(x.crate_sel, y.crate_sel)
            &&& x.locations@.len() == y.locations@.len()
            &&& forall|i: int|
                0 <= i < x.locations@.len() ==> loc_eq(
                    #[trigger] x.locations@[i],
                    #[trigger] y.locations@[i],
                )
        },
        (Problem::IsProcMacro(x), Problem::IsProcMacro(y)) => crate::crate_index::pkg_matches(
            x,
            y,
        ),
        (Problem::DisallowedApiUsage(x), Problem::DisallowedApiUsage(y)) => sel_eq(
            x.crate_sel,
            y.crate_sel,
        ) && perm_usages_eq(x.usages, y.usages),
        (Problem::BuildScriptFailed(x), Problem::BuildScriptFailed(y)) => {
            &&& crate::crate_index::pkg_matches(
                x.build_script_id.pkg_id,
                y.build_script_id.pkg_id,
            )
            &&& crate::crate_index::pkg_matches(
                x.output.build_script_id.pkg_id,
                y.output.build_script_id.pkg_id,
            )
            &&& x.output.stdout@ == y.output.stdout@
            &&& x.output.stderr@ == y.output.stderr@
        },
        (
            Problem::DisallowedBuildInstruction(x),
            Problem::DisallowedBuildInstruction(y),
        ) => crate::crate_index::pkg_matches(x.build_script_id.pkg_id, y.build_script_id.pkg_id)
            && x.instruction@ == y.instruction@,
        (Problem::UnusedPackageConfig(x), Problem::UnusedPackageConfig(y)) => x@ == y@,
        (Problem::UnusedAllowApi(x), Problem::UnusedAllowApi(y)) => x.crate_name@ == y.crate_name@
            && crate::config::views_of(x.permissions@) == crate::config::views_of(
            y.permissions@,
        ),
        (Problem::SelectSandbox, Problem::SelectSandbox) => true,
        (Problem::ImportStdApi(x), Problem::ImportStdApi(y)) => x@ == y@,
        (Problem::AvailableApi(x), Problem::AvailableApi(y)) => crate::crate_index::pkg_matches(
            x.pkg_id,
            y.pkg_id,
        ) && x.api@ == y.api@ && perm_config_eq(x.config, y.config),
        (Problem::PossibleExportedApi(x), Problem::PossibleExportedApi(y)) => crate::crate_index::pkg_matches(
            x.pkg_id,
            y.pkg_id,
        ) && x.api@ == y.api@,
        _ => false,
    }
}

/// The keys of sorted permission entries, joined with ", ".
pub open spec fn perm_keys_joined(es: Seq<(String, Vec<ApiUsage>)>, i: int) -> Seq<char>
    decreases i,
{
    if i <= 0 {
        Seq::empty()
    } else if i == 1 {
        es[0].0@
    } else {
        perm_keys_joined(es, i - 1) + ", "@ + es[i - 1].0@
    }
}

/// The one-line rendering of a problem, as the user first sees it.
pub open spec fn summary_spec(p: Problem) -> Seq<char> {
    match p {
        Problem::Message(m) => m@,
        Problem::MissingConfiguration(path) => "Config file `"@ + path@ + "` not found"@,
        Problem::UsesBuildScript(b) => "`"@ + crate_sel_display(CrateSel::Primary(b.pkg_id))
            + "` has a build script"@,
        Problem::DisallowedUnsafe(u) => "`"@ + crate_sel_display(u.crate_sel)
            + "` uses unsafe"@,
        Problem::IsProcMacro(pkg) => "`"@ + crate_sel_display(CrateSel::Primary(pkg))
            + "` is a proc macro"@,
        Problem::DisallowedApiUsage(info) => if info.usages.entries@.len() == 1 {
            "`"@ + crate_sel_display(info.crate_sel) + "` uses API `"@
                + info.usages.entries@[0].0@ + "`"@
        } else {
            "'"@ + crate_sel_display(info.crate_sel) + "' uses disallowed APIs: "@
                + perm_keys_joined(info.usages.entries@, info.usages.entries@.len() as int)
        },
        Problem::BuildScriptFailed(info) => "Build script for package `"@ + crate_sel_display(
            CrateSel::Primary(info.output.build_script_id.pkg_id),
        ) + "` failed"@,
        Problem::DisallowedBuildInstruction(info) => crate_sel_display(
            CrateSel::Primary(info.build_script_id.pkg_id),
        ) + "'s build script emitted disallowed instruction `"@ + info.instruction@ + "`"@,
        Problem::UnusedPackageConfig(name) => "Config supplied for package `"@ + name@
            + "` not in dependency tree"@,
        Problem::UnusedAllowApi(info) => "`pkg."@ + info.crate_name@
            + "` allows APIs that aren't used"@,
        Problem::SelectSandbox => "Select sandbox kind"@,
        Problem::ImportStdApi(api) => "Optionally import std API `"@ + api@ + "`"@,
        Problem::AvailableApi(info) => "Package `"@ + crate_sel_display(
            CrateSel::Primary(info.pkg_id),
        ) + "` exports API `"@ + info.api@ + "`"@,
        Problem::PossibleExportedApi(info) => "Package `"@ + crate_sel_display(
            CrateSel::Primary(info.pkg_id),
        ) + "` may provide API `"@ + info.api@ + "`"@,
    }
}

impl Problem {
    /// Renders the one-line message shown for the problem.
    pub fn summary_string(&self) -> (r: String)
        ensures
            r@ == summary_spec(*self),
    {
        let mut out = String::new();
        match self {
            Problem::Message(m) => {
                out.append(m.as_str());
            },
            Problem::MissingConfiguration(path) => {
                out.append("Config file `");
                out.append(path.as_str());
                out.append("` not found");
            },
            Problem::UsesBuildScript(b) => {
                out.append("`");
                let d = b.pkg_id.display_string();
                out.append(d.as_str());
                out.append("` has a build script");
            },
            Problem::DisallowedUnsafe(u) => {
                out.append("`");
                let d = u.crate_sel.display_string();
                out.append(d.as_str());
                out.append("` uses unsafe");
            },
            Problem::IsProcMacro(pkg) => {
                out.append("`");
                let d = pkg.display_string();
                out.append(d.as_str());
                out.append("` is a proc macro");
            },
            Problem::DisallowedApiUsage(info) => {
                let d = info.crate_sel.display_string();
                if info.usages.entries.len() == 1 {
                    out.append("`");
                    out.append(d.as_str());
                    out.append("` uses API `");
                    out.append(info.usages.entries[0].0.as_str());
                    out.append("`");
                } else {
                    out.append("'");
                    out.append(d.as_str());
                    out.append("' uses disallowed APIs: ");
                    let n = info.usages.entries.len();
                    let mut i: usize = 0;
                    let ghost head = out@;
                    while i < n
                        invariant
                            n == info.usages.entries@.len(),
                            i <= n,
                            out@ == head + perm_keys_joined(info.usages.entries@, i as int),
                        decreases n - i,
                    {
                        if i > 0 {
                            out.append(", ");
                        }
                        out.append(info.usages.entries[i].0.as_str());
                        proof {
                            assert(out@ =~= head + perm_keys_joined(
                                info.usages.entries@,
                                i + 1,
                            ));
                        }
                        i = i + 1;
                    }
                }
            },
            Problem::BuildScriptFailed(info) => {
                out.append("Build script for package `");
                let d = info.output.build_script_id.pkg_id.display_string();
                out.append(d.as_str());
                out.append("` failed");
            },
            Problem::DisallowedBuildInstruction(info) => {
                let d = info.build_script_id.pkg_id.display_string();
                out.append(d.as_str());
                out.append("'s build script emitted disallowed instruction `");
                out.append(info.instruction.as_str());
                out.append("`");
            },
            Problem::UnusedPackageConfig(name) => {
                out.append("Config supplied for package `");
                out.append(name.as_str());
                out.append("` not in dependency tree");
            },
            Problem::UnusedAllowApi(info) => {
                out.append("`pkg.");
                out.append(info.crate_name.as_str());
                out.append("` allows APIs that aren't used");
            },
            Problem::SelectSandbox => {
                out.append("Select sandbox kind");
            },
            Problem::ImportStdApi(api) => {
                out.append("Optionally import std API `");
                out.append(api.as_str());
                out.append("`");
            },
            Problem::AvailableApi(info) => {
                out.append("Package `");
                let d = info.pkg_id.display_string();
                out.append(d.as_str());
                out.append("` exports API `");
                out.append(info.api.as_str());
                out.append("`");
            },
            Problem::PossibleExportedApi(info) => {
                out.append("Package `");
                let d = info.pkg_id.display_string();
                out.append(d.as_str());
                out.append("` may provide API `");
                out.append(info.api.as_str());
                out.append("`");
            },
        }
        proof {
            assert(out@ =~= summary_spec(*self));
        }
        out
    }
}

/// Selectors that compare equal under the deduplication key render the
/// same.
proof fn lemma_sel_display_respects_eq(a: CrateSel, b: CrateSel)
    requires
        sel_eq(a, b),
    ensures
        crate_sel_display(a) == crate_sel_display(b),
{
}

/// Equal permission keys join to the same text.
proof fn lemma_joined_respects_eq(
    a: Seq<(String, Vec<ApiUsage>)>,
    b: Seq<(String, Vec<ApiUsage>)>,
    i: int,
)
    requires
        a.len() == b.len(),
        forall|k: int| 0 <= k < a.len() ==> (#[trigger] a[k]).0@ == (#[trigger] b[k]).0@,
        i <= a.len(),
    ensures
        perm_keys_joined(a, i) == perm_keys_joined(b, i),
    decreases i,
{
    if i <= 0 {
    } else if i == 1 {
    } else {
        lemma_joined_respects_eq(a, b, i - 1);
    }
}

/// Problems with equal deduplication keys render the same message: the
/// fields the key leaves out never reach what the user sees.
pub proof fn lemma_dedup_key_determines_summary(a: Problem, b: Problem)
    requires
        dedup_eq(a, b),
    ensures
        summary_spec(a) == summary_spec(b),
{
    match (a, b) {
        (Problem::DisallowedUnsafe(x), Problem::DisallowedUnsafe(y)) => {
            lemma_sel_display_respects_eq(x.crate_sel, y.crate_sel);
        },
        (Problem::DisallowedApiUsage(x), Problem::DisallowedApiUsage(y)) => {
            lemma_sel_display_respects_eq(x.crate_sel, y.crate_sel);
            lemma_joined_respects_eq(
                x.usages.entries@,
                y.usages.entries@,
                x.usages.entries@.len() as int,
            );
        },
        _ => {},
    }
}

/// Whether two problems carry the same deduplication key.
pub fn deduplication_matches(a: &Problem, b: &Problem) -> (r: bool)
    ensures
        r == dedup_eq(*a, *b),
{
    match (a, b) {
        (Problem::Message(x), Problem::Message(y)) => *x == *y,
        (Problem::MissingConfiguration(x), Problem::MissingConfiguration(y)) => *x == *y,
        (Problem::UsesBuildScript(x), Problem::UsesBuildScript(y)) => pkg_ids_match(
            &x.pkg_id,
            &y.pkg_id,
        ),
        (Problem::DisallowedUnsafe(x), Problem::DisallowedUnsafe(y)) => sels_match(
            &x.crate_sel,
            &y.crate_sel,
        ) && locations_match(&x.locations, &y.locations),
        (Problem::IsProcMacro(x), Problem::IsProcMacro(y)) => pkg_ids_match(x, y),
        (Problem::DisallowedApiUsage(x), Problem::DisallowedApiUsage(y)) => sels_match(
            &x.crate_sel,
            &y.crate_sel,
        ) && perm_usages_match(&x.usages, &y.usages),
        (Problem::BuildScriptFailed(x), Problem::BuildScriptFailed(y)) => pkg_ids_match(
            &x.build_script_id.pkg_id,
            &y.build_script_id.pkg_id,
        ) && pkg_ids_match(
            &x.output.build_script_id.pkg_id,
            &y.output.build_script_id.pkg_id,
        ) && bytes_match(&x.output.stdout, &y.output.stdout) && bytes_match(
            &x.output.stderr,
            &y.output.stderr,
        ),
        (
            Problem::DisallowedBuildInstruction(x),
            Problem::DisallowedBuildInstruction(y),
        ) => pkg_ids_match(&x.build_script_id.pkg_id, &y.build_script_id.pkg_id)
            && x.instruction == y.instruction,
        (Problem::UnusedPackageConfig(x), Problem::UnusedPackageConfig(y)) => *x == *y,
        (Problem::UnusedAllowApi(x), Problem::UnusedAllowApi(y)) => x.crate_name == y.crate_name
            && string_vecs_match(&x.permissions, &y.permissions),
        (Problem::SelectSandbox, Problem::SelectSandbox) => true,
        (Problem::ImportStdApi(x), Problem::ImportStdApi(y)) => *x == *y,
        (Problem::AvailableApi(x), Problem::AvailableApi(y)) => pkg_ids_match(
            &x.pkg_id,
            &y.pkg_id,
        ) && x.api == y.api && string_vecs_match(&x.config.grant, &y.config.grant)
            && string_vecs_match(&x.config.exclude, &y.config.exclude),
        (Problem::PossibleExportedApi(x), Problem::PossibleExportedApi(y)) => pkg_ids_match(
            &x.pkg_id,
            &y.pkg_id,
        ) && x.api == y.api,
        _ => false,
    }
}

fn pkg_ids_match(a: &PackageId, b: &PackageId) -> (r: bool)
    ensures
        r == crate::crate_index::pkg_matches(*a, *b),
{
    a.name == b.name && a.version.major == b.version.major && a.version.minor == b.version.minor
        && a.version.patch == b.version.patch && a.name_is_unique == b.name_is_unique
}

fn sels_match(a: &CrateSel, b: &CrateSel) -> (r: bool)
    ensures
        r == sel_eq(*a, *b),
{
    match (a, b) {
        (CrateSel::Primary(x), CrateSel::Primary(y)) => pkg_ids_match(x, y),
        (CrateSel::BuildScript(x), CrateSel::BuildScript(y)) => pkg_ids_match(
            &x.pkg_id,
            &y.pkg_id,
        ),
        _ => false,
    }
}

fn columns_match(a: &Option<u32>, b: &Option<u32>) -> (r: bool)
    ensures
        r == (*a == *b),
{
    match (a, b) {
        (Some(x), Some(y)) => *x == *y,
        (None, None) => true,
        _ => false,
    }
}

fn locs_match(a: &SourceLocation, b: &SourceLocation) -> (r: bool)
    ensures
        r == loc_eq(*a, *b),
{
    a.filename == b.filename && a.line == b.line && columns_match(&a.column, &b.column)
}

fn locations_match(a: &Vec<SourceLocation>, b: &Vec<SourceLocation>) -> (r: bool)
    ensures
        r == (a@.len() == b@.len() && forall|i: int|
            0 <= i < a@.len() ==> loc_eq(#[trigger] a@[i], #[trigger] b@[i])),
{
    if a.len() != b.len() {
        return false;
    }
    let mut i: usize = 0;
    while i < a.len()
        invariant
            a@.len() == b@.len(),
            i <= a@.len(),
            forall|k: int| 0 <= k < i ==> loc_eq(#[trigger] a@[k], #[trigger] b@[k]),
        decreases a@.len() - i,
    {
        if !locs_match(&a[i], &b[i]) {
            return false;
        }
        i = i + 1;
    }
    true
}

fn sdns_match(a: &SymbolOrDebugName, b: &SymbolOrDebugName) -> (r: bool)
    ensures
        r == sdn_eq(*a, *b),
{
    match (a, b) {
        (SymbolOrDebugName::Symbol(x), SymbolOrDebugName::Symbol(y)) => *x == *y,
        (SymbolOrDebugName::DebugName(x), SymbolOrDebugName::DebugName(y)) => *x == *y,
        _ => false,
    }
}

fn string_vecs_match(a: &Vec<String>, b: &Vec<String>) -> (r: bool)
    ensures
        r == (crate::config::views_of(a@) == crate::config::views_of(b@)),
{
    if a.len() != b.len() {
        proof {
            assert(crate::config::views_of(a@).len() != crate::config::views_of(b@).len());
        }
        return false;
    }
    let mut i: usize = 0;
    while i < a.len()
        invariant
            a@.len() == b@.len(),
            i <= a@.len(),
            forall|k: int| 0 <= k < i ==> (#[trigger] a@[k])@ == (#[trigger] b@[k])@,
        decreases a@.len() - i,
    {
        if a[i] != b[i] {
            proof {
                assert(crate::config::views_of(a@)[i as int] != crate::config::views_of(
                    b@,
                )[i as int]);
            }
            return false;
        }
        i = i + 1;
    }
    proof {
        assert(crate::config::views_of(a@) =~= crate::config::views_of(b@));
    }
    true
}

fn bytes_match(a: &Vec<u8>, b: &Vec<u8>) -> (r: bool)
    ensures
        r == (a@ == b@),
{
    if a.len() != b.len() {
        return false;
    }
    let mut i: usize = 0;
    while i < a.len()
        invariant
            a@.len() == b@.len(),
            i <= a@.len(),
            forall|k: int| 0 <= k < i ==> a@[k] == b@[k],
        decreases a@.len() - i,
    {
        if a[i] != b[i] {
            return false;
        }
        i = i + 1;
    }
    proof {
        assert(a@ =~= b@);
    }
    true
}

fn usages_match(a: &ApiUsage, b: &ApiUsage) -> (r: bool)
    ensures
        r == usage_key_eq(*a, *b),
{
    locs_match(&a.source_location, &b.source_location) && sdns_match(&a.from, &b.from)
        && sdns_match(&a.to, &b.to) && string_vecs_match(&a.to_name, &b.to_name) && a.to_source
        == b.to_source
}

fn usage_lists_match(a: &Vec<ApiUsage>, b: &Vec<ApiUsage>) -> (r: bool)
    ensures
        r == usage_lists_eq(a@, b@),
{
    if a.len() != b.len() {
        return false;
    }
    let mut i: usize = 0;
    while i < a.len()
        invariant
            a@.len() == b@.len(),
            i <= a@.len(),
            forall|k: int| 0 <= k < i ==> usage_key_eq(#[trigger] a@[k], #[trigger] b@[k]),
        decreases a@.len() - i,
    {
        if !usages_match(&a[i], &b[i]) {
            return false;
        }
        i = i + 1;
    }
    true
}

fn perm_usages_match(a: &PermUsages, b: &PermUsages) -> (r: bool)
    ensures
        r == perm_usages_eq(*a, *b),
{
    if a.entries.len() != b.entries.len() {
        return false;
    }
    let mut i: usize = 0;
    while i < a.entries.len()
        invariant
            a.entries@.len() == b.entries@.len(),
            i <= a.entries@.len(),
            forall|k: int|
                0 <= k < i ==> (#[trigger] a.entries@[k]).0@ == (#[trigger] b.entries@[k]).0@
                    && usage_lists_eq(a.entries@[k].1@, b.entries@[k].1@),
        decreases a.entries@.len() - i,
    {
        if a.entries[i].0 != b.entries[i].0 {
            return false;
        }
        if !usage_lists_match(&a.entries[i].1, &b.entries[i].1) {
            return false;
        }
        i = i + 1;
    }
    true
}

/// The warnings for configuration that matched nothing: one
/// `UnusedPackageConfig` per package absent from the dependency tree, then
/// one `UnusedAllowApi` per package with allowed permissions never used.
pub fn problems_from_unused(uc: &crate::checker::UnusedConfig) -> (r: ProblemList)
    ensures
        r.problems@.len() == uc.unknown_crates@.len() + uc.unused_allow_apis@.len(),
        forall|i: int|
            0 <= i < uc.unknown_crates@.len() ==> #[trigger] r.problems@[i]
                == Problem::UnusedPackageConfig(uc.unknown_crates@[i]),
        forall|j: int|
            0 <= j < uc.unused_allow_apis@.len() ==> {
                &&& (#[trigger] r.problems@[uc.unknown_crates@.len() + j])
                    matches Problem::UnusedAllowApi(u)
                &&& r.problems@[uc.unknown_crates@.len() + j]->UnusedAllowApi_0.crate_name
                    == uc.unused_allow_apis@[j].0
                &&& crate::config::views_of(
                    r.problems@[uc.unknown_crates@.len() + j]->UnusedAllowApi_0.permissions@,
                ) == crate::config::views_of(uc.unused_allow_apis@[j].1@)
            },
{
    let mut out = ProblemList::new();
    let n = uc.unknown_crates.len();
    let mut i: usize = 0;
    while i < n
        invariant
            n == uc.unknown_crates@.len(),
            i <= n,
            out.problems@.len() == i,
            forall|k: int|
                0 <= k < i ==> #[trigger] out.problems@[k] == Problem::UnusedPackageConfig(
                    uc.unknown_crates@[k],
                ),
        decreases n - i,
    {
        out.push(Problem::UnusedPackageConfig(uc.unknown_crates[i].clone()));
        i = i + 1;
    }
    let m = uc.unused_allow_apis.len();
    let mut j: usize = 0;
    while j < m
        invariant
            n == uc.unknown_crates@.len(),
            m == uc.unused_allow_apis@.len(),
            j <= m,
            out.problems@.len() == n + j,
            forall|k: int|
                0 <= k < n ==> #[trigger] out.problems@[k] == Problem::UnusedPackageConfig(
                    uc.unknown_crates@[k],
                ),
            forall|k: int|
                0 <= k < j ==> {
                    &&& (#[trigger] out.problems@[n + k]) matches Problem::UnusedAllowApi(u)
                    &&& out.problems@[n + k]->UnusedAllowApi_0.crate_name
                        == uc.unused_allow_apis@[k].0
                    &&& crate::config::views_of(
                        out.problems@[n + k]->UnusedAllowApi_0.permissions@,
                    ) == crate::config::views_of(uc.unused_allow_apis@[k].1@)
                },
        decreases m - j,
    {
        let perms = crate::textutil::clone_string_vec(&uc.unused_allow_apis[j].1);
        proof {
            assert(crate::config::views_of(perms@) =~= crate::config::views_of(
                uc.unused_allow_apis@[j as int].1@,
            ));
        }
        out.push(
            Problem::UnusedAllowApi(
                UnusedAllowApi {
                    crate_name: uc.unused_allow_apis[j].0.clone(),
                    permissions: perms,
                },
            ),
        );
        j = j + 1;
    }
    out
}

/// How often a package name occurs among the unused-package warnings.
pub open spec fn count_unused_pkg(ps: Seq<Problem>, n: Seq<char>) -> int
    decreases ps.len(),
{
    if ps.len() == 0 {
        0int
    } else {
        count_unused_pkg(ps.drop_last(), n) + (match ps.last() {
            Problem::UnusedPackageConfig(m) => if m@ == n {
                1int
            } else {
                0int
            },
            _ => 0int,
        })
    }
}

/// A package the configuration names but the dependency tree lacks gets
/// exactly one `UnusedPackageConfig` warning: the list holds one per
/// distinct name, and nothing else mentions a package this way.
pub proof fn lemma_unused_package_config_once(
    ps: Seq<Problem>,
    names: Seq<String>,
    extra: int,
    k: int,
)
    requires
        crate::config::all_distinct(crate::config::views_of(names)),
        0 <= extra,
        ps.len() == names.len() + extra,
        forall|i: int|
            0 <= i < names.len() ==> #[trigger] ps[i] == Problem::UnusedPackageConfig(names[i]),
        forall|i: int|
            names.len() <= i < ps.len() ==> !((#[trigger] ps[i]) is UnusedPackageConfig),
        0 <= k < names.len(),
    ensures
        count_unused_pkg(ps, names[k]@) == 1,
    decreases ps.len(),
{
    if ps.len() > names.len() {
        assert forall|i: int| 0 <= i < names.len() implies #[trigger] ps.drop_last()[i]
            == Problem::UnusedPackageConfig(names[i]) by {
            assert(ps[i] == Problem::UnusedPackageConfig(names[i]));
        }
        assert forall|i: int|
            names.len() <= i < ps.drop_last().len() implies !((#[trigger] ps.drop_last()[i])
                is UnusedPackageConfig) by {
            assert(!(ps[i] is UnusedPackageConfig));
        }
        lemma_unused_package_config_once(ps.drop_last(), names, extra - 1, k);
        assert(!(ps.last() is UnusedPackageConfig));
        assert(ps.len() != 0);
        assert(count_unused_pkg(ps, names[k]@) == count_unused_pkg(
            ps.drop_last(),
            names[k]@,
        ) + (match ps.last() {
            Problem::UnusedPackageConfig(m) => if m@ == names[k]@ {
                1int
            } else {
                0int
            },
            _ => 0int,
        }));
    } else {
        lemma_count_prefix(ps, names, k, ps.len() as int);
        assert(ps.take(ps.len() as int) =~= ps);
    }
}

proof fn lemma_count_prefix(ps: Seq<Problem>, names: Seq<String>, k: int, upto: int)
    requires
        crate::config::all_distinct(crate::config::views_of(names)),
        ps.len() == names.len(),
        forall|i: int|
            0 <= i < names.len() ==> #[trigger] ps[i] == Problem::UnusedPackageConfig(names[i]),
        0 <= k < names.len(),
        0 <= upto <= ps.len(),
    ensures
        count_unused_pkg(ps.take(upto), names[k]@) == if k < upto {
            1int
        } else {
            0int
        },
    decreases upto,
{
    if upto > 0 {
        lemma_count_prefix(ps, names, k, upto - 1);
        assert(ps.take(upto).drop_last() =~= ps.take(upto - 1));
        assert(ps.take(upto).last() == ps[upto - 1]);
        assert(ps[upto - 1] == Problem::UnusedPackageConfig(names[upto - 1]));
        if upto - 1 != k {
            assert(crate::config::views_of(names)[upto - 1] != crate::config::views_of(
                names,
            )[k]);
            assert(names[upto - 1]@ != names[k]@);
        }
    } else {
        assert(ps.take(0) =~= Seq::<Problem>::empty());
    }
}

/// The text a symbol-or-debug name shows as.
pub open spec fn sdn_view(s: SymbolOrDebugName) -> Seq<char> {
    match s {
        SymbolOrDebugName::Symbol(x) => x@,
        SymbolOrDebugName::DebugName(x) => x@,
    }
}

/// Sorted key-to-indices entries: one keyed index inserted, appending to
/// an equal key or landing at its lexicographic position.
pub open spec fn idx_merge_one(
    a: Seq<(Seq<char>, Seq<usize>)>,
    key: Seq<char>,
    idx: usize,
) -> Seq<(Seq<char>, Seq<usize>)>
    decreases a.len(),
{
    if a.len() == 0 {
        seq![(key, seq![idx])]
    } else if a[0].0 == key {
        seq![(a[0].0, a[0].1.push(idx))] + a.skip(1)
    } else if crate::textutil::lex_lt(key, a[0].0) {
        seq![(key, seq![idx])] + a
    } else {
        seq![a[0]] + idx_merge_one(a.skip(1), key, idx)
    }
}

/// The first `k` keyed indices grouped: equal keys collect their indices
/// in order, keys ascending.
pub open spec fn idx_group_pairs(pairs: Seq<(Seq<char>, usize)>, k: int) -> Seq<
    (Seq<char>, Seq<usize>),
>
    decreases k,
{
    if k <= 0 {
        Seq::empty()
    } else {
        idx_merge_one(idx_group_pairs(pairs, k - 1), pairs[k - 1].0, pairs[k - 1].1)
    }
}

pub open spec fn idx_entries_sorted(es: Seq<(Seq<char>, Seq<usize>)>) -> bool {
    forall|i: int, j: int|
        0 <= i < j < es.len() ==> crate::textutil::lex_lt(
            (#[trigger] es[i]).0,
            (#[trigger] es[j]).0,
        )
}

/// Every index in the grouping stems from one of the pairs.
pub open spec fn idx_entries_from(
    es: Seq<(Seq<char>, Seq<usize>)>,
    pairs: Seq<(Seq<char>, usize)>,
) -> bool {
    forall|e: int, t: int|
        #![trigger es[e].1[t]]
        0 <= e < es.len() && 0 <= t < es[e].1.len() ==> exists|w: int|
            0 <= w < pairs.len() && (#[trigger] pairs[w]).1 == es[e].1[t]
}

proof fn lemma_idx_merge_at(a: Seq<(Seq<char>, Seq<usize>)>, key: Seq<char>, idx: usize, i: int)
    requires
        0 <= i <= a.len(),
        forall|k: int| 0 <= k < i ==> crate::textutil::lex_lt((#[trigger] a[k]).0, key),
        i < a.len() ==> !crate::textutil::lex_lt(a[i].0, key),
    ensures
        idx_merge_one(a, key, idx) == if i < a.len() && a[i].0 == key {
            a.take(i) + seq![(a[i].0, a[i].1.push(idx))] + a.skip(i + 1)
        } else {
            a.take(i) + seq![(key, seq![idx])] + a.skip(i)
        },
    decreases i,
{
    if a.len() == 0 {
        assert(idx_merge_one(a, key, idx) =~= a.take(i) + seq![(key, seq![idx])] + a.skip(i));
    } else if i == 0 {
        if a[0].0 == key {
            assert(idx_merge_one(a, key, idx) =~= a.take(0) + seq![(a[0].0, a[0].1.push(idx))]
                + a.skip(1));
        } else {
            crate::textutil::lemma_lex_total_neq(key, a[0].0);
            assert(idx_merge_one(a, key, idx) =~= a.take(0) + seq![(key, seq![idx])] + a.skip(
                0,
            ));
        }
    } else {
        assert(crate::textutil::lex_lt(a[0].0, key));
        assert(a[0].0 != key) by {
            if a[0].0 == key {
                crate::textutil::lemma_lex_irrefl(key);
            }
        }
        assert(!crate::textutil::lex_lt(key, a[0].0)) by {
            if crate::textutil::lex_lt(key, a[0].0) {
                crate::textutil::lemma_lex_asym(key, a[0].0);
            }
        }
        assert forall|k: int| 0 <= k < i - 1 implies crate::textutil::lex_lt(
            (#[trigger] a.skip(1)[k]).0,
            key,
        ) by {
            assert(a[k + 1].0 == a.skip(1)[k].0);
        }
        lemma_idx_merge_at(a.skip(1), key, idx, i - 1);
        if i < a.len() && a[i].0 == key {
            assert(seq![a[0]] + (a.skip(1).take(i - 1) + seq![
                (a.skip(1)[i - 1].0, a.skip(1)[i - 1].1.push(idx)),
            ] + a.skip(1).skip(i)) =~= a.take(i) + seq![(a[i].0, a[i].1.push(idx))] + a.skip(
                i + 1,
            ));
        } else {
            assert(seq![a[0]] + (a.skip(1).take(i - 1) + seq![(key, seq![idx])] + a.skip(
                1,
            ).skip(i - 1)) =~= a.take(i) + seq![(key, seq![idx])] + a.skip(i));
        }
    }
}

/// Groups keyed indices: per distinct key, its indices in the order given,
/// keys ascending.
fn group_pairs(pairs: &Vec<(String, usize)>) -> (r: Vec<(String, Vec<usize>)>)
    ensures
        r@.map_values(|e: (String, Vec<usize>)| (e.0@, e.1@)) == idx_group_pairs(
            pairs@.map_values(|p: (String, usize)| (p.0@, p.1)),
            pairs@.len() as int,
        ),
        idx_entries_sorted(r@.map_values(|e: (String, Vec<usize>)| (e.0@, e.1@))),
        idx_entries_from(
            r@.map_values(|e: (String, Vec<usize>)| (e.0@, e.1@)),
            pairs@.map_values(|p: (String, usize)| (p.0@, p.1)),
        ),
{
    let ghost pv = pairs@.map_values(|p: (String, usize)| (p.0@, p.1));
    let mut out: Vec<(String, Vec<usize>)> = Vec::new();
    let mut i: usize = 0;
    proof {
        assert(out@.map_values(|e: (String, Vec<usize>)| (e.0@, e.1@)) =~= idx_group_pairs(
            pv,
            0,
        ));
    }
    while i < pairs.len()
        invariant
            i <= pairs@.len(),
            pv == pairs@.map_values(|p: (String, usize)| (p.0@, p.1)),
            out@.map_values(|e: (String, Vec<usize>)| (e.0@, e.1@)) == idx_group_pairs(
                pv,
                i as int,
            ),
            idx_entries_sorted(out@.map_values(|e: (String, Vec<usize>)| (e.0@, e.1@))),
            idx_entries_from(
                out@.map_values(|e: (String, Vec<usize>)| (e.0@, e.1@)),
                pv,
            ),
        decreases pairs@.len() - i,
    {
        let ghost before = out@.map_values(|e: (String, Vec<usize>)| (e.0@, e.1@));
        let key = &pairs[i].0;
        let idx = pairs[i].1;
        let n = out.len();
        let mut e: usize = 0;
        while e < n && crate::textutil::str_lex_lt(out[e].0.as_str(), key.as_str())
            invariant
                before == out@.map_values(|e2: (String, Vec<usize>)| (e2.0@, e2.1@)),
                n == out@.len(),
                e <= n,
                i < pairs@.len(),
                key == &pairs@[i as int].0,
                forall|k: int|
                    0 <= k < e ==> crate::textutil::lex_lt((#[trigger] before[k]).0, key@),
            decreases n - e,
        {
            e = e + 1;
        }
        proof {
            lemma_idx_merge_at(before, key@, idx, e as int);
        }
        if e < n && out[e].0 == *key {
            let slot = crate::textutil::vec_mut_ref(&mut out, e);
            slot.1.push(idx);
            proof {
                assert(out@.map_values(|e2: (String, Vec<usize>)| (e2.0@, e2.1@)) =~= before.take(
                    e as int,
                ) + seq![(before[e as int].0, before[e as int].1.push(idx))] + before.skip(
                    e as int + 1,
                ));
            }
        } else {
            proof {
                if e < n {
                    crate::textutil::lemma_lex_total_neq(key@, before[e as int].0);
                }
            }
            let mut ids: Vec<usize> = Vec::new();
            ids.push(idx);
            out.insert(e, (key.clone(), ids));
            proof {
                assert(out@.map_values(|e2: (String, Vec<usize>)| (e2.0@, e2.1@)) =~= before.take(
                    e as int,
                ) + seq![(key@, seq![idx])] + before.skip(e as int));
            }
        }
        proof {
            let after = out@.map_values(|e2: (String, Vec<usize>)| (e2.0@, e2.1@));
            assert(after == idx_group_pairs(pv, i + 1));
            assert forall|x: int, y: int|
                0 <= x < y < after.len() implies crate::textutil::lex_lt(
                (#[trigger] after[x]).0,
                (#[trigger] after[y]).0,
            ) by {
                if e < n && before[e as int].0 == key@ {
                    assert(after[x].0 == before[x].0);
                    assert(after[y].0 == before[y].0);
                } else {
                    let xx = if x < e {
                        x
                    } else {
                        x - 1
                    };
                    let yy = if y < e {
                        y
                    } else {
                        y - 1
                    };
                    if x == e {
                        assert(after[y].0 == before[yy].0);
                        assert(!crate::textutil::lex_lt(before[e as int].0, key@) || e >= n);
                        crate::textutil::lemma_lex_total_neq(key@, before[yy].0);
                        if yy != e {
                            crate::textutil::lemma_lex_trans(
                                key@,
                                before[e as int].0,
                                before[yy].0,
                            );
                        }
                    } else if y == e {
                        assert(after[x].0 == before[xx].0);
                    } else {
                        assert(after[x].0 == before[xx].0);
                        assert(after[y].0 == before[yy].0);
                    }
                }
            }
            assert forall|e2: int, t: int|
                #![trigger after[e2].1[t]]
                0 <= e2 < after.len() && 0 <= t < after[e2].1.len() implies exists|w: int|
                0 <= w < pv.len() && (#[trigger] pv[w]).1 == after[e2].1[t] by {
                if e < n && before[e as int].0 == key@ {
                    if e2 == e && t == after[e2].1.len() - 1 {
                        assert(pv[i as int].1 == idx);
                    } else {
                        assert(before[e2].1[t] == after[e2].1[t]);
                    }
                } else {
                    if e2 == e {
                        assert(after[e2].1[t] == idx);
                        assert(pv[i as int].1 == idx);
                    } else {
                        let ee = if e2 < e {
                            e2
                        } else {
                            e2 - 1
                        };
                        assert(before[ee].1[t] == after[e2].1[t]);
                    }
                }
            }
        }
        i = i + 1;
    }
    out
}

/// The reference line of one usage: where it leads and the position in
/// brackets.
pub open spec fn usage_ref_line(u: ApiUsage) -> Seq<char> {
    let head = "        -> "@ + u.to_source@ + " ["@ + crate::textutil::dec_str(u.source_location.line as nat);
    match u.source_location.column {
        Some(col) => head + seq![':'] + crate::textutil::dec_str(col as nat) + "]"@,
        None => head + "]"@,
    }
}

/// The reference lines of the usages a group names, in order.
pub open spec fn ref_lines(us: Seq<ApiUsage>, idxs: Seq<usize>, t: int) -> Seq<Seq<char>>
    decreases t,
{
    if t <= 0 {
        Seq::empty()
    } else {
        let rest = ref_lines(us, idxs, t - 1);
        if idxs[t - 1] < us.len() {
            rest.push(usage_ref_line(us[idxs[t - 1] as int]))
        } else {
            rest
        }
    }
}

/// The lines under one filename: per caller its name, then its references.
pub open spec fn from_group_lines(
    us: Seq<ApiUsage>,
    groups: Seq<(Seq<char>, Seq<usize>)>,
    g: int,
) -> Seq<Seq<char>>
    decreases g,
{
    if g <= 0 {
        Seq::empty()
    } else {
        from_group_lines(us, groups, g - 1) + seq!["      "@ + groups[g - 1].0] + ref_lines(
            us,
            groups[g - 1].1,
            groups[g - 1].1.len() as int,
        )
    }
}

/// The keyed pairs a list of indices gives rise to, keyed by who used the
/// API.
pub open spec fn from_pairs_of(us: Seq<ApiUsage>, idxs: Seq<usize>) -> Seq<(Seq<char>, usize)> {
    idxs.map_values(
        |idx: usize|
            (
                if idx < us.len() {
                    sdn_view(us[idx as int].from)
                } else {
                    Seq::empty()
                },
                idx,
            ),
    )
}

/// The full usage listing: per filename (ascending) its name, then per
/// caller (ascending) the references, in observation order.
pub open spec fn display_usages_lines(
    us: Seq<ApiUsage>,
    file_groups: Seq<(Seq<char>, Seq<usize>)>,
    g: int,
) -> Seq<Seq<char>>
    decreases g,
{
    if g <= 0 {
        Seq::empty()
    } else {
        display_usages_lines(us, file_groups, g - 1) + seq!["    "@ + file_groups[g - 1].0]
            + from_group_lines(
            us,
            idx_group_pairs(
                from_pairs_of(us, file_groups[g - 1].1),
                file_groups[g - 1].1.len() as int,
            ),
            idx_group_pairs(
                from_pairs_of(us, file_groups[g - 1].1),
                file_groups[g - 1].1.len() as int,
            ).len() as int,
        )
    }
}

fn sdn_string(s: &SymbolOrDebugName) -> (r: String)
    ensures
        r@ == sdn_view(*s),
{
    match s {
        SymbolOrDebugName::Symbol(x) => x.clone(),
        SymbolOrDebugName::DebugName(x) => x.clone(),
    }
}

/// The indices of all usages, keyed by their source file.
pub open spec fn file_pairs_of(us: Seq<ApiUsage>) -> Seq<(Seq<char>, usize)> {
    Seq::new(us.len(), |i: int| (us[i].source_location.filename@, i as usize))
}

/// Renders a usage listing: the usages grouped by source file, within each
/// file by the symbol or debug name that used the API, each reference with
/// its target and position.
pub fn display_usages(usages: &Vec<ApiUsage>) -> (r: Vec<String>)
    ensures
        r@.map_values(|s: String| s@) == display_usages_lines(
            usages@,
            idx_group_pairs(file_pairs_of(usages@), usages@.len() as int),
            idx_group_pairs(file_pairs_of(usages@), usages@.len() as int).len() as int,
        ),
{
    let ghost us = usages@;
    let n = usages.len();
    let mut pairs1: Vec<(String, usize)> = Vec::new();
    let mut i: usize = 0;
    while i < n
        invariant
            n == us.len(),
            us == usages@,
            i <= n,
            pairs1@.len() == i,
            forall|k: int|
                0 <= k < i ==> (#[trigger] pairs1@[k]).0@ == us[k].source_location.filename@
                    && pairs1@[k].1 == k,
        decreases n - i,
    {
        pairs1.push((usages[i].source_location.filename.clone(), i));
        i = i + 1;
    }
    proof {
        assert(pairs1@.map_values(|p: (String, usize)| (p.0@, p.1)) =~= file_pairs_of(us));
    }
    let groups1 = group_pairs(&pairs1);
    let ghost fp = file_pairs_of(us);
    let ghost fg = idx_group_pairs(fp, n as int);
    proof {
        assert(groups1@.map_values(|e: (String, Vec<usize>)| (e.0@, e.1@)) == fg);
    }
    let mut out: Vec<String> = Vec::new();
    let mut g: usize = 0;
    proof {
        assert(out@.map_values(|s2: String| s2@) =~= display_usages_lines(us, fg, 0));
    }
    while g < groups1.len()
        invariant
            us == usages@,
            n == us.len(),
            fp == file_pairs_of(us),
            fg == idx_group_pairs(fp, n as int),
            groups1@.map_values(|e: (String, Vec<usize>)| (e.0@, e.1@)) == fg,
            idx_entries_from(fg, fp),
            g <= groups1@.len(),
            out@.map_values(|s2: String| s2@) == display_usages_lines(us, fg, g as int),
        decreases groups1@.len() - g,
    {
        let mut file_line = String::new();
        file_line.append("    ");
        file_line.append(groups1[g].0.as_str());
        proof {
            assert(file_line@ =~= "    "@ + fg[g as int].0);
        }
        out.push(file_line);
        let ghost mid = out@.map_values(|s2: String| s2@);
        proof {
            assert(mid =~= display_usages_lines(us, fg, g as int) + seq![
                "    "@ + fg[g as int].0,
            ]);
        }
        let ghost idxs = fg[g as int].1;
        let m = groups1[g].1.len();
        let mut pairs2: Vec<(String, usize)> = Vec::new();
        let mut t: usize = 0;
        while t < m
            invariant
                us == usages@,
                n == us.len(),
                fp == file_pairs_of(us),
                fg == idx_group_pairs(fp, n as int),
                groups1@.map_values(|e: (String, Vec<usize>)| (e.0@, e.1@)) == fg,
                idx_entries_from(fg, fp),
                g < groups1@.len(),
                idxs == fg[g as int].1,
                m == idxs.len(),
                t <= m,
                pairs2@.len() == t,
                forall|k: int|
                    0 <= k < t ==> idxs[k] < n && (#[trigger] pairs2@[k]).0@ == sdn_view(
                        us[idxs[k] as int].from,
                    ) && pairs2@[k].1 == idxs[k],
            decreases m - t,
        {
            let idx = groups1[g].1[t];
            proof {
                assert(idxs[t as int] == idx);
                assert(exists|w: int| 0 <= w < fp.len() && (#[trigger] fp[w]).1 == idx) by {
                    assert(fg[g as int].1[t as int] == idx);
                }
                let w = choose|w: int| 0 <= w < fp.len() && (#[trigger] fp[w]).1 == idx;
                assert(fp[w] == (us[w].source_location.filename@, w as usize));
                assert(idx < n);
            }
            pairs2.push((sdn_string(&usages[idx].from), idx));
            t = t + 1;
        }
        proof {
            assert forall|k: int| 0 <= k < m implies idxs[k] < n by {
                assert(fg[g as int].1[k] == idxs[k]);
                let w = choose|w: int| 0 <= w < fp.len() && (#[trigger] fp[w]).1 == idxs[k];
                assert(fp[w] == (us[w].source_location.filename@, w as usize));
            }
            assert(pairs2@.map_values(|p: (String, usize)| (p.0@, p.1)) =~= from_pairs_of(
                us,
                idxs,
            ));
        }
        let groups2 = group_pairs(&pairs2);
        let ghost fp2 = from_pairs_of(us, idxs);
        let ghost fg2 = idx_group_pairs(fp2, m as int);
        proof {
            assert(fp2.len() == m);
            assert(groups2@.map_values(|e: (String, Vec<usize>)| (e.0@, e.1@)) == fg2);
        }
        let mut g2: usize = 0;
        proof {
            assert(out@.map_values(|s2: String| s2@) =~= mid + from_group_lines(us, fg2, 0));
        }
        while g2 < groups2.len()
            invariant
                us == usages@,
                n == us.len(),
                idxs == fg[g as int].1,
                m == idxs.len(),
                fp2 == from_pairs_of(us, idxs),
                fg2 == idx_group_pairs(fp2, m as int),
                groups2@.map_values(|e: (String, Vec<usize>)| (e.0@, e.1@)) == fg2,
                idx_entries_from(fg2, fp2),
                idx_entries_from(fg, fp),
                fp == file_pairs_of(us),
                fg == idx_group_pairs(fp, n as int),
                g < fg.len(),
                g2 <= groups2@.len(),
                out@.map_values(|s2: String| s2@) == mid + from_group_lines(
                    us,
                    fg2,
                    g2 as int,
                ),
            decreases groups2@.len() - g2,
        {
            let mut from_line = String::new();
            from_line.append("      ");
            from_line.append(groups2[g2].0.as_str());
            proof {
                assert(from_line@ =~= "      "@ + fg2[g2 as int].0);
            }
            out.push(from_line);
            let ghost mid2 = out@.map_values(|s2: String| s2@);
            proof {
                assert(mid2 =~= mid + from_group_lines(us, fg2, g2 as int) + seq![
                    "      "@ + fg2[g2 as int].0,
                ]);
            }
            let ghost idxs2 = fg2[g2 as int].1;
            let mm = groups2[g2].1.len();
            let mut t2: usize = 0;
            proof {
                assert(out@.map_values(|s2: String| s2@) =~= mid2 + ref_lines(us, idxs2, 0));
            }
            while t2 < mm
                invariant
                    us == usages@,
                    n == us.len(),
                    fp2 == from_pairs_of(us, idxs),
                    idxs == fg[g as int].1,
                    fg2 == idx_group_pairs(fp2, m as int),
                    m == idxs.len(),
                    idx_entries_from(fg2, fp2),
                    idx_entries_from(fg, fp),
                    fp == file_pairs_of(us),
                    fg == idx_group_pairs(fp, n as int),
                    g < fg.len(),
                    g2 < fg2.len(),
                    groups2@.map_values(|e: (String, Vec<usize>)| (e.0@, e.1@)) == fg2,
                    idxs2 == fg2[g2 as int].1,
                    mm == idxs2.len(),
                    t2 <= mm,
                    out@.map_values(|s2: String| s2@) == mid2 + ref_lines(
                        us,
                        idxs2,
                        t2 as int,
                    ),
                decreases mm - t2,
            {
                let idx = groups2[g2].1[t2];
                proof {
                    assert(idxs2[t2 as int] == idx);
                    assert(exists|w: int| 0 <= w < fp2.len() && (#[trigger] fp2[w]).1 == idx)
                        by {
                        assert(fg2[g2 as int].1[t2 as int] == idx);
                    }
                    let w = choose|w: int| 0 <= w < fp2.len() && (#[trigger] fp2[w]).1 == idx;
                    assert(fp2[w].1 == idxs[w]);
                    assert(w < idxs.len());
                    assert(exists|w2: int|
                        0 <= w2 < fp.len() && (#[trigger] fp[w2]).1 == idxs[w]) by {
                        assert(0 <= g < fg.len());
                        assert(fg[g as int].1[w] == idxs[w]);
                    }
                    let w2 = choose|w2: int|
                        0 <= w2 < fp.len() && (#[trigger] fp[w2]).1 == idxs[w];
                    assert(fp[w2] == (us[w2].source_location.filename@, w2 as usize));
                    assert(idx < n);
                }
                let u = &usages[idx];
                let mut line = String::new();
                line.append("        -> ");
                line.append(u.to_source.as_str());
                line.append(" [");
                let line_no = crate::textutil::u64_to_string(u.source_location.line as u64);
                line.append(line_no.as_str());
                match &u.source_location.column {
                    Some(col) => {
                        line.append(":");
                        let col_no = crate::textutil::u64_to_string(*col as u64);
                        line.append(col_no.as_str());
                        line.append("]");
                        proof {
                            reveal_strlit(":");
                            assert(line@ =~= usage_ref_line(us[idx as int]));
                        }
                    },
                    None => {
                        line.append("]");
                        proof {
                            assert(line@ =~= usage_ref_line(us[idx as int]));
                        }
                    },
                }
                let ghost pre = out@;
                out.push(line);
                proof {
                    assert(ref_lines(us, idxs2, t2 + 1) == ref_lines(us, idxs2, t2 as int).push(
                        usage_ref_line(us[idxs2[t2 as int] as int]),
                    ));
                    let mv = out@.map_values(|s2: String| s2@);
                    let target = mid2 + ref_lines(us, idxs2, t2 + 1);
                    assert(out@ =~= pre.push(out@.last()));
                    assert(pre.map_values(|s2: String| s2@).len() == mid2.len() + ref_lines(
                        us,
                        idxs2,
                        t2 as int,
                    ).len());
                    assert(mv.len() == target.len());
                    assert forall|k: int| 0 <= k < mv.len() implies mv[k] == target[k] by {
                        if k < pre.len() {
                            assert(out@[k] == pre[k]);
                            assert(pre.map_values(|s2: String| s2@)[k] == (mid2 + ref_lines(
                                us,
                                idxs2,
                                t2 as int,
                            ))[k]);
                        } else {
                            assert(mv[k] == out@.last()@);
                            assert(target[k] == usage_ref_line(us[idxs2[t2 as int] as int]));
                        }
                    }
                    assert(mv =~= target);
                }
                t2 = t2 + 1;
            }
            proof {
                assert(out@.map_values(|s2: String| s2@) =~= mid + from_group_lines(
                    us,
                    fg2,
                    g2 + 1,
                ));
            }
            g2 = g2 + 1;
        }
        proof {
            assert(out@.map_values(|s2: String| s2@) =~= display_usages_lines(us, fg, g + 1));
        }
        g = g + 1;
    }
    out
}

/// The full usage listing of one usage list.
pub open spec fn du_spec(us: Seq<ApiUsage>) -> Seq<Seq<char>> {
    display_usages_lines(
        us,
        idx_group_pairs(file_pairs_of(us), us.len() as int),
        idx_group_pairs(file_pairs_of(us), us.len() as int).len() as int,
    )
}

/// The detail sections of a disallowed-API problem: per permission its
/// name, then the grouped usages.
pub open spec fn detail_sections(es: Seq<(String, Vec<ApiUsage>)>, p: int) -> Seq<Seq<char>>
    decreases p,
{
    if p <= 0 {
        Seq::empty()
    } else {
        detail_sections(es, p - 1) + seq!["  "@ + es[p - 1].0@ + seq![':']] + du_spec(
            es[p - 1].1@,
        )
    }
}

/// One reported unsafe location.
pub open spec fn unsafe_loc_line(loc: SourceLocation) -> Seq<char> {
    let head = "    "@ + loc.filename@ + seq![':'] + crate::textutil::dec_str(loc.line as nat);
    match loc.column {
        Some(col) => head + seq![':'] + crate::textutil::dec_str(col as nat),
        None => head,
    }
}

pub open spec fn unsafe_loc_lines(locs: Seq<SourceLocation>, t: int) -> Seq<Seq<char>>
    decreases t,
{
    if t <= 0 {
        Seq::empty()
    } else {
        unsafe_loc_lines(locs, t - 1).push(unsafe_loc_line(locs[t - 1]))
    }
}

pub open spec fn allowed_api_lines(perms: Seq<String>, t: int) -> Seq<Seq<char>>
    decreases t,
{
    if t <= 0 {
        Seq::empty()
    } else {
        allowed_api_lines(perms, t - 1).push("    "@ + perms[t - 1]@)
    }
}

/// The expanded rendering of a problem, line by line: most problems show
/// their one-line message; disallowed-API problems list every usage,
/// disallowed-unsafe problems their locations, and unused-allow warnings
/// the idle permissions.
pub open spec fn details_spec(p: Problem) -> Seq<Seq<char>> {
    match p {
        Problem::DisallowedApiUsage(info) => seq![
            "'"@ + crate_sel_display(info.crate_sel) + "' uses disallowed APIs:"@,
        ] + detail_sections(info.usages.entries@, info.usages.entries@.len() as int),
        Problem::DisallowedUnsafe(u) => seq![summary_spec(p)] + unsafe_loc_lines(
            u.locations@,
            u.locations@.len() as int,
        ),
        Problem::UnusedAllowApi(info) => seq![
            "`pkg."@ + info.crate_name@ + "` allows APIs that aren't used:"@,
        ] + allowed_api_lines(info.permissions@, info.permissions@.len() as int),
        _ => seq![summary_spec(p)],
    }
}

impl Problem {
    /// Renders the expanded, multi-line form of the problem.
    pub fn details_lines(&self) -> (r: Vec<String>)
        ensures
            r@.map_values(|s: String| s@) == details_spec(*self),
    {
        let mut out: Vec<String> = Vec::new();
        match self {
            Problem::DisallowedApiUsage(info) => {
                let mut header = String::new();
                header.append("'");
                let d = info.crate_sel.display_string();
                header.append(d.as_str());
                header.append("' uses disallowed APIs:");
                proof {
                    assert(header@ =~= "'"@ + crate_sel_display(info.crate_sel)
                        + "' uses disallowed APIs:"@);
                }
                out.push(header);
                let ghost mid = out@.map_values(|s2: String| s2@);
                let np = info.usages.entries.len();
                let mut p: usize = 0;
                proof {
                    assert(out@.map_values(|s2: String| s2@) =~= mid + detail_sections(
                        info.usages.entries@,
                        0,
                    ));
                }
                while p < np
                    invariant
                        np == info.usages.entries@.len(),
                        p <= np,
                        out@.map_values(|s2: String| s2@) == mid + detail_sections(
                            info.usages.entries@,
                            p as int,
                        ),
                    decreases np - p,
                {
                    let mut perm_line = String::new();
                    perm_line.append("  ");
                    perm_line.append(info.usages.entries[p].0.as_str());
                    perm_line.append(":");
                    proof {
                        reveal_strlit(":");
                        assert(perm_line@ =~= "  "@ + info.usages.entries@[p as int].0@
                            + seq![':']);
                    }
                    out.push(perm_line);
                    let ghost mid2 = out@.map_values(|s2: String| s2@);
                    let mut usage_lines_out = display_usages(&info.usages.entries[p].1);
                    let ghost du = du_spec(info.usages.entries@[p as int].1@);
                    proof {
                        assert(usage_lines_out@.map_values(|s2: String| s2@) == du);
                    }
                    let mut t: usize = 0;
                    let nl = usage_lines_out.len();
                    while t < nl
                        invariant
                            nl == usage_lines_out@.len(),
                            t <= nl,
                            p < np,
                            np == info.usages.entries@.len(),
                            du == usage_lines_out@.map_values(|s2: String| s2@),
                            du == du_spec(info.usages.entries@[p as int].1@),
                            mid2 == mid + detail_sections(info.usages.entries@, p as int)
                                + seq!["  "@ + info.usages.entries@[p as int].0@ + seq![':']],
                            out@.map_values(|s2: String| s2@) == mid2 + du.take(t as int),
                        decreases nl - t,
                    {
                        let ghost pre = out@;
                        out.push(usage_lines_out[t].clone());
                        proof {
                            let mv = out@.map_values(|s2: String| s2@);
                            let target = mid2 + du.take(t + 1);
                            assert(out@ =~= pre.push(out@.last()));
                            assert(out@.last()@ == du[t as int]);
                            assert(du.take(t + 1) =~= du.take(t as int).push(du[t as int]));
                            assert(pre.map_values(|s2: String| s2@).len() == mid2.len()
                                + du.take(t as int).len());
                            assert(mv.len() == target.len());
                            assert forall|k: int| 0 <= k < mv.len() implies mv[k] == target[
                                k
                            ] by {
                                if k < pre.len() {
                                    assert(out@[k] == pre[k]);
                                    assert(pre.map_values(|s2: String| s2@)[k] == (mid2
                                        + du.take(t as int))[k]);
                                } else {
                                    assert(mv[k] == out@.last()@);
                                }
                            }
                            assert(mv =~= target);
                        }
                        t = t + 1;
                    }
                    proof {
                        assert(du.take(nl as int) =~= du);
                        assert(out@.map_values(|s2: String| s2@) =~= mid + detail_sections(
                            info.usages.entries@,
                            p + 1,
                        ));
                    }
                    p = p + 1;
                }
            },
            Problem::DisallowedUnsafe(u) => {
                out.push(self.summary_string());
                let ghost mid = out@.map_values(|s2: String| s2@);
                proof {
                    assert(mid =~= seq![summary_spec(*self)]);
                }
                let mut t: usize = 0;
                proof {
                    assert(out@.map_values(|s2: String| s2@) =~= mid + unsafe_loc_lines(
                        u.locations@,
                        0,
                    ));
                }
                while t < u.locations.len()
                    invariant
                        t <= u.locations@.len(),
                        out@.map_values(|s2: String| s2@) == mid + unsafe_loc_lines(
                            u.locations@,
                            t as int,
                        ),
                    decreases u.locations@.len() - t,
                {
                    let loc = &u.locations[t];
                    let mut line = String::new();
                    line.append("    ");
                    line.append(loc.filename.as_str());
                    line.append(":");
                    let line_no = crate::textutil::u64_to_string(loc.line as u64);
                    line.append(line_no.as_str());
                    match &loc.column {
                        Some(col) => {
                            line.append(":");
                            let col_no = crate::textutil::u64_to_string(*col as u64);
                            line.append(col_no.as_str());
                            proof {
                                reveal_strlit(":");
                                assert(line@ =~= unsafe_loc_line(u.locations@[t as int]));
                            }
                        },
                        None => {
                            proof {
                                reveal_strlit(":");
                                assert(line@ =~= unsafe_loc_line(u.locations@[t as int]));
                            }
                        },
                    }
                    let ghost pre = out@;
                    out.push(line);
                    proof {
                        let mv = out@.map_values(|s2: String| s2@);
                        let target = mid + unsafe_loc_lines(u.locations@, t + 1);
                        assert(out@ =~= pre.push(out@.last()));
                        assert(unsafe_loc_lines(u.locations@, t + 1) == unsafe_loc_lines(
                            u.locations@,
                            t as int,
                        ).push(unsafe_loc_line(u.locations@[t as int])));
                        assert(pre.map_values(|s2: String| s2@).len() == mid.len()
                            + unsafe_loc_lines(u.locations@, t as int).len());
                        assert(mv.len() == target.len());
                        assert forall|k: int| 0 <= k < mv.len() implies mv[k] == target[k] by {
                            if k < pre.len() {
                                assert(out@[k] == pre[k]);
                                assert(pre.map_values(|s2: String| s2@)[k] == (mid
                                    + unsafe_loc_lines(u.locations@, t as int))[k]);
                            } else {
                                assert(mv[k] == out@.last()@);
                            }
                        }
                        assert(mv =~= target);
                    }
                    t = t + 1;
                }
            },
            Problem::UnusedAllowApi(info) => {
                let mut header = String::new();
                header.append("`pkg.");
                header.append(info.crate_name.as_str());
                header.append("` allows APIs that aren't used:");
                proof {
                    assert(header@ =~= "`pkg."@ + info.crate_name@
                        + "` allows APIs that aren't used:"@);
                }
                out.push(header);
                let ghost mid = out@.map_values(|s2: String| s2@);
                let mut t: usize = 0;
                proof {
                    assert(out@.map_values(|s2: String| s2@) =~= mid + allowed_api_lines(
                        info.permissions@,
                        0,
                    ));
                }
                while t < info.permissions.len()
                    invariant
                        t <= info.permissions@.len(),
                        out@.map_values(|s2: String| s2@) == mid + allowed_api_lines(
                            info.permissions@,
                            t as int,
                        ),
                    decreases info.permissions@.len() - t,
                {
                    let mut line = String::new();
                    line.append("    ");
                    line.append(info.permissions[t].as_str());
                    proof {
                        assert(line@ =~= "    "@ + info.permissions@[t as int]@);
                    }
                    let ghost pre = out@;
                    out.push(line);
                    proof {
                        let mv = out@.map_values(|s2: String| s2@);
                        let target = mid + allowed_api_lines(info.permissions@, t + 1);
                        assert(out@ =~= pre.push(out@.last()));
                        assert(allowed_api_lines(info.permissions@, t + 1) == allowed_api_lines(
                            info.permissions@,
                            t as int,
                        ).push("    "@ + info.permissions@[t as int]@));
                        assert(pre.map_values(|s2: String| s2@).len() == mid.len()
                            + allowed_api_lines(info.permissions@, t as int).len());
                        assert(mv.len() == target.len());
                        assert forall|k: int| 0 <= k < mv.len() implies mv[k] == target[k] by {
                            if k < pre.len() {
                                assert(out@[k] == pre[k]);
                                assert(pre.map_values(|s2: String| s2@)[k] == (mid
                                    + allowed_api_lines(info.permissions@, t as int))[k]);
                            } else {
                                assert(mv[k] == out@.last()@);
                            }
                        }
                        assert(mv =~= target);
                    }
                    t = t + 1;
                }
            },
            other => {
                out.push(other.summary_string());
                proof {
                    assert(out@.map_values(|s2: String| s2@) =~= seq![summary_spec(*self)]);
                }
            },
        }
        out
    }
}

impl ApiUsages {
    /// The first recorded usage: the first usage of the first permission
    /// entry, when both exist.
    pub fn first_usage(&self) -> (r: Option<&ApiUsage>)
        ensures
            r is Some <==> (self.usages.entries@.len() > 0 && self.usages.entries@[0].1@.len()
                > 0),
            r matches Some(u) ==> *u == self.usages.entries@[0].1@[0],
    {
        if self.usages.entries.len() > 0 && self.usages.entries[0].1.len() > 0 {
            Some(&self.usages.entries[0].1[0])
        } else {
            None
        }
    }
}

/// The key usages group under when collapsing records that differ only in
/// their target: the crate, the first permission, and the first usage's
/// caller and position.  Records with the same key show only the shortest
/// target.
pub open spec fn usage_group_key_eq(a: ApiUsages, b: ApiUsages) -> bool {
    &&& sel_eq(a.crate_sel, b.crate_sel)
    &&& a.usages.entries@[0].0@ == b.usages.entries@[0].0@
    &&& sdn_eq(a.usages.entries@[0].1@[0].from, b.usages.entries@[0].1@[0].from)
    &&& loc_eq(
        a.usages.entries@[0].1@[0].source_location,
        b.usages.entries@[0].1@[0].source_location,
    )
}

/// Whether two usage records fall under the same grouping key.
pub fn usage_group_key_matches(a: &ApiUsages, b: &ApiUsages) -> (r: bool)
    requires
        a.usages.entries@.len() > 0,
        a.usages.entries@[0].1@.len() > 0,
        b.usages.entries@.len() > 0,
        b.usages.entries@[0].1@.len() > 0,
    ensures
        r == usage_group_key_eq(*a, *b),
{
    sels_match(&a.crate_sel, &b.crate_sel) && a.usages.entries[0].0 == b.usages.entries[0].0
        && sdns_match(&a.usages.entries[0].1[0].from, &b.usages.entries[0].1[0].from)
        && locs_match(
        &a.usages.entries[0].1[0].source_location,
        &b.usages.entries[0].1[0].source_location,
    )
}

} // verus!
