//! The permission checker: maps symbol-path prefixes to permissions with
//! ordered include/exclude semantics, tracks per-package allowlists and
//! accumulates disallowed usages.
//!
//! Permissions and packages are handled through dense integer ids: a
//! permission id is an index into `permission_names`, a crate id an index
//! into `crate_infos`.  Index 0 of `crate_infos` is the distinguished entry
//! for code whose owning package could not be resolved.

use vstd::prelude::*;

use crate::config::{all_distinct, entry_names, views_of, Config};

verus! {

/// The crate id reserved for code whose owning package is unknown.
pub const UNKNOWN_CRATE_ID: usize = 0;

/// One observed reference to a symbol, with a source mapping when one was
/// available.
pub enum Usage {
    Source(SourceLocation),
    Unknown(UnknownLocation),
}

/// A reference for which no source mapping was available.
pub struct UnknownLocation {
    pub object_path: String,
}

/// A source mapping for an observed reference.
pub struct SourceLocation {
    pub filename: String,
    /// Line number, 0 based.
    pub line_number: u32,
}

impl Usage {
    /// Rebuilds the usage; the copy equals the original.
    pub fn duplicate(&self) -> (r: Usage)
        ensures
            r == *self,
    {
        match self {
            Usage::Source(loc) => Usage::Source(
                SourceLocation { filename: loc.filename.clone(), line_number: loc.line_number },
            ),
            Usage::Unknown(loc) => Usage::Unknown(
                UnknownLocation { object_path: loc.object_path.clone() },
            ),
        }
    }
}

/// A set of permission ids, kept as a duplicate-free vector so that the
/// order of first insertion is preserved.
pub struct PermSet {
    ids: Vec<usize>,
}

impl PermSet {
    /// The ids in insertion order.
    pub closed spec fn id_seq(self) -> Seq<usize> {
        self.ids@
    }

    /// The ids as a set.
    pub open spec fn to_set(self) -> Set<usize> {
        self.id_seq().to_set()
    }

    pub open spec fn wf(self) -> bool {
        forall|i: int, j: int|
            0 <= i < j < self.id_seq().len() ==> self.id_seq()[i] != self.id_seq()[j]
    }

    /// All ids are below `n`.
    pub open spec fn bounded(self, n: int) -> bool {
        forall|i: int| 0 <= i < self.id_seq().len() ==> self.id_seq()[i] < n
    }

    pub fn new() -> (r: PermSet)
        ensures
            r.id_seq() == Seq::<usize>::empty(),
            r.wf(),
    {
        PermSet { ids: Vec::new() }
    }

    pub fn contains(&self, id: usize) -> (r: bool)
        ensures
            r == self.to_set().contains(id),
    {
        let mut i: usize = 0;
        while i < self.ids.len()
            invariant
                i <= self.ids@.len(),
                forall|j: int| 0 <= j < i ==> self.ids@[j] != id,
            decreases self.ids@.len() - i,
        {
            if self.ids[i] == id {
                proof {
                    assert(self.id_seq().contains(id));
                }
                return true;
            }
            i = i + 1;
        }
        proof {
            assert(!self.id_seq().contains(id));
        }
        false
    }

    pub fn insert(&mut self, id: usize)
        requires
            old(self).wf(),
        ensures
            final(self).wf(),
            final(self).to_set() == old(self).to_set().insert(id),
            final(self).id_seq() == if old(self).to_set().contains(id) {
                old(self).id_seq()
            } else {
                old(self).id_seq().push(id)
            },
    {
        if !self.contains(id) {
            self.ids.push(id);
            proof {
                assert(self.id_seq().drop_last() =~= old(self).id_seq());
                assert forall|x: usize| self.to_set().contains(x) implies old(self).to_set().insert(id).contains(x) by {
                    let k = choose|k: int| 0 <= k < self.id_seq().len() && self.id_seq()[k] == x;
                    if k < self.id_seq().len() - 1 {
                        assert(old(self).id_seq().contains(x));
                    }
                }
                assert forall|x: usize| old(self).to_set().insert(id).contains(x) implies self
                    .to_set()
                    .contains(x) by {
                    if x == id {
                        assert(self.id_seq()[self.id_seq().len() - 1] == id);
                        assert(self.id_seq().contains(x));
                    } else {
                        let k = choose|k: int|
                            0 <= k < old(self).id_seq().len() && old(self).id_seq()[k] == x;
                        assert(self.id_seq()[k] == x);
                    }
                }
                assert(self.to_set() =~= old(self).to_set().insert(id));
            }
        } else {
            proof {
                assert(self.to_set() =~= old(self).to_set().insert(id));
            }
        }
    }

    /// How `remove` reorders the ids: the first occurrence disappears.
    pub open spec fn remove_first(s: Seq<usize>, x: usize) -> Seq<usize>
        decreases s.len(),
    {
        if s.len() == 0 {
            s
        } else if s[0] == x {
            s.skip(1)
        } else {
            seq![s[0]] + Self::remove_first(s.skip(1), x)
        }
    }

    pub fn remove(&mut self, id: usize)
        requires
            old(self).wf(),
        ensures
            final(self).wf(),
            final(self).to_set() == old(self).to_set().remove(id),
            final(self).id_seq() == Self::remove_first(old(self).id_seq(), id),
    {
        let ghost orig = self.id_seq();
        let mut i: usize = 0;
        while i < self.ids.len()
            invariant
                orig == old(self).id_seq(),
                self.id_seq() == orig,
                i <= orig.len(),
                forall|j: int| 0 <= j < i ==> orig[j] != id,
                forall|a: int, b: int| 0 <= a < b < orig.len() ==> orig[a] != orig[b],
            decreases orig.len() - i,
        {
            if self.ids[i] == id {
                self.ids.remove(i);
                proof {
                    Self::lemma_remove_first_at(orig, id, i as int);
                    assert forall|a: int, b: int|
                        0 <= a < b < self.id_seq().len() implies self.id_seq()[a]
                        != self.id_seq()[b] by {
                        let aa = if a < i {
                            a
                        } else {
                            a + 1
                        };
                        let bb = if b < i {
                            b
                        } else {
                            b + 1
                        };
                        assert(self.id_seq()[a] == orig[aa]);
                        assert(self.id_seq()[b] == orig[bb]);
                        assert(orig[aa] != orig[bb]);
                    }
                    assert forall|x: usize| self.to_set().contains(x) implies orig.to_set().remove(
                        id,
                    ).contains(x) by {
                        let k = choose|k: int|
                            0 <= k < self.id_seq().len() && self.id_seq()[k] == x;
                        if k < i {
                            assert(orig[k] == x);
                            assert(orig[k] != orig[i as int]);
                        } else {
                            assert(orig[k + 1] == x);
                            assert(orig[k + 1] != orig[i as int]);
                        }
                        assert(orig.to_set().contains(x));
                        assert(x != id);
                    }
                    assert forall|x: usize| orig.to_set().remove(id).contains(x) implies self
                        .to_set()
                        .contains(x) by {
                        let k = choose|k: int| 0 <= k < orig.len() && orig[k] == x;
                        if k < i {
                            assert(self.id_seq()[k] == x);
                        } else {
                            assert(k != i);
                            assert(self.id_seq()[k - 1] == x);
                        }
                        assert(self.id_seq().contains(x));
                    }
                    assert(self.to_set() =~= orig.to_set().remove(id));
                }
                return ;
            }
            i = i + 1;
        }
        proof {
            assert(!orig.to_set().contains(id));
            assert(self.to_set() =~= orig.to_set().remove(id));
            Self::lemma_remove_first_absent(orig, id);
        }
    }

    proof fn lemma_remove_first_at(s: Seq<usize>, x: usize, i: int)
        requires
            0 <= i < s.len(),
            s[i] == x,
            forall|j: int| 0 <= j < i ==> s[j] != x,
        ensures
            Self::remove_first(s, x) == s.remove(i),
        decreases i,
    {
        if i == 0 {
            assert(Self::remove_first(s, x) == s.skip(1));
            assert(s.skip(1) =~= s.remove(0));
        } else {
            Self::lemma_remove_first_at(s.skip(1), x, i - 1);
            assert(seq![s[0]] + s.skip(1).remove(i - 1) =~= s.remove(i));
        }
    }

    proof fn lemma_remove_first_absent(s: Seq<usize>, x: usize)
        requires
            forall|j: int| 0 <= j < s.len() ==> s[j] != x,
        ensures
            Self::remove_first(s, x) == s,
        decreases s.len(),
    {
        if s.len() == 0 {
        } else {
            Self::lemma_remove_first_absent(s.skip(1), x);
            assert(seq![s[0]] + s.skip(1) =~= s);
        }
    }

    pub fn is_empty(&self) -> (r: bool)
        ensures
            r == (self.id_seq().len() == 0),
    {
        self.ids.len() == 0
    }

    pub fn len(&self) -> (r: usize)
        ensures
            r == self.id_seq().len(),
    {
        self.ids.len()
    }

    /// The id at a position, in insertion order.
    pub fn id_at(&self, i: usize) -> (r: usize)
        requires
            i < self.id_seq().len(),
        ensures
            r == self.id_seq()[i as int],
    {
        self.ids[i]
    }
}

/// What the checker knows about one package.
pub struct CrateInfo {
    pub name: Option<String>,
    /// Whether the config file mentions this crate.
    pub has_config: bool,
    /// Whether a crate with this name was found in the dependency tree.
    pub used: bool,
    /// Permissions allowed for this crate by the configuration.
    pub allowed_perms: PermSet,
    /// Allowed permissions not yet observed to be used by the crate.
    pub unused_allowed_perms: PermSet,
    /// Observed disallowed usages, as (permission id, usage) records.
    pub disallowed_usage: Vec<(usize, Usage)>,
}

/// The usages recorded against one permission, in order of observation.
pub open spec fn usages_for_seq(es: Seq<(usize, Usage)>, perm: usize) -> Seq<Usage>
    decreases es.len(),
{
    if es.len() == 0 {
        Seq::empty()
    } else {
        let rest = usages_for_seq(es.drop_last(), perm);
        if es.last().0 == perm {
            rest.push(es.last().1)
        } else {
            rest
        }
    }
}

impl CrateInfo {
    pub open spec fn wf(self, n_perms: int) -> bool {
        &&& self.allowed_perms.wf()
        &&& self.unused_allowed_perms.wf()
        &&& self.allowed_perms.bounded(n_perms)
        &&& self.unused_allowed_perms.bounded(n_perms)
        &&& self.unused_allowed_perms.to_set().subset_of(self.allowed_perms.to_set())
        &&& forall|i: int|
            0 <= i < self.disallowed_usage@.len() ==> self.disallowed_usage@[i].0 < n_perms
    }

    /// The usages recorded against one permission.
    pub open spec fn usages_for(self, perm: usize) -> Seq<Usage> {
        usages_for_seq(self.disallowed_usage@, perm)
    }

    pub fn empty(name: Option<String>) -> (r: CrateInfo)
        ensures
            r.name == name,
            !r.has_config,
            !r.used,
            r.allowed_perms.id_seq() == Seq::<usize>::empty(),
            r.unused_allowed_perms.id_seq() == Seq::<usize>::empty(),
            r.disallowed_usage@.len() == 0,
            forall|n: int| r.wf(n),
    {
        CrateInfo {
            name,
            has_config: false,
            used: false,
            allowed_perms: PermSet::new(),
            unused_allowed_perms: PermSet::new(),
            disallowed_usage: Vec::new(),
        }
    }
}

/// First index at which `n` occurs in `names`; the length when absent.
pub open spec fn idx_of(names: Seq<Seq<char>>, n: Seq<char>) -> int
    decreases names.len(),
{
    if names.len() == 0 {
        0
    } else if names[0] == n {
        0
    } else {
        1 + idx_of(names.skip(1), n)
    }
}

/// Interning one name: appended only when not yet present.
pub open spec fn intern1(names: Seq<Seq<char>>, n: Seq<char>) -> Seq<Seq<char>> {
    if names.contains(n) {
        names
    } else {
        names.push(n)
    }
}

/// Interning the first `m` names of a list, left to right.
pub open spec fn intern_list(acc: Seq<Seq<char>>, ns: Seq<Seq<char>>, m: int) -> Seq<Seq<char>>
    decreases m,
{
    if m <= 0 {
        acc
    } else {
        intern1(intern_list(acc, ns, m - 1), ns[m - 1])
    }
}

/// Whether some string in `ss` has view `p`.
pub open spec fn has_view(ss: Seq<String>, p: Seq<char>) -> bool {
    exists|m: int| 0 <= m < ss.len() && ss[m]@ == p
}

pub proof fn lemma_idx_of_found(names: Seq<Seq<char>>, n: Seq<char>)
    requires
        names.contains(n),
    ensures
        0 <= idx_of(names, n) < names.len(),
        names[idx_of(names, n)] == n,
        forall|k: int| 0 <= k < idx_of(names, n) ==> names[k] != n,
    decreases names.len(),
{
    if names[0] == n {
    } else {
        assert(names.skip(1).contains(n)) by {
            let w = choose|w: int| 0 <= w < names.len() && names[w] == n;
            assert(names.skip(1)[w - 1] == n);
        }
        lemma_idx_of_found(names.skip(1), n);
        assert forall|k: int| 0 <= k < idx_of(names, n) implies names[k] != n by {
            if k > 0 {
                assert(names.skip(1)[k - 1] != n);
            }
        }
    }
}

pub proof fn lemma_idx_of_absent(names: Seq<Seq<char>>, n: Seq<char>)
    requires
        !names.contains(n),
    ensures
        idx_of(names, n) == names.len(),
    decreases names.len(),
{
    if names.len() == 0 {
    } else {
        assert(names[0] != n);
        assert(!names.skip(1).contains(n)) by {
            if names.skip(1).contains(n) {
                let w = choose|w: int| 0 <= w < names.skip(1).len() && names.skip(1)[w] == n;
                assert(names[w + 1] == n);
            }
        }
        lemma_idx_of_absent(names.skip(1), n);
    }
}

/// Interning more names never moves one that is already present.
pub proof fn lemma_idx_of_prefix(a: Seq<Seq<char>>, b: Seq<Seq<char>>, n: Seq<char>)
    requires
        a.is_prefix_of(b),
        a.contains(n),
    ensures
        b.contains(n),
        idx_of(b, n) == idx_of(a, n),
    decreases a.len(),
{
    assert(forall|k: int| 0 <= k < a.len() ==> a[k] == b[k]);
    assert(b.contains(n)) by {
        let w = choose|w: int| 0 <= w < a.len() && a[w] == n;
        assert(b[w] == n);
    }
    if a[0] == n {
        assert(b[0] == n);
    } else {
        assert(b[0] == a[0]);
        assert(a.skip(1).is_prefix_of(b.skip(1))) by {
            assert(a.skip(1).len() <= b.skip(1).len());
            assert(a.skip(1) =~= b.skip(1).subrange(0, a.skip(1).len() as int));
        }
        assert(a.skip(1).contains(n)) by {
            let w = choose|w: int| 0 <= w < a.len() && a[w] == n;
            assert(a.skip(1)[w - 1] == n);
        }
        lemma_idx_of_prefix(a.skip(1), b.skip(1), n);
    }
}

pub proof fn lemma_intern1_props(names: Seq<Seq<char>>, n: Seq<char>)
    ensures
        names.is_prefix_of(intern1(names, n)),
        intern1(names, n).contains(n),
        all_distinct(names) ==> all_distinct(intern1(names, n)),
{
    if names.contains(n) {
        assert(names.is_prefix_of(intern1(names, n))) by {
            assert(names =~= names.subrange(0, names.len() as int));
        }
    } else {
        let r = names.push(n);
        assert(names.is_prefix_of(r)) by {
            assert(names =~= r.subrange(0, names.len() as int));
        }
        assert(r[names.len() as int] == n);
        assert(r.contains(n));
        if all_distinct(names) {
            assert forall|i: int, j: int| 0 <= i < j < r.len() implies r[i] != r[j] by {
                if j == names.len() {
                    assert(r[i] == names[i]);
                    if r[i] == n {
                        assert(names.contains(n));
                    }
                }
            }
        }
    }
}

pub proof fn lemma_intern_list_props(acc: Seq<Seq<char>>, ns: Seq<Seq<char>>, m: int)
    ensures
        acc.is_prefix_of(intern_list(acc, ns, m)),
        all_distinct(acc) ==> all_distinct(intern_list(acc, ns, m)),
    decreases m,
{
    if m <= 0 {
        assert(acc =~= acc.subrange(0, acc.len() as int));
    } else {
        lemma_intern_list_props(acc, ns, m - 1);
        lemma_intern1_props(intern_list(acc, ns, m - 1), ns[m - 1]);
        lemma_prefix_trans(acc, intern_list(acc, ns, m - 1), intern_list(acc, ns, m));
    }
}

pub proof fn lemma_prefix_trans(a: Seq<Seq<char>>, b: Seq<Seq<char>>, c: Seq<Seq<char>>)
    requires
        a.is_prefix_of(b),
        b.is_prefix_of(c),
    ensures
        a.is_prefix_of(c),
{
    assert(a =~= c.subrange(0, a.len() as int));
}

/// The permission checker state.
pub struct Checker {
    /// Permission id to name; append-only within a run.
    pub permission_names: Vec<String>,
    /// (prefix, permission id) pairs granting a permission.
    pub inclusions: Vec<(String, usize)>,
    /// (prefix, permission id) pairs revoking a permission.
    pub exclusions: Vec<(String, usize)>,
    /// Crate id to per-crate state; index 0 is the unknown-owner entry.
    pub crate_infos: Vec<CrateInfo>,
}

/// A symbol path joined with "::".
pub open spec fn joined(parts: Seq<Seq<char>>) -> Seq<char>
    decreases parts.len(),
{
    if parts.len() == 0 {
        Seq::empty()
    } else if parts.len() == 1 {
        parts[0]
    } else {
        joined(parts.drop_last()) + "::"@ + parts.last()
    }
}

impl Checker {
    pub open spec fn n_perms(self) -> int {
        self.permission_names@.len() as int
    }

    /// Permission ids granted at exactly this prefix.
    pub open spec fn incl_ids(self, p: Seq<char>) -> Set<usize> {
        Set::new(
            |id: usize|
                exists|j: int|
                    #![auto]
                    0 <= j < self.inclusions@.len() && self.inclusions@[j].0@ == p
                        && self.inclusions@[j].1 == id,
        )
    }

    /// Permission ids revoked at exactly this prefix.
    pub open spec fn excl_ids(self, p: Seq<char>) -> Set<usize> {
        Set::new(
            |id: usize|
                exists|j: int|
                    #![auto]
                    0 <= j < self.exclusions@.len() && self.exclusions@[j].0@ == p
                        && self.exclusions@[j].1 == id,
        )
    }

    /// The permissions matched after considering the first `k` prefixes of a
    /// path: each prefix first unions its granted ids in, then subtracts its
    /// revoked ids.
    pub open spec fn apis_upto(self, parts: Seq<Seq<char>>, k: int) -> Set<usize>
        decreases k,
    {
        if k <= 0 {
            Set::empty()
        } else {
            self.apis_upto(parts, k - 1).union(
                self.incl_ids(joined(parts.take(k))),
            ).difference(self.excl_ids(joined(parts.take(k))))
        }
    }

    /// The permissions a symbol path is attributed to.
    pub open spec fn apis_spec(self, parts: Seq<Seq<char>>) -> Set<usize> {
        self.apis_upto(parts, parts.len() as int)
    }

    pub open spec fn wf(self) -> bool {
        &&& all_distinct(views_of(self.permission_names@))
        &&& forall|j: int|
            0 <= j < self.inclusions@.len() ==> (#[trigger] self.inclusions@[j]).1
                < self.n_perms()
        &&& forall|j: int|
            0 <= j < self.exclusions@.len() ==> (#[trigger] self.exclusions@[j]).1
                < self.n_perms()
        &&& self.crate_infos@.len() >= 1
        &&& self.crate_infos@[0].name is None
        &&& forall|i: int|
            1 <= i < self.crate_infos@.len() ==> (#[trigger] self.crate_infos@[i]).name is Some
        &&& forall|i: int, k: int|
            1 <= i < k < self.crate_infos@.len() ==> (#[trigger] self.crate_infos@[i]).name->0@
                != (#[trigger] self.crate_infos@[k]).name->0@
        &&& forall|i: int|
            0 <= i < self.crate_infos@.len() ==> (#[trigger] self.crate_infos@[i]).wf(
                self.n_perms(),
            )
    }

    pub fn new() -> (r: Checker)
        ensures
            r.wf(),
            r.permission_names@.len() == 0,
            r.inclusions@.len() == 0,
            r.exclusions@.len() == 0,
            r.crate_infos@.len() == 1,
            r.crate_infos@[0].name is None,
            !r.crate_infos@[0].has_config,
            !r.crate_infos@[0].used,
            r.crate_infos@[0].allowed_perms.id_seq().len() == 0,
            r.crate_infos@[0].unused_allowed_perms.id_seq().len() == 0,
            r.crate_infos@[0].disallowed_usage@.len() == 0,
    {
        let mut infos: Vec<CrateInfo> = Vec::new();
        infos.push(CrateInfo::empty(None));
        Checker {
            permission_names: Vec::new(),
            inclusions: Vec::new(),
            exclusions: Vec::new(),
            crate_infos: infos,
        }
    }

    /// The name of a permission id.
    pub fn permission_name(&self, perm_id: usize) -> (r: &String)
        requires
            perm_id < self.permission_names@.len(),
        ensures
            r == self.permission_names@[perm_id as int],
    {
        &self.permission_names[perm_id]
    }

    /// The id for a permission name, allocated on first observation.
    pub fn perm_id(&mut self, permission: &String) -> (r: usize)
        requires
            old(self).wf(),
        ensures
            final(self).wf(),
            views_of(final(self).permission_names@) == intern1(
                views_of(old(self).permission_names@),
                permission@,
            ),
            views_of(old(self).permission_names@).is_prefix_of(
                views_of(final(self).permission_names@),
            ),
            r < final(self).permission_names@.len(),
            final(self).permission_names@[r as int]@ == permission@,
            r as int == idx_of(views_of(final(self).permission_names@), permission@),
            final(self).inclusions == old(self).inclusions,
            final(self).exclusions == old(self).exclusions,
            final(self).crate_infos == old(self).crate_infos,
    {
        let ghost names0 = views_of(old(self).permission_names@);
        let n = self.permission_names.len();
        let mut i: usize = 0;
        while i < n
            invariant
                *self == *old(self),
                old(self).wf(),
                n == self.permission_names@.len(),
                names0 == views_of(self.permission_names@),
                i <= n,
                forall|k: int| 0 <= k < i ==> names0[k] != permission@,
            decreases n - i,
        {
            proof {
                assert(names0[i as int] == self.permission_names@[i as int]@);
            }
            if self.permission_names[i] == *permission {
                proof {
                    assert(names0[i as int] == permission@);
                    assert(names0.contains(permission@));
                    lemma_idx_of_found(names0, permission@);
                    assert(idx_of(names0, permission@) == i as int);
                    assert(intern1(names0, permission@) == names0);
                    assert(names0.is_prefix_of(names0)) by {
                        assert(names0 =~= names0.subrange(0, names0.len() as int));
                    }
                }
                return i;
            }
            i = i + 1;
        }
        proof {
            assert(forall|k: int| 0 <= k < names0.len() ==> names0[k] != permission@);
            assert(!names0.contains(permission@));
        }
        self.permission_names.push(permission.clone());
        proof {
            let names1 = views_of(self.permission_names@);
            assert(names1 =~= names0.push(permission@));
            assert(intern1(names0, permission@) == names0.push(permission@));
            lemma_intern1_props(names0, permission@);
            lemma_idx_of_absent(names0, permission@);
            lemma_idx_of_prefix_push(names0, permission@);
            assert forall|jj: int|
                0 <= jj < self.inclusions@.len() implies (#[trigger] self.inclusions@[jj]).1
                < self.n_perms() by {
                assert(self.inclusions@[jj].1 < old(self).n_perms());
            }
            assert forall|ii: int|
                0 <= ii < self.crate_infos@.len() implies (#[trigger] self.crate_infos@[ii]).wf(
                self.n_perms(),
            ) by {
                assert(self.crate_infos@[ii].wf(old(self).n_perms()));
                lemma_info_wf_weaken(self.crate_infos@[ii], old(self).n_perms(), self.n_perms());
            }
        }
        n
    }

    /// The crate id for a package name, allocated on first observation.
    pub fn crate_id_from_name(&mut self, crate_name: &String) -> (r: usize)
        requires
            old(self).wf(),
        ensures
            final(self).wf(),
            final(self).permission_names == old(self).permission_names,
            final(self).inclusions == old(self).inclusions,
            final(self).exclusions == old(self).exclusions,
            1 <= r < final(self).crate_infos@.len(),
            final(self).crate_infos@[r as int].name is Some,
            final(self).crate_infos@[r as int].name->0@ == crate_name@,
            (exists|i: int|
                1 <= i < old(self).crate_infos@.len() && (#[trigger] old(self).crate_infos@[i]).name->0@ == crate_name@) ==> final(self).crate_infos
                == old(self).crate_infos,
            !(exists|i: int|
                1 <= i < old(self).crate_infos@.len() && (#[trigger] old(self).crate_infos@[i]).name->0@ == crate_name@) ==> {
                &&& r == old(self).crate_infos@.len()
                &&& final(self).crate_infos@.len() == old(self).crate_infos@.len() + 1
                &&& forall|i: int|
                    0 <= i < old(self).crate_infos@.len() ==> final(self).crate_infos@[i] == old(self).crate_infos@[i]
                &&& !final(self).crate_infos@[r as int].has_config
                &&& !final(self).crate_infos@[r as int].used
                &&& final(self).crate_infos@[r as int].allowed_perms.id_seq().len() == 0
                &&& final(self).crate_infos@[r as int].unused_allowed_perms.id_seq().len() == 0
                &&& final(self).crate_infos@[r as int].disallowed_usage@.len() == 0
            },
    {
        let n = self.crate_infos.len();
        let mut i: usize = 1;
        while i < n
            invariant
                *self == *old(self),
                old(self).wf(),
                n == self.crate_infos@.len(),
                1 <= i <= n,
                forall|k: int|
                    1 <= k < i ==> (#[trigger] self.crate_infos@[k]).name->0@ != crate_name@,
            decreases n - i,
        {
            let info = &self.crate_infos[i];
            match &info.name {
                Some(name) => {
                    if *name == *crate_name {
                        proof {
                            assert(self.crate_infos@[i as int].name->0@ == crate_name@);
                        }
                        return i;
                    }
                },
                None => {},
            }
            i = i + 1;
        }
        self.crate_infos.push(CrateInfo::empty(Some(crate_name.clone())));
        proof {
            assert(final(self).crate_infos@[n as int].name->0@ == crate_name@);
            assert forall|ii: int, kk: int|
                1 <= ii < kk < self.crate_infos@.len() implies (
            #[trigger] self.crate_infos@[ii]).name->0@ != (
            #[trigger] self.crate_infos@[kk]).name->0@ by {
                if kk < n {
                    assert(old(self).crate_infos@[ii].name->0@ != old(self).crate_infos@[kk].name->0@);
                }
            }
        }
        n
    }

    /// Marks that the crate appeared in the dependency tree.
    pub fn report_crate_used(&mut self, crate_id: usize)
        requires
            old(self).wf(),
            crate_id < old(self).crate_infos@.len(),
        ensures
            final(self).wf(),
            final(self).permission_names == old(self).permission_names,
            final(self).inclusions == old(self).inclusions,
            final(self).exclusions == old(self).exclusions,
            final(self).crate_infos@ == old(self).crate_infos@.update(
                crate_id as int,
                CrateInfo { used: true, ..old(self).crate_infos@[crate_id as int] },
            ),
    {
        let info = crate::textutil::vec_mut_ref(&mut self.crate_infos, crate_id);
        info.used = true;
    }
}

/// The ids among the first `j` (prefix, id) pairs whose prefix is `p`.
pub open spec fn pairs_upto(es: Seq<(String, usize)>, p: Seq<char>, j: int) -> Set<usize> {
    Set::new(
        |id: usize|
            exists|jj: int|
                #![auto]
                0 <= jj < j && jj < es.len() && es[jj].0@ == p && es[jj].1 == id,
    )
}

impl Checker {
    /// The permissions a symbol path is attributed to: walk the prefixes of
    /// the path from the left; at each prefix first union in the granted
    /// permissions, then subtract the revoked ones.
    pub fn apis_for_path(&self, name_parts: &Vec<String>) -> (r: PermSet)
        requires
            self.wf(),
        ensures
            r.wf(),
            r.bounded(self.n_perms()),
            r.to_set() == self.apis_spec(views_of(name_parts@)),
    {
        let ghost parts = views_of(name_parts@);
        let mut matched = PermSet::new();
        let mut name = String::new();
        let mut i: usize = 0;
        proof {
            assert(parts.take(0) =~= Seq::<Seq<char>>::empty());
        }
        while i < name_parts.len()
            invariant
                self.wf(),
                parts == views_of(name_parts@),
                i <= name_parts@.len(),
                name@ == joined(parts.take(i as int)),
                matched.wf(),
                matched.bounded(self.n_perms()),
                matched.to_set() == self.apis_upto(parts, i as int),
            decreases name_parts@.len() - i,
        {
            if i > 0 {
                name.append("::");
            }
            name.append(name_parts[i].as_str());
            proof {
                assert(parts[i as int] == name_parts@[i as int]@);
                if i == 0 {
                    assert(parts.take(1).len() == 1);
                    assert(parts.take(1)[0] == parts[0]);
                    assert(name@ =~= joined(parts.take(1)));
                } else {
                    assert(parts.take(i + 1).drop_last() =~= parts.take(i as int));
                    assert(parts.take(i + 1).last() == parts[i as int]);
                    assert(name@ =~= joined(parts.take(i as int)) + "::"@ + parts[i as int]);
                }
            }
            let ghost base = matched.to_set();
            let mut j: usize = 0;
            while j < self.inclusions.len()
                invariant
                    self.wf(),
                    j <= self.inclusions@.len(),
                    matched.wf(),
                    matched.bounded(self.n_perms()),
                    matched.to_set() == base.union(pairs_upto(self.inclusions@, name@, j as int)),
                decreases self.inclusions@.len() - j,
            {
                let idv = self.inclusions[j].1;
                if self.inclusions[j].0 == name {
                    matched.insert(idv);
                    proof {
                        assert(self.inclusions@[j as int].0@ == name@);
                        assert(base.union(pairs_upto(self.inclusions@, name@, j + 1))
                            =~= base.union(pairs_upto(self.inclusions@, name@, j as int)).insert(
                            idv,
                        )) by {
                            assert forall|x: usize|
                                base.union(
                                    pairs_upto(self.inclusions@, name@, j + 1),
                                ).contains(x) implies base.union(
                                pairs_upto(self.inclusions@, name@, j as int),
                            ).insert(idv).contains(x) by {}
                        }
                    }
                } else {
                    proof {
                        assert(self.inclusions@[j as int].0@ != name@);
                        assert(base.union(pairs_upto(self.inclusions@, name@, j + 1))
                            =~= base.union(pairs_upto(self.inclusions@, name@, j as int)));
                    }
                }
                j = j + 1;
            }
            proof {
                assert(pairs_upto(self.inclusions@, name@, self.inclusions@.len() as int)
                    =~= self.incl_ids(name@));
            }
            let ghost with_incl = matched.to_set();
            let mut j2: usize = 0;
            while j2 < self.exclusions.len()
                invariant
                    self.wf(),
                    j2 <= self.exclusions@.len(),
                    matched.wf(),
                    matched.bounded(self.n_perms()),
                    matched.to_set() == with_incl.difference(
                        pairs_upto(self.exclusions@, name@, j2 as int),
                    ),
                decreases self.exclusions@.len() - j2,
            {
                let idv = self.exclusions[j2].1;
                if self.exclusions[j2].0 == name {
                    let ghost mpre = matched;
                    matched.remove(idv);
                    proof {
                        assert(matched.to_set().subset_of(mpre.to_set()));
                        lemma_bounded_from_subset(matched, mpre, self.n_perms());
                        assert(self.exclusions@[j2 as int].0@ == name@);
                        assert(with_incl.difference(pairs_upto(self.exclusions@, name@, j2 + 1))
                            =~= with_incl.difference(
                            pairs_upto(self.exclusions@, name@, j2 as int),
                        ).remove(idv));
                    }
                } else {
                    proof {
                        assert(self.exclusions@[j2 as int].0@ != name@);
                        assert(with_incl.difference(pairs_upto(self.exclusions@, name@, j2 + 1))
                            =~= with_incl.difference(
                            pairs_upto(self.exclusions@, name@, j2 as int),
                        ));
                    }
                }
                j2 = j2 + 1;
            }
            proof {
                assert(pairs_upto(self.exclusions@, name@, self.exclusions@.len() as int)
                    =~= self.excl_ids(name@));
                assert(matched.to_set() =~= self.apis_upto(parts, i + 1));
            }
            i = i + 1;
        }
        proof {
            assert(parts.take(parts.len() as int) =~= parts);
        }
        matched
    }

    /// Records one observed use of a permission by a crate: the permission
    /// leaves the crate's unused-allowed set, and when it is not allowed the
    /// usage is appended to the crate's disallowed records.
    pub fn permission_id_used(&mut self, crate_id: usize, perm_id: usize, usage: &Usage)
        requires
            old(self).wf(),
            crate_id < old(self).crate_infos@.len(),
            perm_id < old(self).n_perms(),
        ensures
            final(self).wf(),
            final(self).permission_names == old(self).permission_names,
            final(self).inclusions == old(self).inclusions,
            final(self).exclusions == old(self).exclusions,
            final(self).crate_infos@.len() == old(self).crate_infos@.len(),
            forall|i: int|
                0 <= i < old(self).crate_infos@.len() && i != crate_id ==> final(self).crate_infos@[i] == old(self).crate_infos@[i],
            final(self).crate_infos@[crate_id as int].name == old(self).crate_infos@[crate_id as int].name,
            final(self).crate_infos@[crate_id as int].has_config == old(self).crate_infos@[crate_id as int].has_config,
            final(self).crate_infos@[crate_id as int].used == old(self).crate_infos@[crate_id as int].used,
            final(self).crate_infos@[crate_id as int].allowed_perms == old(self).crate_infos@[crate_id as int].allowed_perms,
            final(self).crate_infos@[crate_id as int].unused_allowed_perms.to_set() == old(self).crate_infos@[crate_id as int].unused_allowed_perms.to_set().remove(perm_id),
            final(self).crate_infos@[crate_id as int].unused_allowed_perms.id_seq()
                == PermSet::remove_first(
                old(self).crate_infos@[crate_id as int].unused_allowed_perms.id_seq(),
                perm_id,
            ),
            final(self).crate_infos@[crate_id as int].disallowed_usage@ == if old(self).crate_infos@[crate_id as int].allowed_perms.to_set().contains(perm_id) {
                old(self).crate_infos@[crate_id as int].disallowed_usage@
            } else {
                old(self).crate_infos@[crate_id as int].disallowed_usage@.push((perm_id, *usage))
            },
    {
        let info = crate::textutil::vec_mut_ref(&mut self.crate_infos, crate_id);
        info.unused_allowed_perms.remove(perm_id);
        if !info.allowed_perms.contains(perm_id) {
            info.disallowed_usage.push((perm_id, usage.duplicate()));
        }
        proof {
            let n = self.n_perms();
            let oldi = old(self).crate_infos@[crate_id as int];
            let newi = self.crate_infos@[crate_id as int];
            assert(oldi.wf(n));
            assert(newi.unused_allowed_perms.to_set().subset_of(
                oldi.unused_allowed_perms.to_set(),
            ));
            lemma_bounded_from_subset(
                newi.unused_allowed_perms,
                oldi.unused_allowed_perms,
                n,
            );
            assert forall|t: int|
                0 <= t < newi.disallowed_usage@.len() implies #[trigger] newi.disallowed_usage@[t].0
                < n by {
                if t < oldi.disallowed_usage@.len() {
                    assert(oldi.disallowed_usage@[t].0 < n);
                }
            }
            assert(newi.wf(n));
            assert forall|ii: int|
                0 <= ii < self.crate_infos@.len() implies (#[trigger] self.crate_infos@[ii]).wf(
                n,
            ) by {
                if ii != crate_id {
                    assert(self.crate_infos@[ii] == old(self).crate_infos@[ii]);
                }
            }
            assert forall|ii: int, kk: int|
                1 <= ii < kk < self.crate_infos@.len() implies (
            #[trigger] self.crate_infos@[ii]).name->0@ != (
            #[trigger] self.crate_infos@[kk]).name->0@ by {
                assert(self.crate_infos@[ii].name == old(self).crate_infos@[ii].name);
                assert(self.crate_infos@[kk].name == old(self).crate_infos@[kk].name);
                assert(old(self).crate_infos@[ii].name->0@ != old(self).crate_infos@[kk].name->0@);
            }
            assert forall|ii: int|
                1 <= ii < self.crate_infos@.len() implies (
            #[trigger] self.crate_infos@[ii]).name is Some by {
                assert(self.crate_infos@[ii].name == old(self).crate_infos@[ii].name);
            }
        }
    }

    /// Records that the crate used the symbol path formed by joining
    /// `name_parts` with "::": every permission the path is attributed to
    /// counts as used, and the disallowed ones each record the usage.
    pub fn path_used(&mut self, crate_id: usize, name_parts: &Vec<String>, usage: &Usage)
        requires
            old(self).wf(),
            crate_id < old(self).crate_infos@.len(),
        ensures
            final(self).wf(),
            final(self).permission_names == old(self).permission_names,
            final(self).inclusions == old(self).inclusions,
            final(self).exclusions == old(self).exclusions,
            final(self).crate_infos@.len() == old(self).crate_infos@.len(),
            forall|i: int|
                0 <= i < old(self).crate_infos@.len() && i != crate_id ==> final(self).crate_infos@[i] == old(self).crate_infos@[i],
            final(self).crate_infos@[crate_id as int].name == old(self).crate_infos@[crate_id as int].name,
            final(self).crate_infos@[crate_id as int].has_config == old(self).crate_infos@[crate_id as int].has_config,
            final(self).crate_infos@[crate_id as int].used == old(self).crate_infos@[crate_id as int].used,
            final(self).crate_infos@[crate_id as int].allowed_perms == old(self).crate_infos@[crate_id as int].allowed_perms,
            final(self).crate_infos@[crate_id as int].unused_allowed_perms.to_set() == old(self).crate_infos@[crate_id as int].unused_allowed_perms.to_set().difference(
                old(self).apis_spec(views_of(name_parts@)),
            ),
            forall|perm: usize|
                final(self).crate_infos@[crate_id as int].usages_for(perm) == if old(self).apis_spec(views_of(name_parts@)).contains(perm) && !old(self).crate_infos@[crate_id as int].allowed_perms.to_set().contains(perm) {
                    old(self).crate_infos@[crate_id as int].usages_for(perm).push(*usage)
                } else {
                    old(self).crate_infos@[crate_id as int].usages_for(perm)
                },
    {
        let matched = self.apis_for_path(name_parts);
        let ghost s = old(self).apis_spec(views_of(name_parts@));
        let ghost ids = matched.id_seq();
        let n = matched.len();
        let mut k: usize = 0;
        proof {
            assert(ids.take(0).to_set() =~= Set::<usize>::empty());
            assert(old(self).crate_infos@[crate_id as int].unused_allowed_perms.to_set().difference(
                ids.take(0).to_set(),
            ) =~= old(self).crate_infos@[crate_id as int].unused_allowed_perms.to_set());
        }
        while k < n
            invariant
                self.wf(),
                old(self).wf(),
                crate_id < old(self).crate_infos@.len(),
                matched.wf(),
                matched.bounded(self.n_perms()),
                ids == matched.id_seq(),
                n == ids.len(),
                k <= n,
                matched.to_set() == s,
                self.permission_names == old(self).permission_names,
                self.inclusions == old(self).inclusions,
                self.exclusions == old(self).exclusions,
                self.crate_infos@.len() == old(self).crate_infos@.len(),
                forall|i: int|
                    0 <= i < old(self).crate_infos@.len() && i != crate_id ==> self.crate_infos@[i]
                        == old(self).crate_infos@[i],
                self.crate_infos@[crate_id as int].name == old(self).crate_infos@[crate_id as int].name,
                self.crate_infos@[crate_id as int].has_config == old(self).crate_infos@[crate_id as int].has_config,
                self.crate_infos@[crate_id as int].used == old(self).crate_infos@[crate_id as int].used,
                self.crate_infos@[crate_id as int].allowed_perms == old(self).crate_infos@[crate_id as int].allowed_perms,
                self.crate_infos@[crate_id as int].unused_allowed_perms.to_set() == old(self).crate_infos@[crate_id as int].unused_allowed_perms.to_set().difference(
                    ids.take(k as int).to_set(),
                ),
                forall|perm: usize|
                    self.crate_infos@[crate_id as int].usages_for(perm) == if ids.take(
                        k as int,
                    ).to_set().contains(perm) && !old(self).crate_infos@[crate_id as int].allowed_perms.to_set().contains(perm) {
                        old(self).crate_infos@[crate_id as int].usages_for(perm).push(*usage)
                    } else {
                        old(self).crate_infos@[crate_id as int].usages_for(perm)
                    },
            decreases n - k,
        {
            let idv = matched.id_at(k);
            let ghost pre = self.crate_infos@[crate_id as int];
            self.permission_id_used(crate_id, idv, usage);
            proof {
                lemma_take_to_set_step(ids, k as int);
                assert(!ids.take(k as int).to_set().contains(idv)) by {
                    if ids.take(k as int).to_set().contains(idv) {
                        let w = choose|w: int|
                            #![auto]
                            0 <= w < k && ids.take(k as int)[w] == idv;
                        assert(ids[w] == idv && ids[k as int] == idv && w != k);
                    }
                }
                assert(self.crate_infos@[crate_id as int].unused_allowed_perms.to_set() =~= old(self).crate_infos@[crate_id as int].unused_allowed_perms.to_set().difference(
                    ids.take(k + 1).to_set(),
                ));
                if !pre.allowed_perms.to_set().contains(idv) {
                    lemma_usages_for_push(pre.disallowed_usage@, idv, *usage);
                }
                assert forall|perm: usize|
                    self.crate_infos@[crate_id as int].usages_for(perm) == if ids.take(
                        k + 1,
                    ).to_set().contains(perm) && !old(self).crate_infos@[crate_id as int].allowed_perms.to_set().contains(perm) {
                        old(self).crate_infos@[crate_id as int].usages_for(perm).push(*usage)
                    } else {
                        old(self).crate_infos@[crate_id as int].usages_for(perm)
                    } by {
                    if perm != idv {
                        assert(ids.take(k + 1).to_set().contains(perm) == ids.take(
                            k as int,
                        ).to_set().contains(perm));
                    }
                }
            }
            k = k + 1;
        }
        proof {
            assert(ids.take(n as int) =~= ids);
            assert(ids.to_set() == s);
            assert forall|perm: usize|
                final(self).crate_infos@[crate_id as int].usages_for(perm) == if s.contains(perm)
                    && !old(self).crate_infos@[crate_id as int].allowed_perms.to_set().contains(
                    perm,
                ) {
                    old(self).crate_infos@[crate_id as int].usages_for(perm).push(*usage)
                } else {
                    old(self).crate_infos@[crate_id as int].usages_for(perm)
                } by {}
        }
    }
}

/// The permission-name table after interning the names of the first `j`
/// permission entries of the configuration.
pub open spec fn names_after_perms(c: Config, j: int) -> Seq<Seq<char>>
    decreases j,
{
    if j <= 0 {
        Seq::empty()
    } else {
        intern1(names_after_perms(c, j - 1), c.perms@[j - 1].0@)
    }
}

/// The table after additionally interning the allow lists of the first `i`
/// package entries.
pub open spec fn names_after_crates(c: Config, i: int) -> Seq<Seq<char>>
    decreases i,
{
    if i <= 0 {
        names_after_perms(c, c.perms@.len() as int)
    } else {
        intern_list(
            names_after_crates(c, i - 1),
            views_of(c.crates@[i - 1].1.allow@),
            c.crates@[i - 1].1.allow@.len() as int,
        )
    }
}

/// The full permission-name table a configuration gives rise to.
pub open spec fn perm_names_spec(c: Config) -> Seq<Seq<char>> {
    names_after_crates(c, c.crates@.len() as int)
}

/// The ids granted at prefix `p` by the first `jmax` permission entries,
/// with ids measured against a name table.
pub open spec fn config_incl_ids_rel(
    c: Config,
    names: Seq<Seq<char>>,
    jmax: int,
    p: Seq<char>,
) -> Set<usize> {
    Set::new(
        |id: usize|
            exists|j: int|
                #![auto]
                0 <= j < jmax && j < c.perms@.len() && has_view(c.perms@[j].1.grant@, p) && id
                    as int == idx_of(names, c.perms@[j].0@),
    )
}

/// The ids revoked at prefix `p` by the first `jmax` permission entries.
pub open spec fn config_excl_ids_rel(
    c: Config,
    names: Seq<Seq<char>>,
    jmax: int,
    p: Seq<char>,
) -> Set<usize> {
    Set::new(
        |id: usize|
            exists|j: int|
                #![auto]
                0 <= j < jmax && j < c.perms@.len() && has_view(c.perms@[j].1.exclude@, p) && id
                    as int == idx_of(names, c.perms@[j].0@),
    )
}

/// The permission ids granted at prefix `p` by the configuration.
pub open spec fn config_incl_ids(c: Config, p: Seq<char>) -> Set<usize> {
    config_incl_ids_rel(c, perm_names_spec(c), c.perms@.len() as int, p)
}

/// The permission ids revoked at prefix `p` by the configuration.
pub open spec fn config_excl_ids(c: Config, p: Seq<char>) -> Set<usize> {
    config_excl_ids_rel(c, perm_names_spec(c), c.perms@.len() as int, p)
}

/// The ids of the first `m` allow-list names, measured against a table.
pub open spec fn partial_allowed_ids(ss: Seq<String>, names: Seq<Seq<char>>, m: int) -> Set<
    usize,
> {
    Set::new(
        |id: usize|
            exists|t: int|
                #![auto]
                0 <= t < m && t < ss.len() && id as int == idx_of(names, ss[t]@),
    )
}

/// The permission ids package entry `i` of the configuration allows.
pub open spec fn config_allowed_ids(c: Config, i: int) -> Set<usize> {
    partial_allowed_ids(c.crates@[i].1.allow@, perm_names_spec(c), c.crates@[i].1.allow@.len() as int)
}

/// The set granted at a prefix among the first `m` grant entries of one
/// permission whose id is `id`.
pub open spec fn partial_grant_set(ss: Seq<String>, m: int, id: usize, p: Seq<char>) -> Set<
    usize,
> {
    if exists|t: int| #![auto] 0 <= t < m && t < ss.len() && ss[t]@ == p {
        Set::empty().insert(id)
    } else {
        Set::empty()
    }
}

/// Interned names only move forward: ids against a longer table agree.
proof fn lemma_incl_rel_stable(
    c: Config,
    names1: Seq<Seq<char>>,
    names2: Seq<Seq<char>>,
    jmax: int,
)
    requires
        names1.is_prefix_of(names2),
        forall|j: int|
            0 <= j < jmax && j < c.perms@.len() ==> names1.contains(#[trigger] c.perms@[j].0@),
    ensures
        forall|p: Seq<char>|
            #[trigger] config_incl_ids_rel(c, names1, jmax, p) == config_incl_ids_rel(
                c,
                names2,
                jmax,
                p,
            ),
        forall|p: Seq<char>|
            #[trigger] config_excl_ids_rel(c, names1, jmax, p) == config_excl_ids_rel(
                c,
                names2,
                jmax,
                p,
            ),
{
    assert forall|j: int| 0 <= j < jmax && j < c.perms@.len() implies idx_of(
        names2,
        c.perms@[j].0@,
    ) == idx_of(names1, #[trigger] c.perms@[j].0@) by {
        lemma_idx_of_prefix(names1, names2, c.perms@[j].0@);
    }
    assert forall|p: Seq<char>|
        #[trigger] config_incl_ids_rel(c, names1, jmax, p) == config_incl_ids_rel(
            c,
            names2,
            jmax,
            p,
        ) by {
        assert(config_incl_ids_rel(c, names1, jmax, p) =~= config_incl_ids_rel(
            c,
            names2,
            jmax,
            p,
        ));
    }
    assert forall|p: Seq<char>|
        #[trigger] config_excl_ids_rel(c, names1, jmax, p) == config_excl_ids_rel(
            c,
            names2,
            jmax,
            p,
        ) by {
        assert(config_excl_ids_rel(c, names1, jmax, p) =~= config_excl_ids_rel(
            c,
            names2,
            jmax,
            p,
        ));
    }
}

/// The same, for the allow list of one package entry.
proof fn lemma_allowed_rel_stable(
    ss: Seq<String>,
    names1: Seq<Seq<char>>,
    names2: Seq<Seq<char>>,
    m: int,
)
    requires
        names1.is_prefix_of(names2),
        forall|t: int| 0 <= t < m && t < ss.len() ==> names1.contains(#[trigger] ss[t]@),
    ensures
        partial_allowed_ids(ss, names1, m) == partial_allowed_ids(ss, names2, m),
{
    assert forall|t: int| 0 <= t < m && t < ss.len() implies idx_of(names2, #[trigger] ss[t]@)
        == idx_of(names1, ss[t]@) by {
        lemma_idx_of_prefix(names1, names2, ss[t]@);
    }
    assert(partial_allowed_ids(ss, names1, m) =~= partial_allowed_ids(ss, names2, m));
}

impl Checker {
    /// The checker state models the configuration: the name table is the
    /// interned permission names, the grant and revoke sets at every prefix
    /// are exactly the configured ones, and each package entry has one crate
    /// record whose allowed set holds the ids of its allow list, all of them
    /// still unused and nothing yet recorded against it.
    pub open spec fn models(self, c: Config) -> bool {
        &&& views_of(self.permission_names@) == perm_names_spec(c)
        &&& forall|p: Seq<char>| #[trigger] self.incl_ids(p) == config_incl_ids(c, p)
        &&& forall|p: Seq<char>| #[trigger] self.excl_ids(p) == config_excl_ids(c, p)
        &&& self.crate_infos@.len() == c.crates@.len() + 1
        &&& self.crate_infos@[0].name is None
        &&& !self.crate_infos@[0].has_config
        &&& !self.crate_infos@[0].used
        &&& self.crate_infos@[0].allowed_perms.id_seq().len() == 0
        &&& self.crate_infos@[0].unused_allowed_perms.id_seq().len() == 0
        &&& self.crate_infos@[0].disallowed_usage@.len() == 0
        &&& forall|i: int|
            #![auto]
            0 <= i < c.crates@.len() ==> {
                &&& self.crate_infos@[i + 1].name is Some
                &&& self.crate_infos@[i + 1].name->0@ == c.crates@[i].0@
                &&& self.crate_infos@[i + 1].has_config
                &&& !self.crate_infos@[i + 1].used
                &&& self.crate_infos@[i + 1].allowed_perms.to_set() == config_allowed_ids(c, i)
                &&& self.crate_infos@[i + 1].unused_allowed_perms.id_seq() == self.crate_infos@[
                    i + 1
                ].allowed_perms.id_seq()
                &&& self.crate_infos@[i + 1].disallowed_usage@.len() == 0
            }
    }

    /// Marks a crate as mentioned by the configuration.
    fn set_has_config(&mut self, crate_id: usize)
        requires
            old(self).wf(),
            crate_id < old(self).crate_infos@.len(),
        ensures
            final(self).wf(),
            final(self).permission_names == old(self).permission_names,
            final(self).inclusions == old(self).inclusions,
            final(self).exclusions == old(self).exclusions,
            final(self).crate_infos@ == old(self).crate_infos@.update(
                crate_id as int,
                CrateInfo { has_config: true, ..old(self).crate_infos@[crate_id as int] },
            ),
    {
        let info = crate::textutil::vec_mut_ref(&mut self.crate_infos, crate_id);
        info.has_config = true;
    }

    /// Grants a permission to a crate: it joins both the allowed set and the
    /// not-yet-used set.
    fn allow_perm(&mut self, crate_id: usize, perm_id: usize)
        requires
            old(self).wf(),
            crate_id < old(self).crate_infos@.len(),
            perm_id < old(self).n_perms(),
            old(self).crate_infos@[crate_id as int].unused_allowed_perms.id_seq() == old(self).crate_infos@[crate_id as int].allowed_perms.id_seq(),
        ensures
            final(self).wf(),
            final(self).permission_names == old(self).permission_names,
            final(self).inclusions == old(self).inclusions,
            final(self).exclusions == old(self).exclusions,
            final(self).crate_infos@.len() == old(self).crate_infos@.len(),
            forall|i: int|
                0 <= i < old(self).crate_infos@.len() && i != crate_id ==> final(self).crate_infos@[i] == old(self).crate_infos@[i],
            final(self).crate_infos@[crate_id as int].name == old(self).crate_infos@[crate_id as int].name,
            final(self).crate_infos@[crate_id as int].has_config == old(self).crate_infos@[crate_id as int].has_config,
            final(self).crate_infos@[crate_id as int].used == old(self).crate_infos@[crate_id as int].used,
            final(self).crate_infos@[crate_id as int].disallowed_usage == old(self).crate_infos@[crate_id as int].disallowed_usage,
            final(self).crate_infos@[crate_id as int].allowed_perms.to_set() == old(self).crate_infos@[crate_id as int].allowed_perms.to_set().insert(perm_id),
            final(self).crate_infos@[crate_id as int].unused_allowed_perms.id_seq() == final(self).crate_infos@[crate_id as int].allowed_perms.id_seq(),
    {
        let info = crate::textutil::vec_mut_ref(&mut self.crate_infos, crate_id);
        info.allowed_perms.insert(perm_id);
        info.unused_allowed_perms.insert(perm_id);
        proof {
            let n = self.n_perms();
            let newi = self.crate_infos@[crate_id as int];
            assert(newi.unused_allowed_perms.to_set().subset_of(newi.allowed_perms.to_set()));
            assert(newi.wf(n));
            assert forall|ii: int|
                0 <= ii < self.crate_infos@.len() implies (#[trigger] self.crate_infos@[ii]).wf(
                n,
            ) by {
                if ii != crate_id {
                    assert(self.crate_infos@[ii] == old(self).crate_infos@[ii]);
                }
            }
            assert forall|ii: int, kk: int|
                1 <= ii < kk < self.crate_infos@.len() implies (
            #[trigger] self.crate_infos@[ii]).name->0@ != (
            #[trigger] self.crate_infos@[kk]).name->0@ by {
                assert(self.crate_infos@[ii].name == old(self).crate_infos@[ii].name);
                assert(self.crate_infos@[kk].name == old(self).crate_infos@[kk].name);
                assert(old(self).crate_infos@[ii].name->0@ != old(self).crate_infos@[kk].name->0@);
            }
            assert forall|ii: int|
                1 <= ii < self.crate_infos@.len() implies (
            #[trigger] self.crate_infos@[ii]).name is Some by {
                assert(self.crate_infos@[ii].name == old(self).crate_infos@[ii].name);
            }
        }
    }


    /// Builds the checker from a configuration: interns the permission
    /// names, loads the grant and revoke prefixes, and creates one crate
    /// record per package entry with its allowed permissions.
    pub fn from_config(config: &Config) -> (r: Checker)
        requires
            config.wf(),
        ensures
            r.wf(),
            r.models(*config),
    {
        let mut checker = Checker::new();
        let np = config.perms.len();
        let mut j: usize = 0;
        proof {
            assert(views_of(checker.permission_names@) =~= names_after_perms(*config, 0));
            assert forall|p: Seq<char>|
                #[trigger] checker.incl_ids(p) == config_incl_ids_rel(
                    *config,
                    views_of(checker.permission_names@),
                    0,
                    p,
                ) by {
                assert(checker.incl_ids(p) =~= config_incl_ids_rel(
                    *config,
                    views_of(checker.permission_names@),
                    0,
                    p,
                ));
            }
            assert forall|p: Seq<char>|
                #[trigger] checker.excl_ids(p) == config_excl_ids_rel(
                    *config,
                    views_of(checker.permission_names@),
                    0,
                    p,
                ) by {
                assert(checker.excl_ids(p) =~= config_excl_ids_rel(
                    *config,
                    views_of(checker.permission_names@),
                    0,
                    p,
                ));
            }
        }
        while j < np
            invariant
                config.wf(),
                checker.wf(),
                np == config.perms@.len(),
                j <= np,
                views_of(checker.permission_names@) == names_after_perms(*config, j as int),
                forall|j2: int|
                    0 <= j2 < j ==> views_of(checker.permission_names@).contains(
                        #[trigger] config.perms@[j2].0@,
                    ),
                forall|p: Seq<char>|
                    #[trigger] checker.incl_ids(p) == config_incl_ids_rel(
                        *config,
                        views_of(checker.permission_names@),
                        j as int,
                        p,
                    ),
                forall|p: Seq<char>|
                    #[trigger] checker.excl_ids(p) == config_excl_ids_rel(
                        *config,
                        views_of(checker.permission_names@),
                        j as int,
                        p,
                    ),
                checker.crate_infos@.len() == 1,
                checker.crate_infos@[0].name is None,
                !checker.crate_infos@[0].has_config,
                !checker.crate_infos@[0].used,
                checker.crate_infos@[0].allowed_perms.id_seq().len() == 0,
                checker.crate_infos@[0].unused_allowed_perms.id_seq().len() == 0,
                checker.crate_infos@[0].disallowed_usage@.len() == 0,
            decreases np - j,
        {
            let ghost chk0 = checker;
            let ghost names_pre = views_of(checker.permission_names@);
            let id = checker.perm_id(&config.perms[j].0);
            let ghost names_cur = views_of(checker.permission_names@);
            let ghost gseq = config.perms@[j as int].1.grant@;
            let ghost eseq = config.perms@[j as int].1.exclude@;
            proof {
                lemma_intern1_props(names_pre, config.perms@[j as int].0@);
                assert(names_cur == names_after_perms(*config, j + 1));
                assert forall|j2: int| 0 <= j2 < j + 1 implies names_cur.contains(
                    #[trigger] config.perms@[j2].0@,
                ) by {
                    if j2 < j {
                        lemma_idx_of_prefix(names_pre, names_cur, config.perms@[j2].0@);
                    }
                }
                lemma_incl_rel_stable(*config, names_pre, names_cur, j as int);
                assert forall|p: Seq<char>|
                    #[trigger] checker.incl_ids(p) == config_incl_ids_rel(
                        *config,
                        names_cur,
                        j as int,
                        p,
                    ).union(partial_grant_set(gseq, 0, id, p)) by {
                    assert(checker.incl_ids(p) =~= chk0.incl_ids(p));
                    assert(chk0.incl_ids(p) == config_incl_ids_rel(
                        *config,
                        names_pre,
                        j as int,
                        p,
                    ));
                    assert(checker.incl_ids(p) =~= config_incl_ids_rel(
                        *config,
                        names_cur,
                        j as int,
                        p,
                    ).union(partial_grant_set(gseq, 0, id, p)));
                }
                assert forall|p: Seq<char>|
                    #[trigger] checker.excl_ids(p) == config_excl_ids_rel(
                        *config,
                        names_cur,
                        j as int,
                        p,
                    ) by {
                    assert(checker.excl_ids(p) =~= chk0.excl_ids(p));
                    assert(chk0.excl_ids(p) == config_excl_ids_rel(
                        *config,
                        names_pre,
                        j as int,
                        p,
                    ));
                }
            }
            let ng = config.perms[j].1.grant.len();
            let mut m: usize = 0;
            while m < ng
                invariant
                    config.wf(),
                    checker.wf(),
                    np == config.perms@.len(),
                    j < np,
                    gseq == config.perms@[j as int].1.grant@,
                    eseq == config.perms@[j as int].1.exclude@,
                    ng == gseq.len(),
                    m <= ng,
                    id < checker.n_perms(),
                    id as int == idx_of(names_cur, config.perms@[j as int].0@),
                    names_cur == views_of(checker.permission_names@),
                    names_cur == names_after_perms(*config, j + 1),
                    forall|j2: int|
                        0 <= j2 < j + 1 ==> names_cur.contains(#[trigger] config.perms@[j2].0@),
                    forall|p: Seq<char>|
                        #[trigger] checker.incl_ids(p) == config_incl_ids_rel(
                            *config,
                            names_cur,
                            j as int,
                            p,
                        ).union(partial_grant_set(gseq, m as int, id, p)),
                    forall|p: Seq<char>|
                        #[trigger] checker.excl_ids(p) == config_excl_ids_rel(
                            *config,
                            names_cur,
                            j as int,
                            p,
                        ),
                    checker.crate_infos@.len() == 1,
                    checker.crate_infos@[0].name is None,
                    !checker.crate_infos@[0].has_config,
                    !checker.crate_infos@[0].used,
                    checker.crate_infos@[0].allowed_perms.id_seq().len() == 0,
                    checker.crate_infos@[0].unused_allowed_perms.id_seq().len() == 0,
                    checker.crate_infos@[0].disallowed_usage@.len() == 0,
                decreases ng - m,
            {
                let ghost chk1 = checker;
                let ghost incl_pre = checker.inclusions@;
                checker.inclusions.push((config.perms[j].1.grant[m].clone(), id));
                proof {
                    let pushed = checker.inclusions@[incl_pre.len() as int];
                    assert(checker.inclusions@ == incl_pre.push(pushed));
                    assert(pushed.0@ == gseq[m as int]@);
                    assert(pushed.1 == id);
                    assert forall|p: Seq<char>|
                        #[trigger] checker.incl_ids(p) == config_incl_ids_rel(
                            *config,
                            names_cur,
                            j as int,
                            p,
                        ).union(partial_grant_set(gseq, m + 1, id, p)) by {
                        lemma_pairs_push_one(incl_pre, pushed.0, pushed.1, p);
                        assert(checker.incl_ids(p) =~= pairs_upto(
                            checker.inclusions@,
                            p,
                            incl_pre.len() as int + 1,
                        ));
                        assert(chk1.incl_ids(p) =~= pairs_upto(
                            incl_pre,
                            p,
                            incl_pre.len() as int,
                        ));
                        assert(chk1.incl_ids(p) == config_incl_ids_rel(
                            *config,
                            names_cur,
                            j as int,
                            p,
                        ).union(partial_grant_set(gseq, m as int, id, p)));
                        if pushed.0@ == p {
                            assert(gseq[m as int]@ == p);
                            assert(partial_grant_set(gseq, m + 1, id, p)
                                =~= Set::empty().insert(id));
                            assert(checker.incl_ids(p) =~= config_incl_ids_rel(
                                *config,
                                names_cur,
                                j as int,
                                p,
                            ).union(partial_grant_set(gseq, m + 1, id, p)));
                        } else {
                            assert(gseq[m as int]@ != p);
                            assert(partial_grant_set(gseq, m + 1, id, p) =~= partial_grant_set(
                                gseq,
                                m as int,
                                id,
                                p,
                            ));
                            assert(checker.incl_ids(p) =~= config_incl_ids_rel(
                                *config,
                                names_cur,
                                j as int,
                                p,
                            ).union(partial_grant_set(gseq, m + 1, id, p)));
                        }
                    }
                    assert forall|p: Seq<char>|
                        #[trigger] checker.excl_ids(p) == config_excl_ids_rel(
                            *config,
                            names_cur,
                            j as int,
                            p,
                        ) by {
                        assert(checker.excl_ids(p) =~= chk1.excl_ids(p));
                        assert(chk1.excl_ids(p) == config_excl_ids_rel(
                            *config,
                            names_cur,
                            j as int,
                            p,
                        ));
                    }
                }
                m = m + 1;
            }
            proof {
                assert forall|p: Seq<char>|
                    #[trigger] checker.incl_ids(p) == config_incl_ids_rel(
                        *config,
                        names_cur,
                        j + 1,
                        p,
                    ) by {
                    assert(partial_grant_set(gseq, ng as int, id, p) == if has_view(gseq, p) {
                        Set::empty().insert(id)
                    } else {
                        Set::<usize>::empty()
                    });
                    assert(config_incl_ids_rel(*config, names_cur, j as int, p).union(
                        partial_grant_set(gseq, ng as int, id, p),
                    ) =~= config_incl_ids_rel(*config, names_cur, j + 1, p));
                }
            }
            let ne = config.perms[j].1.exclude.len();
            let mut m2: usize = 0;
            proof {
                assert forall|p: Seq<char>|
                    #[trigger] checker.excl_ids(p) == config_excl_ids_rel(
                        *config,
                        names_cur,
                        j as int,
                        p,
                    ).union(partial_grant_set(eseq, 0, id, p)) by {
                    assert(checker.excl_ids(p) =~= config_excl_ids_rel(
                        *config,
                        names_cur,
                        j as int,
                        p,
                    ).union(partial_grant_set(eseq, 0, id, p)));
                }
            }
            while m2 < ne
                invariant
                    config.wf(),
                    checker.wf(),
                    np == config.perms@.len(),
                    j < np,
                    gseq == config.perms@[j as int].1.grant@,
                    eseq == config.perms@[j as int].1.exclude@,
                    ne == eseq.len(),
                    m2 <= ne,
                    id < checker.n_perms(),
                    id as int == idx_of(names_cur, config.perms@[j as int].0@),
                    names_cur == views_of(checker.permission_names@),
                    names_cur == names_after_perms(*config, j + 1),
                    forall|j2: int|
                        0 <= j2 < j + 1 ==> names_cur.contains(#[trigger] config.perms@[j2].0@),
                    forall|p: Seq<char>|
                        #[trigger] checker.incl_ids(p) == config_incl_ids_rel(
                            *config,
                            names_cur,
                            j + 1,
                            p,
                        ),
                    forall|p: Seq<char>|
                        #[trigger] checker.excl_ids(p) == config_excl_ids_rel(
                            *config,
                            names_cur,
                            j as int,
                            p,
                        ).union(partial_grant_set(eseq, m2 as int, id, p)),
                    checker.crate_infos@.len() == 1,
                    checker.crate_infos@[0].name is None,
                    !checker.crate_infos@[0].has_config,
                    !checker.crate_infos@[0].used,
                    checker.crate_infos@[0].allowed_perms.id_seq().len() == 0,
                    checker.crate_infos@[0].unused_allowed_perms.id_seq().len() == 0,
                    checker.crate_infos@[0].disallowed_usage@.len() == 0,
                decreases ne - m2,
            {
                let ghost chk2 = checker;
                let ghost excl_pre = checker.exclusions@;
                checker.exclusions.push((config.perms[j].1.exclude[m2].clone(), id));
                proof {
                    let pushed = checker.exclusions@[excl_pre.len() as int];
                    assert(checker.exclusions@ == excl_pre.push(pushed));
                    assert(pushed.0@ == eseq[m2 as int]@);
                    assert(pushed.1 == id);
                    assert forall|p: Seq<char>|
                        #[trigger] checker.excl_ids(p) == config_excl_ids_rel(
                            *config,
                            names_cur,
                            j as int,
                            p,
                        ).union(partial_grant_set(eseq, m2 + 1, id, p)) by {
                        lemma_pairs_push_one(excl_pre, pushed.0, pushed.1, p);
                        assert(checker.excl_ids(p) =~= pairs_upto(
                            checker.exclusions@,
                            p,
                            excl_pre.len() as int + 1,
                        ));
                        assert(chk2.excl_ids(p) =~= pairs_upto(
                            excl_pre,
                            p,
                            excl_pre.len() as int,
                        ));
                        assert(chk2.excl_ids(p) == config_excl_ids_rel(
                            *config,
                            names_cur,
                            j as int,
                            p,
                        ).union(partial_grant_set(eseq, m2 as int, id, p)));
                        if pushed.0@ == p {
                            assert(partial_grant_set(eseq, m2 + 1, id, p)
                                =~= Set::empty().insert(id));
                            assert(checker.excl_ids(p) =~= config_excl_ids_rel(
                                *config,
                                names_cur,
                                j as int,
                                p,
                            ).union(partial_grant_set(eseq, m2 + 1, id, p)));
                        } else {
                            assert(partial_grant_set(eseq, m2 + 1, id, p) =~= partial_grant_set(
                                eseq,
                                m2 as int,
                                id,
                                p,
                            ));
                            assert(checker.excl_ids(p) =~= config_excl_ids_rel(
                                *config,
                                names_cur,
                                j as int,
                                p,
                            ).union(partial_grant_set(eseq, m2 + 1, id, p)));
                        }
                    }
                    assert forall|p: Seq<char>|
                        #[trigger] checker.incl_ids(p) == config_incl_ids_rel(
                            *config,
                            names_cur,
                            j + 1,
                            p,
                        ) by {
                        assert(checker.incl_ids(p) =~= chk2.incl_ids(p));
                        assert(chk2.incl_ids(p) == config_incl_ids_rel(
                            *config,
                            names_cur,
                            j + 1,
                            p,
                        ));
                    }
                }
                m2 = m2 + 1;
            }
            proof {
                assert forall|p: Seq<char>|
                    #[trigger] checker.excl_ids(p) == config_excl_ids_rel(
                        *config,
                        names_cur,
                        j + 1,
                        p,
                    ) by {
                    assert(partial_grant_set(eseq, ne as int, id, p) == if has_view(eseq, p) {
                        Set::empty().insert(id)
                    } else {
                        Set::<usize>::empty()
                    });
                    assert(config_excl_ids_rel(*config, names_cur, j as int, p).union(
                        partial_grant_set(eseq, ne as int, id, p),
                    ) =~= config_excl_ids_rel(*config, names_cur, j + 1, p));
                }
            }
            j = j + 1;
        }
        let nc = config.crates.len();
        let mut i: usize = 0;
        proof {
            assert(views_of(checker.permission_names@) == names_after_crates(*config, 0));
        }
        while i < nc
            invariant
                config.wf(),
                checker.wf(),
                np == config.perms@.len(),
                nc == config.crates@.len(),
                i <= nc,
                views_of(checker.permission_names@) == names_after_crates(*config, i as int),
                forall|j2: int|
                    0 <= j2 < np ==> views_of(checker.permission_names@).contains(
                        #[trigger] config.perms@[j2].0@,
                    ),
                forall|p: Seq<char>|
                    #[trigger] checker.incl_ids(p) == config_incl_ids_rel(
                        *config,
                        views_of(checker.permission_names@),
                        np as int,
                        p,
                    ),
                forall|p: Seq<char>|
                    #[trigger] checker.excl_ids(p) == config_excl_ids_rel(
                        *config,
                        views_of(checker.permission_names@),
                        np as int,
                        p,
                    ),
                checker.crate_infos@.len() == i + 1,
                checker.crate_infos@[0].name is None,
                !checker.crate_infos@[0].has_config,
                !checker.crate_infos@[0].used,
                checker.crate_infos@[0].allowed_perms.id_seq().len() == 0,
                checker.crate_infos@[0].unused_allowed_perms.id_seq().len() == 0,
                checker.crate_infos@[0].disallowed_usage@.len() == 0,
                forall|i2: int|
                    #![auto]
                    0 <= i2 < i ==> {
                        &&& checker.crate_infos@[i2 + 1].name is Some
                        &&& checker.crate_infos@[i2 + 1].name->0@ == config.crates@[i2].0@
                        &&& checker.crate_infos@[i2 + 1].has_config
                        &&& !checker.crate_infos@[i2 + 1].used
                        &&& checker.crate_infos@[i2 + 1].allowed_perms.to_set()
                            == partial_allowed_ids(
                            config.crates@[i2].1.allow@,
                            views_of(checker.permission_names@),
                            config.crates@[i2].1.allow@.len() as int,
                        )
                        &&& checker.crate_infos@[i2 + 1].unused_allowed_perms.id_seq()
                            == checker.crate_infos@[i2 + 1].allowed_perms.id_seq()
                        &&& checker.crate_infos@[i2 + 1].disallowed_usage@.len() == 0
                    },
                forall|i2: int, t: int|
                    #![auto]
                    0 <= i2 < i && 0 <= t < config.crates@[i2].1.allow@.len() ==> views_of(
                        checker.permission_names@,
                    ).contains(config.crates@[i2].1.allow@[t]@),
            decreases nc - i,
        {
            proof {
                assert(!(exists|ii: int|
                    1 <= ii < checker.crate_infos@.len() && (
                    #[trigger] checker.crate_infos@[ii]).name->0@ == config.crates@[i as int].0@))
                    by {
                    if exists|ii: int|
                        1 <= ii < checker.crate_infos@.len() && (
                        #[trigger] checker.crate_infos@[ii]).name->0@ == config.crates@[
                        i as int
                    ].0@ {
                        let ii = choose|ii: int|
                            1 <= ii < checker.crate_infos@.len() && (
                            #[trigger] checker.crate_infos@[ii]).name->0@ == config.crates@[
                            i as int
                        ].0@;
                        assert(checker.crate_infos@[ii].name->0@ == config.crates@[ii - 1].0@);
                        assert(entry_names(config.crates@)[ii - 1] == config.crates@[ii - 1].0@);
                        assert(entry_names(config.crates@)[i as int] == config.crates@[
                            i as int
                        ].0@);
                    }
                }
            }
            let ghost chk3 = checker;
            let crate_id = checker.crate_id_from_name(&config.crates[i].0);
            checker.set_has_config(crate_id);
            let ghost allow_seq = config.crates@[i as int].1.allow@;
            proof {
                assert(crate_id == i + 1);
                assert(checker.crate_infos@[crate_id as int].allowed_perms.to_set()
                    =~= partial_allowed_ids(allow_seq, views_of(checker.permission_names@), 0));
                assert forall|p: Seq<char>|
                    #[trigger] checker.incl_ids(p) == config_incl_ids_rel(
                        *config,
                        views_of(checker.permission_names@),
                        np as int,
                        p,
                    ) by {
                    assert(checker.incl_ids(p) =~= chk3.incl_ids(p));
                    assert(chk3.incl_ids(p) == config_incl_ids_rel(
                        *config,
                        views_of(chk3.permission_names@),
                        np as int,
                        p,
                    ));
                }
                assert forall|p: Seq<char>|
                    #[trigger] checker.excl_ids(p) == config_excl_ids_rel(
                        *config,
                        views_of(checker.permission_names@),
                        np as int,
                        p,
                    ) by {
                    assert(checker.excl_ids(p) =~= chk3.excl_ids(p));
                    assert(chk3.excl_ids(p) == config_excl_ids_rel(
                        *config,
                        views_of(chk3.permission_names@),
                        np as int,
                        p,
                    ));
                }
            }
            let na = config.crates[i].1.allow.len();
            let mut m3: usize = 0;
            while m3 < na
                invariant
                    config.wf(),
                    checker.wf(),
                    np == config.perms@.len(),
                    nc == config.crates@.len(),
                    i < nc,
                    allow_seq == config.crates@[i as int].1.allow@,
                    na == allow_seq.len(),
                    m3 <= na,
                    crate_id == i + 1,
                    views_of(checker.permission_names@) == intern_list(
                        names_after_crates(*config, i as int),
                        views_of(allow_seq),
                        m3 as int,
                    ),
                    forall|j2: int|
                        0 <= j2 < np ==> views_of(checker.permission_names@).contains(
                            #[trigger] config.perms@[j2].0@,
                        ),
                    forall|p: Seq<char>|
                        #[trigger] checker.incl_ids(p) == config_incl_ids_rel(
                            *config,
                            views_of(checker.permission_names@),
                            np as int,
                            p,
                        ),
                    forall|p: Seq<char>|
                        #[trigger] checker.excl_ids(p) == config_excl_ids_rel(
                            *config,
                            views_of(checker.permission_names@),
                            np as int,
                            p,
                        ),
                    checker.crate_infos@.len() == i + 2,
                    checker.crate_infos@[0].name is None,
                    !checker.crate_infos@[0].has_config,
                    !checker.crate_infos@[0].used,
                    checker.crate_infos@[0].allowed_perms.id_seq().len() == 0,
                    checker.crate_infos@[0].unused_allowed_perms.id_seq().len() == 0,
                    checker.crate_infos@[0].disallowed_usage@.len() == 0,
                    forall|i2: int|
                        #![auto]
                        0 <= i2 < i ==> {
                            &&& checker.crate_infos@[i2 + 1].name is Some
                            &&& checker.crate_infos@[i2 + 1].name->0@ == config.crates@[i2].0@
                            &&& checker.crate_infos@[i2 + 1].has_config
                            &&& !checker.crate_infos@[i2 + 1].used
                            &&& checker.crate_infos@[i2 + 1].allowed_perms.to_set()
                                == partial_allowed_ids(
                                config.crates@[i2].1.allow@,
                                views_of(checker.permission_names@),
                                config.crates@[i2].1.allow@.len() as int,
                            )
                            &&& checker.crate_infos@[i2 + 1].unused_allowed_perms.id_seq()
                                == checker.crate_infos@[i2 + 1].allowed_perms.id_seq()
                            &&& checker.crate_infos@[i2 + 1].disallowed_usage@.len() == 0
                        },
                    forall|i2: int, t: int|
                        #![auto]
                        0 <= i2 < i && 0 <= t < config.crates@[i2].1.allow@.len() ==> views_of(
                            checker.permission_names@,
                        ).contains(config.crates@[i2].1.allow@[t]@),
                    checker.crate_infos@[crate_id as int].name is Some,
                    checker.crate_infos@[crate_id as int].name->0@ == config.crates@[
                        i as int
                    ].0@,
                    checker.crate_infos@[crate_id as int].has_config,
                    !checker.crate_infos@[crate_id as int].used,
                    checker.crate_infos@[crate_id as int].allowed_perms.to_set()
                        == partial_allowed_ids(
                        allow_seq,
                        views_of(checker.permission_names@),
                        m3 as int,
                    ),
                    checker.crate_infos@[crate_id as int].unused_allowed_perms.id_seq()
                        == checker.crate_infos@[crate_id as int].allowed_perms.id_seq(),
                    checker.crate_infos@[crate_id as int].disallowed_usage@.len() == 0,
                    forall|t: int|
                        0 <= t < m3 ==> views_of(checker.permission_names@).contains(
                            #[trigger] allow_seq[t]@,
                        ),
                decreases na - m3,
            {
                let ghost chk4 = checker;
                let ghost names_b = views_of(checker.permission_names@);
                let idv = checker.perm_id(&config.crates[i].1.allow[m3]);
                let ghost names_a = views_of(checker.permission_names@);
                proof {
                    lemma_intern1_props(names_b, allow_seq[m3 as int]@);
                    assert(names_a == intern_list(
                        names_after_crates(*config, i as int),
                        views_of(allow_seq),
                        m3 + 1,
                    )) by {
                        assert(views_of(allow_seq)[m3 as int] == allow_seq[m3 as int]@);
                    }
                    lemma_incl_rel_stable(*config, names_b, names_a, np as int);
                    assert forall|j2: int| 0 <= j2 < np implies names_a.contains(
                        #[trigger] config.perms@[j2].0@,
                    ) by {
                        lemma_idx_of_prefix(names_b, names_a, config.perms@[j2].0@);
                    }
                    assert forall|i2: int, t: int|
                        #![auto]
                        0 <= i2 < i && 0 <= t < config.crates@[i2].1.allow@.len() implies names_a
                        .contains(config.crates@[i2].1.allow@[t]@) by {
                        lemma_idx_of_prefix(names_b, names_a, config.crates@[i2].1.allow@[t]@);
                    }
                    assert forall|i2: int|
                        #![auto]
                        0 <= i2 < i implies checker.crate_infos@[i2 + 1].allowed_perms.to_set()
                        == partial_allowed_ids(
                        config.crates@[i2].1.allow@,
                        names_a,
                        config.crates@[i2].1.allow@.len() as int,
                    ) by {
                        lemma_allowed_rel_stable(
                            config.crates@[i2].1.allow@,
                            names_b,
                            names_a,
                            config.crates@[i2].1.allow@.len() as int,
                        );
                    }
                    lemma_allowed_rel_stable(allow_seq, names_b, names_a, m3 as int);
                    assert forall|t: int| 0 <= t < m3 + 1 implies names_a.contains(
                        #[trigger] allow_seq[t]@,
                    ) by {
                        if t < m3 {
                            lemma_idx_of_prefix(names_b, names_a, allow_seq[t]@);
                        }
                    }
                }
                checker.allow_perm(crate_id, idv);
                proof {
                    assert forall|p: Seq<char>|
                        #[trigger] checker.incl_ids(p) == config_incl_ids_rel(
                            *config,
                            names_a,
                            np as int,
                            p,
                        ) by {
                        assert(checker.incl_ids(p) =~= chk4.incl_ids(p));
                        assert(chk4.incl_ids(p) == config_incl_ids_rel(
                            *config,
                            names_b,
                            np as int,
                            p,
                        ));
                    }
                    assert forall|p: Seq<char>|
                        #[trigger] checker.excl_ids(p) == config_excl_ids_rel(
                            *config,
                            names_a,
                            np as int,
                            p,
                        ) by {
                        assert(checker.excl_ids(p) =~= chk4.excl_ids(p));
                        assert(chk4.excl_ids(p) == config_excl_ids_rel(
                            *config,
                            names_b,
                            np as int,
                            p,
                        ));
                    }
                    assert(checker.crate_infos@[crate_id as int].allowed_perms.to_set()
                        =~= partial_allowed_ids(allow_seq, names_a, m3 + 1)) by {
                        assert(idv as int == idx_of(names_a, allow_seq[m3 as int]@));
                        assert forall|x: usize|
                            partial_allowed_ids(allow_seq, names_a, m3 + 1).contains(x) implies
                            partial_allowed_ids(allow_seq, names_a, m3 as int).insert(
                            idv,
                        ).contains(x) by {
                            let t = choose|t: int|
                                #![auto]
                                0 <= t < m3 + 1 && t < allow_seq.len() && x as int == idx_of(
                                    names_a,
                                    allow_seq[t]@,
                                );
                            if t < m3 {
                                assert(partial_allowed_ids(
                                    allow_seq,
                                    names_a,
                                    m3 as int,
                                ).contains(x));
                            }
                        }
                    }
                }
                m3 = m3 + 1;
            }
            proof {
                assert(views_of(checker.permission_names@) == names_after_crates(
                    *config,
                    i + 1,
                ));
                assert forall|i2: int|
                    #![auto]
                    0 <= i2 < i + 1 implies {
                    &&& checker.crate_infos@[i2 + 1].name is Some
                    &&& checker.crate_infos@[i2 + 1].name->0@ == config.crates@[i2].0@
                    &&& checker.crate_infos@[i2 + 1].has_config
                    &&& !checker.crate_infos@[i2 + 1].used
                    &&& checker.crate_infos@[i2 + 1].allowed_perms.to_set() == partial_allowed_ids(
                        config.crates@[i2].1.allow@,
                        views_of(checker.permission_names@),
                        config.crates@[i2].1.allow@.len() as int,
                    )
                    &&& checker.crate_infos@[i2 + 1].unused_allowed_perms.id_seq()
                        == checker.crate_infos@[i2 + 1].allowed_perms.id_seq()
                    &&& checker.crate_infos@[i2 + 1].disallowed_usage@.len() == 0
                } by {
                    if i2 == i {
                        assert(config.crates@[i2].1.allow@ == allow_seq);
                        assert(checker.crate_infos@[i2 + 1].allowed_perms.to_set()
                            == partial_allowed_ids(
                            allow_seq,
                            views_of(checker.permission_names@),
                            na as int,
                        ));
                    }
                }
                assert forall|i2: int, t: int|
                    #![auto]
                    0 <= i2 < i + 1 && 0 <= t < config.crates@[i2].1.allow@.len() implies views_of(
                    checker.permission_names@,
                ).contains(config.crates@[i2].1.allow@[t]@) by {
                    if i2 == i {
                        assert(allow_seq[t]@ == config.crates@[i2].1.allow@[t]@);
                    }
                }
            }
            i = i + 1;
        }
        proof {
            assert(views_of(checker.permission_names@) == perm_names_spec(*config));
        }
        checker
    }
}

/// Pushing one (prefix, id) pair adds the id at exactly that prefix.
proof fn lemma_pairs_push_one(es: Seq<(String, usize)>, pr: String, id: usize, p: Seq<char>)
    ensures
        pairs_upto(es.push((pr, id)), p, es.len() as int + 1) == (if pr@ == p {
            pairs_upto(es, p, es.len() as int).insert(id)
        } else {
            pairs_upto(es, p, es.len() as int)
        }),
{
    let es2 = es.push((pr, id));
    if pr@ == p {
        assert forall|x: usize| pairs_upto(es2, p, es.len() as int + 1).contains(x) implies pairs_upto(
            es,
            p,
            es.len() as int,
        ).insert(id).contains(x) by {
            let w = choose|w: int|
                #![auto]
                0 <= w < es.len() + 1 && w < es2.len() && es2[w].0@ == p && es2[w].1 == x;
            if w < es.len() {
                assert(es[w].0@ == p && es[w].1 == x);
            }
        }
        assert forall|x: usize|
            pairs_upto(es, p, es.len() as int).insert(id).contains(x) implies pairs_upto(
            es2,
            p,
            es.len() as int + 1,
        ).contains(x) by {
            if x == id {
                assert(es2[es.len() as int].0@ == p && es2[es.len() as int].1 == x);
            } else {
                let w = choose|w: int|
                    #![auto]
                    0 <= w < es.len() && w < es.len() && es[w].0@ == p && es[w].1 == x;
                assert(es2[w].0@ == p && es2[w].1 == x);
            }
        }
        assert(pairs_upto(es2, p, es.len() as int + 1) =~= pairs_upto(es, p, es.len() as int).insert(
            id,
        ));
    } else {
        assert forall|x: usize| pairs_upto(es2, p, es.len() as int + 1).contains(x) implies pairs_upto(
            es,
            p,
            es.len() as int,
        ).contains(x) by {
            let w = choose|w: int|
                #![auto]
                0 <= w < es.len() + 1 && w < es2.len() && es2[w].0@ == p && es2[w].1 == x;
            assert(w < es.len());
            assert(es[w].0@ == p && es[w].1 == x);
        }
        assert forall|x: usize| pairs_upto(es, p, es.len() as int).contains(x) implies pairs_upto(
            es2,
            p,
            es.len() as int + 1,
        ).contains(x) by {
            let w = choose|w: int|
                #![auto]
                0 <= w < es.len() && w < es.len() && es[w].0@ == p && es[w].1 == x;
            assert(es2[w].0@ == p && es2[w].1 == x);
        }
        assert(pairs_upto(es2, p, es.len() as int + 1) =~= pairs_upto(es, p, es.len() as int));
    }
}

/// What `check_unused` reports: configuration that matched nothing in the
/// build.
pub struct UnusedConfig {
    /// Names of packages whose config exists but which never appeared.
    pub unknown_crates: Vec<String>,
    /// Per package, the allowed permissions never observed to be used.
    pub unused_allow_apis: Vec<(String, Vec<String>)>,
}

/// The names of the first `i` crate entries whose config was never matched
/// by a crate in the dependency tree.
pub open spec fn unknown_names_spec(infos: Seq<CrateInfo>, i: int) -> Seq<Seq<char>>
    decreases i,
{
    if i <= 0 {
        Seq::empty()
    } else {
        let rest = unknown_names_spec(infos, i - 1);
        let info = infos[i - 1];
        if info.name is Some && info.has_config && !info.used {
            rest.push(info.name->0@)
        } else {
            rest
        }
    }
}

/// The names of a sequence of permission ids.
pub open spec fn perm_name_views(names: Seq<String>, ids: Seq<usize>) -> Seq<Seq<char>> {
    ids.map_values(|id: usize| names[id as int]@)
}

/// Per crate among the first `i`, the allowed permissions never observed.
pub open spec fn unused_apis_spec(infos: Seq<CrateInfo>, names: Seq<String>, i: int) -> Seq<
    (Seq<char>, Seq<Seq<char>>),
>
    decreases i,
{
    if i <= 0 {
        Seq::empty()
    } else {
        let rest = unused_apis_spec(infos, names, i - 1);
        let info = infos[i - 1];
        if info.name is Some && info.unused_allowed_perms.id_seq().len() > 0 {
            rest.push(
                (info.name->0@, perm_name_views(names, info.unused_allowed_perms.id_seq())),
            )
        } else {
            rest
        }
    }
}

/// The views of a list of (name, permission names) pairs.
pub open spec fn apis_pairs_view(v: Seq<(String, Vec<String>)>) -> Seq<
    (Seq<char>, Seq<Seq<char>>),
> {
    v.map_values(|e: (String, Vec<String>)| (e.0@, views_of(e.1@)))
}

impl Checker {
    /// Reports configuration that never matched anything: packages with
    /// config but absent from the dependency tree, and allowed permissions
    /// never observed to be used.  Clean configurations give `Ok`.
    pub fn check_unused(&self) -> (r: Result<(), UnusedConfig>)
        requires
            self.wf(),
        ensures
            r is Ok <==> {
                &&& unknown_names_spec(self.crate_infos@, self.crate_infos@.len() as int).len()
                    == 0
                &&& unused_apis_spec(
                    self.crate_infos@,
                    self.permission_names@,
                    self.crate_infos@.len() as int,
                ).len() == 0
            },
            r matches Err(uc) ==> {
                &&& views_of(uc.unknown_crates@) == unknown_names_spec(
                    self.crate_infos@,
                    self.crate_infos@.len() as int,
                )
                &&& apis_pairs_view(uc.unused_allow_apis@) == unused_apis_spec(
                    self.crate_infos@,
                    self.permission_names@,
                    self.crate_infos@.len() as int,
                )
            },
    {
        let mut unknown: Vec<String> = Vec::new();
        let mut apis: Vec<(String, Vec<String>)> = Vec::new();
        let n = self.crate_infos.len();
        let mut i: usize = 0;
        while i < n
            invariant
                self.wf(),
                n == self.crate_infos@.len(),
                i <= n,
                views_of(unknown@) == unknown_names_spec(self.crate_infos@, i as int),
                apis_pairs_view(apis@) == unused_apis_spec(
                    self.crate_infos@,
                    self.permission_names@,
                    i as int,
                ),
            decreases n - i,
        {
            let info = &self.crate_infos[i];
            match &info.name {
                Some(crate_name) => {
                    if !info.used && info.has_config {
                        unknown.push(crate_name.clone());
                        proof {
                            assert(views_of(unknown@) =~= unknown_names_spec(
                                self.crate_infos@,
                                i + 1,
                            ));
                        }
                    } else {
                        proof {
                            assert(views_of(unknown@) =~= unknown_names_spec(
                                self.crate_infos@,
                                i + 1,
                            ));
                        }
                    }
                    if info.unused_allowed_perms.len() > 0 {
                        let mut perms: Vec<String> = Vec::new();
                        let m = info.unused_allowed_perms.len();
                        let mut k: usize = 0;
                        while k < m
                            invariant
                                self.wf(),
                                i < self.crate_infos@.len(),
                                info == self.crate_infos@[i as int],
                                m == info.unused_allowed_perms.id_seq().len(),
                                k <= m,
                                views_of(perms@) == perm_name_views(
                                    self.permission_names@,
                                    info.unused_allowed_perms.id_seq().take(k as int),
                                ),
                            decreases m - k,
                        {
                            let idv = info.unused_allowed_perms.id_at(k);
                            proof {
                                assert(info.wf(self.n_perms()));
                                assert(idv < self.permission_names@.len());
                            }
                            let ghost pv = perms@;
                            perms.push(self.permission_names[idv].clone());
                            proof {
                                let names = self.permission_names@;
                                let ids = info.unused_allowed_perms.id_seq();
                                assert(pv.len() == k as int) by {
                                    assert(views_of(pv).len() == pv.len());
                                    assert(perm_name_views(names, ids.take(k as int)).len()
                                        == k as int);
                                }
                                assert(perms@ == pv.push(perms@[k as int]));
                                assert(perms@[k as int]@ == names[idv as int]@);
                                assert forall|t: int|
                                    0 <= t < k + 1 implies views_of(perms@)[t] == perm_name_views(
                                    names,
                                    ids.take(k + 1),
                                )[t] by {
                                    assert(views_of(perms@)[t] == perms@[t]@);
                                    assert(perm_name_views(names, ids.take(k + 1))[t] == names[
                                        ids.take(k + 1)[t] as int
                                    ]@);
                                    if t < k {
                                        assert(perms@[t] == pv[t]);
                                        assert(ids.take(k + 1)[t] == ids.take(k as int)[t]);
                                        assert(views_of(pv)[t] == perm_name_views(
                                            names,
                                            ids.take(k as int),
                                        )[t]);
                                    } else {
                                        assert(ids.take(k + 1)[t] == idv);
                                    }
                                }
                                assert(views_of(perms@) =~= perm_name_views(
                                    names,
                                    ids.take(k + 1),
                                ));
                            }
                            k = k + 1;
                        }
                        proof {
                            assert(info.unused_allowed_perms.id_seq().take(m as int)
                                =~= info.unused_allowed_perms.id_seq());
                        }
                        apis.push((crate_name.clone(), perms));
                        proof {
                            assert(apis_pairs_view(apis@) =~= unused_apis_spec(
                                self.crate_infos@,
                                self.permission_names@,
                                i + 1,
                            ));
                        }
                    } else {
                        proof {
                            assert(apis_pairs_view(apis@) =~= unused_apis_spec(
                                self.crate_infos@,
                                self.permission_names@,
                                i + 1,
                            ));
                        }
                    }
                },
                None => {
                    proof {
                        assert(views_of(unknown@) =~= unknown_names_spec(
                            self.crate_infos@,
                            i + 1,
                        ));
                        assert(apis_pairs_view(apis@) =~= unused_apis_spec(
                            self.crate_infos@,
                            self.permission_names@,
                            i + 1,
                        ));
                    }
                },
            }
            i = i + 1;
        }
        if unknown.len() == 0 && apis.len() == 0 {
            Ok(())
        } else {
            Err(UnusedConfig { unknown_crates: unknown, unused_allow_apis: apis })
        }
    }
}

/// A permission set drawn from a bounded one is bounded too.
pub proof fn lemma_bounded_from_subset(a: PermSet, b: PermSet, n: int)
    requires
        a.to_set().subset_of(b.to_set()),
        b.bounded(n),
    ensures
        a.bounded(n),
{
    assert forall|i: int| 0 <= i < a.id_seq().len() implies a.id_seq()[i] < n by {
        let x = a.id_seq()[i];
        assert(a.id_seq().contains(x));
        assert(b.to_set().contains(x));
        let w = choose|w: int| 0 <= w < b.id_seq().len() && b.id_seq()[w] == x;
    }
}

/// One more element of a sequence extends the set of its prefix by it.
pub proof fn lemma_take_to_set_step(s: Seq<usize>, k: int)
    requires
        0 <= k < s.len(),
    ensures
        s.take(k + 1).to_set() == s.take(k).to_set().insert(s[k]),
{
    let t1 = s.take(k + 1);
    let t0 = s.take(k);
    assert forall|x: usize| t1.to_set().contains(x) implies t0.to_set().insert(s[k]).contains(
        x,
    ) by {
        let w = choose|w: int| 0 <= w < t1.len() && t1[w] == x;
        if w < k {
            assert(t0[w] == x);
        }
    }
    assert forall|x: usize| t0.to_set().insert(s[k]).contains(x) implies t1.to_set().contains(
        x,
    ) by {
        if x == s[k] {
            assert(t1[k] == x);
        } else {
            let w = choose|w: int| 0 <= w < t0.len() && t0[w] == x;
            assert(t1[w] == x);
        }
    }
    assert(t1.to_set() =~= t0.to_set().insert(s[k]));
}

/// Appending one record to the usage list appends to exactly its permission.
pub proof fn lemma_usages_for_push(es: Seq<(usize, Usage)>, q: usize, u: Usage)
    ensures
        forall|perm: usize|
            usages_for_seq(es.push((q, u)), perm) == if perm == q {
                usages_for_seq(es, perm).push(u)
            } else {
                usages_for_seq(es, perm)
            },
{
    assert forall|perm: usize|
        usages_for_seq(es.push((q, u)), perm) == if perm == q {
            usages_for_seq(es, perm).push(u)
        } else {
            usages_for_seq(es, perm)
        } by {
        assert(es.push((q, u)).drop_last() =~= es);
        assert(es.push((q, u)).last() == (q, u));
    }
}

proof fn lemma_info_wf_weaken(info: CrateInfo, n1: int, n2: int)
    requires
        info.wf(n1),
        n1 <= n2,
    ensures
        info.wf(n2),
{
}

proof fn lemma_idx_of_prefix_push(names: Seq<Seq<char>>, n: Seq<char>)
    requires
        !names.contains(n),
    ensures
        idx_of(names.push(n), n) == names.len(),
    decreases names.len(),
{
    if names.len() == 0 {
        assert(names.push(n)[0] == n);
    } else {
        assert(names[0] != n);
        assert(names.push(n)[0] == names[0]);
        assert(!names.skip(1).contains(n)) by {
            if names.skip(1).contains(n) {
                let w = choose|w: int| 0 <= w < names.skip(1).len() && names.skip(1)[w] == n;
                assert(names[w + 1] == n);
            }
        }
        lemma_idx_of_prefix_push(names.skip(1), n);
        assert(names.push(n).skip(1) =~= names.skip(1).push(n));
    }
}

/// The brute-force per-prefix definition of matching, straight over the
/// configuration: walk the prefixes left to right, at each one union the
/// permissions whose grant lists name it, then subtract those whose exclude
/// lists name it.
pub open spec fn config_apis_upto(c: Config, parts: Seq<Seq<char>>, k: int) -> Set<usize>
    decreases k,
{
    if k <= 0 {
        Set::empty()
    } else {
        config_apis_upto(c, parts, k - 1).union(
            config_incl_ids(c, joined(parts.take(k))),
        ).difference(config_excl_ids(c, joined(parts.take(k))))
    }
}

/// The permissions the configuration attributes a symbol path to.
pub open spec fn config_apis_spec(c: Config, parts: Seq<Seq<char>>) -> Set<usize> {
    config_apis_upto(c, parts, parts.len() as int)
}

/// For any configuration and symbol path, the checker built from the
/// configuration attributes the path to exactly the permissions of the
/// brute-force per-prefix definition; the result depends on nothing else.
pub proof fn lemma_apis_match_config(chk: Checker, c: Config, parts: Seq<Seq<char>>)
    requires
        chk.models(c),
    ensures
        chk.apis_spec(parts) == config_apis_spec(c, parts),
{
    lemma_apis_match_config_upto(chk, c, parts, parts.len() as int);
}

proof fn lemma_apis_match_config_upto(chk: Checker, c: Config, parts: Seq<Seq<char>>, k: int)
    requires
        chk.models(c),
    ensures
        chk.apis_upto(parts, k) == config_apis_upto(c, parts, k),
    decreases k,
{
    if k <= 0 {
    } else {
        lemma_apis_match_config_upto(chk, c, parts, k - 1);
        assert(chk.incl_ids(joined(parts.take(k))) == config_incl_ids(c, joined(parts.take(k))));
        assert(chk.excl_ids(joined(parts.take(k))) == config_excl_ids(c, joined(parts.take(k))));
    }
}

/// An empty symbol path is attributed to no permission at all.
pub proof fn lemma_empty_path_no_permissions(chk: Checker)
    ensures
        chk.apis_spec(Seq::<Seq<char>>::empty()) == Set::<usize>::empty(),
{
}

/// Wherever a permission is granted along a path it is also revoked at the
/// very same prefix, so the path is not attributed to it: an exclude listed
/// at the same prefix as a grant wins.
pub proof fn lemma_exclude_at_same_prefix_wins(chk: Checker, parts: Seq<Seq<char>>, id: usize)
    requires
        forall|k: int|
            1 <= k <= parts.len() && #[trigger] chk.incl_ids(joined(parts.take(k))).contains(id)
                ==> chk.excl_ids(joined(parts.take(k))).contains(id),
    ensures
        !chk.apis_spec(parts).contains(id),
{
    lemma_exclude_at_same_prefix_wins_upto(chk, parts, id, parts.len() as int);
}

proof fn lemma_exclude_at_same_prefix_wins_upto(
    chk: Checker,
    parts: Seq<Seq<char>>,
    id: usize,
    k: int,
)
    requires
        k <= parts.len(),
        forall|k2: int|
            1 <= k2 <= parts.len() && #[trigger] chk.incl_ids(
                joined(parts.take(k2)),
            ).contains(id) ==> chk.excl_ids(joined(parts.take(k2))).contains(id),
    ensures
        !chk.apis_upto(parts, k).contains(id),
    decreases k,
{
    if k <= 0 {
    } else {
        lemma_exclude_at_same_prefix_wins_upto(chk, parts, id, k - 1);
    }
}

/// Observing a sequence of permission-set uses, one after the other.
pub open spec fn observe_all(unused: Set<usize>, uses: Seq<Set<usize>>) -> Set<usize>
    decreases uses.len(),
{
    if uses.len() == 0 {
        unused
    } else {
        observe_all(unused, uses.drop_last()).difference(uses.last())
    }
}

/// The union of a sequence of permission sets.
pub open spec fn union_all(uses: Seq<Set<usize>>) -> Set<usize>
    decreases uses.len(),
{
    if uses.len() == 0 {
        Set::empty()
    } else {
        union_all(uses.drop_last()).union(uses.last())
    }
}

/// At the end of a run, the not-yet-used allowed permissions of a crate are
/// exactly its allowed permissions minus everything observed used: starting
/// from `allowed` (how `from_config` seeds the unused set) and removing each
/// observed set in turn (what `path_used` does) leaves `allowed` minus the
/// union of all observations.
pub proof fn lemma_unused_is_allowed_minus_observed(allowed: Set<usize>, uses: Seq<Set<usize>>)
    ensures
        observe_all(allowed, uses) == allowed.difference(union_all(uses)),
    decreases uses.len(),
{
    if uses.len() == 0 {
        assert(observe_all(allowed, uses) =~= allowed.difference(union_all(uses)));
    } else {
        lemma_unused_is_allowed_minus_observed(allowed, uses.drop_last());
        assert(observe_all(allowed, uses) =~= allowed.difference(union_all(uses)));
    }
}

/// The line shown for one usage: the source position, or the object file
/// when no mapping was available.
pub open spec fn usage_line(u: Usage) -> Seq<char> {
    match u {
        Usage::Source(loc) => "    "@ + loc.filename@ + seq![':'] + crate::textutil::dec_str(
            (loc.line_number + 1) as nat,
        ),
        Usage::Unknown(loc) => "    Unknown source location in `"@ + loc.object_path@ + "`"@,
    }
}

/// The lines for the first `k` usages of one permission.
pub open spec fn usage_lines(us: Seq<Usage>, k: int) -> Seq<Seq<char>>
    decreases k,
{
    if k <= 0 {
        Seq::empty()
    } else {
        usage_lines(us, k - 1).push(usage_line(us[k - 1]))
    }
}

/// How many usages are shown under the reporting cap: all of them when the
/// cap is negative.
pub open spec fn shown_count(len: int, cap: int) -> int {
    if cap < 0 {
        len
    } else if cap < len {
        cap
    } else {
        len
    }
}

/// The report section of one crate for the permission ids below `p`: per
/// disallowed permission its name and the capped usages.
pub open spec fn perm_sections(info: CrateInfo, names: Seq<String>, cap: int, p: int) -> Seq<
    Seq<char>,
>
    decreases p,
{
    if p <= 0 {
        Seq::empty()
    } else {
        let rest = perm_sections(info, names, cap, p - 1);
        let us = info.usages_for((p - 1) as usize);
        if us.len() > 0 {
            rest + seq!["  "@ + names[p - 1]@ + seq![':']] + usage_lines(
                us,
                shown_count(us.len() as int, cap),
            )
        } else {
            rest
        }
    }
}

/// The header line of one crate's report.
pub open spec fn crate_header(info: CrateInfo) -> Seq<char> {
    match info.name {
        Some(name) => "Crate '"@ + name@ + "' uses disallowed APIs:"@,
        None => "APIs were used by code where we couldn't identify the crate responsible:"@,
    }
}

/// The report for the first `i` crates: a header and permission sections
/// for every crate with disallowed usages.
pub open spec fn report_lines_spec(chk: Checker, cap: int, i: int) -> Seq<Seq<char>>
    decreases i,
{
    if i <= 0 {
        Seq::empty()
    } else {
        let rest = report_lines_spec(chk, cap, i - 1);
        let info = chk.crate_infos@[i - 1];
        if info.disallowed_usage@.len() > 0 {
            rest + seq![crate_header(info)] + perm_sections(
                info,
                chk.permission_names@,
                cap,
                chk.n_perms(),
            )
        } else {
            rest
        }
    }
}

impl Checker {
    /// Whether the build may continue: denied exactly when some crate was
    /// observed using a permission it is not allowed.
    pub fn report_problems(&self) -> (r: crate::proxy::CanContinueResponse)
        ensures
            r is Deny <==> exists|i: int|
                0 <= i < self.crate_infos@.len() && (
                #[trigger] self.crate_infos@[i]).disallowed_usage@.len() > 0,
            r is Deny || r is Proceed,
    {
        let mut i: usize = 0;
        while i < self.crate_infos.len()
            invariant
                i <= self.crate_infos@.len(),
                forall|k: int|
                    0 <= k < i ==> (#[trigger] self.crate_infos@[k]).disallowed_usage@.len()
                        == 0,
            decreases self.crate_infos@.len() - i,
        {
            if self.crate_infos[i].disallowed_usage.len() > 0 {
                return crate::proxy::CanContinueResponse::Deny;
            }
            i = i + 1;
        }
        crate::proxy::CanContinueResponse::Proceed
    }

    /// The usages recorded against one permission of one crate, in order.
    fn collect_usages(info: &CrateInfo, perm: usize) -> (r: Vec<Usage>)
        ensures
            r@ == info.usages_for(perm),
    {
        let mut out: Vec<Usage> = Vec::new();
        let mut t: usize = 0;
        while t < info.disallowed_usage.len()
            invariant
                t <= info.disallowed_usage@.len(),
                out@ == usages_for_seq(info.disallowed_usage@.take(t as int), perm),
            decreases info.disallowed_usage@.len() - t,
        {
            proof {
                assert(info.disallowed_usage@.take(t + 1).drop_last()
                    =~= info.disallowed_usage@.take(t as int));
                assert(info.disallowed_usage@.take(t + 1).last() == info.disallowed_usage@[
                    t as int
                ]);
            }
            if info.disallowed_usage[t].0 == perm {
                out.push(info.disallowed_usage[t].1.duplicate());
            }
            t = t + 1;
        }
        proof {
            assert(info.disallowed_usage@.take(info.disallowed_usage@.len() as int)
                =~= info.disallowed_usage@);
        }
        out
    }

    /// Renders the usage report: for every crate with disallowed usages a
    /// header, then per permission its name and the observed usages, capped
    /// per permission; no cap shows everything.
    pub fn usage_report(&self, usage_report_cap: Option<usize>) -> (r: Vec<String>)
        requires
            self.wf(),
        ensures
            r@.map_values(|s: String| s@) == report_lines_spec(
                *self,
                match usage_report_cap {
                    Some(c) => c as int,
                    None => -1,
                },
                self.crate_infos@.len() as int,
            ),
    {
        let ghost cap: int = match usage_report_cap {
            Some(c) => c as int,
            None => -1,
        };
        let mut out: Vec<String> = Vec::new();
        let mut i: usize = 0;
        proof {
            assert(out@.map_values(|s: String| s@) =~= report_lines_spec(*self, cap, 0));
        }
        while i < self.crate_infos.len()
            invariant
                self.wf(),
                cap == (match usage_report_cap {
                    Some(c) => c as int,
                    None => -1,
                }),
                i <= self.crate_infos@.len(),
                out@.map_values(|s: String| s@) == report_lines_spec(*self, cap, i as int),
            decreases self.crate_infos@.len() - i,
        {
            let info = &self.crate_infos[i];
            if info.disallowed_usage.len() > 0 {
                let mut header = String::new();
                match &info.name {
                    Some(name) => {
                        header.append("Crate '");
                        header.append(name.as_str());
                        header.append("' uses disallowed APIs:");
                    },
                    None => {
                        header.append(
                            "APIs were used by code where we couldn't identify the crate responsible:",
                        );
                    },
                }
                proof {
                    assert(header@ =~= crate_header(self.crate_infos@[i as int]));
                }
                out.push(header);
                let ghost mid = out@.map_values(|s: String| s@);
                proof {
                    assert(mid =~= report_lines_spec(*self, cap, i as int) + seq![
                        crate_header(self.crate_infos@[i as int]),
                    ]);
                }
                let np = self.permission_names.len();
                let mut p: usize = 0;
                proof {
                    assert(out@.map_values(|s: String| s@) =~= mid + perm_sections(
                        self.crate_infos@[i as int],
                        self.permission_names@,
                        cap,
                        0,
                    ));
                }
                while p < np
                    invariant
                        self.wf(),
                        cap == (match usage_report_cap {
                            Some(c) => c as int,
                            None => -1,
                        }),
                        i < self.crate_infos@.len(),
                        info == &self.crate_infos@[i as int],
                        np == self.permission_names@.len(),
                        p <= np,
                        out@.map_values(|s: String| s@) == mid + perm_sections(
                            self.crate_infos@[i as int],
                            self.permission_names@,
                            cap,
                            p as int,
                        ),
                    decreases np - p,
                {
                    let usages = Self::collect_usages(info, p);
                    if usages.len() > 0 {
                        let mut perm_line = String::new();
                        perm_line.append("  ");
                        perm_line.append(self.permission_names[p].as_str());
                        perm_line.append(":");
                        proof {
                            reveal_strlit(":");
                            assert(perm_line@ =~= "  "@ + self.permission_names@[p as int]@
                                + seq![':']);
                        }
                        out.push(perm_line);
                        let ghost mid2 = out@.map_values(|s: String| s@);
                        let n_shown = match usage_report_cap {
                            None => usages.len(),
                            Some(c) => if c < usages.len() {
                                c
                            } else {
                                usages.len()
                            },
                        };
                        proof {
                            assert(n_shown as int == shown_count(usages@.len() as int, cap));
                        }
                        let mut t: usize = 0;
                        proof {
                            assert(out@.map_values(|s: String| s@) =~= mid2 + usage_lines(
                                usages@,
                                0,
                            ));
                        }
                        while t < n_shown
                            invariant
                                self.wf(),
                                i < self.crate_infos@.len(),
                                p < self.permission_names@.len(),
                                t <= n_shown,
                                n_shown <= usages@.len(),
                                usages@ == self.crate_infos@[i as int].usages_for(p),
                                n_shown as int == shown_count(usages@.len() as int, cap),
                                mid2 == mid + perm_sections(
                                    self.crate_infos@[i as int],
                                    self.permission_names@,
                                    cap,
                                    p as int,
                                ) + seq!["  "@ + self.permission_names@[p as int]@ + seq![':']],
                                out@.map_values(|s: String| s@) == mid2 + usage_lines(
                                    usages@,
                                    t as int,
                                ),
                            decreases n_shown - t,
                        {
                            let mut line = String::new();
                            match &usages[t] {
                                Usage::Source(loc) => {
                                    line.append("    ");
                                    line.append(loc.filename.as_str());
                                    line.append(":");
                                    let shown_line = crate::textutil::u64_to_string(
                                        (loc.line_number as u64) + 1,
                                    );
                                    line.append(shown_line.as_str());
                                    proof {
                                        reveal_strlit(":");
                                        assert(line@ =~= usage_line(usages@[t as int]));
                                    }
                                },
                                Usage::Unknown(loc) => {
                                    line.append("    Unknown source location in `");
                                    line.append(loc.object_path.as_str());
                                    line.append("`");
                                    proof {
                                        assert(line@ =~= usage_line(usages@[t as int]));
                                    }
                                },
                            }
                            let ghost pre = out@;
                            out.push(line);
                            proof {
                                let mv = out@.map_values(|s: String| s@);
                                let target = mid2 + usage_lines(usages@, t + 1);
                                assert(out@ =~= pre.push(out@.last()));
                                assert(usage_lines(usages@, t + 1) == usage_lines(
                                    usages@,
                                    t as int,
                                ).push(usage_line(usages@[t as int])));
                                assert(pre.map_values(|s: String| s@).len() == mid2.len()
                                    + usage_lines(usages@, t as int).len());
                                assert(mv.len() == pre.len() + 1);
                                assert(mv.len() == target.len());
                                assert forall|w: int| 0 <= w < mv.len() implies mv[w]
                                    == target[w] by {
                                    if w < pre.len() {
                                        assert(out@[w] == pre[w]);
                                        assert(pre.map_values(|s: String| s@)[w] == (mid2
                                            + usage_lines(usages@, t as int))[w]);
                                    } else {
                                        assert(mv[w] == out@.last()@);
                                        assert(usage_lines(usages@, t + 1).last() == usage_line(
                                            usages@[t as int],
                                        ));
                                    }
                                }
                                assert(mv =~= target);
                            }
                            t = t + 1;
                        }
                        proof {
                            assert(out@.map_values(|s: String| s@) =~= mid + perm_sections(
                                self.crate_infos@[i as int],
                                self.permission_names@,
                                cap,
                                p + 1,
                            ));
                        }
                    } else {
                        proof {
                            assert(out@.map_values(|s: String| s@) =~= mid + perm_sections(
                                self.crate_infos@[i as int],
                                self.permission_names@,
                                cap,
                                p + 1,
                            ));
                        }
                    }
                    p = p + 1;
                }
                proof {
                    assert(out@.map_values(|s: String| s@) =~= report_lines_spec(
                        *self,
                        cap,
                        i + 1,
                    ));
                }
            } else {
                proof {
                    assert(out@.map_values(|s: String| s@) =~= report_lines_spec(
                        *self,
                        cap,
                        i + 1,
                    ));
                }
            }
            i = i + 1;
        }
        out
    }
}

} // verus!
