//! The package index: what the tool knows about every package of the
//! workspace from cargo metadata — its directory, canonical crate name,
//! whether it is a proc macro, and whether several versions of its name are
//! present.  Package identity can also be rebuilt inside a subprocess from
//! the environment cargo provides.

use vstd::prelude::*;

use crate::textutil::{
    dec_str, is_prefix_of, split_char, split_spec, str_starts_with, u64_to_string,
};

verus! {

/// A semantic version, reduced to its numeric components.  Ordering is
/// lexicographic on (major, minor, patch).
#[derive(Clone, Copy, PartialEq, Eq, Structural, Debug)]
pub struct Version {
    pub major: u64,
    pub minor: u64,
    pub patch: u64,
}

/// Strict order on versions.
pub open spec fn version_lt(a: Version, b: Version) -> bool {
    if a.major != b.major {
        a.major < b.major
    } else if a.minor != b.minor {
        a.minor < b.minor
    } else {
        a.patch < b.patch
    }
}

/// The decimal rendering of a version, `major.minor.patch`.
pub open spec fn version_display(v: Version) -> Seq<char> {
    dec_str(v.major as nat) + seq!['.'] + dec_str(v.minor as nat) + seq!['.'] + dec_str(
        v.patch as nat,
    )
}

impl Version {
    pub fn lt(&self, other: &Version) -> (r: bool)
        ensures
            r == version_lt(*self, *other),
    {
        if self.major != other.major {
            self.major < other.major
        } else if self.minor != other.minor {
            self.minor < other.minor
        } else {
            self.patch < other.patch
        }
    }

    /// Renders the version as `major.minor.patch`.
    pub fn display_string(&self) -> (r: String)
        ensures
            r@ == version_display(*self),
    {
        proof {
            reveal_strlit(".");
        }
        let mut out = u64_to_string(self.major);
        out.append(".");
        let minor = u64_to_string(self.minor);
        out.append(minor.as_str());
        out.append(".");
        let patch = u64_to_string(self.patch);
        out.append(patch.as_str());
        proof {
            assert(out@ =~= version_display(*self));
        }
        out
    }
}

/// What `cargo_metadata::semver::Version::parse` accepts and returns: a
/// function of the text alone.  `None` stands for a parse error.
pub uninterp spec fn parsed_semver(s: Seq<char>) -> Option<(u64, u64, u64)>;

/// Relies on the semver parser re-exported by cargo_metadata: it accepts
/// exactly the well-formed semantic version strings and returns their
/// numeric components, deterministically in the text.
#[verifier::external_body]
fn parse_semver(text: &str) -> (r: Option<(u64, u64, u64)>)
    ensures
        r == parsed_semver(text@),
{
    match cargo_metadata::semver::Version::parse(text) {
        Ok(v) => Some((v.major, v.minor, v.patch)),
        Err(_) => None,
    }
}

/// Identifies one package of the dependency tree.
pub struct PackageId {
    pub name: String,
    pub version: Version,
    /// Whether this is the only version of this package present in the
    /// dependency tree; when it is not, displays carry the version too.
    pub name_is_unique: bool,
}

/// The canonical crate name: dashes become underscores.
pub open spec fn dash_to_underscore(s: Seq<char>) -> Seq<char> {
    s.map_values(
        |c: char|
            if c == '-' {
                '_'
            } else {
                c
            },
    )
}

/// Replaces every dash with an underscore.
pub fn dashes_to_underscores(s: &str) -> (r: String)
    ensures
        r@ == dash_to_underscore(s@),
{
    let n = s.unicode_len();
    let mut out = String::new();
    let mut i: usize = 0;
    proof {
        reveal_strlit("_");
        assert(out@ =~= dash_to_underscore(s@).take(0));
    }
    while i < n
        invariant
            n == s@.len(),
            i <= n,
            out@ == dash_to_underscore(s@).take(i as int),
        decreases n - i,
    {
        if s.get_char(i) == '-' {
            out.append("_");
            proof {
                reveal_strlit("_");
                assert(dash_to_underscore(s@)[i as int] == '_');
            }
        } else {
            let piece = s.substring_char(i, i + 1);
            out.append(piece);
            proof {
                assert(s@.subrange(i as int, i + 1) =~= seq![s@[i as int]]);
                assert(dash_to_underscore(s@)[i as int] == s@[i as int]);
            }
        }
        proof {
            assert(dash_to_underscore(s@).take(i + 1) =~= dash_to_underscore(s@).take(
                i as int,
            ).push(dash_to_underscore(s@)[i as int]));
            assert(out@ =~= dash_to_underscore(s@).take(i + 1));
        }
        i = i + 1;
    }
    proof {
        assert(dash_to_underscore(s@).take(n as int) =~= dash_to_underscore(s@));
    }
    out
}

/// The crate name of a package's build script.
pub open spec fn build_script_name_spec(name: Seq<char>) -> Seq<char> {
    "build_script_"@ + dash_to_underscore(name)
}

/// The message for a version string the parser refused.
pub open spec fn invalid_version_msg(name: Seq<char>, version: Seq<char>) -> Seq<char> {
    "Package `"@ + name + "` has invalid version string `"@ + version + "`"@
}

impl PackageId {
    /// Rebuilds the value; the copy equals the original.
    pub fn duplicate(&self) -> (r: PackageId)
        ensures
            r == *self,
    {
        PackageId {
            name: self.name.clone(),
            version: self.version,
            name_is_unique: self.name_is_unique,
        }
    }

    pub fn name(&self) -> (r: &String)
        ensures
            r == &self.name,
    {
        &self.name
    }

    pub fn version(&self) -> (r: &Version)
        ensures
            r == &self.version,
    {
        &self.version
    }

    /// The canonical crate name: the package name with dashes replaced by
    /// underscores.
    pub fn crate_name(&self) -> (r: String)
        ensures
            r@ == dash_to_underscore(self.name@),
    {
        dashes_to_underscores(self.name.as_str())
    }

    /// Rebuilds a package id inside a subprocess from the values cargo put
    /// in its environment: the package name, its version string, and the
    /// comma-separated list of names with several versions present.
    pub fn from_parts(name: &String, version_string: &String, non_unique_pkg_names: &String) -> (r:
        Result<PackageId, String>)
        ensures
            r is Ok <==> parsed_semver(version_string@) is Some,
            r matches Ok(p) ==> {
                &&& p.name@ == name@
                &&& parsed_semver(version_string@) == Some(
                    (p.version.major, p.version.minor, p.version.patch),
                )
                &&& p.name_is_unique <==> !split_spec(non_unique_pkg_names@, ',').contains(name@)
            },
            r matches Err(e) ==> e@ == invalid_version_msg(name@, version_string@),
    {
        match parse_semver(version_string.as_str()) {
            Some((major, minor, patch)) => {
                let parts = split_char(non_unique_pkg_names.as_str(), ',');
                let mut found = false;
                let mut t: usize = 0;
                while t < parts.len()
                    invariant
                        t <= parts@.len(),
                        found == exists|w: int|
                            0 <= w < t && (#[trigger] parts@[w])@ == name@,
                    decreases parts@.len() - t,
                {
                    if parts[t] == *name {
                        found = true;
                        proof {
                            assert((parts@[t as int])@ == name@);
                        }
                    }
                    t = t + 1;
                }
                proof {
                    let views = parts@.map_values(|p: String| p@);
                    assert(found == views.contains(name@)) by {
                        if found {
                            let w = choose|w: int|
                                0 <= w < parts@.len() && (#[trigger] parts@[w])@ == name@;
                            assert(views[w] == name@);
                        } else {
                            if views.contains(name@) {
                                let w = choose|w: int|
                                    0 <= w < views.len() && views[w] == name@;
                                assert((parts@[w])@ == name@);
                            }
                        }
                    }
                }
                Ok(
                    PackageId {
                        name: name.clone(),
                        version: Version { major, minor, patch },
                        name_is_unique: !found,
                    },
                )
            },
            None => {
                let mut msg = String::new();
                msg.append("Package `");
                msg.append(name.as_str());
                msg.append("` has invalid version string `");
                msg.append(version_string.as_str());
                msg.append("`");
                proof {
                    assert(msg@ =~= invalid_version_msg(name@, version_string@));
                }
                Err(msg)
            },
        }
    }
}

/// The build-script crate of a package, as opposed to its primary crate.
pub struct BuildScriptId {
    pub pkg_id: PackageId,
}

impl BuildScriptId {
    pub fn duplicate(&self) -> (r: BuildScriptId)
        ensures
            r == *self,
    {
        BuildScriptId { pkg_id: self.pkg_id.duplicate() }
    }
}

/// Identifies either the primary crate or the build script of a package.
pub enum CrateSel {
    Primary(PackageId),
    BuildScript(BuildScriptId),
}

/// How a crate selector is shown: the package name, `.build` for a build
/// script, and the version in brackets when several versions of the name
/// are present.
pub open spec fn crate_sel_display(sel: CrateSel) -> Seq<char> {
    let pkg = sel.pkg_id_spec();
    let base = if sel is BuildScript {
        pkg.name@ + ".build"@
    } else {
        pkg.name@
    };
    if pkg.name_is_unique {
        base
    } else {
        base + seq!['['] + version_display(pkg.version) + seq![']']
    }
}

impl CrateSel {
    pub open spec fn pkg_id_spec(self) -> PackageId {
        match self {
            CrateSel::Primary(pkg_id) => pkg_id,
            CrateSel::BuildScript(b) => b.pkg_id,
        }
    }

    pub fn pkg_id(&self) -> (r: &PackageId)
        ensures
            *r == self.pkg_id_spec(),
    {
        match self {
            CrateSel::Primary(pkg_id) => pkg_id,
            CrateSel::BuildScript(b) => &b.pkg_id,
        }
    }

    pub fn duplicate(&self) -> (r: CrateSel)
        ensures
            r == *self,
    {
        match self {
            CrateSel::Primary(pkg_id) => CrateSel::Primary(pkg_id.duplicate()),
            CrateSel::BuildScript(b) => CrateSel::BuildScript(b.duplicate()),
        }
    }

    /// Rebuilds the crate selector inside a subprocess: cargo names build
    /// script crates `build_script_*`.
    pub fn from_parts(pkg_id: PackageId, cargo_crate_name: Option<&String>) -> (r: CrateSel)
        ensures
            r.pkg_id_spec() == pkg_id,
            r is BuildScript <==> (cargo_crate_name matches Some(n) && is_prefix_of(
                "build_script_"@,
                n@,
            )),
    {
        let is_build_script = match cargo_crate_name {
            Some(n) => str_starts_with(n.as_str(), "build_script_"),
            None => false,
        };
        if is_build_script {
            CrateSel::BuildScript(BuildScriptId { pkg_id })
        } else {
            CrateSel::Primary(pkg_id)
        }
    }

    /// Renders the selector for the user.
    pub fn display_string(&self) -> (r: String)
        ensures
            r@ == crate_sel_display(*self),
    {
        let pkg = self.pkg_id();
        let mut out = String::new();
        out.append(pkg.name.as_str());
        match self {
            CrateSel::BuildScript(_) => {
                out.append(".build");
            },
            CrateSel::Primary(_) => {},
        }
        if !pkg.name_is_unique {
            proof {
                reveal_strlit("[");
                reveal_strlit("]");
            }
            out.append("[");
            let v = pkg.version.display_string();
            out.append(v.as_str());
            out.append("]");
        }
        proof {
            assert(out@ =~= crate_sel_display(*self));
        }
        out
    }
}

impl BuildScriptId {
    /// Renders the build-script selector for the user.
    pub fn display_string(&self) -> (r: String)
        ensures
            r@ == crate_sel_display(CrateSel::BuildScript(*self)),
    {
        let sel = CrateSel::BuildScript(self.duplicate());
        sel.display_string()
    }
}

impl PackageId {
    /// Renders the package id for the user, as its primary crate.
    pub fn display_string(&self) -> (r: String)
        ensures
            r@ == crate_sel_display(CrateSel::Primary(*self)),
    {
        let sel = CrateSel::Primary(self.duplicate());
        sel.display_string()
    }
}

/// One package as cargo metadata reports it, reduced to plain values.
pub struct PackageRecord {
    pub name: String,
    pub version: Version,
    /// The directory holding the package's manifest.
    pub directory: String,
    pub description: Option<String>,
    pub documentation: Option<String>,
    /// Whether any target of the package is a proc macro.
    pub is_proc_macro: bool,
}

/// What the index keeps per package.
pub struct PackageInfo {
    pub directory: String,
    pub description: Option<String>,
    pub documentation: Option<String>,
    /// The canonical crate name, dashes replaced by underscores.
    pub crate_name: String,
    /// The crate name of the package's build script, when one may exist.
    pub build_script_name: Option<String>,
    pub is_proc_macro: bool,
}

/// The index over all packages of the dependency tree.
pub struct CrateIndex {
    pub manifest_path: String,
    /// Per package: its id and what is known about it, in metadata order.
    pub package_infos: Vec<(PackageId, PackageInfo)>,
    /// Directory to owning package, for fallback path attribution.
    pub dir_to_pkg_id: Vec<(String, PackageId)>,
    /// Package name to its ids, ascending by version.
    pub pkg_name_to_ids: Vec<(String, Vec<PackageId>)>,
}

/// How many records carry a name.
pub open spec fn name_count(rs: Seq<PackageRecord>, n: Seq<char>) -> int
    decreases rs.len(),
{
    if rs.len() == 0 {
        0int
    } else {
        name_count(rs.drop_last(), n) + if rs.last().name@ == n {
            1int
        } else {
            0int
        }
    }
}

/// A new id inserted before the first strictly larger version.
pub open spec fn insert_sorted_spec(ids: Seq<PackageId>, pkg: PackageId) -> Seq<PackageId>
    decreases ids.len(),
{
    if ids.len() == 0 {
        seq![pkg]
    } else if version_lt(pkg.version, ids[0].version) {
        seq![pkg] + ids
    } else {
        seq![ids[0]] + insert_sorted_spec(ids.skip(1), pkg)
    }
}

/// The ids listed under a name, in ascending version order.
pub open spec fn name_ids_in(entries: Seq<(String, Vec<PackageId>)>, n: Seq<char>) -> Seq<
    PackageId,
>
    decreases entries.len(),
{
    if entries.len() == 0 {
        Seq::empty()
    } else if entries[0].0@ == n {
        entries[0].1@
    } else {
        name_ids_in(entries.skip(1), n)
    }
}

impl CrateIndex {
    /// The ids listed under a name.
    pub open spec fn name_ids(self, n: Seq<char>) -> Seq<PackageId> {
        name_ids_in(self.pkg_name_to_ids@, n)
    }

    /// The name map is consistent: unique keys, every id under its own name,
    /// versions strictly ascending, no empty entry.
    pub open spec fn name_map_wf(self) -> bool {
        let es = self.pkg_name_to_ids@;
        &&& forall|e1: int, e2: int|
            0 <= e1 < e2 < es.len() ==> (#[trigger] es[e1]).0@ != (#[trigger] es[e2]).0@
        &&& forall|e: int|
            #![auto]
            0 <= e < es.len() ==> es[e].1@.len() > 0
        &&& forall|e: int, t: int|
            #![auto]
            0 <= e < es.len() && 0 <= t < es[e].1@.len() ==> es[e].1@[t].name@ == es[e].0@
        &&& forall|e: int, t1: int, t2: int|
            #![auto]
            0 <= e < es.len() && 0 <= t1 < t2 < es[e].1@.len() ==> version_lt(
                es[e].1@[t1].version,
                es[e].1@[t2].version,
            )
    }

    pub open spec fn wf(self) -> bool {
        self.name_map_wf()
    }

    /// Adds one id to the name map, keeping each list sorted by version.
    fn insert_into_name_map(&mut self, pkg: PackageId)
        requires
            old(self).name_map_wf(),
            forall|t: int|
                0 <= t < old(self).name_ids(pkg.name@).len() ==> (#[trigger] old(self).name_ids(
                    pkg.name@,
                )[t]).version != pkg.version,
        ensures
            final(self).name_map_wf(),
            final(self).manifest_path == old(self).manifest_path,
            final(self).package_infos == old(self).package_infos,
            final(self).dir_to_pkg_id == old(self).dir_to_pkg_id,
            final(self).name_ids(pkg.name@) == insert_sorted_spec(
                old(self).name_ids(pkg.name@),
                pkg,
            ),
            forall|n: Seq<char>|
                n != pkg.name@ ==> #[trigger] final(self).name_ids(n) == old(self).name_ids(n),
    {
        let n = self.pkg_name_to_ids.len();
        let ghost es0 = self.pkg_name_to_ids@;
        let mut e: usize = 0;
        while e < n
            invariant
                *self == *old(self),
                old(self).name_map_wf(),
                es0 == self.pkg_name_to_ids@,
                n == es0.len(),
                e <= n,
                forall|w: int| 0 <= w < e ==> (#[trigger] es0[w]).0@ != pkg.name@,
                forall|t: int|
                    0 <= t < old(self).name_ids(pkg.name@).len() ==> (#[trigger] old(
                        self,
                    ).name_ids(pkg.name@)[t]).version != pkg.version,
            decreases n - e,
        {
            if self.pkg_name_to_ids[e].0 == pkg.name {
                proof {
                    lemma_name_ids_at(es0, pkg.name@, e as int);
                }
                let m = self.pkg_name_to_ids[e].1.len();
                let mut t: usize = 0;
                while t < m && !pkg.version.lt(&self.pkg_name_to_ids[e].1[t].version)
                    invariant
                        *self == *old(self),
                        es0 == self.pkg_name_to_ids@,
                        e < es0.len(),
                        es0[e as int].0@ == pkg.name@,
                        m == es0[e as int].1@.len(),
                        t <= m,
                        es0[e as int].1@ == old(self).name_ids(pkg.name@),
                        old(self).name_map_wf(),
                        forall|w: int|
                            0 <= w < t ==> !version_lt(
                                pkg.version,
                                (#[trigger] es0[e as int].1@[w]).version,
                            ),
                        forall|w: int|
                            0 <= w < old(self).name_ids(pkg.name@).len() ==> (#[trigger] old(
                                self,
                            ).name_ids(pkg.name@)[w]).version != pkg.version,
                    decreases m - t,
                {
                    t = t + 1;
                }
                proof {
                    lemma_insert_sorted_at(es0[e as int].1@, pkg, t as int);
                }
                let entry = crate::textutil::vec_mut_ref(&mut self.pkg_name_to_ids, e);
                entry.1.insert(t, pkg);
                proof {
                    let es1 = self.pkg_name_to_ids@;
                    assert(es1 =~= es0.update(
                        e as int,
                        (es0[e as int].0, es1[e as int].1),
                    ));
                    lemma_name_ids_at(es1, pkg.name@, e as int);
                    assert(es1[e as int].1@ =~= es0[e as int].1@.take(t as int) + seq![pkg]
                        + es0[e as int].1@.skip(t as int));
                    assert forall|nn: Seq<char>| nn != pkg.name@ implies #[trigger] name_ids_in(
                        es1,
                        nn,
                    ) == name_ids_in(es0, nn) by {
                        lemma_name_ids_update_other(es0, es1, e as int, nn);
                    }
                    assert(self.name_map_wf()) by {
                        lemma_sorted_insert_keeps_order(
                            es0[e as int].1@,
                            es1[e as int].1@,
                            pkg,
                            t as int,
                        );
                        assert forall|e2: int, w: int|
                            #![auto]
                            0 <= e2 < es1.len() && 0 <= w < es1[e2].1@.len() implies es1[e2].1@[
                            w
                        ].name@ == es1[e2].0@ by {
                            if e2 != e {
                                assert(es1[e2] == es0[e2]);
                            }
                        }
                        assert forall|e2: int, t1: int, t2: int|
                            #![auto]
                            0 <= e2 < es1.len() && 0 <= t1 < t2 < es1[e2].1@.len() implies
                            version_lt(es1[e2].1@[t1].version, es1[e2].1@[t2].version) by {
                            if e2 != e {
                                assert(es1[e2] == es0[e2]);
                            }
                        }
                    }
                }
                return ;
            }
            e = e + 1;
        }
        proof {
            lemma_name_ids_absent(es0, pkg.name@);
        }
        let mut ids: Vec<PackageId> = Vec::new();
        let name = pkg.name.clone();
        ids.push(pkg);
        self.pkg_name_to_ids.push((name, ids));
        proof {
            let es1 = self.pkg_name_to_ids@;
            assert(es1.last().0@ == pkg.name@);
            assert(es1.last().1@ =~= seq![pkg]);
            lemma_name_ids_push_new(es0, es1.last(), pkg.name@);
            assert(insert_sorted_spec(Seq::<PackageId>::empty(), pkg) =~= seq![pkg]);
            assert forall|nn: Seq<char>| nn != pkg.name@ implies #[trigger] name_ids_in(
                es1,
                nn,
            ) == name_ids_in(es0, nn) by {
                lemma_name_ids_push_other(es0, es1.last(), nn);
            }
            assert forall|e1: int, e2: int|
                0 <= e1 < e2 < es1.len() implies (#[trigger] es1[e1]).0@ != (
            #[trigger] es1[e2]).0@ by {
                if e2 == es1.len() - 1 {
                    assert(es0[e1].0@ != pkg.name@);
                }
            }
        }
    }
}

proof fn lemma_name_ids_at(es: Seq<(String, Vec<PackageId>)>, n: Seq<char>, e: int)
    requires
        0 <= e < es.len(),
        es[e].0@ == n,
        forall|w: int| 0 <= w < e ==> (#[trigger] es[w]).0@ != n,
    ensures
        name_ids_in(es, n) == es[e].1@,
    decreases e,
{
    if e == 0 {
    } else {
        assert(es[0].0@ != n);
        assert forall|w: int| 0 <= w < e - 1 implies (#[trigger] es.skip(1)[w]).0@ != n by {
            assert(es[w + 1].0@ != n);
        }
        lemma_name_ids_at(es.skip(1), n, e - 1);
    }
}

proof fn lemma_name_ids_absent(es: Seq<(String, Vec<PackageId>)>, n: Seq<char>)
    requires
        forall|w: int| 0 <= w < es.len() ==> (#[trigger] es[w]).0@ != n,
    ensures
        name_ids_in(es, n) == Seq::<PackageId>::empty(),
    decreases es.len(),
{
    if es.len() == 0 {
    } else {
        assert forall|w: int| 0 <= w < es.skip(1).len() implies (#[trigger] es.skip(1)[w]).0@
            != n by {
            assert(es[w + 1].0@ != n);
        }
        lemma_name_ids_absent(es.skip(1), n);
    }
}

proof fn lemma_name_ids_update_other(
    es0: Seq<(String, Vec<PackageId>)>,
    es1: Seq<(String, Vec<PackageId>)>,
    e: int,
    n: Seq<char>,
)
    requires
        0 <= e < es0.len(),
        es1.len() == es0.len(),
        forall|w: int| 0 <= w < es0.len() && w != e ==> #[trigger] es1[w] == es0[w],
        es1[e].0 == es0[e].0,
        es0[e].0@ != n,
    ensures
        name_ids_in(es1, n) == name_ids_in(es0, n),
    decreases es0.len(),
{
    if es0.len() == 0 {
    } else if e == 0 {
        assert(es1[0].0@ == es0[0].0@);
        assert(es0[0].0@ != n);
        assert(es1.skip(1) =~= es0.skip(1));
    } else {
        assert(es1[0] == es0[0]);
        if es0[0].0@ == n {
        } else {
            assert forall|w: int|
                0 <= w < es0.skip(1).len() && w != e - 1 implies #[trigger] es1.skip(1)[w]
                == es0.skip(1)[w] by {
                assert(es1[w + 1] == es0[w + 1]);
            }
            lemma_name_ids_update_other(es0.skip(1), es1.skip(1), e - 1, n);
        }
    }
}

proof fn lemma_name_ids_push_new(
    es0: Seq<(String, Vec<PackageId>)>,
    entry: (String, Vec<PackageId>),
    n: Seq<char>,
)
    requires
        entry.0@ == n,
        forall|w: int| 0 <= w < es0.len() ==> (#[trigger] es0[w]).0@ != n,
    ensures
        name_ids_in(es0.push(entry), n) == entry.1@,
    decreases es0.len(),
{
    let es1 = es0.push(entry);
    if es0.len() == 0 {
        assert(es1[0] == entry);
    } else {
        assert(es1[0] == es0[0]);
        assert(es0[0].0@ != n);
        assert(es1.skip(1) =~= es0.skip(1).push(entry));
        assert forall|w: int| 0 <= w < es0.skip(1).len() implies (#[trigger] es0.skip(1)[w]).0@
            != n by {
            assert(es0[w + 1].0@ != n);
        }
        lemma_name_ids_push_new(es0.skip(1), entry, n);
    }
}

proof fn lemma_name_ids_push_other(
    es0: Seq<(String, Vec<PackageId>)>,
    entry: (String, Vec<PackageId>),
    n: Seq<char>,
)
    requires
        entry.0@ != n,
    ensures
        name_ids_in(es0.push(entry), n) == name_ids_in(es0, n),
    decreases es0.len(),
{
    let es1 = es0.push(entry);
    if es0.len() == 0 {
        assert(es1[0] == entry);
        assert(es1[0].0@ != n);
        assert(es1.skip(1) =~= Seq::<(String, Vec<PackageId>)>::empty());
        assert(name_ids_in(es1, n) == name_ids_in(es1.skip(1), n));
        assert(name_ids_in(es1.skip(1), n) == Seq::<PackageId>::empty());
    } else {
        assert(es1[0] == es0[0]);
        if es0[0].0@ == n {
        } else {
            assert(es1.skip(1) =~= es0.skip(1).push(entry));
            lemma_name_ids_push_other(es0.skip(1), entry, n);
        }
    }
}

/// Scanning to the first strictly larger version lands on the position the
/// sorted-insert specification names.
proof fn lemma_insert_sorted_at(ids: Seq<PackageId>, pkg: PackageId, t: int)
    requires
        0 <= t <= ids.len(),
        forall|w: int| 0 <= w < t ==> !version_lt(pkg.version, (#[trigger] ids[w]).version),
        forall|w: int| 0 <= w < ids.len() ==> (#[trigger] ids[w]).version != pkg.version,
        t < ids.len() ==> version_lt(pkg.version, ids[t].version),
    ensures
        insert_sorted_spec(ids, pkg) == ids.take(t) + seq![pkg] + ids.skip(t),
    decreases t,
{
    if ids.len() == 0 {
        assert(insert_sorted_spec(ids, pkg) =~= ids.take(t) + seq![pkg] + ids.skip(t));
    } else if t == 0 {
        assert(version_lt(pkg.version, ids[0].version));
        assert(insert_sorted_spec(ids, pkg) =~= ids.take(0) + seq![pkg] + ids.skip(0));
    } else {
        assert(!version_lt(pkg.version, ids[0].version));
        assert forall|w: int| 0 <= w < t - 1 implies !version_lt(
            pkg.version,
            (#[trigger] ids.skip(1)[w]).version,
        ) by {
            assert(!version_lt(pkg.version, ids[w + 1].version));
        }
        assert forall|w: int| 0 <= w < ids.skip(1).len() implies (#[trigger] ids.skip(
            1,
        )[w]).version != pkg.version by {
            assert(ids[w + 1].version != pkg.version);
        }
        lemma_insert_sorted_at(ids.skip(1), pkg, t - 1);
        assert(seq![ids[0]] + (ids.skip(1).take(t - 1) + seq![pkg] + ids.skip(1).skip(t - 1))
            =~= ids.take(t) + seq![pkg] + ids.skip(t));
    }
}

/// Inserting at the scan position keeps versions strictly ascending.
proof fn lemma_sorted_insert_keeps_order(
    ids: Seq<PackageId>,
    out: Seq<PackageId>,
    pkg: PackageId,
    t: int,
)
    requires
        0 <= t <= ids.len(),
        out == ids.take(t) + seq![pkg] + ids.skip(t),
        forall|t1: int, t2: int|
            0 <= t1 < t2 < ids.len() ==> version_lt(
                (#[trigger] ids[t1]).version,
                (#[trigger] ids[t2]).version,
            ),
        forall|w: int| 0 <= w < t ==> !version_lt(pkg.version, (#[trigger] ids[w]).version),
        forall|w: int| 0 <= w < ids.len() ==> (#[trigger] ids[w]).version != pkg.version,
        t < ids.len() ==> version_lt(pkg.version, ids[t].version),
    ensures
        forall|t1: int, t2: int|
            0 <= t1 < t2 < out.len() ==> version_lt(
                (#[trigger] out[t1]).version,
                (#[trigger] out[t2]).version,
            ),
{
    assert forall|t1: int, t2: int| 0 <= t1 < t2 < out.len() implies version_lt(
        (#[trigger] out[t1]).version,
        (#[trigger] out[t2]).version,
    ) by {
        let a = if t1 < t {
            ids[t1]
        } else if t1 == t {
            pkg
        } else {
            ids[t1 - 1]
        };
        let b = if t2 < t {
            ids[t2]
        } else if t2 == t {
            pkg
        } else {
            ids[t2 - 1]
        };
        assert(out[t1] == a);
        assert(out[t2] == b);
        if t1 < t && t2 == t {
            assert(!version_lt(pkg.version, ids[t1].version));
            assert(ids[t1].version != pkg.version);
            lemma_version_order(ids[t1].version, pkg.version);
        } else if t1 < t && t2 > t {
            if t2 - 1 == t1 {
                assert(!version_lt(pkg.version, ids[t1].version));
                assert(ids[t1].version != pkg.version);
                lemma_version_order(ids[t1].version, pkg.version);
                assert(version_lt(pkg.version, ids[t]. version) || t >= ids.len());
                assert(version_lt(ids[t1].version, ids[t2 - 1].version) || t1 == t2 - 1);
            }
        } else if t1 == t && t2 > t {
            if t2 - 1 == t {
                assert(version_lt(pkg.version, ids[t].version));
            } else {
                assert(version_lt(pkg.version, ids[t].version));
                assert(version_lt(ids[t as int].version, ids[t2 - 1].version));
                lemma_version_trans(pkg.version, ids[t as int].version, ids[t2 - 1].version);
            }
        }
    }
}

/// The package id record `k` gives rise to, once the whole record list is
/// known: the name is unique when no other record shares it.
pub open spec fn record_pkg_id(rs: Seq<PackageRecord>, k: int) -> PackageId {
    PackageId {
        name: rs[k].name,
        version: rs[k].version,
        name_is_unique: name_count(rs, rs[k].name@) == 1,
    }
}

/// The name map after the first `k` records were inserted.
pub open spec fn name_map_after(rs: Seq<PackageRecord>, k: int, n: Seq<char>) -> Seq<PackageId>
    decreases k,
{
    if k <= 0 {
        Seq::empty()
    } else {
        let prev = name_map_after(rs, k - 1, n);
        if rs[k - 1].name@ == n {
            insert_sorted_spec(prev, record_pkg_id(rs, k - 1))
        } else {
            prev
        }
    }
}

impl CrateIndex {
    /// Builds the index from the package records of cargo metadata: one
    /// info per record, the directory map in record order, and per name the
    /// ids ascending by version, each id knowing whether its name is
    /// unique.
    pub fn from_packages(manifest_path: String, records: Vec<PackageRecord>) -> (r: CrateIndex)
        requires
            forall|k1: int, k2: int|
                0 <= k1 < k2 < records@.len() ==> !((#[trigger] records@[k1]).name@ == (
                #[trigger] records@[k2]).name@ && records@[k1].version == records@[k2].version),
        ensures
            r.wf(),
            r.manifest_path == manifest_path,
            r.package_infos@.len() == records@.len(),
            forall|k: int|
                #![auto]
                0 <= k < records@.len() ==> {
                    &&& r.package_infos@[k].0.name@ == records@[k].name@
                    &&& r.package_infos@[k].0.version == records@[k].version
                    &&& (r.package_infos@[k].0.name_is_unique <==> name_count(
                        records@,
                        records@[k].name@,
                    ) == 1)
                    &&& r.package_infos@[k].1.directory@ == records@[k].directory@
                    &&& r.package_infos@[k].1.description == records@[k].description
                    &&& r.package_infos@[k].1.documentation == records@[k].documentation
                    &&& r.package_infos@[k].1.crate_name@ == dash_to_underscore(
                        records@[k].name@,
                    )
                    &&& r.package_infos@[k].1.build_script_name matches Some(b)
                        && b@ == build_script_name_spec(records@[k].name@)
                    &&& r.package_infos@[k].1.is_proc_macro == records@[k].is_proc_macro
                },
            r.dir_to_pkg_id@.len() == records@.len(),
            forall|k: int|
                #![auto]
                0 <= k < records@.len() ==> r.dir_to_pkg_id@[k].0@ == records@[k].directory@
                    && r.dir_to_pkg_id@[k].1.name@ == records@[k].name@
                    && r.dir_to_pkg_id@[k].1.version == records@[k].version,
            forall|n: Seq<char>|
                #[trigger] r.name_ids(n) == name_map_after(records@, records@.len() as int, n),
    {
        let mut idx = CrateIndex {
            manifest_path,
            package_infos: Vec::new(),
            dir_to_pkg_id: Vec::new(),
            pkg_name_to_ids: Vec::new(),
        };
        let n = records.len();
        let mut k: usize = 0;
        proof {
            assert forall|nn: Seq<char>| #[trigger] idx.name_ids(nn) == name_map_after(
                records@,
                0,
                nn,
            ) by {
                assert(idx.name_ids(nn) =~= Seq::<PackageId>::empty());
            }
        }
        while k < n
            invariant
                n == records@.len(),
                k <= n,
                forall|k1: int, k2: int|
                    0 <= k1 < k2 < records@.len() ==> !((#[trigger] records@[k1]).name@ == (
                    #[trigger] records@[k2]).name@ && records@[k1].version == records@[
                        k2
                    ].version),
                idx.wf(),
                idx.manifest_path == manifest_path,
                idx.package_infos@.len() == k,
                forall|k2: int|
                    #![auto]
                    0 <= k2 < k ==> {
                        &&& idx.package_infos@[k2].0.name@ == records@[k2].name@
                        &&& idx.package_infos@[k2].0.version == records@[k2].version
                        &&& (idx.package_infos@[k2].0.name_is_unique <==> name_count(
                            records@,
                            records@[k2].name@,
                        ) == 1)
                        &&& idx.package_infos@[k2].1.directory@ == records@[k2].directory@
                        &&& idx.package_infos@[k2].1.description == records@[k2].description
                        &&& idx.package_infos@[k2].1.documentation == records@[k2].documentation
                        &&& idx.package_infos@[k2].1.crate_name@ == dash_to_underscore(
                            records@[k2].name@,
                        )
                        &&& idx.package_infos@[k2].1.build_script_name matches Some(b)
                            && b@ == build_script_name_spec(records@[k2].name@)
                        &&& idx.package_infos@[k2].1.is_proc_macro == records@[k2].is_proc_macro
                    },
                idx.dir_to_pkg_id@.len() == k,
                forall|k2: int|
                    #![auto]
                    0 <= k2 < k ==> idx.dir_to_pkg_id@[k2].0@ == records@[k2].directory@
                        && idx.dir_to_pkg_id@[k2].1.name@ == records@[k2].name@
                        && idx.dir_to_pkg_id@[k2].1.version == records@[k2].version,
                forall|nn: Seq<char>|
                    #[trigger] idx.name_ids(nn) == name_map_after(records@, k as int, nn),
            decreases n - k,
        {
            let ghost idx0 = idx;
            let rec = &records[k];
            let cnt = count_records_with_name(&records, &rec.name);
            let pkg = PackageId {
                name: rec.name.clone(),
                version: rec.version,
                name_is_unique: cnt == 1,
            };
            let mut bs_name = String::new();
            bs_name.append("build_script_");
            let underscored = dashes_to_underscores(rec.name.as_str());
            bs_name.append(underscored.as_str());
            let info = PackageInfo {
                directory: rec.directory.clone(),
                description: clone_opt_string(&rec.description),
                documentation: clone_opt_string(&rec.documentation),
                crate_name: dashes_to_underscores(rec.name.as_str()),
                build_script_name: Some(bs_name),
                is_proc_macro: rec.is_proc_macro,
            };
            idx.package_infos.push((pkg.duplicate(), info));
            idx.dir_to_pkg_id.push((rec.directory.clone(), pkg.duplicate()));
            proof {
                assert(pkg.name@ == records@[k as int].name@);
                assert(idx.name_ids(pkg.name@) == idx0.name_ids(pkg.name@));
                assert(idx0.name_ids(pkg.name@) == name_map_after(
                    records@,
                    k as int,
                    pkg.name@,
                ));
                assert forall|t: int|
                    0 <= t < idx.name_ids(pkg.name@).len() implies (#[trigger] idx.name_ids(
                    pkg.name@,
                )[t]).version != pkg.version by {
                    lemma_name_map_versions(records@, k as int, pkg.name@, t);
                }
            }
            let ghost idx_pre = idx;
            idx.insert_into_name_map(pkg);
            proof {
                assert forall|nn: Seq<char>| #[trigger] idx.name_ids(nn) == name_map_after(
                    records@,
                    k + 1,
                    nn,
                ) by {
                    assert(idx_pre.name_ids(nn) == idx0.name_ids(nn));
                    assert(idx0.name_ids(nn) == name_map_after(records@, k as int, nn));
                    if nn == records@[k as int].name@ {
                        assert(pkg == record_pkg_id(records@, k as int));
                        assert(idx.name_ids(nn) == insert_sorted_spec(
                            idx_pre.name_ids(nn),
                            pkg,
                        ));
                    } else {
                        assert(idx.name_ids(nn) == idx_pre.name_ids(nn));
                    }
                }
            }
            k = k + 1;
        }
        idx
    }

    /// The highest-version package id carrying a name, if any version of it
    /// is in the tree.
    pub fn newest_package_id_with_name(&self, crate_name: &String) -> (r: Option<&PackageId>)
        requires
            self.wf(),
        ensures
            r is Some <==> self.name_ids(crate_name@).len() > 0,
            r matches Some(p) ==> {
                &&& *p == self.name_ids(crate_name@).last()
                &&& p.name@ == crate_name@
                &&& forall|t: int|
                    0 <= t < self.name_ids(crate_name@).len() - 1 ==> version_lt(
                        (#[trigger] self.name_ids(crate_name@)[t]).version,
                        p.version,
                    )
            },
    {
        let n = self.pkg_name_to_ids.len();
        let mut e: usize = 0;
        while e < n
            invariant
                self.wf(),
                n == self.pkg_name_to_ids@.len(),
                e <= n,
                forall|w: int|
                    0 <= w < e ==> (#[trigger] self.pkg_name_to_ids@[w]).0@ != crate_name@,
            decreases n - e,
        {
            if self.pkg_name_to_ids[e].0 == *crate_name {
                proof {
                    lemma_name_ids_at(self.pkg_name_to_ids@, crate_name@, e as int);
                }
                let ids = &self.pkg_name_to_ids[e].1;
                return Some(&ids[ids.len() - 1]);
            }
            e = e + 1;
        }
        proof {
            lemma_name_ids_absent(self.pkg_name_to_ids@, crate_name@);
        }
        None
    }

    /// What is known about a package.
    pub fn package_info(&self, pkg_id: &PackageId) -> (r: Option<&PackageInfo>)
        ensures
            r is Some <==> exists|w: int|
                0 <= w < self.package_infos@.len() && pkg_matches(
                    (#[trigger] self.package_infos@[w]).0,
                    *pkg_id,
                ),
            r matches Some(info) ==> exists|w: int|
                0 <= w < self.package_infos@.len() && pkg_matches(
                    (#[trigger] self.package_infos@[w]).0,
                    *pkg_id,
                ) && *info == self.package_infos@[w].1,
    {
        let n = self.package_infos.len();
        let mut w: usize = 0;
        while w < n
            invariant
                n == self.package_infos@.len(),
                w <= n,
                forall|w2: int|
                    0 <= w2 < w ==> !pkg_matches(
                        (#[trigger] self.package_infos@[w2]).0,
                        *pkg_id,
                    ),
            decreases n - w,
        {
            let cand = &self.package_infos[w].0;
            if cand.name == pkg_id.name && cand.version.major == pkg_id.version.major
                && cand.version.minor == pkg_id.version.minor && cand.version.patch
                == pkg_id.version.patch && cand.name_is_unique == pkg_id.name_is_unique {
                proof {
                    assert(pkg_matches(self.package_infos@[w as int].0, *pkg_id));
                }
                return Some(&self.package_infos[w].1);
            }
            w = w + 1;
        }
        None
    }

    /// The directory a package was found in.
    pub fn pkg_dir(&self, pkg_id: &PackageId) -> (r: Option<&String>)
        ensures
            r is Some <==> exists|w: int|
                0 <= w < self.package_infos@.len() && pkg_matches(
                    (#[trigger] self.package_infos@[w]).0,
                    *pkg_id,
                ),
    {
        match self.package_info(pkg_id) {
            Some(info) => Some(&info.directory),
            None => None,
        }
    }

    /// All package ids, in metadata order.
    pub fn package_ids(&self) -> (r: Vec<PackageId>)
        ensures
            r@.len() == self.package_infos@.len(),
            forall|w: int|
                0 <= w < r@.len() ==> #[trigger] r@[w] == self.package_infos@[w].0,
    {
        let mut out: Vec<PackageId> = Vec::new();
        let mut w: usize = 0;
        while w < self.package_infos.len()
            invariant
                w <= self.package_infos@.len(),
                out@.len() == w,
                forall|w2: int|
                    0 <= w2 < w ==> #[trigger] out@[w2] == self.package_infos@[w2].0,
            decreases self.package_infos@.len() - w,
        {
            out.push(self.package_infos[w].0.duplicate());
            w = w + 1;
        }
        out
    }

    /// The ids of the proc-macro packages, in metadata order.
    pub fn proc_macros(&self) -> (r: Vec<PackageId>)
        ensures
            r@ == proc_macro_ids(self.package_infos@, self.package_infos@.len() as int),
    {
        let mut out: Vec<PackageId> = Vec::new();
        let mut w: usize = 0;
        while w < self.package_infos.len()
            invariant
                w <= self.package_infos@.len(),
                out@ == proc_macro_ids(self.package_infos@, w as int),
            decreases self.package_infos@.len() - w,
        {
            if self.package_infos[w].1.is_proc_macro {
                out.push(self.package_infos[w].0.duplicate());
                proof {
                    assert(out@ =~= proc_macro_ids(self.package_infos@, w + 1));
                }
            } else {
                proof {
                    assert(out@ =~= proc_macro_ids(self.package_infos@, w + 1));
                }
            }
            w = w + 1;
        }
        out
    }

    /// The names with several versions in the tree, joined with commas, for
    /// handing to subprocesses through their environment.
    pub fn non_unique_names_joined(&self) -> (r: String)
        ensures
            r@ == crate::textutil::join_spec(
                non_unique_names(self.package_infos@, self.package_infos@.len() as int),
                ',',
            ),
    {
        let mut names: Vec<String> = Vec::new();
        let mut w: usize = 0;
        while w < self.package_infos.len()
            invariant
                w <= self.package_infos@.len(),
                names@.map_values(|s: String| s@) == non_unique_names(
                    self.package_infos@,
                    w as int,
                ),
            decreases self.package_infos@.len() - w,
        {
            if !self.package_infos[w].0.name_is_unique {
                names.push(self.package_infos[w].0.name.clone());
                proof {
                    assert(names@.map_values(|s: String| s@) =~= non_unique_names(
                        self.package_infos@,
                        w + 1,
                    ));
                }
            } else {
                proof {
                    assert(names@.map_values(|s: String| s@) =~= non_unique_names(
                        self.package_infos@,
                        w + 1,
                    ));
                }
            }
            w = w + 1;
        }
        proof {
            reveal_strlit(",");
            assert(","@ =~= seq![',']);
        }
        crate::textutil::join_char(&names, ",", Ghost(','))
    }
}

/// Two package ids name the same package.
pub open spec fn pkg_matches(a: PackageId, b: PackageId) -> bool {
    a.name@ == b.name@ && a.version == b.version && a.name_is_unique == b.name_is_unique
}

/// The proc-macro ids among the first `w` entries.
pub open spec fn proc_macro_ids(es: Seq<(PackageId, PackageInfo)>, w: int) -> Seq<PackageId>
    decreases w,
{
    if w <= 0 {
        Seq::empty()
    } else {
        let rest = proc_macro_ids(es, w - 1);
        if es[w - 1].1.is_proc_macro {
            rest.push(es[w - 1].0)
        } else {
            rest
        }
    }
}

/// The names that are not unique, among the first `w` entries.
pub open spec fn non_unique_names(es: Seq<(PackageId, PackageInfo)>, w: int) -> Seq<Seq<char>>
    decreases w,
{
    if w <= 0 {
        Seq::empty()
    } else {
        let rest = non_unique_names(es, w - 1);
        if !es[w - 1].0.name_is_unique {
            rest.push(es[w - 1].0.name@)
        } else {
            rest
        }
    }
}

/// Every version already in the name map under a name differs from the one
/// a later record with that name brings.
proof fn lemma_name_map_versions(rs: Seq<PackageRecord>, k: int, n: Seq<char>, t: int)
    requires
        0 <= k <= rs.len(),
        forall|k1: int, k2: int|
            0 <= k1 < k2 < rs.len() ==> !((#[trigger] rs[k1]).name@ == (#[trigger] rs[k2]).name@
                && rs[k1].version == rs[k2].version),
        k < rs.len(),
        rs[k].name@ == n,
        0 <= t < name_map_after(rs, k, n).len(),
    ensures
        name_map_after(rs, k, n)[t].version != rs[k].version,
{
    lemma_name_map_members(rs, k, n, t);
    let w = choose|w: int|
        0 <= w < k && rs[w].name@ == n && rs[w].version == name_map_after(rs, k, n)[t].version;
    assert(!(rs[w].name@ == rs[k].name@ && rs[w].version == rs[k].version));
}

/// Every id in the name map after `k` records stems from one of them.
proof fn lemma_name_map_members(rs: Seq<PackageRecord>, k: int, n: Seq<char>, t: int)
    requires
        0 <= k <= rs.len(),
        0 <= t < name_map_after(rs, k, n).len(),
    ensures
        exists|w: int|
            0 <= w < k && (#[trigger] rs[w]).name@ == n && rs[w].version == name_map_after(
                rs,
                k,
                n,
            )[t].version,
    decreases k,
{
    if k <= 0 {
    } else {
        let prev = name_map_after(rs, k - 1, n);
        if rs[k - 1].name@ == n {
            let cur = insert_sorted_spec(prev, record_pkg_id(rs, k - 1));
            lemma_insert_sorted_member(prev, record_pkg_id(rs, k - 1), t);
            if cur[t].version == rs[k - 1].version && cur[t].name@ == n {
                assert(rs[k - 1].name@ == n && rs[k - 1].version == cur[t].version);
            } else {
                let t2 = choose|t2: int| 0 <= t2 < prev.len() && prev[t2] == cur[t];
                lemma_name_map_members(rs, k - 1, n, t2);
            }
        } else {
            lemma_name_map_members(rs, k - 1, n, t);
        }
    }
}

/// Inserting grows the list by one.
proof fn lemma_insert_sorted_len(ids: Seq<PackageId>, pkg: PackageId)
    ensures
        insert_sorted_spec(ids, pkg).len() == ids.len() + 1,
    decreases ids.len(),
{
    if ids.len() == 0 {
    } else if version_lt(pkg.version, ids[0].version) {
    } else {
        lemma_insert_sorted_len(ids.skip(1), pkg);
    }
}

/// Each element of a sorted insert is the new id or an old element.
proof fn lemma_insert_sorted_member(ids: Seq<PackageId>, pkg: PackageId, t: int)
    requires
        0 <= t < insert_sorted_spec(ids, pkg).len(),
    ensures
        insert_sorted_spec(ids, pkg).len() == ids.len() + 1,
        insert_sorted_spec(ids, pkg)[t] == pkg || exists|w: int|
            0 <= w < ids.len() && #[trigger] ids[w] == insert_sorted_spec(ids, pkg)[t],
    decreases ids.len(),
{
    lemma_insert_sorted_len(ids, pkg);
    let out = insert_sorted_spec(ids, pkg);
    if ids.len() == 0 {
        assert(out[0] == pkg);
    } else if version_lt(pkg.version, ids[0].version) {
        if t > 0 {
            assert(ids[t - 1] == out[t]);
        }
    } else {
        lemma_insert_sorted_len(ids.skip(1), pkg);
        if t == 0 {
            assert(out[0] == ids[0]);
        } else {
            lemma_insert_sorted_member(ids.skip(1), pkg, t - 1);
            let rest = insert_sorted_spec(ids.skip(1), pkg);
            assert(out[t] == rest[t - 1]);
            if rest[t - 1] == pkg {
            } else {
                let w = choose|w: int|
                    0 <= w < ids.skip(1).len() && #[trigger] ids.skip(1)[w] == rest[t - 1];
                assert(ids[w + 1] == out[t]);
            }
        }
    }
}

/// How many of the records carry this name.
fn count_records_with_name(records: &Vec<PackageRecord>, name: &String) -> (r: usize)
    ensures
        r as int == name_count(records@, name@),
{
    let mut cnt: usize = 0;
    let mut w: usize = 0;
    while w < records.len()
        invariant
            w <= records@.len(),
            cnt as int == name_count(records@.take(w as int), name@),
            cnt <= w,
        decreases records@.len() - w,
    {
        if records[w].name == *name {
            cnt = cnt + 1;
        }
        proof {
            assert(records@.take(w + 1).drop_last() =~= records@.take(w as int));
            assert(records@.take(w + 1).last() == records@[w as int]);
        }
        w = w + 1;
    }
    proof {
        assert(records@.take(records@.len() as int) =~= records@);
    }
    cnt
}

/// A copy of an optional string with the same value.
fn clone_opt_string(o: &Option<String>) -> (r: Option<String>)
    ensures
        r == *o,
{
    match o {
        Some(s) => Some(s.clone()),
        None => None,
    }
}

/// Two distinct versions order one way or the other.
proof fn lemma_version_order(a: Version, b: Version)
    requires
        a != b,
    ensures
        version_lt(a, b) || version_lt(b, a),
{
}

proof fn lemma_version_trans(a: Version, b: Version, c: Version)
    requires
        version_lt(a, b),
        version_lt(b, c),
    ensures
        version_lt(a, c),
{
}

/// The package registered for exactly this directory, if any.
pub open spec fn dir_lookup(dirs: Seq<(String, PackageId)>, p: Seq<char>) -> Option<PackageId>
    decreases dirs.len(),
{
    if dirs.len() == 0 {
        None
    } else if dirs[0].0@ == p {
        Some(dirs[0].1)
    } else {
        dir_lookup(dirs.skip(1), p)
    }
}

/// The package owning a path: the first of the path itself and its parent
/// directories (each obtained by cutting at the last slash) registered in
/// the directory map.
pub open spec fn walk_lookup(dirs: Seq<(String, PackageId)>, p: Seq<char>) -> Option<PackageId>
    decreases p.len(),
{
    match dir_lookup(dirs, p) {
        Some(id) => Some(id),
        None => {
            let cut = crate::link_info::last_index_of(p, '/');
            if cut <= 0 || cut >= p.len() {
                None
            } else {
                walk_lookup(dirs, p.take(cut))
            }
        },
    }
}

proof fn lemma_dir_lookup_at(dirs: Seq<(String, PackageId)>, p: Seq<char>, i: int)
    requires
        0 <= i < dirs.len(),
        dirs[i].0@ == p,
        forall|w: int| 0 <= w < i ==> (#[trigger] dirs[w]).0@ != p,
    ensures
        dir_lookup(dirs, p) == Some(dirs[i].1),
    decreases i,
{
    if i > 0 {
        assert forall|w: int| 0 <= w < i - 1 implies (#[trigger] dirs.skip(1)[w]).0@ != p by {
            assert(dirs[w + 1].0@ != p);
        }
        lemma_dir_lookup_at(dirs.skip(1), p, i - 1);
    }
}

proof fn lemma_dir_lookup_absent(dirs: Seq<(String, PackageId)>, p: Seq<char>)
    requires
        forall|w: int| 0 <= w < dirs.len() ==> (#[trigger] dirs[w]).0@ != p,
    ensures
        dir_lookup(dirs, p) is None,
    decreases dirs.len(),
{
    if dirs.len() > 0 {
        assert forall|w: int|
            0 <= w < dirs.skip(1).len() implies (#[trigger] dirs.skip(1)[w]).0@ != p by {
            assert(dirs[w + 1].0@ != p);
        }
        lemma_dir_lookup_absent(dirs.skip(1), p);
    }
}

impl CrateIndex {
    /// The directory map entry for exactly this path, if any.
    fn lookup_dir(&self, path: &String) -> (r: Option<PackageId>)
        ensures
            r == dir_lookup(self.dir_to_pkg_id@, path@),
    {
        let n = self.dir_to_pkg_id.len();
        let mut w: usize = 0;
        while w < n
            invariant
                n == self.dir_to_pkg_id@.len(),
                w <= n,
                forall|k: int|
                    0 <= k < w ==> (#[trigger] self.dir_to_pkg_id@[k]).0@ != path@,
            decreases n - w,
        {
            if self.dir_to_pkg_id[w].0 == *path {
                proof {
                    lemma_dir_lookup_at(self.dir_to_pkg_id@, path@, w as int);
                }
                return Some(self.dir_to_pkg_id[w].1.duplicate());
            }
            w = w + 1;
        }
        proof {
            lemma_dir_lookup_absent(self.dir_to_pkg_id@, path@);
        }
        None
    }

    /// The package whose directory contains the path: a fallback used when
    /// a source file is missing from the deps that rustc reported, for
    /// example C sources a build compiled.  It cannot tell a package's
    /// build script apart from its library sources.
    pub fn package_id_for_path(&self, path: &String) -> (r: Option<PackageId>)
        ensures
            r == walk_lookup(self.dir_to_pkg_id@, path@),
    {
        let mut current = path.clone();
        loop
            invariant
                walk_lookup(self.dir_to_pkg_id@, current@) == walk_lookup(
                    self.dir_to_pkg_id@,
                    path@,
                ),
            decreases current@.len(),
        {
            match self.lookup_dir(&current) {
                Some(id) => {
                    return Some(id);
                },
                None => {},
            }
            let s = current.as_str();
            let n = s.unicode_len();
            let mut cut: usize = 0;
            let mut has_slash = false;
            let mut i: usize = 0;
            while i < n
                invariant
                    n == s@.len(),
                    i <= n,
                    has_slash ==> cut < i,
                    (if has_slash {
                        cut as int
                    } else {
                        -1
                    }) == crate::link_info::last_index_of(s@.take(i as int), '/'),
                decreases n - i,
            {
                let c = s.get_char(i);
                proof {
                    let t0 = s@.take(i as int);
                    let t1 = s@.take(i + 1);
                    assert(t1.drop_last() =~= t0);
                    assert(t1.last() == s@[i as int]);
                    if c != '/' {
                        crate::link_info::lemma_last_index_props(t0, '/');
                        assert forall|k: int|
                            (if has_slash {
                                cut as int
                            } else {
                                -1
                            }) < k < t1.len() implies t1[k] != '/' by {
                            if k < i {
                                assert(t0[k] != '/');
                            }
                        }
                        crate::link_info::lemma_last_index_matches(
                            t1,
                            '/',
                            if has_slash {
                                cut as int
                            } else {
                                -1
                            },
                        );
                    }
                }
                if c == '/' {
                    has_slash = true;
                    cut = i;
                }
                i = i + 1;
            }
            proof {
                assert(s@.take(n as int) =~= s@);
            }
            if !has_slash || cut == 0 {
                return None;
            }
            if cut >= n {
                return None;
            }
            let next = s.substring_char(0, cut);
            let owned = next.to_owned();
            proof {
                assert(owned@ =~= current@.take(cut as int));
            }
            current = owned;
        }
    }

    /// The crate names the build may produce: per package its canonical
    /// crate name and, when one may exist, its build script's crate name.
    pub fn crate_names(&self) -> (r: Vec<String>)
        ensures
            r@.map_values(|s: String| s@) == crate_names_spec(
                self.package_infos@,
                self.package_infos@.len() as int,
            ),
    {
        let mut out: Vec<String> = Vec::new();
        let mut w: usize = 0;
        proof {
            assert(out@.map_values(|s: String| s@) =~= crate_names_spec(self.package_infos@, 0));
        }
        while w < self.package_infos.len()
            invariant
                w <= self.package_infos@.len(),
                out@.map_values(|s: String| s@) == crate_names_spec(
                    self.package_infos@,
                    w as int,
                ),
            decreases self.package_infos@.len() - w,
        {
            out.push(self.package_infos[w].1.crate_name.clone());
            match &self.package_infos[w].1.build_script_name {
                Some(b) => {
                    out.push(b.clone());
                },
                None => {},
            }
            proof {
                assert(out@.map_values(|s: String| s@) =~= crate_names_spec(
                    self.package_infos@,
                    w + 1,
                ));
            }
            w = w + 1;
        }
        out
    }
}

/// The crate names of the first `w` packages, build scripts included.
pub open spec fn crate_names_spec(es: Seq<(PackageId, PackageInfo)>, w: int) -> Seq<Seq<char>>
    decreases w,
{
    if w <= 0 {
        Seq::empty()
    } else {
        let rest = crate_names_spec(es, w - 1);
        let with_name = rest.push(es[w - 1].1.crate_name@);
        match es[w - 1].1.build_script_name {
            Some(b) => with_name.push(b@),
            None => with_name,
        }
    }
}

} // verus!
