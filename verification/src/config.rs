//! The configuration data model: named permissions defined by symbol-prefix
//! grant/exclude rules, per-package allowlists, sandbox selection and the
//! flags handed to the build.
//!
//! Permission names, package names and API paths are plain strings; an API
//! path is a "::"-separated symbol prefix such as `std::fs::File`.

use vstd::prelude::*;

verus! {

/// One permission: the symbol prefixes that grant it and the prefixes that
/// revoke it again.
pub struct PermConfig {
    pub grant: Vec<String>,
    pub exclude: Vec<String>,
}

/// Per-package policy from the configuration file.
pub struct PackageConfig {
    /// Permission names the package may use.
    pub allow: Vec<String>,
    /// Whether unsafe code is permitted in this package.
    pub allow_unsafe: bool,
    /// Whether the package may run its build script.
    pub allow_build_scripts: bool,
    /// `cargo:` directives its build script may emit.
    pub allow_build_instructions: Vec<String>,
    /// Whether the package may be a proc macro.
    pub allow_proc_macro: bool,
}

/// Which sandbox the build scripts run under.
pub enum SandboxKind {
    Disabled,
    Bubblewrap,
    Firejail,
}

/// Keys shared by the whole build.
pub struct CommonConfig {
    /// Flags passed to the build; when absent the default applies.
    pub build_flags: Option<Vec<String>>,
    /// Cargo features to enable.
    pub features: Vec<String>,
}

/// The whole configuration.
pub struct Config {
    pub common: CommonConfig,
    /// Named permissions, in file order.
    pub perms: Vec<(String, PermConfig)>,
    /// Per-package configuration, in file order.
    pub crates: Vec<(String, PackageConfig)>,
    pub sandbox: SandboxKind,
}

/// The views of a sequence of strings.
pub open spec fn views_of(ss: Seq<String>) -> Seq<Seq<char>> {
    ss.map_values(|s: String| s@)
}

/// The names on the left of a sequence of named entries.
pub open spec fn entry_names<T>(es: Seq<(String, T)>) -> Seq<Seq<char>> {
    es.map_values(|e: (String, T)| e.0@)
}

/// No two elements are equal.
pub open spec fn all_distinct(ss: Seq<Seq<char>>) -> bool {
    forall|i: int, j: int| 0 <= i < j < ss.len() ==> ss[i] != ss[j]
}

impl Config {
    /// A configuration file maps each permission and package name to one
    /// entry, so the parsed form never repeats a name.
    pub open spec fn wf(self) -> bool {
        &&& all_distinct(entry_names(self.perms@))
        &&& all_distinct(entry_names(self.crates@))
    }

    /// The package entry for a name, if any.
    pub open spec fn pkg_entry(self, name: Seq<char>) -> Option<PackageConfig> {
        if exists|i: int| 0 <= i < self.crates@.len() && self.crates@[i].0@ == name {
            let i = choose|i: int| 0 <= i < self.crates@.len() && self.crates@[i].0@ == name;
            Some(self.crates@[i].1)
        } else {
            None
        }
    }
}

impl PermConfig {
    pub fn empty() -> (r: PermConfig)
        ensures
            r.grant@.len() == 0,
            r.exclude@.len() == 0,
    {
        PermConfig { grant: Vec::new(), exclude: Vec::new() }
    }
}

impl PackageConfig {
    pub fn empty() -> (r: PackageConfig)
        ensures
            r.allow@.len() == 0,
            !r.allow_unsafe,
            !r.allow_build_scripts,
            r.allow_build_instructions@.len() == 0,
            !r.allow_proc_macro,
    {
        PackageConfig {
            allow: Vec::new(),
            allow_unsafe: false,
            allow_build_scripts: false,
            allow_build_instructions: Vec::new(),
            allow_proc_macro: false,
        }
    }
}

impl Config {
    pub fn empty() -> (r: Config)
        ensures
            r.perms@.len() == 0,
            r.crates@.len() == 0,
            r.common.build_flags is None,
            r.common.features@.len() == 0,
            r.sandbox is Disabled,
            r.wf(),
    {
        Config {
            common: CommonConfig { build_flags: None, features: Vec::new() },
            perms: Vec::new(),
            crates: Vec::new(),
            sandbox: SandboxKind::Disabled,
        }
    }
}

} // verus!
