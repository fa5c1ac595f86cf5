//! Discovers which declared dependencies of a compiled program are actually
//! referenced, by modelling compiler invocations, interpreting compiler
//! diagnostics, and propagating per-unit usage results through the
//! dependency graph.
use vstd::prelude::*;

pub mod bits;
pub mod cache;
pub mod diag;
pub mod error;
pub mod graph;
pub mod linked;
pub mod logparse;
pub mod opts;
pub mod parse;
pub mod path;
pub mod prober;
pub mod select;
pub mod ser;
pub mod strutil;

verus! {

/// A package identity in its stable string form (name, version and source).
pub struct PackageId {
    pub repr: String,
}

impl PackageId {
    /// Two identities are the same exactly when their string forms are.
    pub fn same_as(&self, other: &PackageId) -> (r: bool)
        ensures
            r == (self.repr@ == other.repr@),
    {
        self.repr == other.repr
    }
}

/// The subcommand surface: this tool runs as one subcommand.
pub enum Cargo {
    Linked(CargoLinked),
}

/// The flags of one run.
pub struct CargoLinked {
    /// Build the target skipping the unused crates afterwards.
    pub demonstrate: bool,
    /// Target the library.
    pub lib: bool,
    /// Run in debug mode.
    pub debug: bool,
    /// Activate all available features.
    pub all_features: bool,
    /// Do not activate the default features.
    pub no_default_features: bool,
    /// Require the lock file and cache to be up to date.
    pub frozen: bool,
    /// Require the lock file to be up to date.
    pub locked: bool,
    /// Run without accessing the network.
    pub offline: bool,
    /// Number of parallel jobs.
    pub jobs: Option<String>,
    /// Target the named binary.
    pub bin: Option<String>,
    /// Target the named example.
    pub example: Option<String>,
    /// Target the named integration test.
    pub test: Option<String>,
    /// Target the named bench.
    pub bench: Option<String>,
    /// Features to activate.
    pub features: Vec<String>,
    /// Path to the manifest.
    pub manifest_path: Option<path::Utf8PathBuf>,
    /// Coloring: auto, always, never.
    pub color: Option<String>,
}

impl CargoLinked {
    /// The build profile these flags probe under, which keys the cache.
    pub fn profile_name(&self) -> (r: &str)
        ensures
            self.debug ==> r@ == "dev"@,
            !self.debug ==> r@ == "release"@,
    {
        if self.debug {
            "dev"
        } else {
            "release"
        }
    }

    /// Picks the single target these flags name among the root package's
    /// targets, exactly as `select::selection_spec` says.
    pub fn select_target(
        &self,
        targets: &Vec<graph::BuildTarget>,
        default_run: &Option<String>,
    ) -> (r: Result<usize, error::Error>)
        ensures
            match r {
                Ok(i) => select::selection_spec(
                    targets@,
                    self.lib,
                    opts::opt_view(self.bin),
                    opts::opt_view(self.test),
                    opts::opt_view(self.bench),
                    opts::opt_view(self.example),
                    opts::opt_view(*default_run),
                ) == Some(i as int) && (i as int) < targets@.len(),
                Err(e) => select::selection_spec(
                    targets@,
                    self.lib,
                    opts::opt_view(self.bin),
                    opts::opt_view(self.test),
                    opts::opt_view(self.bench),
                    opts::opt_view(self.example),
                    opts::opt_view(*default_run),
                ) is None && (e.spec_kind() is AmbiguousTarget || e.spec_kind() is NoSuchTarget),
            },
    {
        select::select_single_target(
            targets,
            self.lib,
            &self.bin,
            &self.test,
            &self.bench,
            &self.example,
            default_run,
        )
    }
}

} // verus!
