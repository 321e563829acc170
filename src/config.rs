//! Settings: the user's tool configuration and the repository's configuration.
use vstd::prelude::*;
use std::collections::HashMap;
use crate::collections::LabelSet;
use crate::text::{concat2, ends_with};

verus! {

/// The user's configuration of the tool.
pub struct Config {
    /// The Buck2 executable to run.
    pub buck2_binary: String,
}

/// The Buck2 executable where the configuration names none.
pub fn default_buck2_binary() -> (r: String)
    ensures
        r@ == "buck2"@,
{
    String::from_str("buck2")
}

impl Default for Config {
    fn default() -> (r: Config)
        ensures
            r.buck2_binary@ == "buck2"@,
    {
        Config { buck2_binary: default_buck2_binary() }
    }
}

/// A recorded replacement of one version of a dependency by another.
pub struct PatchEntry {
    pub from: String,
    pub to: String,
}

/// The recorded version replacements, by dependency name.
pub struct PatchConfig {
    pub version: HashMap<String, PatchEntry>,
}

/// The configuration of a repository.
pub struct RepoConfig {
    /// Third-party dependencies of the root package go through workspace-wide aliases.
    pub inherit_workspace_deps: bool,
    pub align_cells: bool,
    /// No test rules are generated.
    pub ignore_tests: bool,
    /// The attributes whose hand-edited values are merged into regenerated rules.
    pub patch_fields: LabelSet,
    pub patch: PatchConfig,
}

impl Default for RepoConfig {
    fn default() -> (r: RepoConfig)
        ensures
            !r.inherit_workspace_deps,
            !r.align_cells,
            r.ignore_tests,
            r.patch_fields.wf(),
            r.patch_fields@.len() == 0,
    {
        RepoConfig {
            inherit_workspace_deps: false,
            align_cells: false,
            ignore_tests: true,
            patch_fields: LabelSet::new(),
            patch: PatchConfig { version: HashMap::new() },
        }
    }
}

impl RepoConfig {
    /// The path of the repository configuration under the project root `buck2_root`.
    pub fn repo_config_path(buck2_root: &str) -> (r: String)
        ensures
            buck2_root@.len() == 0 ==> r@ == "buckal.toml"@,
            buck2_root@.len() > 0 && buck2_root@.last() == '/' ==> r@ == buck2_root@ + "buckal.toml"@,
            buck2_root@.len() > 0 && buck2_root@.last() != '/' ==> r@ == buck2_root@ + "/buckal.toml"@,
    {
        proof {
            reveal_strlit("/");
        }
        if buck2_root.unicode_len() == 0 {
            return String::from_str("buckal.toml");
        }
        let slash = ends_with(buck2_root, "/");
        proof {
            let s = buck2_root@;
            assert(s.subrange(s.len() - 1, s.len() as int)[0] == s.last());
            if s.last() == '/' {
                assert(s.subrange(s.len() - 1, s.len() as int) =~= "/"@);
            }
        }
        if slash {
            concat2(buck2_root, "buckal.toml")
        } else {
            concat2(buck2_root, "/buckal.toml")
        }
    }
}

} // verus!
