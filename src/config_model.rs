//! The in-memory task model: sections, per-platform step lists and blocks.

use vstd::prelude::*;
use crate::runner::{Os, Section};

verus! {

/// Whether the first failing step aborts its scope or is recorded and passed over.
#[derive(Debug, Clone, Copy, PartialEq, Eq, Structural)]
pub enum ExecutionPolicy {
    FastFail,
    CarryForward,
}

/// The eight sections of a configuration, each optional.
#[derive(Debug)]
pub struct Tasks {
    pub prebuild: Option<PlatformCommands>,
    pub build: Option<PlatformCommands>,
    pub postbuild: Option<PlatformCommands>,
    pub test: Option<PlatformCommands>,
    pub predeploy: Option<PlatformCommands>,
    pub deploy: Option<PlatformCommands>,
    pub postdeploy: Option<PlatformCommands>,
    pub clean: Option<PlatformCommands>,
}

/// A whole configuration: the sections, the named blocks, the global settings.
#[derive(Debug)]
pub struct Config {
    pub tasks: Tasks,
    pub blocks: Vec<(String, Block)>,
    pub global_config: Option<GlobalConfig>,
}

/// Settings for the whole run.
#[derive(Debug)]
pub struct GlobalConfig {
    pub execution_policy: Option<ExecutionPolicy>,
    pub env: Option<Vec<(String, String)>>,
    pub banned_sections: Option<Vec<String>>,
}

/// The step lists of one section, per platform.
#[derive(Debug)]
pub struct PlatformCommands {
    pub windows: Option<Block>,
    pub linux: Option<Block>,
    pub macos: Option<Block>,
}

/// Settings that hold inside one scope only.
#[derive(Debug)]
pub struct LocalConfig {
    pub execution_policy: Option<ExecutionPolicy>,
    pub env: Option<Vec<(String, String)>>,
}

/// A list of steps with optional local settings: a named block, or the
/// steps of a section on one platform.
#[derive(Debug)]
pub struct Block {
    pub steps: Option<Vec<String>>,
    pub local_config: Option<LocalConfig>,
}

/// The value an optional reference points to.
pub open spec fn deref_opt<T>(o: Option<&T>) -> Option<T> {
    match o {
        Some(x) => Some(*x),
        None => None,
    }
}

impl Tasks {
    /// The step lists of `s`.
    pub open spec fn commands_of(&self, s: Section) -> Option<PlatformCommands> {
        match s {
            Section::PreBuild => self.prebuild,
            Section::Build => self.build,
            Section::PostBuild => self.postbuild,
            Section::Test => self.test,
            Section::PreDeploy => self.predeploy,
            Section::Deploy => self.deploy,
            Section::PostDeploy => self.postdeploy,
            Section::Clean => self.clean,
        }
    }

    /// Returns the sections in required execution order, each with its name.
    pub fn ordered_sections(&self) -> (r: [(&'static str, Option<&PlatformCommands>); 8])
        ensures
            forall|i: int|
                0 <= i < 8 ==> (#[trigger] r@[i]).0@ == Section::at(i).name() && deref_opt(r@[i].1) == self.commands_of(
                    Section::at(i),
                ),
    {
        [
            ("PreBuild", self.prebuild.as_ref()),
            ("Build", self.build.as_ref()),
            ("PostBuild", self.postbuild.as_ref()),
            ("Test", self.test.as_ref()),
            ("PreDeploy", self.predeploy.as_ref()),
            ("Deploy", self.deploy.as_ref()),
            ("PostDeploy", self.postdeploy.as_ref()),
            ("Clean", self.clean.as_ref()),
        ]
    }

    /// The step lists of `s`.
    pub fn section_commands(&self, s: Section) -> (r: Option<&PlatformCommands>)
        ensures
            deref_opt(r) == self.commands_of(s),
    {
        match s {
            Section::PreBuild => self.prebuild.as_ref(),
            Section::Build => self.build.as_ref(),
            Section::PostBuild => self.postbuild.as_ref(),
            Section::Test => self.test.as_ref(),
            Section::PreDeploy => self.predeploy.as_ref(),
            Section::Deploy => self.deploy.as_ref(),
            Section::PostDeploy => self.postdeploy.as_ref(),
            Section::Clean => self.clean.as_ref(),
        }
    }
}

impl PlatformCommands {
    /// The steps and settings for `os`.
    pub open spec fn block_of(&self, os: Os) -> Option<Block> {
        match os {
            Os::Windows => self.windows,
            Os::Linux => self.linux,
            Os::Macos => self.macos,
        }
    }

    pub fn block_for(&self, os: Os) -> (r: Option<&Block>)
        ensures
            deref_opt(r) == self.block_of(os),
    {
        match os {
            Os::Windows => self.windows.as_ref(),
            Os::Linux => self.linux.as_ref(),
            Os::Macos => self.macos.as_ref(),
        }
    }
}

} // verus!
