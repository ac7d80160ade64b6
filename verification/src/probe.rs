//! Tool probing: a process-wide snapshot of which external cleanup tools the
//! system offers, and the decision which of them to trigger in a directory.
//! Launching the tools is a fire-and-forget side effect and stays outside the
//! library; the library only decides.

use vstd::prelude::*;

verus! {

/// Relies on `which::which`: whether an executable of the name can be found
/// on the system path. The answer depends on the environment, so nothing is
/// promised of it.
#[verifier::external_body]
fn tool_available(name: &str) -> (r: bool) {
    which::which(name).is_ok()
}

/// The capability snapshot: which external cleanup tools the system offers.
/// Resolved once at process start and read-only afterwards.
pub struct Helpers {
    pub cargo: bool,
    pub git: bool,
    pub npm: bool,
    pub poetry: bool,
    pub pyclean: bool,
}

/// Which marker files a directory holds directly inside it.
pub struct Markers {
    pub cargo_toml: bool,
    pub git_dir: bool,
    pub package_json: bool,
    pub pyproject_toml: bool,
}

/// One external cleanup action to trigger, fire-and-forget.
#[derive(Clone, Copy, Debug, PartialEq, Eq, Structural)]
pub enum ToolAction {
    CargoClean,
    GitGc,
    NpmCacheClean,
    PoetryCacheClear,
}

impl Helpers {
    /// Probe the system path once for every known tool.
    pub fn new() -> Helpers {
        Helpers {
            cargo: tool_available("cargo"),
            git: tool_available("git"),
            npm: tool_available("npm"),
            poetry: tool_available("poetry"),
            pyclean: tool_available("python3"),
        }
    }

    /// The actions owed in a directory with the given markers: one per tool
    /// that is available and whose marker file is present, in a fixed order.
    pub open spec fn spec_actions(self, m: Markers) -> Seq<ToolAction> {
        (if self.cargo && m.cargo_toml {
            seq![ToolAction::CargoClean]
        } else {
            Seq::empty()
        }) + (if self.git && m.git_dir {
            seq![ToolAction::GitGc]
        } else {
            Seq::empty()
        }) + (if self.npm && m.package_json {
            seq![ToolAction::NpmCacheClean]
        } else {
            Seq::empty()
        }) + (if self.poetry && m.pyproject_toml {
            seq![ToolAction::PoetryCacheClear]
        } else {
            Seq::empty()
        })
    }

    /// Decide which cleanup actions to trigger in a directory: exactly those
    /// whose tool is available and whose marker file is present.
    pub fn actions(&self, m: &Markers) -> (r: Vec<ToolAction>)
        ensures
            r@ == self.spec_actions(*m),
    {
        let mut r: Vec<ToolAction> = Vec::new();
        if self.cargo && m.cargo_toml {
            r.push(ToolAction::CargoClean);
        }
        if self.git && m.git_dir {
            r.push(ToolAction::GitGc);
        }
        if self.npm && m.package_json {
            r.push(ToolAction::NpmCacheClean);
        }
        if self.poetry && m.pyproject_toml {
            r.push(ToolAction::PoetryCacheClear);
        }
        proof {
            assert(r@ =~= self.spec_actions(*m));
        }
        r
    }
}

} // verus!
