//! The agent tools that installer scaffolding recognizes.

use crate::text::{eq_lowered, lower_seq};
use vstd::prelude::*;

verus! {

/// A coding-agent tool that the installer can configure.
#[derive(Clone, Copy, Debug, PartialEq, Eq, Structural)]
pub enum InstallTool {
    Aider,
    Kimi,
    Kilo,
}

/// The tool a (case-insensitive) name designates, if any.
pub open spec fn install_tool_of(s: Seq<char>) -> Option<InstallTool> {
    if lower_seq(s) == "aider"@ {
        Some(InstallTool::Aider)
    } else if lower_seq(s) == "kimi"@ {
        Some(InstallTool::Kimi)
    } else if lower_seq(s) == "kilo"@ {
        Some(InstallTool::Kilo)
    } else {
        None
    }
}

impl InstallTool {
    /// Parses a tool name, ignoring ASCII case.
    pub fn parse(s: &str) -> (r: Option<InstallTool>)
        ensures
            r == install_tool_of(s@),
    {
        if eq_lowered(s, "aider") {
            Some(InstallTool::Aider)
        } else if eq_lowered(s, "kimi") {
            Some(InstallTool::Kimi)
        } else if eq_lowered(s, "kilo") {
            Some(InstallTool::Kilo)
        } else {
            None
        }
    }
}

} // verus!
