//! What an `ecp` child process may inherit from the host.

use vstd::prelude::*;
use crate::text::{starts_with, str_eq};

verus! {

/// An environment variable that an `ecp` child gets: only what the CLI needs
/// to find its registry (`PATH`, `HOME`, `TMPDIR` and the `ECP_` settings).
/// `GITHUB_TOKEN` and anything else the host set must not reach a process
/// driven by visitor input, nor the startup probe.
pub open spec fn passes_to_ecp(key: Seq<char>) -> bool {
    ||| key == "PATH"@
    ||| key == "HOME"@
    ||| key == "TMPDIR"@
    ||| "ECP_"@.len() <= key.len() && key.take("ECP_"@.len() as int) == "ECP_"@
}

/// Whether the environment variable `key` passes to an `ecp` child.
pub fn ecp_env_key(key: &str) -> (r: bool)
    ensures
        r == passes_to_ecp(key@),
{
    str_eq(key, "PATH") || str_eq(key, "HOME") || str_eq(key, "TMPDIR") || starts_with(key, "ECP_")
}

} // verus!
