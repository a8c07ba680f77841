//! Per-C-compiler-invocation measurement for `nim c` and `nim cpp` builds,
//! by substituting a wrapper for the C compiler and linker of every named
//! compiler profile Nim may select: the override replaces only the
//! executable and keeps the profile's own command template.

use vstd::prelude::*;

use crate::text::{owned, push_str};

verus! {

/// The environment variable naming the real compiler the wrapper forwards
/// to.
pub const ENV_WRAPPED_CC: &'static str = "LAMINARIA_WRAPPED_CC";

/// The flags for one profile: its compiler and its linker executable both
/// set to the wrapper.
pub open spec fn profile_args(profile: Seq<char>, wrapper: Seq<char>) -> Seq<Seq<char>> {
    seq!["--"@ + profile + ".exe:"@ + wrapper, "--"@ + profile + ".linkerexe:"@ + wrapper]
}

/// The flags that substitute `wrapper` for every named profile, `clang`
/// then `gcc`.
pub open spec fn wrapper_flags(wrapper: Seq<char>) -> Seq<Seq<char>> {
    profile_args("clang"@, wrapper) + profile_args("gcc"@, wrapper)
}

fn flag(profile: &str, suffix: &str, wrapper: &str) -> (r: String)
    ensures
        r@ == "--"@ + profile@ + suffix@ + wrapper@,
{
    let mut m = owned("--");
    push_str(&mut m, profile);
    push_str(&mut m, suffix);
    push_str(&mut m, wrapper);
    m
}

/// The arguments to insert right after `nim c`/`nim cpp`'s subcommand so
/// that every named compiler profile runs the wrapper at `wrapper_bin`.
pub fn wrapper_args(wrapper_bin: &str) -> (r: Vec<String>)
    ensures
        crate::resource_scheduler::strings_view(r@) == wrapper_flags(wrapper_bin@),
{
    let mut out: Vec<String> = Vec::new();
    out.push(flag("clang", ".exe:", wrapper_bin));
    out.push(flag("clang", ".linkerexe:", wrapper_bin));
    out.push(flag("gcc", ".exe:", wrapper_bin));
    out.push(flag("gcc", ".linkerexe:", wrapper_bin));
    proof {
        assert(crate::resource_scheduler::strings_view(out@) =~= wrapper_flags(wrapper_bin@));
    }
    out
}

} // verus!
