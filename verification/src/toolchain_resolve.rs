//! What a verified toolchain means: a resolved toolchain whose version (or
//! channel) is consistent with the selector the lock file pinned, and whose
//! executables were actually resolved. One implementation shared by every
//! build that needs a toolchain.

use vstd::prelude::*;

use crate::resource_scheduler::strings_view;
use crate::text::{debug_quoted, debug_str, owned, push_str, split_char, split_on, str_eq};

verus! {

/// Why a toolchain could not be verified.
#[derive(Debug, Clone, PartialEq, Eq)]
pub enum ToolchainResolutionError {
    LockUnreadable(String),
    RustToolchainMissing,
    RustUnverifiedSelector { selector: String, resolved_version: Option<String>, resolved_channel: Option<String> },
    RustExecutableUnresolved(String),
    NimToolchainMissing,
    NimUnverifiedSelector { selector: String, resolved_version: Option<String> },
    NimExecutableUnresolved(String),
}

pub open spec fn opt_view(o: Option<String>) -> Option<Seq<char>> {
    match o {
        Some(s) => Some(s@),
        None => None,
    }
}

pub open spec fn opt_str_view(o: Option<&str>) -> Option<Seq<char>> {
    match o {
        Some(s) => Some(s@),
        None => None,
    }
}

pub open spec fn is_ascii_digit(c: char) -> bool {
    '0' <= c && c <= '9'
}

/// Whether a resolved version and channel are consistent with `selector`:
/// an empty selector always is; a numeric one must agree with the version
/// on every dot-separated component it names; `stable`, `beta` or
/// `nightly` must equal the resolved channel; anything else cannot be
/// verified and is refused.
pub open spec fn selector_matches(sel: Seq<char>, version: Option<Seq<char>>, channel: Option<Seq<char>>) -> bool {
    if sel.len() == 0 {
        true
    } else if is_ascii_digit(sel[0]) {
        match version {
            None => false,
            Some(v) => {
                let sp = split_on(sel, '.');
                let rp = split_on(v, '.');
                rp.len() >= sp.len() && forall|i: int| 0 <= i < sp.len() ==> #[trigger] sp[i] == rp[i]
            },
        }
    } else if sel == "stable"@ || sel == "beta"@ || sel == "nightly"@ {
        channel == Some(sel)
    } else {
        false
    }
}

/// Whether `resolved_version`/`resolved_channel` is consistent with the
/// requested `selector`; a selector that cannot be verified fails closed.
pub fn selector_matches_resolved(selector: &str, resolved_version: Option<&str>, resolved_channel: Option<&str>) -> (r: bool)
    ensures
        r == selector_matches(selector@, opt_str_view(resolved_version), opt_str_view(resolved_channel)),
{
    let cs = crate::text::chars_of(selector);
    if cs.len() == 0 {
        return true;
    }
    if '0' <= cs[0] && cs[0] <= '9' {
        let resolved = match resolved_version {
            None => return false,
            Some(v) => v,
        };
        let sp = split_char(selector, '.');
        let rp = split_char(resolved, '.');
        let ghost spv = strings_view(sp@);
        let ghost rpv = strings_view(rp@);
        if rp.len() < sp.len() {
            return false;
        }
        let mut i: usize = 0;
        while i < sp.len()
            invariant
                spv == strings_view(sp@),
                rpv == strings_view(rp@),
                spv == split_on(selector@, '.'),
                rpv == split_on(resolved@, '.'),
                resolved_version == Some(resolved),
                selector@.len() > 0,
                is_ascii_digit(selector@[0]),
                sp@.len() <= rp@.len(),
                i <= sp@.len(),
                forall|j: int| 0 <= j < i ==> #[trigger] spv[j] == rpv[j],
            decreases sp@.len() - i,
        {
            proof {
                assert(spv[i as int] == sp@[i as int]@);
                assert(rpv[i as int] == rp@[i as int]@);
            }
            if !(sp[i] == rp[i]) {
                proof {
                    assert(spv[i as int] != rpv[i as int]);
                    assert(!selector_matches(selector@, opt_str_view(resolved_version), opt_str_view(resolved_channel)));
                }
                return false;
            }
            i = i + 1;
        }
        return true;
    }
    if str_eq(selector, "stable") || str_eq(selector, "beta") || str_eq(selector, "nightly") {
        return match resolved_channel {
            Some(ch) => str_eq(ch, selector),
            None => false,
        };
    }
    false
}

/// How `Debug` shows an optional string.
pub open spec fn debug_opt(o: Option<Seq<char>>) -> Seq<char> {
    match o {
        Some(s) => "Some("@ + debug_str(s) + ")"@,
        None => "None"@,
    }
}

fn push_debug_opt(m: &mut String, o: &Option<String>)
    ensures
        final(m)@ == old(m)@ + debug_opt(opt_view(*o)),
{
    match o {
        Some(s) => {
            push_str(m, "Some(");
            let q = debug_quoted(s.as_str());
            push_str(m, q.as_str());
            push_str(m, ")");
            proof {
                assert(final(m)@ =~= old(m)@ + debug_opt(opt_view(*o)));
            }
        },
        None => {
            push_str(m, "None");
        },
    }
}

/// The human-readable text of a toolchain resolution error.
pub open spec fn toolchain_error_text(e: ToolchainResolutionError) -> Seq<char> {
    match e {
        ToolchainResolutionError::LockUnreadable(d) => "failed to load toolchain lock file: "@ + d@,
        ToolchainResolutionError::RustToolchainMissing => "toolchain lock file declares no Rust toolchain"@,
        ToolchainResolutionError::RustUnverifiedSelector { selector, resolved_version, resolved_channel } =>
            "Rust toolchain requested selector '"@ + selector@ + "' but resolved version is "@
            + debug_opt(opt_view(resolved_version)) + " (channel "@ + debug_opt(opt_view(resolved_channel))
            + ") -- refusing to build with a toolchain that does not match, or cannot be verified against, what the lock file actually pinned"@,
        ToolchainResolutionError::RustExecutableUnresolved(d) => d@,
        ToolchainResolutionError::NimToolchainMissing => "toolchain lock file declares no Nim toolchain"@,
        ToolchainResolutionError::NimUnverifiedSelector { selector, resolved_version } =>
            "Nim toolchain requested selector '"@ + selector@ + "' but resolved version is "@
            + debug_opt(opt_view(resolved_version))
            + " -- refusing to build with a toolchain that does not match, or cannot be verified against, what the lock file actually pinned"@,
        ToolchainResolutionError::NimExecutableUnresolved(d) => d@,
    }
}

impl ToolchainResolutionError {
    /// The error's human-readable text.
    pub fn message(&self) -> (r: String)
        ensures
            r@ == toolchain_error_text(*self),
    {
        match self {
            ToolchainResolutionError::LockUnreadable(d) => {
                let mut m = owned("failed to load toolchain lock file: ");
                push_str(&mut m, d.as_str());
                m
            },
            ToolchainResolutionError::RustToolchainMissing => owned("toolchain lock file declares no Rust toolchain"),
            ToolchainResolutionError::RustUnverifiedSelector { selector, resolved_version, resolved_channel } => {
                let mut m = owned("Rust toolchain requested selector '");
                push_str(&mut m, selector.as_str());
                push_str(&mut m, "' but resolved version is ");
                push_debug_opt(&mut m, resolved_version);
                push_str(&mut m, " (channel ");
                push_debug_opt(&mut m, resolved_channel);
                push_str(
                    &mut m,
                    ") -- refusing to build with a toolchain that does not match, or cannot be verified against, what the lock file actually pinned",
                );
                m
            },
            ToolchainResolutionError::RustExecutableUnresolved(d) => d.clone(),
            ToolchainResolutionError::NimToolchainMissing => owned("toolchain lock file declares no Nim toolchain"),
            ToolchainResolutionError::NimUnverifiedSelector { selector, resolved_version } => {
                let mut m = owned("Nim toolchain requested selector '");
                push_str(&mut m, selector.as_str());
                push_str(&mut m, "' but resolved version is ");
                push_debug_opt(&mut m, resolved_version);
                push_str(
                    &mut m,
                    " -- refusing to build with a toolchain that does not match, or cannot be verified against, what the lock file actually pinned",
                );
                m
            },
            ToolchainResolutionError::NimExecutableUnresolved(d) => d.clone(),
        }
    }
}

/// What a toolchain resolution reported for one Rust toolchain.
#[derive(Debug, Clone, PartialEq, Eq)]
pub struct RustToolchainFacts {
    pub logical_name: String,
    pub cargo: Option<String>,
    pub rustc: Option<String>,
    pub requested_selector: Option<String>,
    pub resolved_version: Option<String>,
    pub channel: Option<String>,
}

/// What a toolchain resolution reported for one Nim toolchain.
#[derive(Debug, Clone, PartialEq, Eq)]
pub struct NimToolchainFacts {
    pub logical_name: String,
    pub nim: Option<String>,
    pub requested_selector: Option<String>,
    pub resolved_version: Option<String>,
}

pub open spec fn selector_of(s: Option<String>) -> Seq<char> {
    match s {
        Some(x) => x@,
        None => Seq::empty(),
    }
}

/// The message for a toolchain whose `tool` executable was not resolved.
pub open spec fn unresolved_text(kind: Seq<char>, name: Seq<char>, tool: Seq<char>) -> Seq<char> {
    kind + " toolchain '"@ + name + "' has no resolved "@ + tool
        + " executable (see its own resolution notes from `laminaria doctor`)"@
}

fn unresolved_message(kind: &str, name: &str, tool: &str) -> (r: String)
    ensures
        r@ == unresolved_text(kind@, name@, tool@),
{
    let mut m = owned(kind);
    push_str(&mut m, " toolchain '");
    push_str(&mut m, name);
    push_str(&mut m, "' has no resolved ");
    push_str(&mut m, tool);
    push_str(&mut m, " executable (see its own resolution notes from `laminaria doctor`)");
    m
}

fn opt_as_str(o: &Option<String>) -> (r: Option<&str>)
    ensures
        opt_str_view(r) == opt_view(*o),
{
    match o {
        Some(s) => Some(s.as_str()),
        None => None,
    }
}

/// The first Rust toolchain, when it has real `cargo` and `rustc`
/// executables and a resolved version consistent with its selector (an
/// absent selector is empty).
pub fn resolve_verified_rust(toolchains: &Vec<RustToolchainFacts>) -> (r: Result<(String, String), ToolchainResolutionError>)
    ensures
        rust_resolution(toolchains@, r),
{
    if toolchains.len() == 0 {
        return Err(ToolchainResolutionError::RustToolchainMissing);
    }
    let t = &toolchains[0];
    let cargo = match &t.cargo {
        Some(c) => c.clone(),
        None => {
            return Err(
                ToolchainResolutionError::RustExecutableUnresolved(
                    unresolved_message("Rust", t.logical_name.as_str(), "cargo"),
                ),
            )
        },
    };
    let rustc = match &t.rustc {
        Some(c) => c.clone(),
        None => {
            return Err(
                ToolchainResolutionError::RustExecutableUnresolved(
                    unresolved_message("Rust", t.logical_name.as_str(), "rustc"),
                ),
            )
        },
    };
    let selector: String = match &t.requested_selector {
        Some(s) => s.clone(),
        None => String::new(),
    };
    if !selector_matches_resolved(selector.as_str(), opt_as_str(&t.resolved_version), opt_as_str(&t.channel)) {
        return Err(
            ToolchainResolutionError::RustUnverifiedSelector {
                selector,
                resolved_version: t.resolved_version.clone(),
                resolved_channel: t.channel.clone(),
            },
        );
    }
    Ok((cargo, rustc))
}

/// The first Nim toolchain, when it has a real `nim` executable and a
/// resolved version consistent with its selector.
pub fn resolve_verified_nim(toolchains: &Vec<NimToolchainFacts>) -> (r: Result<String, ToolchainResolutionError>)
    ensures
        nim_resolution(toolchains@, r),
{
    if toolchains.len() == 0 {
        return Err(ToolchainResolutionError::NimToolchainMissing);
    }
    let t = &toolchains[0];
    let nim = match &t.nim {
        Some(c) => c.clone(),
        None => {
            return Err(
                ToolchainResolutionError::NimExecutableUnresolved(
                    unresolved_message("Nim", t.logical_name.as_str(), "nim"),
                ),
            )
        },
    };
    let selector: String = match &t.requested_selector {
        Some(s) => s.clone(),
        None => String::new(),
    };
    if !selector_matches_resolved(selector.as_str(), opt_as_str(&t.resolved_version), None) {
        return Err(
            ToolchainResolutionError::NimUnverifiedSelector { selector, resolved_version: t.resolved_version.clone() },
        );
    }
    Ok(nim)
}

/// What resolving the reported Rust toolchains gives: the first one's
/// `cargo` and `rustc`, or the first reason it cannot be used.
pub open spec fn rust_resolution(ts: Seq<RustToolchainFacts>, r: Result<(String, String), ToolchainResolutionError>) -> bool {
    if ts.len() == 0 {
        r == Err::<(String, String), ToolchainResolutionError>(ToolchainResolutionError::RustToolchainMissing)
    } else {
        let t = ts[0];
        if t.cargo is None {
            r matches Err(ToolchainResolutionError::RustExecutableUnresolved(d))
                && d@ == unresolved_text("Rust"@, t.logical_name@, "cargo"@)
        } else if t.rustc is None {
            r matches Err(ToolchainResolutionError::RustExecutableUnresolved(d))
                && d@ == unresolved_text("Rust"@, t.logical_name@, "rustc"@)
        } else if !selector_matches(selector_of(t.requested_selector), opt_view(t.resolved_version), opt_view(t.channel)) {
            r matches Err(ToolchainResolutionError::RustUnverifiedSelector { selector, resolved_version, resolved_channel })
                && selector@ == selector_of(t.requested_selector)
                && opt_view(resolved_version) == opt_view(t.resolved_version)
                && opt_view(resolved_channel) == opt_view(t.channel)
        } else {
            r matches Ok((c, rc)) && c@ == t.cargo->0@ && rc@ == t.rustc->0@
        }
    }
}

/// What resolving the reported Nim toolchains gives: the first one's `nim`,
/// or the first reason it cannot be used.
pub open spec fn nim_resolution(ts: Seq<NimToolchainFacts>, r: Result<String, ToolchainResolutionError>) -> bool {
    if ts.len() == 0 {
        r == Err::<String, ToolchainResolutionError>(ToolchainResolutionError::NimToolchainMissing)
    } else {
        let t = ts[0];
        if t.nim is None {
            r matches Err(ToolchainResolutionError::NimExecutableUnresolved(d))
                && d@ == unresolved_text("Nim"@, t.logical_name@, "nim"@)
        } else if !selector_matches(selector_of(t.requested_selector), opt_view(t.resolved_version), None) {
            r matches Err(ToolchainResolutionError::NimUnverifiedSelector { selector, resolved_version })
                && selector@ == selector_of(t.requested_selector)
                && opt_view(resolved_version) == opt_view(t.resolved_version)
        } else {
            r matches Ok(n) && n@ == t.nim->0@
        }
    }
}

/// The first reported Rust toolchain has both executables and its
/// selector is verified against what it resolved to.
pub open spec fn rust_verified(ts: Seq<RustToolchainFacts>) -> bool {
    &&& ts.len() > 0
    &&& ts[0].cargo is Some
    &&& ts[0].rustc is Some
    &&& selector_matches(selector_of(ts[0].requested_selector), opt_view(ts[0].resolved_version), opt_view(ts[0].channel))
}

/// The first reported Nim toolchain has its executable and its selector
/// is verified.
pub open spec fn nim_verified(ts: Seq<NimToolchainFacts>) -> bool {
    &&& ts.len() > 0
    &&& ts[0].nim is Some
    &&& selector_matches(selector_of(ts[0].requested_selector), opt_view(ts[0].resolved_version), None)
}

} // verus!
