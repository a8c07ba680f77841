//! Tracing a root command: the environment overrides it runs with, how
//! the status `wait4` reported reads as an exit record, and the peak
//! resident set size in bytes. Spawning and reaping the process is
//! operating-system work done by the caller.

pub use crate::types::env_overrides_from;

use vstd::prelude::*;

use crate::types::ExitStatusRecord;

verus! {

/// What the resource usage record says of its tracing scope.
pub const COVERAGE_NOTE: &'static str = "resource_usage is cumulative over the root process's entire reaped descendant subtree, obtained via a single wait4() call on the root pid; individual descendant processes (their own pid/parent/argv/timing) are not separately recorded by this tracer -- see ProcessTrace::known_gaps";

/// `libc::WIFEXITED`: the low seven bits of the status are zero (its
/// definition on Linux, macOS and the BSDs).
#[verifier::external_body]
fn exited_normally(status: i32) -> (r: bool)
    ensures
        r == (status & 0x7f == 0),
{
    libc::WIFEXITED(status)
}

/// `libc::WEXITSTATUS`: the second byte of the status.
#[verifier::external_body]
fn exit_code_of(status: i32) -> (r: i32)
    ensures
        r == (status >> 8) & 0xff,
{
    libc::WEXITSTATUS(status)
}

/// `libc::WIFSIGNALED`: the low seven bits are neither zero (exited) nor
/// all set (stopped).
#[verifier::external_body]
fn killed_by_signal(status: i32) -> (r: bool)
    ensures
        r == (status & 0x7f != 0 && status & 0x7f != 0x7f),
{
    libc::WIFSIGNALED(status)
}

/// `libc::WTERMSIG`: the low seven bits of the status.
#[verifier::external_body]
fn terminating_signal(status: i32) -> (r: i32)
    ensures
        r == status & 0x7f,
{
    libc::WTERMSIG(status)
}

/// How a reaped process ended, from its wait status: an exit code
/// (success when it is zero), or the signal that killed it, or neither
/// (when it was, for instance, only stopped).
pub fn exit_status_from_wait(status: i32) -> (r: ExitStatusRecord)
    ensures
        status & 0x7f == 0 ==> r == (ExitStatusRecord {
            success: (status >> 8) & 0xff == 0,
            code: Some((status >> 8) & 0xff),
            signal: None,
        }),
        status & 0x7f != 0 && status & 0x7f != 0x7f ==> r == (ExitStatusRecord {
            success: false,
            code: None,
            signal: Some(status & 0x7f),
        }),
        status & 0x7f == 0x7f ==> r == (ExitStatusRecord { success: false, code: None, signal: None }),
{
    if exited_normally(status) {
        let code = exit_code_of(status);
        ExitStatusRecord { success: code == 0, code: Some(code), signal: None }
    } else if killed_by_signal(status) {
        ExitStatusRecord { success: false, code: None, signal: Some(terminating_signal(status)) }
    } else {
        ExitStatusRecord { success: false, code: None, signal: None }
    }
}

/// The peak resident set size in bytes, from `ru_maxrss` read as an
/// unsigned count: Linux reports kilobytes (multiplied out, saturating),
/// macOS bytes; elsewhere the unit is not known and nothing is reported.
pub fn peak_rss_bytes(max_rss: u64, linux: bool, macos: bool) -> (r: Option<u64>)
    ensures
        linux ==> r == Some(if max_rss * 1024 > u64::MAX { u64::MAX } else { (max_rss * 1024) as u64 }),
        !linux && macos ==> r == Some(max_rss),
        !linux && !macos ==> r is None,
{
    if linux {
        match max_rss.checked_mul(1024) {
            Some(b) => Some(b),
            None => Some(u64::MAX),
        }
    } else if macos {
        Some(max_rss)
    } else {
        None
    }
}

} // verus!
