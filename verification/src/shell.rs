//! The shell window's lifecycle decisions: asking before the management
//! window closes over a running kernel, which kernel process to reap on
//! exit and on stop, and what follows a kernel install.
use crate::text::{from_chars, push_all, str_is, to_chars};
use vstd::prelude::*;

verus! {

/// Event asking the management UI to confirm quitting while the kernel runs.
pub const REQUEST_QUIT_EVENT: &'static str = "request-quit-confirm";

/// The kernel is serving: this session's child is alive or the configured
/// port answers (a kernel an earlier shell spawned).
pub fn kernel_running(child_alive: bool, port_open: bool) -> (b: bool)
    ensures
        b == (child_alive || port_open),
{
    child_alive || port_open
}

/// Closing the management window (`main`) while the kernel runs is held
/// back and the UI asked to confirm; other windows close freely.
pub fn close_needs_confirm(label: &str, kernel_running: bool) -> (b: bool)
    ensures
        b == (label@ == "main"@ && kernel_running),
{
    str_is(label, "main") && kernel_running
}

/// What the shell does with the kernel's pid record on exit, after
/// stopping the child it spawned itself.
#[derive(Debug)]
pub enum ExitCleanup {
    /// The port is free: the record is stale and is cleared.
    ClearPid,
    /// The port still answers and a pid is recorded: that kernel is
    /// killed, then the record cleared.
    KillAndClear(u32),
    /// The port answers but nothing is recorded.
    Nothing,
}

pub fn exit_cleanup(port_open: bool, recorded: Option<u32>) -> (r: ExitCleanup)
    ensures
        !port_open ==> r is ClearPid,
        port_open ==> match recorded {
            Some(p) => r matches ExitCleanup::KillAndClear(q) && q == p,
            None => r is Nothing,
        },
{
    if !port_open {
        ExitCleanup::ClearPid
    } else {
        match recorded {
            Some(p) => ExitCleanup::KillAndClear(p),
            None => ExitCleanup::Nothing,
        }
    }
}

/// The process that stopping the kernel kills once this session's child is
/// gone and the port still answers: the recorded pid; without one, the
/// port's listener (`listener`, looked up only then) when it is a dsh
/// kernel (`listener_is_kernel`) or, on Windows (`windows`), which has no
/// such check, unconditionally.
pub open spec fn orphan_choice(
    port_open: bool,
    recorded: Option<u32>,
    listener: Option<u32>,
    listener_is_kernel: bool,
    windows: bool,
) -> Option<u32> {
    if !port_open {
        None
    } else {
        match recorded {
            Some(p) => Some(p),
            None => match listener {
                Some(l) => if windows || listener_is_kernel {
                    Some(l)
                } else {
                    None
                },
                None => None,
            },
        }
    }
}

pub fn orphan_pid(
    port_open: bool,
    recorded: Option<u32>,
    listener: Option<u32>,
    listener_is_kernel: bool,
    windows: bool,
) -> (r: Option<u32>)
    ensures
        r == orphan_choice(port_open, recorded, listener, listener_is_kernel, windows),
{
    if !port_open {
        return None;
    }
    match recorded {
        Some(p) => Some(p),
        None => match listener {
            Some(l) => {
                if windows || listener_is_kernel {
                    Some(l)
                } else {
                    None
                }
            },
            None => None,
        },
    }
}

/// What follows a successful kernel install: the first installed kernel
/// becomes active, and the kernel is started when its port is free.
#[derive(Debug)]
pub struct KernelFollowup {
    pub activate: bool,
    pub start: bool,
}

pub fn kernel_followup(active: &Option<String>, port_open: bool) -> (r: KernelFollowup)
    ensures
        r.activate == active.is_none(),
        r.start == !port_open,
{
    KernelFollowup { activate: active.is_none(), start: !port_open }
}

/// The progress line announcing the switch to a freshly installed kernel.
pub fn switched_to(version: &str) -> (r: String)
    ensures
        r@ == "已切换到版本 "@ + version@,
{
    let mut out = to_chars("已切换到版本 ");
    let v = to_chars(version);
    push_all(&mut out, &v);
    from_chars(&out)
}

} // verus!
