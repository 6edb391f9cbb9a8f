//! The most recent frontmost application that is not this process, as a
//! background poll keeps it, for quick-insert to focus and paste into.

use vstd::prelude::*;

verus! {

/// A window's frame; each coordinate is kept as the bit pattern of its
/// `f64` value (`f64::to_bits`), so it is carried through unchanged.
#[derive(Clone, Copy, Debug, PartialEq, Eq)]
pub struct WindowPosition {
    pub x_bits: u64,
    pub y_bits: u64,
    pub width_bits: u64,
    pub height_bits: u64,
}

/// A snapshot of the active window.
#[derive(Debug)]
pub struct ActiveWindowInfo {
    pub title: String,
    pub app_name: String,
    pub window_id: String,
    pub process_id: u64,
    pub process_path: String,
    pub position: WindowPosition,
}

impl ActiveWindowInfo {
    /// A field-by-field copy.
    pub fn duplicate(&self) -> (r: Self)
        ensures
            r == *self,
    {
        ActiveWindowInfo {
            title: self.title.clone(),
            app_name: self.app_name.clone(),
            window_id: self.window_id.clone(),
            process_id: self.process_id,
            process_path: self.process_path.clone(),
            position: self.position,
        }
    }
}

/// What one poll should write to the slot: the fetched window when it
/// belongs to another process; nothing for this process or a failed fetch.
pub open spec fn slot_update(fetched: Result<ActiveWindowInfo, String>, self_pid: u64) -> Option<ActiveWindowInfo> {
    match fetched {
        Ok(info) => if info.process_id != self_pid {
            Some(info)
        } else {
            None
        },
        Err(_) => None,
    }
}

/// Decides whether a poll's fetch result should be written to the slot:
/// - `Ok(info)` with pid != self: `Some(info)` (overwrites the slot)
/// - `Ok(info)` with pid == self: `None` (keeps the old slot)
/// - `Err`: `None` (keeps the old slot)
pub fn next_slot_value(fetched: Result<ActiveWindowInfo, String>, self_pid: u64) -> (r: Option<ActiveWindowInfo>)
    ensures
        r == slot_update(fetched, self_pid),
{
    match fetched {
        Ok(info) => {
            if info.process_id != self_pid {
                Some(info)
            } else {
                None
            }
        },
        Err(_) => None,
    }
}

/// The slot holding the last external frontmost window.
#[derive(Debug)]
pub struct FrontmostSlot {
    last: Option<ActiveWindowInfo>,
}

impl FrontmostSlot {
    /// What the slot holds.
    pub closed spec fn held(&self) -> Option<ActiveWindowInfo> {
        self.last
    }

    /// An empty slot: nothing tracked yet.
    pub fn new() -> (s: Self)
        ensures
            s.held() is None,
    {
        FrontmostSlot { last: None }
    }
}

/// Stores `info` as the last external frontmost window.
pub fn set_last_external_frontmost(slot: &mut FrontmostSlot, info: ActiveWindowInfo)
    ensures
        final(slot).held() == Some(info),
{
    slot.last = Some(info);
}

/// A copy of what the slot holds; `None` means no external app was tracked yet.
pub fn get_last_external_frontmost(slot: &FrontmostSlot) -> (r: Option<ActiveWindowInfo>)
    ensures
        r == slot.held(),
{
    match &slot.last {
        Some(info) => Some(info.duplicate()),
        None => None,
    }
}

/// One poll: write the fetched window to the slot when it belongs to
/// another process, else leave the slot as it was.
pub fn poll_frontmost(slot: &mut FrontmostSlot, fetched: Result<ActiveWindowInfo, String>, self_pid: u64)
    ensures
        final(slot).held() == match slot_update(fetched, self_pid) {
            Some(info) => Some(info),
            None => old(slot).held(),
        },
        (old(slot).held() matches Some(i) ==> i.process_id != self_pid) ==> (final(slot).held() matches Some(j) ==> j.process_id != self_pid),
{
    if let Some(info) = next_slot_value(fetched, self_pid) {
        set_last_external_frontmost(slot, info);
    }
}

} // verus!
