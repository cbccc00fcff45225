//! Values that are asset handles: the inspector shows the asset that the
//! handle points to in place of the handle itself, when it can.

use vstd::prelude::*;

verus! {

/// What the inspector does with a value it is about to show.
#[derive(Clone, Copy, PartialEq, Eq, Structural, Debug)]
pub enum HandleDisplay {
    /// The value is not an asset handle: it is shown as usual.
    NotAHandle,
    /// A handle, but the inspector has no world to find assets in: the
    /// message that the world is needed is shown.
    NoWorld,
    /// A handle to no asset: the message that the handle is dead is shown.
    DeadHandle,
    /// A handle to an asset: the asset is shown in its place.
    Asset,
}

/// The rule: only a handle is shown differently; without a world a handle is
/// answered with a message, as is a handle that points to no asset; else the
/// asset is shown.
pub open spec fn handle_display_rule(is_handle: bool, has_world: bool, asset_found: bool) -> HandleDisplay {
    if !is_handle {
        HandleDisplay::NotAHandle
    } else if !has_world {
        HandleDisplay::NoWorld
    } else if !asset_found {
        HandleDisplay::DeadHandle
    } else {
        HandleDisplay::Asset
    }
}

/// Decides how a value is shown (see `handle_display_rule`).
pub fn handle_display(is_handle: bool, has_world: bool, asset_found: bool) -> (d: HandleDisplay)
    ensures
        d == handle_display_rule(is_handle, has_world, asset_found),
{
    if !is_handle {
        HandleDisplay::NotAHandle
    } else if !has_world {
        HandleDisplay::NoWorld
    } else if !asset_found {
        HandleDisplay::DeadHandle
    } else {
        HandleDisplay::Asset
    }
}

/// What the value's display reports back: nothing for a value that is not a
/// handle (it is left to the usual display), no change when a message was
/// shown, and whether the asset changed when the asset was shown.
pub fn short_circuit_result(d: HandleDisplay, asset_changed: bool) -> (r: Option<bool>)
    ensures
        r == match d {
            HandleDisplay::NotAHandle => None,
            HandleDisplay::NoWorld => Some(false),
            HandleDisplay::DeadHandle => Some(false),
            HandleDisplay::Asset => Some(asset_changed),
        },
{
    match d {
        HandleDisplay::NotAHandle => None,
        HandleDisplay::NoWorld => Some(false),
        HandleDisplay::DeadHandle => Some(false),
        HandleDisplay::Asset => Some(asset_changed),
    }
}

/// The header under which an asset is shown: `Handle({id})`, where `id` is the
/// debug text of the interface id made from the asset's handle.
pub fn handle_header(id_text: &str) -> (s: String)
    ensures
        s@ == "Handle("@ + id_text@ + ")"@,
{
    let mut s = String::from_str("Handle(");
    s.append(id_text);
    s.append(")");
    s
}

/// A value that is not a handle is left to the usual display, whatever the
/// other flags; a handle without a world gets the no-world message; a handle
/// in a world gets its asset when there is one and the dead-handle message
/// when there is none.
pub proof fn law_handle_display(is_handle: bool, has_world: bool, asset_found: bool)
    ensures
        !is_handle ==> handle_display_rule(is_handle, has_world, asset_found) == HandleDisplay::NotAHandle,
        (handle_display_rule(is_handle, has_world, asset_found) == HandleDisplay::NoWorld) == (is_handle
            && !has_world),
        (handle_display_rule(is_handle, has_world, asset_found) == HandleDisplay::DeadHandle) == (is_handle
            && has_world && !asset_found),
        (handle_display_rule(is_handle, has_world, asset_found) == HandleDisplay::Asset) == (is_handle && has_world
            && asset_found),
{
}

} // verus!
