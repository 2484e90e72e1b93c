//! Keycodes and layout groups of xkb.

use vstd::prelude::*;

verus! {

/// The xkb code of a key: its evdev code plus 8.
pub fn xkb_keycode(evdev_code: u16) -> (code: u32)
    ensures
        code == evdev_code + 8,
{
    (evdev_code as u32) + 8
}

/// The name of the layout in a group of the keymap `us,ru`. Other groups have none.
pub open spec fn layout_of_group(group: u32) -> Seq<char> {
    if group == 0 {
        "us"@
    } else if group == 1 {
        "ru"@
    } else {
        "??"@
    }
}

/// The name of the layout in a group of the keymap `us,ru`, or `??`.
pub fn layout_name(group: u32) -> (name: &'static str)
    ensures
        name@ == layout_of_group(group),
{
    match group {
        0 => "us",
        1 => "ru",
        _ => "??",
    }
}

/// The groups of the keymap are us and ru, in this order; any other group has no layout.
pub proof fn law_groups_of_the_keymap(group: u32)
    ensures
        layout_of_group(0) == "us"@,
        layout_of_group(1) == "ru"@,
        group > 1 ==> layout_of_group(group) == "??"@,
{
}

} // verus!
