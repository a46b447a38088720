//! Decisions about key presses that the compositor takes before anything
//! else.

use vstd::prelude::*;

use crate::action::Action;
use crate::config::{action_for, binding_views, is_first_binding, Binding};
use crate::shortcut::{key_of, Key, Mods, Shortcut, ShortcutView};

verus! {

/// The first key code for switching the virtual console
/// (`XF86Switch_VT_1`); Ctrl+Alt+F1…F12 arrive from xkb as consecutive codes.
pub const VT_SWITCH_FIRST: u32 = 0x1008_FE01;

/// How many such keys exist.
pub const VT_SWITCH_COUNT: u32 = 12;

/// The xkb code of Backspace.
pub const KEYSYM_BACKSPACE: u32 = 0xFF08;

/// The console a key asks to switch to, counting from one.
pub open spec fn vt_spec(raw: u32) -> Option<i32> {
    if VT_SWITCH_FIRST <= raw && raw < VT_SWITCH_FIRST + VT_SWITCH_COUNT {
        Some((raw - VT_SWITCH_FIRST + 1) as i32)
    } else {
        None
    }
}

/// The console the user asks to switch to.
///
/// The compositor must handle this itself: it holds the graphics card and the
/// keyboard, and without it there is no way to leave the session.
pub fn vt_from_keysym(raw: u32) -> (r: Option<i32>)
    ensures
        r == vt_spec(raw),
{
    if VT_SWITCH_FIRST <= raw && raw < VT_SWITCH_FIRST + VT_SWITCH_COUNT {
        Some((raw - VT_SWITCH_FIRST + 1) as i32)
    } else {
        None
    }
}

/// The emergency exit from the session: Ctrl+Alt+Backspace.
///
/// It is checked before the configuration and cannot be removed from it: the
/// user may replace the whole set of bindings, and then without this way out
/// there would be no leaving the session at all.
pub fn is_emergency_exit(modifiers: &Mods, raw: u32) -> (r: bool)
    ensures
        r == (modifiers.ctrl && modifiers.alt && raw == KEYSYM_BACKSPACE),
{
    modifiers.ctrl && modifiers.alt && raw == KEYSYM_BACKSPACE
}

/// Builds a shortcut from the modifiers held and the name of the key.
///
/// `None` when the key has no meaningful name (for instance the modifier
/// itself was pressed): such events go to the application unchanged.
pub fn shortcut_from(modifiers: &Mods, key_name: &str) -> (r: Option<Shortcut>)
    ensures
        match key_of(key_name@) {
            Ok(k) => r matches Some(s) && s@ == (ShortcutView { mods: *modifiers, key: k }),
            Err(_) => r is None,
        },
{
    match Key::from_name(key_name) {
        Ok(key) => Some(Shortcut { mods: *modifiers, key }),
        Err(_) => None,
    }
}

/// What to do with a pressed key.
#[derive(Debug, PartialEq)]
pub enum KeyAction<'a> {
    /// Perform the action a binding of the settings names.
    Bound(&'a Action),
    /// Switch to another virtual console.
    SwitchVt(i32),
    /// End the session, whatever the settings say.
    EmergencyExit,
}

/// The first of the key's symbols that asks for a console or for the
/// emergency exit, checked in order: a console switch before the exit.
pub open spec fn escape_of(modifiers: Mods, syms: Seq<u32>) -> Option<Option<i32>>
    decreases syms.len(),
{
    if syms.len() == 0 {
        None
    } else if vt_spec(syms[0]) is Some {
        Some(vt_spec(syms[0]))
    } else if modifiers.ctrl && modifiers.alt && syms[0] == KEYSYM_BACKSPACE {
        Some(None)
    } else {
        escape_of(modifiers, syms.drop_first())
    }
}

/// Decides what a key event means, before any application sees it.
///
/// Only presses count. Switching the console and the emergency exit are
/// checked first, on every symbol of the key, so that they work whatever
/// the settings hold: they are the only way out of the session. Otherwise
/// the key's Latin name with the modifiers held is looked up among the
/// bindings, the first one winning; anything else goes on to the
/// application (`None`).
pub fn key_action<'a>(pressed: bool, modifiers: &Mods, syms: &[u32], key_name: &str, bindings: &'a [Binding]) -> (r: Option<KeyAction<'a>>)
    ensures
        !pressed ==> r is None,
        pressed ==> (escape_of(*modifiers, syms@) matches Some(e) ==> match e {
            Some(vt) => r == Some(KeyAction::SwitchVt(vt)),
            None => r == Some(KeyAction::<'a>::EmergencyExit),
        }),
        pressed && escape_of(*modifiers, syms@) is None ==> match key_of(key_name@) {
            Ok(k) => match r {
                Some(KeyAction::Bound(a)) => exists|i: int| #[trigger] is_first_binding(binding_views(bindings@), ShortcutView { mods: *modifiers, key: k }, i)
                    && *a == bindings@[i].action,
                None => forall|i: int| 0 <= i < bindings@.len() ==> #[trigger] bindings@[i].keys@ != (ShortcutView { mods: *modifiers, key: k }),
                _ => false,
            },
            Err(_) => r is None,
        },
{
    if !pressed {
        return None;
    }
    let mut i: usize = 0;
    assert(syms@.skip(0) =~= syms@);
    while i < syms.len()
        invariant
            pressed,
            i <= syms@.len(),
            escape_of(*modifiers, syms@) == escape_of(*modifiers, syms@.skip(i as int)),
        decreases syms@.len() - i,
    {
        assert(syms@.skip(i as int)[0] == syms@[i as int]);
        assert(syms@.skip(i as int).drop_first() =~= syms@.skip(i + 1));
        if let Some(vt) = vt_from_keysym(syms[i]) {
            return Some(KeyAction::SwitchVt(vt));
        }
        if is_emergency_exit(modifiers, syms[i]) {
            return Some(KeyAction::EmergencyExit);
        }
        i = i + 1;
    }
    assert(syms@.skip(i as int).len() == 0);
    match shortcut_from(modifiers, key_name) {
        Some(shortcut) => match action_for(bindings, &shortcut) {
            Some(a) => Some(KeyAction::Bound(a)),
            None => None,
        },
        None => None,
    }
}

} // verus!
