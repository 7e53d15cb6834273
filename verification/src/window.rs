//! The shared window state and the side inputs that mutate it.
//!
//! One mutex guards a [`Data`] value: the history plus the window flags.
//! The listener thread, the tray thread, the hotkey thread and the render
//! loop all take that lock for the whole of any read-then-write sequence.
//! Mutations return the window commands they imply as plain values; the
//! caller issues them to the windowing layer.

use vstd::prelude::*;

use crate::clip::ClipView;
use crate::history::History;

verus! {

/// A command for the windowing layer.
#[derive(PartialEq, Eq, Structural, Clone, Copy, Debug)]
pub enum WindowCmd {
    /// Show (`true`) or hide (`false`) the window.
    Visible(bool),
    /// Give the window keyboard focus.
    Focus,
    /// Keep the window always on top (`true`) or at the normal level.
    Level(bool),
}

/// The shared state: the captured history and the window flags.
pub struct Data {
    /// The captured clipboard entries, oldest first.
    pub clip: History,
    /// Whether the window is shown.
    pub window_visible: bool,
    /// Whether the current visible state was entered via the hotkey; a
    /// copy action then auto-hides the window.
    pub is_hotkey_visible: bool,
    /// Whether the window is kept always on top.
    pub is_top: bool,
}

/// Mathematical model of [`Data`].
pub struct DataView {
    pub clip: Seq<ClipView>,
    pub visible: bool,
    pub hotkey_shown: bool,
    pub top: bool,
}

impl View for Data {
    type V = DataView;

    open spec fn view(&self) -> DataView {
        DataView {
            clip: self.clip@,
            visible: self.window_visible,
            hotkey_shown: self.is_hotkey_visible,
            top: self.is_top,
        }
    }
}

/// The state and the commands of one visibility toggle: the flag flips,
/// a window shown this way records whether the hotkey did it, and a shown
/// window is also focused.
pub open spec fn switch_visible_spec(d: DataView, hotkey: bool) -> (DataView, Seq<WindowCmd>) {
    let v = !d.visible;
    (
        (DataView { visible: v, hotkey_shown: v && hotkey, ..d }),
        if v {
            seq![WindowCmd::Visible(true), WindowCmd::Focus]
        } else {
            seq![WindowCmd::Visible(false)]
        },
    )
}

/// The state and the command of one always-on-top toggle.
pub open spec fn switch_top_spec(d: DataView) -> (DataView, Seq<WindowCmd>) {
    ((DataView { top: !d.top, ..d }), seq![WindowCmd::Level(!d.top)])
}

/// A tray icon mouse button.
#[derive(PartialEq, Eq, Structural, Clone, Copy, Debug)]
pub enum TrayButton {
    Left,
    Right,
    Middle,
}

/// What a tray click does: nothing until the button is released; a
/// released right click toggles always-on-top and forces the window
/// hidden; any other released click toggles visibility, not as a hotkey.
pub open spec fn tray_click_spec(d: DataView, button: TrayButton, released: bool) -> (
    DataView,
    Seq<WindowCmd>,
) {
    if !released {
        (d, Seq::<WindowCmd>::empty())
    } else if button is Right {
        let d1 = switch_top_spec(d).0;
        (
            (DataView { visible: false, hotkey_shown: false, ..d1 }),
            switch_top_spec(d).1 + seq![WindowCmd::Visible(false)],
        )
    } else {
        switch_visible_spec(d, false)
    }
}

impl Data {
    /// The state at startup: an empty history in a visible window, not on
    /// top, not shown by hotkey.
    pub fn new() -> (d: Data)
        ensures
            d@.clip == Seq::<ClipView>::empty(),
            d@.visible,
            !d@.hotkey_shown,
            !d@.top,
    {
        Data {
            clip: History::new(),
            window_visible: true,
            is_hotkey_visible: false,
            is_top: false,
        }
    }

    /// Toggles visibility and reports the commands to issue. A window
    /// shown this way records whether the hotkey showed it; a hidden
    /// window clears the mark.
    pub fn switch_visible(&mut self, hotkey: bool) -> (cmds: Vec<WindowCmd>)
        ensures
            final(self)@ == switch_visible_spec(old(self)@, hotkey).0,
            cmds@ == switch_visible_spec(old(self)@, hotkey).1,
    {
        self.window_visible = !self.window_visible;
        let mut cmds: Vec<WindowCmd> = Vec::new();
        cmds.push(WindowCmd::Visible(self.window_visible));
        if self.window_visible {
            cmds.push(WindowCmd::Focus);
            self.is_hotkey_visible = hotkey;
        } else {
            self.is_hotkey_visible = false;
        }
        proof {
            assert(cmds@ =~= switch_visible_spec(old(self)@, hotkey).1);
        }
        cmds
    }

    /// Toggles the always-on-top flag and reports the level command to
    /// issue.
    pub fn switch_top(&mut self) -> (cmds: Vec<WindowCmd>)
        ensures
            final(self)@ == switch_top_spec(old(self)@).0,
            cmds@ == switch_top_spec(old(self)@).1,
    {
        self.is_top = !self.is_top;
        let mut cmds: Vec<WindowCmd> = Vec::new();
        cmds.push(WindowCmd::Level(self.is_top));
        proof {
            assert(cmds@ =~= switch_top_spec(old(self)@).1);
        }
        cmds
    }

    /// Applies one tray icon click under the lock.
    pub fn on_tray_click(&mut self, button: TrayButton, released: bool) -> (cmds: Vec<
        WindowCmd,
    >)
        ensures
            final(self)@ == tray_click_spec(old(self)@, button, released).0,
            cmds@ == tray_click_spec(old(self)@, button, released).1,
    {
        if !released {
            let cmds: Vec<WindowCmd> = Vec::new();
            proof {
                assert(cmds@ =~= tray_click_spec(old(self)@, button, released).1);
            }
            return cmds;
        }
        match button {
            TrayButton::Right => {
                let mut cmds = self.switch_top();
                self.window_visible = false;
                self.is_hotkey_visible = false;
                cmds.push(WindowCmd::Visible(false));
                proof {
                    assert(cmds@ =~= tray_click_spec(old(self)@, button, released).1);
                }
                cmds
            },
            _ => self.switch_visible(false),
        }
    }
}

/// The keys the hotkey listener distinguishes; every other key it may
/// observe is `Other`.
#[derive(PartialEq, Eq, Structural, Clone, Copy, Debug)]
pub enum Key {
    LControl,
    RControl,
    LShift,
    RShift,
    KeyA,
    Other,
}

/// The hotkey chord: either control key and either shift key held while
/// the `A` key goes down.
pub open spec fn chord_spec(keys: Seq<Key>, pressed: Key) -> bool {
    &&& keys.contains(Key::LControl) || keys.contains(Key::RControl)
    &&& keys.contains(Key::LShift) || keys.contains(Key::RShift)
    &&& pressed == Key::KeyA
}

fn contains_key(keys: &Vec<Key>, k: Key) -> (r: bool)
    ensures
        r == keys@.contains(k),
{
    let mut i: usize = 0;
    while i < keys.len()
        invariant
            i <= keys@.len(),
            forall|j: int| 0 <= j < i ==> keys@[j] != k,
        decreases keys@.len() - i,
    {
        if keys[i] == k {
            return true;
        }
        i = i + 1;
    }
    false
}

/// Decides whether the pressed key completes the hotkey chord given the
/// set of keys currently held.
pub fn hotkey_chord(keys: &Vec<Key>, pressed: Key) -> (r: bool)
    ensures
        r == chord_spec(keys@, pressed),
{
    let ctrl = contains_key(keys, Key::LControl) || contains_key(keys, Key::RControl);
    let shift = contains_key(keys, Key::LShift) || contains_key(keys, Key::RShift);
    ctrl && shift && pressed == Key::KeyA
}

} // verus!
