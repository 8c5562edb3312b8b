//! The rules that turn keyboard and mouse input into camera actions: the
//! keys that the free-flight mode reserves, the key that switches modes,
//! and what one frame of input does to the camera.
use vstd::prelude::*;
use crate::text::chars_of;

verus! {

/// The modifier keys held during a mouse or wheel event.
#[derive(Clone, Copy, Debug, PartialEq, Eq, Structural)]
pub struct CanvasModifiers {
    pub shift: bool,
    pub ctrl: bool,
    pub alt: bool,
    pub meta: bool,
}

impl Default for CanvasModifiers {
    /// No modifier held.
    fn default() -> (r: Self)
        ensures
            !r.shift && !r.ctrl && !r.alt && !r.meta,
    {
        CanvasModifiers { shift: false, ctrl: false, alt: false, meta: false }
    }
}

/// Whether `code` is a key code that the free-flight controls use: the
/// movement keys, the vertical keys and `KeyF`.
pub open spec fn freeflight_key(code: Seq<char>) -> bool {
    ||| code == "KeyW"@
    ||| code == "KeyA"@
    ||| code == "KeyS"@
    ||| code == "KeyD"@
    ||| code == "Space"@
    ||| code == "ShiftLeft"@
    ||| code == "ShiftRight"@
    ||| code == "KeyF"@
}

/// Whether two character sequences are equal.
fn same_chars(a: &Vec<char>, b: &[char]) -> (r: bool)
    ensures
        r == (a@ == b@),
{
    if a.len() != b.len() {
        return false;
    }
    let mut i: usize = 0;
    while i < a.len()
        invariant
            i <= a@.len(),
            a@.len() == b@.len(),
            forall|k: int| 0 <= k < i ==> a@[k] == b@[k],
        decreases a@.len() - i,
    {
        if a[i] != b[i] {
            return false;
        }
        i += 1;
    }
    proof {
        assert(a@ =~= b@);
    }
    true
}

/// Whether the free-flight controls use the key with this code; the page
/// does not get to act on such keys.
pub fn is_freeflight_key(code: &str) -> (r: bool)
    ensures
        r == freeflight_key(code@),
        r <==> (code@ == "KeyW"@ || code@ == "KeyA"@ || code@ == "KeyS"@ || code@ == "KeyD"@
            || code@ == "Space"@ || code@ == "ShiftLeft"@ || code@ == "ShiftRight"@ || code@
            == "KeyF"@),
{
    let chars = chars_of(code);
    proof {
        reveal_strlit("KeyW");
        reveal_strlit("KeyA");
        reveal_strlit("KeyS");
        reveal_strlit("KeyD");
        reveal_strlit("Space");
        reveal_strlit("ShiftLeft");
        reveal_strlit("ShiftRight");
        reveal_strlit("KeyF");
        assert(['K', 'e', 'y', 'W']@ =~= "KeyW"@);
        assert(['K', 'e', 'y', 'A']@ =~= "KeyA"@);
        assert(['K', 'e', 'y', 'S']@ =~= "KeyS"@);
        assert(['K', 'e', 'y', 'D']@ =~= "KeyD"@);
        assert(['S', 'p', 'a', 'c', 'e']@ =~= "Space"@);
        assert(['S', 'h', 'i', 'f', 't', 'L', 'e', 'f', 't']@ =~= "ShiftLeft"@);
        assert(['S', 'h', 'i', 'f', 't', 'R', 'i', 'g', 'h', 't']@ =~= "ShiftRight"@);
        assert(['K', 'e', 'y', 'F']@ =~= "KeyF"@);
    }
    same_chars(&chars, &['K', 'e', 'y', 'W']) || same_chars(&chars, &['K', 'e', 'y', 'A'])
        || same_chars(&chars, &['K', 'e', 'y', 'S']) || same_chars(&chars, &['K', 'e', 'y', 'D'])
        || same_chars(&chars, &['S', 'p', 'a', 'c', 'e']) || same_chars(
        &chars,
        &['S', 'h', 'i', 'f', 't', 'L', 'e', 'f', 't'],
    ) || same_chars(&chars, &['S', 'h', 'i', 'f', 't', 'R', 'i', 'g', 'h', 't']) || same_chars(
        &chars,
        &['K', 'e', 'y', 'F'],
    )
}

/// Whether pressing the key with this code asks to switch between the orbit
/// and the free-flight camera: `KeyF`, pressed anew (not an auto-repeat).
pub fn requests_freeflight_toggle(code: &str, repeat: bool) -> (r: bool)
    ensures
        r == (code@ == "KeyF"@ && !repeat),
{
    let chars = chars_of(code);
    proof {
        reveal_strlit("KeyF");
        assert(['K', 'e', 'y', 'F']@ =~= "KeyF"@);
    }
    same_chars(&chars, &['K', 'e', 'y', 'F']) && !repeat
}


/// The free-flight keys held down during a frame.
#[derive(Clone, Copy, Debug, PartialEq, Eq, Structural)]
pub struct MovementKeys {
    pub key_w: bool,
    pub key_a: bool,
    pub key_s: bool,
    pub key_d: bool,
    pub space: bool,
    pub shift_left: bool,
    pub shift_right: bool,
}

/// What the mouse movement of a frame does to the camera.
#[derive(Clone, Copy, Debug, PartialEq, Eq, Structural)]
pub enum DragAction {
    /// Nothing.
    Idle,
    /// Free-flight look: turn by the mouse movement.
    Look,
    /// Orbit the pivot against the mouse movement.
    Orbit,
    /// Pan by the mouse movement.
    Pan,
    /// Dolly by the vertical mouse movement.
    Dolly,
}

/// What the wheel movement of a frame does to the camera.
#[derive(Clone, Copy, Debug, PartialEq, Eq, Structural)]
pub enum WheelAction {
    /// Nothing.
    Idle,
    /// Dolly by the wheel movement.
    Dolly,
    /// Dolly against the wheel movement.
    DollyReversed,
}

/// Free-flight movement along the forward, right and up axes, each a count
/// of keys held (keys towards the axis minus keys against it).
#[derive(Clone, Copy, Debug, PartialEq, Eq, Structural)]
pub struct Movement {
    pub forward: i32,
    pub strafe: i32,
    pub vertical: i32,
}

/// The camera actions of one frame of input.
#[derive(Clone, Copy, Debug, PartialEq, Eq, Structural)]
pub struct CameraFrame {
    /// Whether the camera switches between orbit and free flight first.
    pub toggle: bool,
    /// Whether the camera is in free flight for the rest of the frame.
    pub freeflight: bool,
    pub drag: DragAction,
    /// Free-flight movement; none in orbit mode.
    pub movement: Option<Movement>,
    pub wheel: WheelAction,
}

/// 1 for a key held down, 0 otherwise.
pub open spec fn held(key: bool) -> int {
    if key {
        1
    } else {
        0
    }
}

/// The mouse action in orbit mode: with Ctrl held, the left button orbits,
/// else the middle button pans, else the right button dollies.
pub open spec fn orbit_drag(mouse_buttons: u16, ctrl: bool) -> DragAction {
    if ctrl && mouse_buttons & 1 != 0 {
        DragAction::Orbit
    } else if ctrl && mouse_buttons & 4 != 0 {
        DragAction::Pan
    } else if ctrl && mouse_buttons & 2 != 0 {
        DragAction::Dolly
    } else {
        DragAction::Idle
    }
}

/// The eight free-flight key codes and no other.
pub proof fn lemma_freeflight_keys(code: Seq<char>)
    ensures
        freeflight_key(code) <==> (code == "KeyW"@ || code == "KeyA"@ || code == "KeyS"@ || code
            == "KeyD"@ || code == "Space"@ || code == "ShiftLeft"@ || code == "ShiftRight"@ || code
            == "KeyF"@),
{
}

/// In orbit mode the mouse moves the camera only with Ctrl held: without
/// Ctrl, no button does anything.  With Ctrl, the left button orbits, the
/// middle one (without the left) pans and the right one (alone) dollies.
pub proof fn lemma_orbit_drag_needs_ctrl(mouse_buttons: u16, ctrl: bool)
    ensures
        !ctrl ==> orbit_drag(mouse_buttons, ctrl) == DragAction::Idle,
        mouse_buttons & 7 == 0 ==> orbit_drag(mouse_buttons, ctrl) == DragAction::Idle,
        ctrl && mouse_buttons & 1 != 0 ==> orbit_drag(mouse_buttons, ctrl) == DragAction::Orbit,
        ctrl && mouse_buttons & 1 == 0 && mouse_buttons & 4 != 0 ==> orbit_drag(mouse_buttons, ctrl)
            == DragAction::Pan,
        ctrl && mouse_buttons & 5 == 0 && mouse_buttons & 2 != 0 ==> orbit_drag(mouse_buttons, ctrl)
            == DragAction::Dolly,
{
    assert(mouse_buttons & 7 == 0 ==> mouse_buttons & 1 == 0 && mouse_buttons & 2 == 0
        && mouse_buttons & 4 == 0) by (bit_vector);
    assert(mouse_buttons & 5 == 0 ==> mouse_buttons & 1 == 0 && mouse_buttons & 4 == 0)
        by (bit_vector);
}

fn held_count(key: bool) -> (r: i32)
    ensures
        r == held(key),
{
    if key {
        1
    } else {
        0
    }
}

/// The camera actions of one frame: a requested toggle switches the mode
/// first; in free flight the mouse looks around, W/S, D/A and
/// Space/Shift move, and the wheel dollies against its movement; in orbit
/// mode Ctrl with a mouse button orbits, pans or dollies, and the wheel
/// dollies with its movement.
pub fn plan_camera_frame(
    freeflight: bool,
    toggle_requested: bool,
    mouse_buttons: u16,
    modifiers: CanvasModifiers,
    keys: MovementKeys,
    wheel_moved: bool,
) -> (r: CameraFrame)
    ensures
        r.toggle == toggle_requested,
        r.freeflight == (freeflight != toggle_requested),
        r.freeflight ==> r.drag == DragAction::Look,
        r.freeflight ==> r.wheel == (if wheel_moved {
            WheelAction::DollyReversed
        } else {
            WheelAction::Idle
        }),
        r.freeflight ==> r.movement == Some(
            Movement {
                forward: (held(keys.key_w) - held(keys.key_s)) as i32,
                strafe: (held(keys.key_d) - held(keys.key_a)) as i32,
                vertical: (held(keys.space) - held(keys.shift_left) - held(keys.shift_right)) as i32,
            },
        ),
        !r.freeflight ==> r.drag == orbit_drag(mouse_buttons, modifiers.ctrl),
        !r.freeflight && !modifiers.ctrl ==> r.drag == DragAction::Idle,
        !r.freeflight && modifiers.ctrl && mouse_buttons & 1 != 0 ==> r.drag == DragAction::Orbit,
        !r.freeflight && modifiers.ctrl && mouse_buttons & 1 == 0 && mouse_buttons & 4 != 0
            ==> r.drag == DragAction::Pan,
        !r.freeflight && modifiers.ctrl && mouse_buttons & 5 == 0 && mouse_buttons & 2 != 0
            ==> r.drag == DragAction::Dolly,
        !r.freeflight && mouse_buttons & 7 == 0 ==> r.drag == DragAction::Idle,
        !r.freeflight ==> r.wheel == (if wheel_moved {
            WheelAction::Dolly
        } else {
            WheelAction::Idle
        }),
        !r.freeflight ==> r.movement is None,
{
    proof {
        lemma_orbit_drag_needs_ctrl(mouse_buttons, modifiers.ctrl);
    }
    let mode = if toggle_requested {
        !freeflight
    } else {
        freeflight
    };
    if mode {
        let forward = held_count(keys.key_w) - held_count(keys.key_s);
        let strafe = held_count(keys.key_d) - held_count(keys.key_a);
        let vertical = held_count(keys.space) - held_count(keys.shift_left) - held_count(
            keys.shift_right,
        );
        CameraFrame {
            toggle: toggle_requested,
            freeflight: true,
            drag: DragAction::Look,
            movement: Some(Movement { forward, strafe, vertical }),
            wheel: if wheel_moved {
                WheelAction::DollyReversed
            } else {
                WheelAction::Idle
            },
        }
    } else {
        let drag = if modifiers.ctrl && mouse_buttons & 1 != 0 {
            DragAction::Orbit
        } else if modifiers.ctrl && mouse_buttons & 4 != 0 {
            DragAction::Pan
        } else if modifiers.ctrl && mouse_buttons & 2 != 0 {
            DragAction::Dolly
        } else {
            DragAction::Idle
        };
        CameraFrame {
            toggle: toggle_requested,
            freeflight: false,
            drag,
            movement: None,
            wheel: if wheel_moved {
                WheelAction::Dolly
            } else {
                WheelAction::Idle
            },
        }
    }
}

} // verus!
