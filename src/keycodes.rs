use vstd::prelude::*;

verus! {

/// A platform virtual keycode (ANSI layout).
pub type KeyCode = u16;

pub const J: KeyCode = 0x26;

pub const S: KeyCode = 0x01;

pub const D: KeyCode = 0x02;

pub const F: KeyCode = 0x03;

pub const E: KeyCode = 0x0E;

pub const LEFT_ARROW: KeyCode = 0x7B;

pub const RIGHT_ARROW: KeyCode = 0x7C;

pub const DOWN_ARROW: KeyCode = 0x7D;

pub const UP_ARROW: KeyCode = 0x7E;

/// The key whose press opens the layer.
pub const TRIGGER: KeyCode = J;

/// The keys whose meaning changes while the layer is held.
pub open spec fn is_dependent(k: KeyCode) -> bool {
    k == S || k == D || k == F || k == E
}

/// The arrow key that a dependent key stands for inside the layer.
pub open spec fn arrow_of(k: KeyCode) -> KeyCode
    recommends
        is_dependent(k),
{
    if k == S {
        LEFT_ARROW
    } else if k == D {
        DOWN_ARROW
    } else if k == F {
        RIGHT_ARROW
    } else {
        UP_ARROW
    }
}

pub fn is_dependent_key(k: KeyCode) -> (r: bool)
    ensures
        r == is_dependent(k),
{
    k == S || k == D || k == F || k == E
}

pub fn arrow_for(k: KeyCode) -> (r: KeyCode)
    requires
        is_dependent(k),
    ensures
        r == arrow_of(k),
{
    if k == S {
        LEFT_ARROW
    } else if k == D {
        DOWN_ARROW
    } else if k == F {
        RIGHT_ARROW
    } else {
        UP_ARROW
    }
}

} // verus!
