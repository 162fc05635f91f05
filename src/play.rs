use vstd::prelude::*;

verus! {

/// Which physics groups the layers of one body of a contact belong to.
#[derive(Clone, Copy, Debug, PartialEq, Eq, Structural)]
pub struct LayerGroups {
    pub player: bool,
    pub win: bool,
}

/// One of the two bodies of a contact.
#[derive(Clone, Copy, Debug, PartialEq, Eq, Structural)]
pub enum ContactSide {
    First,
    Second,
}

/// The goal body of a contact that has just started, if the contact is the
/// player reaching the goal: the first body is in the player group only and
/// the second in the win group only. Any other contact gives `None`.
pub fn goal_side(first: LayerGroups, second: LayerGroups) -> (r: Option<ContactSide>)
    ensures
        r == (if first.player && !first.win && second.win && !second.player {
            Some(ContactSide::Second)
        } else {
            None
        }),
{
    if first.player && !first.win && second.win && !second.player {
        Some(ContactSide::Second)
    } else {
        None
    }
}

/// The sprite frame to show next, out of `frames`: when the frame timer has
/// run out and the body is moving, the frame after `index`, wrapping to the
/// first; when the body stands still, the first frame; otherwise `index`.
pub fn next_frame(index: usize, frames: usize, timer_finished: bool, moving: bool) -> (r: usize)
    requires
        frames > 0,
    ensures
        r == (if timer_finished && moving {
            ((index + 1) % (frames as int)) as usize
        } else if !moving {
            0
        } else {
            index
        }),
{
    if timer_finished && moving {
        let r = (index % frames + 1) % frames;
        proof {
            vstd::arithmetic::div_mod::lemma_add_mod_noop(index as int, 1, frames as int);
            if frames > 1 {
                vstd::arithmetic::div_mod::lemma_small_mod(1, frames as nat);
            } else {
                vstd::arithmetic::div_mod::lemma_mod_self_0(1);
                vstd::arithmetic::div_mod::lemma_mod_bound(index as int + 1, 1);
            }
        }
        r
    } else if !moving {
        0
    } else {
        index
    }
}

/// The direction that the held movement keys ask for, one unit per key:
/// `x` grows to the right and `y` grows upward; opposite keys cancel.
pub fn key_direction(up: bool, left: bool, down: bool, right: bool) -> (r: (i32, i32))
    ensures
        r.0 == (if right { 1int } else { 0 }) - (if left { 1int } else { 0 }),
        r.1 == (if up { 1int } else { 0 }) - (if down { 1int } else { 0 }),
{
    let mut x: i32 = 0;
    let mut y: i32 = 0;
    if up {
        y = y + 1;
    }
    if left {
        x = x - 1;
    }
    if down {
        y = y - 1;
    }
    if right {
        x = x + 1;
    }
    (x, y)
}

} // verus!
