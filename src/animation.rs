//! Sprite-grid frame stepping. Cell 0 of the grid is reserved (blank), so
//! stepping never lands on it: a step that would wrap to 0 lands on 1.
use vstd::prelude::*;

verus! {

/// Columns of the sprite grid.
pub const SPRITE_COLS: usize = 5;

/// Rows of the sprite grid.
pub const SPRITE_ROWS: usize = 5;

/// Cells of the sprite grid.
pub const TOTAL_FRAMES: usize = SPRITE_COLS * SPRITE_ROWS;

/// Side of one grid cell, in pixels.
pub const SPRITE_SIZE: u32 = 192;

/// The frames that stepping cycles through: every cell but the reserved one.
pub const CYCLE_LEN: usize = TOTAL_FRAMES - 1;

/// The frame after `f`: the next cell, wrapping past the end, skipping cell 0.
pub open spec fn next_frame(f: nat) -> nat {
    if (f + 1) % (TOTAL_FRAMES as nat) == 0 {
        1
    } else {
        ((f + 1) % (TOTAL_FRAMES as nat)) as nat
    }
}

/// The frame after `k` steps from `f`.
pub open spec fn advance_frames(f: nat, k: nat) -> nat
    decreases k,
{
    if k == 0 {
        f
    } else {
        next_frame(advance_frames(f, (k - 1) as nat))
    }
}

/// Steps from a frame other than the reserved one move around the cycle of
/// the non-reserved frames.
proof fn lemma_advance_closed_form(f: nat, k: nat)
    requires
        1 <= f < TOTAL_FRAMES,
    ensures
        advance_frames(f, k) == 1 + (f - 1 + k) % (CYCLE_LEN as int),
    decreases k,
{
    if k > 0 {
        lemma_advance_closed_form(f, (k - 1) as nat);
        let n = CYCLE_LEN as int;
        let a = (f - 1 + k - 1) % n;
        assert(0 <= a < n);
        assert((a + 1) % n == (f - 1 + k) % n) by {
            vstd::arithmetic::div_mod::lemma_add_mod_noop((f - 1 + k - 1) as int, 1, n);
        }
    }
}

/// From the reserved frame the first step lands on frame 1.
proof fn lemma_advance_from_reserved(k: nat)
    requires
        k > 0,
    ensures
        advance_frames(0, k) == advance_frames(1, (k - 1) as nat),
    decreases k,
{
    if k > 1 {
        lemma_advance_from_reserved((k - 1) as nat);
    } else {
        assert(advance_frames(0, 1) == next_frame(advance_frames(0, 0)));
    }
}

/// The frame after `steps` steps from `frame`.
pub fn advance_frame(frame: usize, steps: u64) -> (r: usize)
    requires
        frame < TOTAL_FRAMES,
    ensures
        r == advance_frames(frame as nat, steps as nat),
        r < TOTAL_FRAMES,
{
    if steps == 0 {
        return frame;
    }
    let turn: usize = (steps % (CYCLE_LEN as u64)) as usize;
    if frame == 0 {
        proof {
            lemma_advance_from_reserved(steps as nat);
            lemma_advance_closed_form(1, (steps - 1) as nat);
            vstd::arithmetic::div_mod::lemma_add_mod_noop(steps as int, CYCLE_LEN - 1, CYCLE_LEN as int);
            vstd::arithmetic::div_mod::lemma_mod_add_multiples_vanish(steps as int - 1, CYCLE_LEN as int);
        }
        1 + (turn + CYCLE_LEN - 1) % CYCLE_LEN
    } else {
        proof {
            lemma_advance_closed_form(frame as nat, steps as nat);
            vstd::arithmetic::div_mod::lemma_add_mod_noop((frame - 1) as int, steps as int, CYCLE_LEN as int);
            vstd::arithmetic::div_mod::lemma_small_mod((frame - 1) as nat, CYCLE_LEN as nat);
        }
        1 + (frame - 1 + turn) % CYCLE_LEN
    }
}

/// No number of steps, one or more, from any frame of the grid lands on the
/// reserved frame: the frame stays within `1 ..= TOTAL_FRAMES - 1`, so 0 can
/// only be a starting frame.
pub proof fn lemma_advance_never_reserved(f: nat, k: nat)
    requires
        f < TOTAL_FRAMES,
        k > 0,
    ensures
        1 <= advance_frames(f, k) < TOTAL_FRAMES,
{
    if f == 0 {
        lemma_advance_from_reserved(k);
        lemma_advance_closed_form(1, (k - 1) as nat);
    } else {
        lemma_advance_closed_form(f, k);
    }
}

/// Stepping from the last frame wraps to frame 1, not to the reserved 0.
pub proof fn lemma_advance_wraps_to_one()
    ensures
        next_frame((TOTAL_FRAMES - 1) as nat) == 1,
        advance_frames((TOTAL_FRAMES - 1) as nat, 1) == 1,
{
    let last = (TOTAL_FRAMES - 1) as nat;
    assert(advance_frames(last, 1) == next_frame(advance_frames(last, 0)));
}

} // verus!
