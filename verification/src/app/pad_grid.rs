//! The Midi Fighter 64 pad grid: two banks of 8 by 8 pads. Pads have a
//! button number on the device and a position ("image index") in the colour
//! buffers; rows of a bank run top to bottom, columns left to right.
use vstd::prelude::*;

verus! {

/// The number of pad banks.
pub const BANK_COUNT: usize = 2;

/// The number of pads in a bank.
pub const PADS_PER_BANK: usize = 64;

/// The button at image index `i` (`i < 128`): each bank's left half holds
/// buttons counting up by rows from the bottom, its right half the same
/// shifted by 32.
pub open spec fn button_at_image(i: int) -> int {
    let bank = i / 64;
    let row = (i % 64) / 8;
    let col = i % 8;
    64 * bank + if col < 4 {
        4 * (7 - row) + col
    } else {
        32 + 4 * (7 - row) + (col - 4)
    }
}

/// The image index of button `b`, or 0 for a button that is not on the grid.
pub open spec fn image_of_button(b: int) -> int {
    if 0 <= b < 128 {
        let bank = b / 64;
        let k = b % 64;
        let half = k / 32;
        let m = k % 32;
        64 * bank + 8 * (7 - m / 4) + (m % 4 + 4 * half)
    } else {
        0
    }
}

/// The grid maps image indices and buttons one to one.
pub proof fn lemma_grid_bijection(i: int, b: int)
    ensures
        0 <= i < 128 ==> 0 <= button_at_image(i) < 128 && image_of_button(button_at_image(i)) == i,
        0 <= b < 128 ==> 0 <= image_of_button(b) < 128 && button_at_image(image_of_button(b)) == b,
{
    if 0 <= i < 128 {
        let x = i as u64;
        assert(x < 128 ==> {
            let bank = x / 64;
            let row = (x % 64) / 8;
            let col = x % 8;
            let bt = 64 * bank + if col < 4 {
                4 * (7 - row) + col
            } else {
                32 + 4 * (7 - row) + (col - 4)
            };
            let k = bt % 64;
            let m = k % 32;
            bt < 128 && 64 * (bt / 64) + 8 * (7 - m / 4) + (m % 4 + 4 * (k / 32)) == x
        }) by (bit_vector);
    }
    if 0 <= b < 128 {
        let y = b as u64;
        assert(y < 128 ==> {
            let k = y % 64;
            let m = k % 32;
            let im = 64 * (y / 64) + 8 * (7 - m / 4) + (m % 4 + 4 * (k / 32));
            let row = (im % 64) / 8;
            let col = im % 8;
            im < 128 && 64 * (im / 64) + (if col < 4 {
                4 * (7 - row) + col
            } else {
                32 + 4 * (7 - row) + (col - 4)
            }) == y
        }) by (bit_vector);
    }
}

/// The image index of a button; buttons off the grid give 0.
pub fn image_index_for_button(button_index: usize) -> (r: usize)
    ensures
        r == image_of_button(button_index as int),
        r < 128,
{
    if button_index < 128 {
        let bank = button_index / 64;
        let k = button_index % 64;
        let half = k / 32;
        let m = k % 32;
        64 * bank + 8 * (7 - m / 4) + (m % 4 + 4 * half)
    } else {
        0
    }
}

/// The slot (0 to 63) of a button within its bank.
pub fn bank_slot_for_button(button_index: usize) -> (r: usize)
    ensures
        r == image_of_button(button_index as int) % 64,
{
    image_index_for_button(button_index) % PADS_PER_BANK
}

/// The button at image index `image_index`, taking indices past the end as
/// the last one.
pub fn button_for_image_index(image_index: usize) -> (r: usize)
    ensures
        r == button_at_image(if image_index < 128 {
            image_index as int
        } else {
            127
        }),
        r < 128,
{
    let i = if image_index < 128 {
        image_index
    } else {
        127
    };
    proof {
        lemma_grid_bijection(i as int, 0);
    }
    let bank = i / 64;
    let row = (i % 64) / 8;
    let col = i % 8;
    64 * bank + if col < 4 {
        4 * (7 - row) + col
    } else {
        32 + 4 * (7 - row) + (col - 4)
    }
}

/// The button in slot `slot` of bank `bank`; banks wrap around and slots
/// past the end are taken as the last.
pub fn button_for_bank_slot(bank: usize, slot: usize) -> (r: usize)
    ensures
        r == button_at_image(64 * (bank % 2) + if slot < 64 {
            slot as int
        } else {
            63
        }),
{
    let bank = bank % BANK_COUNT;
    let slot = if slot < PADS_PER_BANK - 1 {
        slot
    } else {
        PADS_PER_BANK - 1
    };
    button_for_image_index(bank * PADS_PER_BANK + slot)
}

/// `x` held within `[lo, hi]`.
pub open spec fn clamp_to(x: int, lo: int, hi: int) -> int {
    if x < lo {
        lo
    } else if x > hi {
        hi
    } else {
        x
    }
}

/// Where a move by `(dx, dy)` from `button` lands in bank `bank`: the
/// button's position is taken within the bank (0 if it lies before the
/// bank, the last pad if after), and the move stops at the bank's edges.
pub open spec fn moved_within_bank(button: int, bank: int, dx: int, dy: int) -> int {
    let offset = 64 * (bank % 2);
    let image = image_of_button(button);
    let in_bank = if image - offset < 0 {
        0
    } else if image - offset > 63 {
        63
    } else {
        image - offset
    };
    let row = in_bank / 8;
    let col = in_bank % 8;
    button_at_image(offset + 8 * clamp_to(row + dy, 0, 7) + clamp_to(col + dx, 0, 7))
}

/// Moves a button by `(dx, dy)` within a bank.
pub fn move_button_within_bank(button_index: usize, bank: usize, dx: isize, dy: isize) -> (r:
    usize)
    ensures
        r == moved_within_bank(button_index as int, bank as int, dx as int, dy as int),
        r < 128,
{
    let bank = bank % BANK_COUNT;
    let bank_offset = bank * PADS_PER_BANK;
    let image = image_index_for_button(button_index);
    let shifted = if image >= bank_offset {
        image - bank_offset
    } else {
        0
    };
    let bank_image_index = if shifted < PADS_PER_BANK - 1 {
        shifted
    } else {
        PADS_PER_BANK - 1
    };
    let row = bank_image_index / 8;
    let col = bank_image_index % 8;
    let next_row = clamp_step(row, dy);
    let next_col = clamp_step(col, dx);
    button_for_image_index(bank_offset + next_row * 8 + next_col)
}

/// `start + delta` held within `[0, 7]`.
pub(crate) fn clamp_step(start: usize, delta: isize) -> (r: usize)
    requires
        start < 8,
    ensures
        r == clamp_to(start + delta, 0, 7),
        r < 8,
{
    let moved = start as i128 + delta as i128;
    if moved < 0 {
        0
    } else if moved > 7 {
        7
    } else {
        moved as usize
    }
}

/// Image indices and buttons correspond one to one: going from a button to
/// its image index and back gives the button, and the other way round.
pub proof fn law_grid_round_trip(button: usize, image: usize)
    ensures
        button < 128 ==> button_at_image(image_of_button(button as int)) == button,
        image < 128 ==> image_of_button(button_at_image(image as int)) == image,
{
    lemma_grid_bijection(image as int, button as int);
}

/// A button is found again from its bank and its slot in that bank.
pub proof fn law_bank_slot_round_trip(button: usize)
    requires
        button < 128,
    ensures
        button_at_image(64 * ((image_of_button(button as int) / 64) % 2) + image_of_button(
            button as int,
        ) % 64) == button,
{
    lemma_grid_bijection(0, button as int);
    let im = image_of_button(button as int);
    assert(64 * ((im / 64) % 2) + im % 64 == im);
}

/// A move within a bank never leaves that bank.
pub proof fn law_move_stays_in_bank(button: usize, bank: usize, dx: isize, dy: isize)
    ensures
        image_of_button(moved_within_bank(button as int, bank as int, dx as int, dy as int)) / 64
            == bank % 2,
{
    let offset = 64 * (bank as int % 2);
    let image = image_of_button(button as int);
    let in_bank = if image - offset < 0 {
        0
    } else if image - offset > 63 {
        63
    } else {
        image - offset
    };
    let target = offset + 8 * clamp_to(in_bank / 8 + dy, 0, 7) + clamp_to(in_bank % 8 + dx, 0, 7);
    assert(0 <= target < 128);
    lemma_grid_bijection(target, 0);
}

} // verus!
