//! Display computations for the spectrum and waterfall views: fitting a
//! magnitude row to a display width and mapping signal levels to colors.
//! The terminal drawing itself belongs to the interface collaborator; these
//! are the numeric parts it relies on. dB values are in hundredths.

use vstd::prelude::*;

use vstd::arithmetic::div_mod::lemma_div_pos_is_pos;
use crate::dspmath::{div_trunc, lemma_div_at_most, spec_tdiv};

verus! {

/// The value displayed at column `i` of `width` when a row of `data.len()`
/// bins is fitted to `width` columns: the row is read at the proportional
/// position and linearly interpolated between neighboring bins.
pub open spec fn spec_resampled_bin(data: Seq<i32>, width: int, i: int) -> int {
    let num = i * data.len();
    let idx = num / width;
    let f = num % width;
    if idx + 1 >= data.len() {
        data[data.len() - 1] as int
    } else {
        data[idx] + spec_tdiv((data[idx + 1] - data[idx]) * f, width)
    }
}

/// Fit a magnitude row to a display width by proportional read-out with
/// linear interpolation. An empty row stays empty; otherwise the result has
/// exactly `target_width` entries.
pub fn resample_data(data: &Vec<i32>, target_width: usize) -> (r: Vec<i32>)
    requires
        data@.len() < 0x1000_0000,
        target_width < 0x1000_0000,
    ensures
        data@.len() == 0 ==> r@.len() == 0,
        data@.len() > 0 ==> r@.len() == target_width,
        data@.len() > 0 ==> forall|i: int| 0 <= i < target_width ==> #[trigger] r@[i] as int
            == spec_resampled_bin(data@, target_width as int, i),
{
    let len = data.len();
    let mut r: Vec<i32> = Vec::new();
    if len == 0 {
        return r;
    }
    let mut i: usize = 0;
    while i < target_width
        invariant
            0 < len == data@.len() < 0x1000_0000,
            target_width < 0x1000_0000,
            i <= target_width,
            r@.len() == i,
            forall|j: int| 0 <= j < i ==> #[trigger] r@[j] as int == spec_resampled_bin(
                data@,
                target_width as int,
                j,
            ),
        decreases target_width - i,
    {
        proof {
            assert((i as int) * (len as int) < 0x1000_0000 * 0x1000_0000) by (nonlinear_arith)
                requires i < 0x1000_0000, len < 0x1000_0000;
        }
        let num: u64 = (i as u64) * (len as u64);
        let idx64 = num / (target_width as u64);
        let f = num % (target_width as u64);
        proof {
            lemma_div_pos_is_pos(num as int, target_width as int);
        }
        let value: i32 = if idx64 + 1 >= len as u64 {
            data[len - 1]
        } else {
            let idx = idx64 as usize;
            let a = data[idx] as i64;
            let b = data[idx + 1] as i64;
            proof {
                assert(-(0x1_0000_0000i64 * 0x1000_0000) <= (b - a) * (f as i64) <= 0x1_0000_0000i64
                    * 0x1000_0000) by (nonlinear_arith)
                    requires
                        -0x1_0000_0000 <= b - a <= 0x1_0000_0000,
                        0 <= f < 0x1000_0000,
                ;
            }
            let interp = div_trunc((b - a) * (f as i64), target_width as i64);
            proof {
                let d = b - a;
                let fi = f as int;
                let w = target_width as int;
                if d >= 0 {
                    vstd::arithmetic::mul::lemma_mul_nonnegative(d, fi);
                    vstd::arithmetic::mul::lemma_mul_inequality(fi, w, d);
                    vstd::arithmetic::mul::lemma_mul_is_commutative(fi, d);
                    vstd::arithmetic::mul::lemma_mul_is_commutative(w, d);
                    lemma_div_at_most(d * fi, w, d);
                } else {
                    vstd::arithmetic::mul::lemma_mul_nonnegative(-d, fi);
                    vstd::arithmetic::mul::lemma_mul_inequality(fi, w, -d);
                    vstd::arithmetic::mul::lemma_mul_is_commutative(fi, -d);
                    vstd::arithmetic::mul::lemma_mul_is_commutative(w, -d);
                    assert(-(d * fi) == (-d) * fi) by (nonlinear_arith);
                    lemma_div_at_most((-d) * fi, w, -d);
                }
            }
            (a + interp) as i32
        };
        r.push(value);
        i = i + 1;
    }
    r
}

/// Fit a waterfall row to a display width; an empty row becomes a row at the
/// -100 dB floor.
pub fn resample_waterfall_row(data: &Vec<i32>, target_width: usize) -> (r: Vec<i32>)
    requires
        data@.len() < 0x1000_0000,
        target_width < 0x1000_0000,
    ensures
        r@.len() == target_width,
        data@.len() == 0 ==> forall|i: int| 0 <= i < target_width ==> #[trigger] r@[i]
            == crate::spectrum::DB_FLOOR_CENTI,
        data@.len() > 0 ==> forall|i: int| 0 <= i < target_width ==> #[trigger] r@[i] as int
            == spec_resampled_bin(data@, target_width as int, i),
{
    if data.len() == 0 {
        let mut r: Vec<i32> = Vec::new();
        let mut i: usize = 0;
        while i < target_width
            invariant
                i <= target_width,
                r@.len() == i,
                forall|j: int| 0 <= j < i ==> #[trigger] r@[j] == crate::spectrum::DB_FLOOR_CENTI,
            decreases target_width - i,
        {
            r.push(-10000);
            i = i + 1;
        }
        r
    } else {
        resample_data(data, target_width)
    }
}

/// The palette class of a spectrum bar, from strongest to weakest.
#[derive(Debug, Clone, Copy, PartialEq, Eq, Structural)]
pub enum SignalColor {
    Red,
    Yellow,
    Green,
    Cyan,
    Blue,
}

/// The palette class for a bar of `pixel_height` out of `max_height`: red
/// above four fifths, then yellow, green, and cyan bands of one fifth each,
/// blue at the bottom.
pub open spec fn spec_signal_color(pixel_height: int, max_height: int) -> SignalColor {
    if 5 * pixel_height > 4 * max_height {
        SignalColor::Red
    } else if 5 * pixel_height > 3 * max_height {
        SignalColor::Yellow
    } else if 5 * pixel_height > 2 * max_height {
        SignalColor::Green
    } else if 5 * pixel_height > 1 * max_height {
        SignalColor::Cyan
    } else {
        SignalColor::Blue
    }
}

/// The palette class of a spectrum bar.
pub fn get_signal_color(pixel_height: usize, max_height: usize) -> (r: SignalColor)
    requires
        max_height >= 1,
        pixel_height <= 0x1000_0000,
        max_height <= 0x1000_0000,
    ensures
        r == spec_signal_color(pixel_height as int, max_height as int),
{
    let ph = pixel_height as u64;
    let mh = max_height as u64;
    if 5 * ph > 4 * mh {
        SignalColor::Red
    } else if 5 * ph > 3 * mh {
        SignalColor::Yellow
    } else if 5 * ph > 2 * mh {
        SignalColor::Green
    } else if 5 * ph > mh {
        SignalColor::Cyan
    } else {
        SignalColor::Blue
    }
}

/// A true-color waterfall cell.
#[derive(Debug, Clone, Copy, PartialEq, Eq, Structural)]
pub struct Rgb {
    pub red: u8,
    pub green: u8,
    pub blue: u8,
}

/// The waterfall gradient at normalized level `n` (Q15, 0 is the bottom of
/// the range and 32768 the top): dark blue through cyan, green, and yellow
/// to red, in five bands of one fifth each.
pub open spec fn spec_db_color(n: int) -> Rgb {
    if 5 * n < 32768 {
        let t = 5 * n;
        Rgb { red: 0, green: 0, blue: ((t * 128) / 32768 + 32) as u8 }
    } else if 5 * n < 65536 {
        let t = 5 * n - 32768;
        Rgb { red: 0, green: ((t * 128) / 32768) as u8, blue: (128 + (t * 127) / 32768) as u8 }
    } else if 5 * n < 98304 {
        let t = 5 * n - 65536;
        Rgb {
            red: ((t * 64) / 32768) as u8,
            green: (128 + (t * 127) / 32768) as u8,
            blue: (255 - (t * 255) / 32768) as u8,
        }
    } else if 5 * n < 131072 {
        let t = 5 * n - 98304;
        Rgb { red: (64 + (t * 191) / 32768) as u8, green: 255, blue: 0 }
    } else {
        let t = 5 * n - 131072;
        Rgb { red: 255, green: (255 - (t * 255) / 32768) as u8, blue: 0 }
    }
}

/// The normalized position of `db` within `[min_db, max_db]`, clamped, in
/// Q15.
pub open spec fn spec_db_norm(db: int, min_db: int, max_db: int) -> int {
    let clamped = if db < min_db {
        min_db
    } else if db > max_db {
        max_db
    } else {
        db
    };
    ((clamped - min_db) * 32768) / (max_db - min_db)
}

/// Map a dB value (hundredths) to its waterfall color: blue for weak signals
/// through to red for strong ones.
pub fn db_to_color(db: i32, min_db: i32, max_db: i32) -> (r: Rgb)
    requires
        -100_000 <= min_db < max_db <= 100_000,
    ensures
        r == spec_db_color(spec_db_norm(db as int, min_db as int, max_db as int)),
{
    let clamped: i64 = if db < min_db {
        min_db as i64
    } else if db > max_db {
        max_db as i64
    } else {
        db as i64
    };
    let span = (max_db as i64) - (min_db as i64);
    proof {
        assert(0 <= (clamped - min_db) * 32768 <= span * 32768) by (nonlinear_arith)
            requires 0 <= clamped - min_db <= span;
        lemma_div_at_most((clamped - (min_db as int)) * 32768, span as int, 32768);
        lemma_div_pos_is_pos((clamped - (min_db as int)) * 32768, span as int);
    }
    let n = ((clamped - (min_db as i64)) * 32768) / span;
    let t5 = 5 * n;
    if t5 < 32768 {
        let t = t5;
        proof {
            lemma_div_at_most(t * 128, 32768, 128);
            lemma_div_pos_is_pos(t * 128, 32768);
        }
        Rgb { red: 0, green: 0, blue: ((t * 128) / 32768 + 32) as u8 }
    } else if t5 < 65536 {
        let t = t5 - 32768;
        proof {
            lemma_div_at_most(t * 128, 32768, 128);
            lemma_div_pos_is_pos(t * 128, 32768);
            lemma_div_at_most(t * 127, 32768, 127);
            lemma_div_pos_is_pos(t * 127, 32768);
        }
        Rgb { red: 0, green: ((t * 128) / 32768) as u8, blue: (128 + (t * 127) / 32768) as u8 }
    } else if t5 < 98304 {
        let t = t5 - 65536;
        proof {
            lemma_div_at_most(t * 64, 32768, 64);
            lemma_div_pos_is_pos(t * 64, 32768);
            lemma_div_at_most(t * 127, 32768, 127);
            lemma_div_pos_is_pos(t * 127, 32768);
            lemma_div_at_most(t * 255, 32768, 255);
            lemma_div_pos_is_pos(t * 255, 32768);
        }
        Rgb {
            red: ((t * 64) / 32768) as u8,
            green: (128 + (t * 127) / 32768) as u8,
            blue: (255 - (t * 255) / 32768) as u8,
        }
    } else if t5 < 131072 {
        let t = t5 - 98304;
        proof {
            lemma_div_at_most(t * 191, 32768, 191);
            lemma_div_pos_is_pos(t * 191, 32768);
        }
        Rgb { red: (64 + (t * 191) / 32768) as u8, green: 255, blue: 0 }
    } else {
        let t = t5 - 131072;
        proof {
            lemma_div_at_most(t * 255, 32768, 255);
            lemma_div_pos_is_pos(t * 255, 32768);
        }
        Rgb { red: 255, green: (255 - (t * 255) / 32768) as u8, blue: 0 }
    }
}

} // verus!
