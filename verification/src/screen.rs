//! Screen-capture support values.
//!
//! The bitmap capture itself is a thin OS wrapper and stays outside the
//! library; what is verified here is the data it decides on — the requested
//! region, the pixel-channel conversion of the captured buffer, and the
//! name of the file the encoded image is written to.

use vstd::prelude::*;
use vstd::pervasive::VecAdditionalExecFns;
use crate::sentinel::{dec_digits, decimal_string};

verus! {

/// A cursor position on the screen, in pixels.
#[derive(Debug, Clone, Copy, PartialEq, Eq, Structural)]
pub struct CursorPosition {
    pub x: i32,
    pub y: i32,
}

/// A screen region to capture.
#[derive(Debug, Clone, Copy, PartialEq, Eq, Structural)]
pub struct CaptureRect {
    pub x: i32,
    pub y: i32,
    pub width: u32,
    pub height: u32,
}

/// A region can be captured only when it has area.
pub open spec fn rect_is_valid(r: CaptureRect) -> bool {
    r.width > 0 && r.height > 0
}

/// Executable test matching `rect_is_valid`; a region failing it is
/// rejected before any capture work starts.
pub fn validate_rect(r: &CaptureRect) -> (ok: bool)
    ensures
        ok == rect_is_valid(*r),
{
    r.width > 0 && r.height > 0
}

/// The captured buffer after the blue and red channels of every whole
/// four-byte pixel are swapped; a trailing partial pixel stays as it is.
pub open spec fn bgra_to_rgba_seq(s: Seq<u8>) -> Seq<u8> {
    Seq::new(
        s.len(),
        |k: int|
            if k < 4 * (s.len() as int / 4) {
                if k % 4 == 0 {
                    s[k + 2]
                } else if k % 4 == 2 {
                    s[k - 2]
                } else {
                    s[k]
                }
            } else {
                s[k]
            },
    )
}

/// Swaps the blue and red channels of every whole four-byte pixel, turning
/// a BGRA buffer into RGBA in place.
pub fn bgra_to_rgba(pixels: &mut Vec<u8>)
    ensures
        final(pixels)@ == bgra_to_rgba_seq(old(pixels)@),
{
    let n: usize = pixels.len();
    let mut i: usize = 0;
    while n - i >= 4
        invariant
            0 <= i <= n,
            i % 4 == 0,
            n == pixels@.len(),
            n == old(pixels)@.len(),
            forall|k: int| 0 <= k < i ==> pixels@[k] == bgra_to_rgba_seq(old(pixels)@)[k],
            forall|k: int| i <= k < n ==> pixels@[k] == old(pixels)@[k],
        decreases n - i,
    {
        let b: u8 = pixels[i];
        let r: u8 = pixels[i + 2];
        pixels.set(i, r);
        pixels.set(i + 2, b);
        proof {
            assert(i + 4 <= 4 * (n as int / 4)) by {
                assert((i as int + 4) == 4 * ((i as int + 4) / 4));
                assert((i as int + 4) / 4 <= n as int / 4);
            }
        }
        i = i + 4;
    }
    proof {
        assert(4 * (n as int / 4) <= i) by {
            assert(n as int <= i + 3);
            assert(n as int / 4 <= (i as int + 3) / 4);
            assert((i as int + 3) / 4 == i as int / 4);
            assert(4 * (i as int / 4) == i as int);
        }
        assert(pixels@ =~= bgra_to_rgba_seq(old(pixels)@));
    }
}

/// The name of the file a captured region is encoded into, unique per start
/// instant.
pub open spec fn ocr_file_name_of(now_ms: u64) -> Seq<char> {
    "erudaite-ocr-"@ + dec_digits(now_ms as nat) + ".png"@
}

/// The file name for the capture started at `now_ms`, matching
/// `ocr_file_name_of`.
pub fn ocr_capture_file_name(now_ms: u64) -> (r: String)
    ensures
        r@ == ocr_file_name_of(now_ms),
{
    let mut s = String::from_str("erudaite-ocr-");
    let digits = decimal_string(now_ms);
    s.append(digits.as_str());
    s.append(".png");
    proof {
        assert(s@ =~= ocr_file_name_of(now_ms));
    }
    s
}

/// Whether launching the installer through the OS shell succeeded: result
/// codes above 32 mean success.
pub fn installer_launch_succeeded(code: isize) -> (ok: bool)
    ensures
        ok == (code > 32),
{
    code > 32
}

} // verus!
