//! Composited frames.

use vstd::prelude::*;

verus! {

/// A picture of four bytes per pixel, row by row.
#[derive(Debug, PartialEq, Eq)]
pub struct Frame {
    pub width: u32,
    pub height: u32,
    pub pixels: Vec<u8>,
}

/// The smallest even number that is not smaller, where there is one.
pub open spec fn evened(n: u32) -> u32 {
    if n % 2 == 1 && n < u32::MAX {
        (n + 1) as u32
    } else {
        n
    }
}

/// The bytes in a row of `width` pixels.
pub open spec fn stride(width: u32) -> nat {
    (width * 4) as nat
}

/// The byte at `k` of a frame that was padded to rows of `width` pixels: the
/// frame's own byte in that row and column, or zero beyond its edges.
pub open spec fn padded_byte(frame: Frame, width: u32, k: int) -> u8 {
    let row = k / (stride(width) as int);
    let column = k % (stride(width) as int);
    if row < frame.height && column < stride(frame.width) {
        frame.pixels@[row * stride(frame.width) + column]
    } else {
        0
    }
}

/// `r` is the frame with an even width and height: the picture stays in the top
/// left corner, and what is added is zero.
pub open spec fn normalized(frame: Frame, r: Frame) -> bool {
    let width = evened(frame.width);
    let height = evened(frame.height);
    if width == frame.width && height == frame.height {
        r == frame
    } else {
        &&& r.width == width
        &&& r.height == height
        &&& r.pixels@.len() == height * stride(width)
        &&& forall|k: int|
            0 <= k < r.pixels@.len() ==> #[trigger] r.pixels@[k] == padded_byte(frame, width, k)
    }
}

/// A frame that has to be padded holds all of its pixels, and there is room for the
/// padded one.
pub open spec fn can_be_evened(frame: Frame) -> bool {
    evened(frame.width) != frame.width || evened(frame.height) != frame.height ==> {
        &&& frame.height * stride(frame.width) <= frame.pixels@.len()
        &&& evened(frame.height) * stride(evened(frame.width)) <= usize::MAX
    }
}

/// Pads a frame to an even width and height, as the encoder needs it.
pub fn normalize_frame(frame: Frame) -> (r: Frame)
    requires
        can_be_evened(frame),
    ensures
        normalized(frame, r),
{
    let width: u32 = frame.width.saturating_add(frame.width % 2);
    let height: u32 = frame.height.saturating_add(frame.height % 2);
    assert(width == evened(frame.width));
    assert(height == evened(frame.height));
    if width == frame.width && height == frame.height {
        return frame;
    }
    let ghost wide = stride(width) as int;
    let ghost narrow = stride(frame.width) as int;
    let mut pixels: Vec<u8> = Vec::new();
    let mut row: u32 = 0;
    while row < height
        invariant
            row <= height,
            width == evened(frame.width),
            height == evened(frame.height),
            wide == stride(width),
            narrow == stride(frame.width),
            frame.height * narrow <= frame.pixels@.len(),
            height * wide <= usize::MAX,
            pixels@.len() == row * wide,
            forall|k: int|
                0 <= k < pixels@.len() ==> #[trigger] pixels@[k] == padded_byte(frame, width, k),
        decreases height - row,
    {
        proof {
            assert(wide <= height * wide) by (nonlinear_arith)
                requires
                    height >= 1,
                    wide >= 0,
            ;
        }
        let limit: usize = width as usize * 4;
        let own: usize = if frame.width < width {
            frame.width as usize * 4
        } else {
            limit
        };
        assert(own == narrow);
        let mut column: usize = 0;
        while column < limit
            invariant
                column <= limit,
                limit == wide,
                own == narrow,
                row < height,
                width == evened(frame.width),
                height == evened(frame.height),
                wide == stride(width),
                narrow == stride(frame.width),
                frame.height * narrow <= frame.pixels@.len(),
                pixels@.len() == row * wide + column,
                forall|k: int|
                    0 <= k < pixels@.len() ==> #[trigger] pixels@[k] == padded_byte(
                        frame,
                        width,
                        k,
                    ),
            decreases limit - column,
        {
            let ghost k = row * wide + column;
            proof {
                vstd::arithmetic::div_mod::lemma_fundamental_div_mod_converse(
                    k,
                    wide,
                    row as int,
                    column as int,
                );
            }
            if row < frame.height && column < own {
                proof {
                    assert(row * narrow + column < frame.height * narrow) by (nonlinear_arith)
                        requires
                            row + 1 <= frame.height,
                            column < narrow,
                            narrow >= 0,
                    ;
                    assert(0 <= row * narrow) by (nonlinear_arith)
                        requires
                            row >= 0,
                            narrow >= 0,
                    ;
                }
                assert(row * own == row * narrow);
                assert(frame.pixels.len() == frame.pixels@.len());
                assert(row * own + column < frame.pixels.len());
                let at: usize = row as usize * own + column;
                pixels.push(frame.pixels[at]);
            } else {
                pixels.push(0);
            }
            column += 1;
        }
        proof {
            assert((row + 1) * wide == row * wide + wide) by (nonlinear_arith);
        }
        row += 1;
    }
    Frame { width, height, pixels }
}

/// A frame that is even already is left alone, so normalising twice is
/// normalising once.
pub proof fn law_normalising_settles(frame: Frame, r: Frame, again: Frame)
    requires
        normalized(frame, r),
        normalized(r, again),
        frame.width < u32::MAX,
        frame.height < u32::MAX,
    ensures
        r.width % 2 == 0,
        r.height % 2 == 0,
        again == r,
{
}


/// A frame grows by at most one column on the right and one row at the bottom, to
/// an even width and height. Every pixel stays in its row and its column, and what
/// is added is zero.
pub proof fn law_padding_keeps_the_picture(frame: Frame, r: Frame, row: int, column: int)
    requires
        normalized(frame, r),
        frame.width < u32::MAX,
        frame.height < u32::MAX,
        frame.pixels@.len() == frame.height * (frame.width * 4),
        0 <= row < r.height,
        0 <= column < r.width * 4,
    ensures
        r.width == frame.width + frame.width % 2,
        r.height == frame.height + frame.height % 2,
        r.pixels@.len() == r.height * (r.width * 4),
        row < frame.height && column < frame.width * 4 ==> r.pixels@[row * (r.width * 4) + column]
            == frame.pixels@[row * (frame.width * 4) + column],
        row >= frame.height || column >= frame.width * 4 ==> r.pixels@[row * (r.width * 4) + column]
            == 0,
{
    let wide = r.width * 4;
    let k = row * wide + column;
    vstd::arithmetic::div_mod::lemma_fundamental_div_mod_converse(k, wide, row, column);
    assert(0 <= k < r.height * wide) by (nonlinear_arith)
        requires
            0 <= row < r.height,
            0 <= column < wide,
            k == row * wide + column,
    ;
    if r != frame {
        assert(r.pixels@[k] == padded_byte(frame, r.width, k));
    }
}

} // verus!
