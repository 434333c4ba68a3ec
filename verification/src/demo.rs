//! The pictures of the demonstration tray item: a coloured square with a
//! moving stripe, so icon updates are visible at a glance.

use vstd::prelude::*;

use crate::icon::lemma_pixel_index;

verus! {

/// One frame of the demonstration icon: `(width, height, ARGB32 data)` per
/// size.
pub type IconFrame = Vec<(i32, i32, Vec<u8>)>;

/// Whether pixel (`x`, `y`) of a `size` square lies on the stripe of
/// `frame`: diagonal bands `size / 8` wide, every fourth one lit.
pub open spec fn on_stripe(size: int, frame: int, x: int, y: int) -> bool {
    ((x + y) / (size / 8)) % 4 == frame
}

/// The ARGB32 bytes of one frame at one size: opaque white on the stripe,
/// opaque blue elsewhere.
pub open spec fn frame_data(size: int, frame: int) -> Seq<u8> {
    Seq::new(
        (size * size * 4) as nat,
        |i: int|
            {
                let p = i / 4;
                let c = i % 4;
                if c == 0 {
                    255u8
                } else if on_stripe(size, frame, p % size, p / size) {
                    255u8
                } else if c == 1 {
                    30u8
                } else if c == 2 {
                    90u8
                } else {
                    200u8
                }
            },
    )
}

fn frame_pixels(size: i32, frame: i32) -> (r: Vec<u8>)
    requires
        8 <= size <= 64,
        0 <= frame < 4,
    ensures
        r@ == frame_data(size as int, frame as int),
{
    let ghost target = frame_data(size as int, frame as int);
    let mut pixels: Vec<u8> = Vec::new();
    let mut y: i32 = 0;
    assert(target.take(0) =~= seq![]);
    while y < size
        invariant
            8 <= size <= 64,
            0 <= frame < 4,
            0 <= y <= size,
            target == frame_data(size as int, frame as int),
            pixels@ == target.take(y * size * 4),
        decreases size - y,
    {
        let mut x: i32 = 0;
        while x < size
            invariant
                8 <= size <= 64,
                0 <= frame < 4,
                0 <= y < size,
                0 <= x <= size,
                target == frame_data(size as int, frame as int),
                pixels@ == target.take((y * size + x) * 4),
            decreases size - x,
        {
            let stripe = ((x + y) / (size / 8)) % 4 == frame;
            let (r, g, b): (u8, u8, u8) = if stripe {
                (255, 255, 255)
            } else {
                (30, 90, 200)
            };
            let ghost before = pixels@;
            pixels.push(255);
            pixels.push(r);
            pixels.push(g);
            pixels.push(b);
            proof {
                let p = y * size + x;
                assert((y * size + x + 1) * 4 <= size * size * 4) by (nonlinear_arith)
                    requires
                        0 <= x < size,
                        0 <= y < size,
                ;
                assert forall|j: int| p * 4 <= j < p * 4 + 4 implies #[trigger] target[j]
                    == pixels@[j] by {
                    let k = j - p * 4;
                    lemma_pixel_index(size as int, x as int, y as int, k);
                    assert(j / 4 == p && j % 4 == k);
                }
                assert(pixels@ =~= target.take((y * size + x + 1) * 4));
            }
            x += 1;
        }
        assert((y * size + size) * 4 == (y + 1) * size * 4) by (nonlinear_arith);
        y += 1;
    }
    assert(target.take(size * size * 4) =~= target);
    pixels
}

/// A handful of generated icons: four frames, each at 22 and 44 pixels.
pub fn icon_frames() -> (r: Vec<IconFrame>)
    ensures
        r@.len() == 4,
        forall|f: int|
            0 <= f < 4 ==> {
                let frame = #[trigger] r@[f];
                &&& frame@.len() == 2
                &&& frame@[0].0 == 22 && frame@[0].1 == 22 && frame@[0].2@ == frame_data(22, f)
                &&& frame@[1].0 == 44 && frame@[1].1 == 44 && frame@[1].2@ == frame_data(44, f)
            },
{
    let mut frames: Vec<IconFrame> = Vec::new();
    let mut frame: i32 = 0;
    while frame < 4
        invariant
            0 <= frame <= 4,
            frames@.len() == frame,
            forall|f: int|
                0 <= f < frame ==> {
                    let fr = #[trigger] frames@[f];
                    &&& fr@.len() == 2
                    &&& fr@[0].0 == 22 && fr@[0].1 == 22 && fr@[0].2@ == frame_data(22, f)
                    &&& fr@[1].0 == 44 && fr@[1].1 == 44 && fr@[1].2@ == frame_data(44, f)
                },
        decreases 4 - frame,
    {
        let small = frame_pixels(22, frame);
        let large = frame_pixels(44, frame);
        let images: IconFrame = vec![(22, 22, small), (44, 44, large)];
        frames.push(images);
        frame += 1;
    }
    frames
}

} // verus!
