//! The picture that is shown after a crash: one bit for each pixel.
use vstd::prelude::*;

verus! {

/// Bit `i` of a byte, the lowest first.
pub open spec fn bit(byte: int, i: int) -> int
    decreases i,
{
    if i <= 0 {
        byte % 2
    } else {
        bit(byte / 2, i - 1)
    }
}

/// The colour of every channel of a pixel: white where the bit is clear.
pub open spec fn shade(byte: u8, i: int) -> u8 {
    if bit(byte as int, i) == 0 {
        0xff
    } else {
        0
    }
}

/// The four channels of every pixel of a bitmap.
pub fn crash_pixels(bitmap: &[u8]) -> (r: Vec<u8>)
    requires
        32 * bitmap@.len() <= usize::MAX,
    ensures
        r@ == Seq::new(32 * bitmap@.len(), |p: int| shade(bitmap@[p / 32], (p % 32) / 4)),
{
    let mut r: Vec<u8> = Vec::new();
    let n: usize = bitmap.len();
    let mut b: usize = 0;
    while b < n
        invariant
            b <= n == bitmap@.len(),
            r@.len() == 32 * b,
            forall|p: int|
                0 <= p < r@.len() ==> #[trigger] r@[p] == shade(bitmap@[p / 32], (p % 32) / 4),
        decreases n - b,
    {
        let byte: u8 = bitmap[b];
        let mut rest: u8 = byte;
        let mut i: usize = 0;
        while i < 8
            invariant
                i <= 8,
                b < n == bitmap@.len(),
                byte == bitmap@[b as int],
                forall|k: int| 0 <= k ==> #[trigger] bit(rest as int, k) == bit(byte as int, k + i),
                r@.len() == 32 * b + 4 * i,
                forall|p: int|
                    0 <= p < r@.len() ==> #[trigger] r@[p] == shade(
                        bitmap@[p / 32],
                        (p % 32) / 4,
                    ),
            decreases 8 - i,
        {
            assert(bit(rest as int, 0) == bit(byte as int, i as int));
            let color: u8 = if rest % 2 == 0 {
                0xff
            } else {
                0
            };
            assert(color == shade(byte, i as int));
            r.push(color);
            r.push(color);
            r.push(color);
            r.push(color);
            assert forall|k: int| 0 <= k implies #[trigger] bit((rest / 2) as int, k) == bit(
                byte as int,
                k + i + 1,
            ) by {
                assert(bit(rest as int, k + 1) == bit(byte as int, k + 1 + i));
            }
            rest = rest / 2;
            i = i + 1;
        }
        b = b + 1;
    }
    r
}

} // verus!
