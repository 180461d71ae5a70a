use vstd::prelude::*;

verus! {

/// Byte `c` (red, green, blue, alpha) of the colour of a pixel: white when
/// the pixel is on, black when it is off, always opaque.
pub open spec fn rgba_byte(on: bool, c: int) -> u8 {
    if c == 3 || on {
        255
    } else {
        0
    }
}

/// The RGBA bytes of a framebuffer, four per pixel in the framebuffer's order.
pub fn rgba_frame(fb: &[bool; 2048]) -> (r: Vec<u8>)
    ensures
        r@.len() == 4 * 2048,
        forall|j: int| 0 <= j < 4 * 2048 ==> #[trigger] r@[j] == rgba_byte(fb@[j / 4], j % 4),
{
    let mut r: Vec<u8> = Vec::new();
    let mut k: usize = 0;
    while k < 2048
        invariant
            0 <= k <= 2048,
            r@.len() == 4 * k,
            forall|j: int| 0 <= j < 4 * k ==> #[trigger] r@[j] == rgba_byte(fb@[j / 4], j % 4),
        decreases 2048 - k,
    {
        let color: u8 = if fb[k] {
            255
        } else {
            0
        };
        r.push(color);
        r.push(color);
        r.push(color);
        r.push(255);
        k += 1;
    }
    r
}

/// The RGBA bytes of `pixels` opaque black pixels.
pub fn blank_frame(pixels: usize) -> (r: Vec<u8>)
    requires
        4 * pixels <= usize::MAX,
    ensures
        r@.len() == 4 * pixels,
        forall|j: int| 0 <= j < 4 * pixels ==> #[trigger] r@[j] == rgba_byte(false, j % 4),
{
    let mut r: Vec<u8> = Vec::new();
    let mut k: usize = 0;
    while k < pixels
        invariant
            0 <= k <= pixels,
            r@.len() == 4 * k,
            forall|j: int| 0 <= j < 4 * k ==> #[trigger] r@[j] == rgba_byte(false, j % 4),
        decreases pixels - k,
    {
        r.push(0);
        r.push(0);
        r.push(0);
        r.push(255);
        k += 1;
    }
    r
}

} // verus!
