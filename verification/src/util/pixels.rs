use vstd::prelude::*;

verus! {

/// A 5-bit channel widened to 8 bits, its top bits repeated below.
pub open spec fn expand5(x: int) -> int {
    x * 8 + x / 4
}

/// A 6-bit channel widened to 8 bits, its top bits repeated below.
pub open spec fn expand6(x: int) -> int {
    x * 4 + x / 16
}

/// The RGB8 bytes of RGB565 pixels (red in the top five bits, green in the
/// middle six, blue in the low five), three bytes per pixel.
pub open spec fn rgb8_of(px: Seq<u16>) -> Seq<u8> {
    Seq::new(
        px.len() * 3,
        |i: int|
            {
                let v = px[i / 3] as int;
                (if i % 3 == 0 {
                    expand5(v / 2048)
                } else if i % 3 == 1 {
                    expand6((v / 32) % 64)
                } else {
                    expand5(v % 32)
                }) as u8
            },
    )
}

proof fn lemma_rgb565_bits(v: u16)
    by (bit_vector)
    ensures
        ((((v >> 11u16) & 0x1Fu16) as u8) << 3u8) | ((((v >> 11u16) & 0x1Fu16) as u8) >> 2u8) == (v / 2048) * 8 + (v / 2048) / 4,
        ((((v >> 5u16) & 0x3Fu16) as u8) << 2u8) | ((((v >> 5u16) & 0x3Fu16) as u8) >> 4u8) == ((v / 32) % 64) * 4 + ((v / 32) % 64) / 16,
        (((v & 0x1Fu16) as u8) << 3u8) | (((v & 0x1Fu16) as u8) >> 2u8) == (v % 32) * 8 + (v % 32) / 4,
{
}

proof fn lemma_pixel_index(p: int, k: int)
    requires
        0 <= p,
        0 <= k < 3,
    ensures
        (3 * p + k) / 3 == p,
        (3 * p + k) % 3 == k,
{
    vstd::arithmetic::div_mod::lemma_fundamental_div_mod_converse(3 * p + k, 3, p, k);
}

/// Converts RGB565 pixels to RGB8, scaling each channel to the full byte
/// range.
pub fn rgb565_to_rgb8(pixels: &[u16]) -> (r: Vec<u8>)
    requires
        pixels@.len() * 3 <= usize::MAX,
    ensures
        r@ == rgb8_of(pixels@),
{
    let mut out: Vec<u8> = Vec::new();
    let mut p: usize = 0;
    while p < pixels.len()
        invariant
            p <= pixels@.len(),
            out@.len() == 3 * p,
            forall|i: int| 0 <= i < out@.len() ==> out@[i] == #[trigger] rgb8_of(pixels@)[i],
        decreases pixels@.len() - p,
    {
        let v = pixels[p];
        let r = ((v >> 11) & 0x1F) as u8;
        let g = ((v >> 5) & 0x3F) as u8;
        let b = (v & 0x1F) as u8;
        proof {
            lemma_rgb565_bits(v);
            lemma_pixel_index(p as int, 0);
            lemma_pixel_index(p as int, 1);
            lemma_pixel_index(p as int, 2);
        }
        out.push((r << 3) | (r >> 2));
        out.push((g << 2) | (g >> 4));
        out.push((b << 3) | (b >> 2));
        p = p + 1;
    }
    assert(out@ =~= rgb8_of(pixels@));
    out
}

} // verus!
