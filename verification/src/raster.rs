use vstd::arithmetic::div_mod::{lemma_fundamental_div_mod, lemma_fundamental_div_mod_converse};
use vstd::arithmetic::mul::{lemma_mul_inequality, lemma_mul_is_distributive_add_other_way};
use vstd::prelude::*;

verus! {

/// The byte index of channel `ch` of the pixel at column `px`, row `py` of a
/// row-major buffer that is `fullw` pixels wide at `bpp` bytes per pixel.
pub open spec fn spec_byte_index(fullw: int, bpp: int, px: int, py: int, ch: int) -> int {
    (py * fullw + px) * bpp + ch
}

/// Whether byte `i` belongs to some pixel of the rectangle of columns
/// `[x_lo, x_hi)` and rows `[y_lo, y_hi)` of such a buffer.
pub open spec fn spec_in_rect(
    i: int,
    fullw: int,
    bpp: int,
    x_lo: int,
    x_hi: int,
    y_lo: int,
    y_hi: int,
) -> bool {
    exists|px: int, py: int, ch: int|
        x_lo <= px < x_hi && y_lo <= py < y_hi && 0 <= ch < bpp && i == #[trigger] spec_byte_index(
            fullw,
            bpp,
            px,
            py,
            ch,
        )
}

/// The byte painted at relative row `y`, channel `ch` of a vertical bar: the
/// foreground bytes on rows `[max_row, min_row)`, the background bytes
/// elsewhere.
pub open spec fn spec_bar_byte(
    max_row: int,
    min_row: int,
    fg: Seq<u8>,
    bg: Seq<u8>,
    y: int,
    ch: int,
) -> u8 {
    if max_row <= y < min_row {
        fg[ch]
    } else {
        bg[ch]
    }
}

/// Distinct in-bounds pixel coordinates address distinct bytes: the byte
/// index determines the column, the row and the channel.
pub proof fn lemma_byte_index_injective(
    fullw: int,
    bpp: int,
    px1: int,
    py1: int,
    ch1: int,
    px2: int,
    py2: int,
    ch2: int,
)
    requires
        1 <= bpp,
        0 <= px1 < fullw,
        0 <= px2 < fullw,
        0 <= ch1 < bpp,
        0 <= ch2 < bpp,
        0 <= py1,
        0 <= py2,
        spec_byte_index(fullw, bpp, px1, py1, ch1) == spec_byte_index(fullw, bpp, px2, py2, ch2),
    ensures
        px1 == px2,
        py1 == py2,
        ch1 == ch2,
{
    let n = spec_byte_index(fullw, bpp, px1, py1, ch1);
    let q1 = py1 * fullw + px1;
    let q2 = py2 * fullw + px2;
    assert(py1 * fullw + px1 >= 0 && py2 * fullw + px2 >= 0) by (nonlinear_arith)
        requires
            0 <= py1,
            0 <= py2,
            0 <= px1,
            0 <= px2,
            fullw >= 1,
    ;
    lemma_fundamental_div_mod_converse(n, bpp, q1, ch1);
    lemma_fundamental_div_mod_converse(n, bpp, q2, ch2);
    lemma_fundamental_div_mod_converse(q1, fullw, py1, px1);
    lemma_fundamental_div_mod_converse(q2, fullw, py2, px2);
}

/// Every byte of a `w` by `h` buffer at `bpp` bytes per pixel belongs to
/// exactly one pixel channel: byte `i` is channel `i % bpp` of the pixel at
/// column `(i / bpp) % w`, row `i / (w * bpp)` in the zero-offset layout.
pub proof fn lemma_byte_index_surjective(w: int, h: int, bpp: int, i: int)
    requires
        1 <= w,
        1 <= h,
        1 <= bpp,
        0 <= i < w * h * bpp,
    ensures
        exists|px: int, py: int, ch: int|
            0 <= px < w && 0 <= py < h && 0 <= ch < bpp && i == #[trigger] spec_byte_index(
                w,
                bpp,
                px,
                py,
                ch,
            ),
{
    lemma_fundamental_div_mod(i, bpp);
    let q = i / bpp;
    let ch = i % bpp;
    lemma_fundamental_div_mod(q, w);
    let py = q / w;
    let px = q % w;
    assert(q < w * h) by (nonlinear_arith)
        requires
            i < w * h * bpp,
            bpp >= 1,
            w >= 1,
            h >= 1,
            i == bpp * q + ch,
            0 <= ch < bpp,
            q >= 0,
    ;
    assert(py < h) by (nonlinear_arith)
        requires
            q < w * h,
            w >= 1,
            q == w * py + px,
            0 <= px < w,
            py >= 0,
    ;
    assert(i == spec_byte_index(w, bpp, px, py, ch)) by (nonlinear_arith)
        requires
            i == bpp * q + ch,
            q == w * py + px,
    ;
}

/// Writes the channel bytes of one pixel at byte offset `base`, touching
/// nothing else.
pub fn write_pixel(img: &mut Vec<u8>, base: usize, bytes: &Vec<u8>)
    requires
        base + bytes@.len() <= old(img)@.len(),
    ensures
        final(img)@.len() == old(img)@.len(),
        forall|j: int| 0 <= j < bytes@.len() ==> final(img)@[base + j] == bytes@[j],
        forall|i: int|
            0 <= i < old(img)@.len() && !(base <= i < base + bytes@.len()) ==> final(img)@[i]
                == old(img)@[i],
{
    let mut j: usize = 0;
    while j < bytes.len()
        invariant
            j <= bytes@.len(),
            base + bytes@.len() <= img@.len(),
            img@.len() == old(img)@.len(),
            forall|jj: int| 0 <= jj < j ==> img@[base + jj] == bytes@[jj],
            forall|i: int|
                0 <= i < old(img)@.len() && !(base <= i < base + bytes@.len()) ==> img@[i] == old(
                    img,
                )@[i],
        decreases bytes@.len() - j,
    {
        proof {
            assert(img@.len() == img.len());
        }
        let v = bytes[j];
        img[base + j] = v;
        j += 1;
    }
}

/// Paints one pixel column of a sub-rectangle: rows `[0, max_row)` and
/// `[min_row, h)` get the background bytes, rows `[max_row, min_row)` the
/// foreground bytes.  Rows are relative to the sub-rectangle, which starts
/// `offy` pixel rows into the buffer; the column is the absolute column
/// `px`.  No byte outside the painted column is touched.
pub fn paint_column(
    img: &mut Vec<u8>,
    px: usize,
    offy: usize,
    h: usize,
    fullw: usize,
    bpp: usize,
    max_row: usize,
    min_row: usize,
    fg: &Vec<u8>,
    bg: &Vec<u8>,
)
    requires
        1 <= bpp,
        1 <= h,
        px < fullw,
        fg@.len() == bpp,
        bg@.len() == bpp,
        ((offy + h - 1) * fullw + px + 1) * bpp <= old(img)@.len(),
    ensures
        final(img)@.len() == old(img)@.len(),
        forall|y: int, ch: int|
            0 <= y < h && 0 <= ch < bpp ==> final(img)@[spec_byte_index(
                fullw as int,
                bpp as int,
                px as int,
                offy + y,
                ch,
            )] == #[trigger] spec_bar_byte(max_row as int, min_row as int, fg@, bg@, y, ch),
        forall|i: int|
            0 <= i < old(img)@.len() && !spec_in_rect(
                i,
                fullw as int,
                bpp as int,
                px as int,
                px + 1,
                offy as int,
                offy + h,
            ) ==> final(img)@[i] == old(img)@[i],
{
    let mut y: usize = 0;
    while y < h
        invariant
            y <= h,
            1 <= bpp,
            1 <= h,
            px < fullw,
            fg@.len() == bpp,
            bg@.len() == bpp,
            ((offy + h - 1) * fullw + px + 1) * bpp <= old(img)@.len(),
            img@.len() == old(img)@.len(),
            forall|yy: int, ch: int|
                0 <= yy < y && 0 <= ch < bpp ==> img@[spec_byte_index(
                    fullw as int,
                    bpp as int,
                    px as int,
                    offy + yy,
                    ch,
                )] == #[trigger] spec_bar_byte(max_row as int, min_row as int, fg@, bg@, yy, ch),
            forall|i: int|
                0 <= i < old(img)@.len() && !spec_in_rect(
                    i,
                    fullw as int,
                    bpp as int,
                    px as int,
                    px + 1,
                    offy as int,
                    offy + h,
                ) ==> img@[i] == old(img)@[i],
        decreases h - y,
    {
        proof {
            assert(img@.len() == img.len());
            lemma_row_base_in_bounds(
                fullw as int,
                bpp as int,
                px as int,
                offy as int,
                h as int,
                y as int,
                old(img)@.len() as int,
            );
        }
        let base = ((offy + y) * fullw + px) * bpp;
        let ghost img_before = img@;
        if max_row <= y && y < min_row {
            write_pixel(img, base, fg);
        } else {
            write_pixel(img, base, bg);
        }
        proof {
            assert forall|yy: int, ch: int| 0 <= yy < y + 1 && 0 <= ch < bpp implies img@[
            spec_byte_index(fullw as int, bpp as int, px as int, offy + yy, ch)]
                == #[trigger] spec_bar_byte(
                max_row as int,
                min_row as int,
                fg@,
                bg@,
                yy,
                ch,
            ) by {
                let idx = spec_byte_index(fullw as int, bpp as int, px as int, offy + yy, ch);
                lemma_row_base_in_bounds(
                    fullw as int,
                    bpp as int,
                    px as int,
                    offy as int,
                    h as int,
                    yy,
                    old(img)@.len() as int,
                );
                if yy == y {
                    assert(idx == base + ch);
                } else {
                    // an earlier row: show its byte lies outside the pixel
                    // just written, so it kept its value
                    if base <= idx < base + bpp {
                        lemma_byte_index_injective(
                            fullw as int,
                            bpp as int,
                            px as int,
                            offy + yy,
                            ch,
                            px as int,
                            offy + y,
                            idx - base,
                        );
                    }
                    assert(img@[idx] == img_before[idx]);
                }
            }
            assert forall|i: int|
                0 <= i < old(img)@.len() && !spec_in_rect(
                    i,
                    fullw as int,
                    bpp as int,
                    px as int,
                    px + 1,
                    offy as int,
                    offy + h,
                ) implies img@[i] == old(img)@[i] by {
                if base <= i < base + bpp {
                    assert(i == spec_byte_index(
                        fullw as int,
                        bpp as int,
                        px as int,
                        offy + y,
                        i - base,
                    ));
                    assert(spec_in_rect(
                        i,
                        fullw as int,
                        bpp as int,
                        px as int,
                        px + 1,
                        offy as int,
                        offy + h,
                    ));
                }
                assert(img@[i] == img_before[i]);
            }
        }
        y += 1;
    }
}

/// The first byte of row `offy + y`, column `px` lies within a buffer that
/// holds the whole column strip, with room for a full pixel after it.
pub proof fn lemma_row_base_in_bounds(fullw: int, bpp: int, px: int, offy: int, h: int, y: int, len: int)
    requires
        1 <= bpp,
        0 <= px < fullw,
        0 <= offy,
        0 <= y < h,
        ((offy + h - 1) * fullw + px + 1) * bpp <= len,
    ensures
        offy + y <= len,
        (offy + y) * fullw + px <= len,
        ((offy + y) * fullw + px) * bpp + bpp <= len,
        ((offy + y) * fullw + px) * bpp == spec_byte_index(fullw, bpp, px, offy + y, 0),
        0 <= ((offy + y) * fullw + px) * bpp,
{
    assert(0 <= (offy + y) * fullw && 0 <= ((offy + y) * fullw + px) * bpp) by (nonlinear_arith)
        requires
            fullw >= 1,
            bpp >= 1,
            0 <= offy + y,
            0 <= px,
    ;
    lemma_mul_inequality(offy + y, offy + h - 1, fullw);
    lemma_mul_inequality((offy + y) * fullw + px + 1, (offy + h - 1) * fullw + px + 1, bpp);
    lemma_mul_is_distributive_add_other_way(bpp, (offy + y) * fullw + px, 1);
    assert(offy + y <= (offy + y) * fullw && (offy + y) * fullw + px + 1 <= ((offy + y) * fullw + px
        + 1) * bpp) by (nonlinear_arith)
        requires
            fullw >= 1,
            bpp >= 1,
            0 <= offy + y,
            0 <= px,
    ;
}

} // verus!

