use vstd::arithmetic::power2::{lemma2_to64, lemma_pow2_unfold, pow2};
use vstd::prelude::*;

use crate::profile::BitOrder;

verus! {

/// Whether a dithered luminance value sets its bit (white).
pub open spec fn lit(v: u8) -> bool {
    v >= 128
}

/// The number written by `bits`, the first bit the most significant.
pub open spec fn bits_value(bits: Seq<bool>) -> nat
    decreases bits.len(),
{
    if bits.len() == 0 {
        0
    } else {
        2 * bits_value(bits.drop_last()) + if bits.last() {
            1nat
        } else {
            0nat
        }
    }
}

/// Bytes in one packed scan line of `line_len` pixels.
pub open spec fn stride(line_len: int) -> int {
    (line_len + 7) / 8
}

/// The pixels held by byte `j` of scan line `n`, from the byte's most to its
/// least significant bit; a bit past the end of the line is clear.
pub open spec fn byte_bits(px: Seq<u8>, line_len: int, n: int, j: int, order: BitOrder) -> Seq<bool> {
    Seq::new(
        8,
        |i: int|
            {
                let col = 8 * j + match order {
                    BitOrder::MsbFirst => i,
                    BitOrder::LsbFirst => 7 - i,
                };
                col < line_len && lit(px[n * line_len + col])
            },
    )
}

/// `lines` scan lines of `line_len` pixels each, eight pixels to a byte, each
/// line starting on a fresh byte.
pub open spec fn packed(px: Seq<u8>, line_len: int, lines: int, order: BitOrder) -> Seq<u8> {
    let s = stride(line_len);
    Seq::new((s * lines) as nat, |t: int| bits_value(byte_bits(px, line_len, t / s, t % s, order)) as u8)
}

/// Packs black-and-white pixels, given line by line, into bytes.
pub fn pack_bits(px: &Vec<u8>, line_len: u32, lines: u32, order: BitOrder) -> (r: Vec<u8>)
    requires
        px@.len() == line_len * lines,
        line_len >= 1,
        lines >= 1,
        line_len <= 4096,
        lines <= 4096,
    ensures
        r@ == packed(px@, line_len as int, lines as int, order),
        r@.len() == stride(line_len as int) * lines,
{
    let s: usize = (line_len as usize + 7) / 8;
    proof {
        assert(s * lines <= 4096 * 4096) by (nonlinear_arith)
            requires s == (line_len + 7) / 8, 1 <= line_len <= 4096, lines <= 4096;
    }
    let total: usize = s * lines as usize;
    let ll = line_len as usize;
    let plen = px.len();
    let mut out: Vec<u8> = Vec::with_capacity(total);
    let mut t: usize = 0;
    while t < total
        invariant
            s == stride(line_len as int),
            s >= 1,
            total == s * lines,
            ll == line_len,
            px@.len() == line_len * lines,
            plen == px@.len(),
            line_len >= 1,
            t <= total,
            out@.len() == t,
            forall|u: int|
                0 <= u < t ==> out@[u] == bits_value(
                    byte_bits(px@, line_len as int, u / s as int, u % s as int, order),
                ) as u8,
        decreases total - t,
    {
        let n = t / s;
        let j = t % s;
        proof {
            assert(n < lines) by (nonlinear_arith)
                requires n == t / s, t < total, total == s * lines, s >= 1;
        }
        let ghost bits = byte_bits(px@, line_len as int, n as int, j as int, order);
        let mut acc: u32 = 0;
        let mut i: usize = 0;
        proof {
            assert(bits.take(0) =~= Seq::<bool>::empty());
            lemma2_to64();
        }
        while i < 8
            invariant
                bits == byte_bits(px@, line_len as int, n as int, j as int, order),
                s == stride(line_len as int),
                px@.len() == line_len * lines,
                plen == px@.len(),
                ll == line_len,
                n < lines,
                j < s,
                i <= 8,
                acc == bits_value(bits.take(i as int)),
                acc < pow2(i as nat),
            decreases 8 - i,
        {
            let col: usize = 8 * j + match order {
                BitOrder::MsbFirst => i,
                BitOrder::LsbFirst => 7 - i,
            };
            let on: bool = if col < ll {
                proof {
                    crate::raster::lemma_cell_in_grid(col as int, n as int, line_len as int, lines as int);
                }
                px[n * ll + col] >= 128
            } else {
                false
            };
            proof {
                assert(bits.take(i + 1).drop_last() =~= bits.take(i as int));
                assert(bits.take(i + 1).last() == on);
                lemma_pow2_unfold((i + 1) as nat);
                lemma2_to64();
            }
            acc = 2 * acc + if on {
                1
            } else {
                0
            };
            i = i + 1;
        }
        proof {
            assert(bits.take(8) =~= bits);
            lemma2_to64();
        }
        out.push(acc as u8);
        t = t + 1;
    }
    proof {
        assert(out@ =~= packed(px@, line_len as int, lines as int, order));
    }
    out
}

/// The 16-bit RGB565 word of a pixel: the fields `r >> 3`, `g >> 2` and
/// `b >> 3` side by side, red in the top five bits.
pub open spec fn rgb565(r: int, g: int, b: int) -> int {
    (r / 8) * 2048 + (g / 4) * 32 + b / 8
}

/// One RGB565 word for each pixel of a packed RGB buffer.
pub open spec fn rgb565_words(rgb: Seq<u8>) -> Seq<u16> {
    Seq::new(
        rgb.len() / 3,
        |k: int| rgb565(rgb[3 * k] as int, rgb[3 * k + 1] as int, rgb[3 * k + 2] as int) as u16,
    )
}

/// Each word as two bytes, the high byte first.
pub open spec fn big_endian(words: Seq<u16>) -> Seq<u8> {
    Seq::new(
        2 * words.len(),
        |t: int|
            if t % 2 == 0 {
                (words[t / 2] / 256) as u8
            } else {
                (words[t / 2] % 256) as u8
            },
    )
}

/// Converts a packed RGB buffer to RGB565 words.
pub fn to_rgb565(rgb: &Vec<u8>) -> (r: Vec<u16>)
    requires
        rgb@.len() % 3 == 0,
    ensures
        r@ == rgb565_words(rgb@),
{
    let len = rgb.len();
    let n: usize = len / 3;
    let mut out: Vec<u16> = Vec::with_capacity(n);
    let mut k: usize = 0;
    while k < n
        invariant
            len == rgb@.len(),
            n == rgb@.len() / 3,
            rgb@.len() % 3 == 0,
            k <= n,
            out@.len() == k,
            forall|j: int| 0 <= j < k ==> out@[j] == rgb565_words(rgb@)[j],
        decreases n - k,
    {
        assert(3 * k + 2 < rgb@.len()) by (nonlinear_arith)
            requires k < n, n == rgb@.len() / 3, rgb@.len() % 3 == 0;
        let r = rgb[3 * k] as u16;
        let g = rgb[3 * k + 1] as u16;
        let b = rgb[3 * k + 2] as u16;
        out.push((r / 8) * 2048 + (g / 4) * 32 + b / 8);
        k = k + 1;
    }
    proof {
        assert(out@ =~= rgb565_words(rgb@));
    }
    out
}

/// Serialises 16-bit words big-endian.
pub fn words_to_bytes(words: &Vec<u16>) -> (r: Vec<u8>)
    requires
        2 * words@.len() <= usize::MAX,
    ensures
        r@ == big_endian(words@),
{
    let n = words.len();
    let mut out: Vec<u8> = Vec::with_capacity(2 * n);
    let mut k: usize = 0;
    while k < n
        invariant
            n == words@.len(),
            k <= n,
            out@.len() == 2 * k,
            forall|t: int| 0 <= t < 2 * k ==> out@[t] == big_endian(words@)[t],
        decreases n - k,
    {
        let w = words[k];
        out.push((w / 256) as u8);
        out.push((w % 256) as u8);
        k = k + 1;
    }
    proof {
        assert(out@ =~= big_endian(words@));
    }
    out
}

} // verus!
