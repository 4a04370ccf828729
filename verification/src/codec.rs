//! The region codec: embed a payload into the void pixels of a 64x64 RGBA
//! buffer, extract it again, or strip it.
//!
//! Embedding clears every void pixel, derives the seed from the cleared
//! buffer, writes the payload length and one decorative filler byte into the
//! marker pixel, pads the payload with filler bytes to a multiple of three,
//! and writes the padded payload three bytes per void pixel in enumeration
//! order.  Extraction reads the declared length from the marker, gathers the
//! color channels of every payload pixel in the same order, and truncates to
//! the declared length.

use vstd::prelude::*;
use vstd::arithmetic::div_mod::{
    lemma_fundamental_div_mod, lemma_fundamental_div_mod_converse, lemma_small_mod,
};
use crate::buffer::{
    PixelBuffer, byte_of_pix, pix_of_byte, lemma_pix_byte, lemma_byte_pix, lemma_canvas_len,
    CANVAS_BYTES,
};
use crate::geometry::{
    clear_coords, payload_coords, void_pixels, lemma_clear_coords_len, lemma_clear_first,
    lemma_clear_coords_no_dup, lemma_clear_coord_facts, lemma_payload_no_dup, MARKER_X, MARKER_Y,
    CLEAR_PIXEL_COUNT, PAYLOAD_PIXEL_COUNT,
};
use crate::filler::{hash_of, filler_byte, get_hash, Filler};

verus! {

/// Largest payload, in bytes: three color channels in each of the 831
/// payload pixels.
pub const MAX_PAYLOAD: usize = 2493;

/// The ways a codec operation can fail.
#[derive(Clone, Copy, Debug, PartialEq, Eq, Structural)]
pub enum CodecError {
    /// The buffer is not the fixed 64x64 canvas.
    InvalidDimensions,
    /// The payload exceeds the capacity of the void pixels.
    PayloadTooLarge,
}

/// The buffer bytes after every void pixel (marker included) is cleared to
/// transparent black.
pub open spec fn cleared(b: Seq<u8>) -> Seq<u8> {
    Seq::new(
        b.len(),
        |k: int|
            if clear_coords().contains(pix_of_byte(k)) {
                0u8
            } else {
                b[k]
            },
    )
}

/// The seed that embedding into buffer `b` uses: the hash of the cleared
/// buffer, so that only the visible pixels and the all-zero void area
/// influence it.
pub open spec fn seed_of(b: Seq<u8>) -> Seq<u8> {
    hash_of(cleared(b))
}

/// How many filler bytes embedding appends to a payload of length `n`.
pub open spec fn pad_len(n: int) -> int {
    if n % 3 == 0 {
        0
    } else {
        3 - n % 3
    }
}

/// The payload padded with filler bytes to a multiple of three.  Filler byte
/// number 0 decorates the marker pixel; padding uses the bytes after it.
pub open spec fn padded(p: Seq<u8>, seed: Seq<u8>) -> Seq<u8> {
    p + Seq::new(pad_len(p.len() as int) as nat, |i: int| filler_byte(seed, i + 1))
}

/// Channel `ch` of the marker pixel for payload length `n` and decorative
/// byte `rb`: the length in little-endian order, the decorative byte, and a
/// fully opaque alpha.
pub open spec fn marker_byte(ch: int, n: int, rb: u8) -> u8 {
    if ch == 0 {
        (n % 256) as u8
    } else if ch == 1 {
        (n / 256) as u8
    } else if ch == 2 {
        rb
    } else {
        255u8
    }
}

/// Byte `k` of the buffer during embedding of payload `p` into buffer `b`,
/// after the marker is written and the first `g` three-byte groups of the
/// padded payload are placed.  The result of embedding is the case where `g`
/// covers the whole padded payload.
pub open spec fn embedded_byte(b: Seq<u8>, p: Seq<u8>, g: int, k: int) -> u8 {
    let seed = seed_of(b);
    let pp = padded(p, seed);
    let pix = pix_of_byte(k);
    let ch = k % 4;
    if 0 <= k < 4 {
        marker_byte(k, p.len() as int, filler_byte(seed, 0))
    } else if payload_coords().contains(pix) && payload_coords().index_of(pix) < g {
        if ch < 3 {
            pp[3 * payload_coords().index_of(pix) + ch]
        } else {
            255u8
        }
    } else if clear_coords().contains(pix) {
        0u8
    } else {
        b[k]
    }
}

/// The buffer bytes after embedding payload `p` into buffer `b`.
pub open spec fn embedded(b: Seq<u8>, p: Seq<u8>) -> Seq<u8> {
    Seq::new(b.len(), |k: int| embedded_byte(b, p, padded(p, seed_of(b)).len() as int / 3, k))
}

/// The payload length a buffer declares in its marker pixel, little endian.
pub open spec fn declared_len(b: Seq<u8>) -> int {
    b[0] + 256 * b[1]
}

/// The three color channels of every payload pixel, in enumeration order.
pub open spec fn payload_area_bytes(b: Seq<u8>) -> Seq<u8> {
    Seq::new(
        (3 * PAYLOAD_PIXEL_COUNT) as nat,
        |j: int| b[byte_of_pix(payload_coords()[j / 3]) + j % 3],
    )
}

/// What extraction returns on buffer `b`: nothing when the marker declares
/// length zero, otherwise the payload-area bytes truncated to the declared
/// length (truncation is a no-op when the marker declares more than the
/// capacity).
pub open spec fn extracted(b: Seq<u8>) -> Seq<u8> {
    let n = declared_len(b);
    if n == 0 {
        Seq::empty()
    } else if n >= 3 * PAYLOAD_PIXEL_COUNT {
        payload_area_bytes(b)
    } else {
        payload_area_bytes(b).take(n)
    }
}

/// Clear every void pixel (marker included) to transparent black.
fn clear_void(image: &mut PixelBuffer)
    requires
        old(image).wf(),
        old(image).is_canvas(),
    ensures
        final(image).wf(),
        final(image).is_canvas(),
        final(image).width == old(image).width,
        final(image).height == old(image).height,
        final(image).data@ == cleared(old(image).data@),
{
    proof {
        lemma_clear_coords_len();
        lemma_canvas_len(*old(image));
    }
    let coords = void_pixels(true);
    let mut j: usize = 0;
    while j < CLEAR_PIXEL_COUNT
        invariant
            0 <= j <= CLEAR_PIXEL_COUNT,
            coords@ == clear_coords(),
            image.wf(),
            image.is_canvas(),
            image.width == old(image).width,
            image.height == old(image).height,
            image.data@.len() == CANVAS_BYTES,
            forall|k: int|
                0 <= k < CANVAS_BYTES ==> image.data@[k] == (
                if exists|i: int| 0 <= i < j && clear_coords()[i] == pix_of_byte(k) {
                    0u8
                } else {
                    old(image).data@[k]
                }),
        decreases CLEAR_PIXEL_COUNT - j,
    {
        proof {
            lemma_clear_coord_facts(j as int);
        }
        let c = coords[j];
        image.put_pixel(c.0, c.1, 0, 0, 0, 0);
        proof {
            let cj = clear_coords()[j as int];
            assert forall|k: int| 0 <= k < CANVAS_BYTES implies image.data@[k] == (
            if exists|i: int| 0 <= i < j + 1 && clear_coords()[i] == pix_of_byte(k) {
                0u8
            } else {
                old(image).data@[k]
            }) by {
                lemma_byte_pix(k);
                if pix_of_byte(k) == cj {
                    lemma_pix_byte(cj, k % 4);
                    assert(k == byte_of_pix(cj) + k % 4);
                    assert(clear_coords()[j as int] == pix_of_byte(k));
                } else {
                    lemma_pix_byte(cj, 0);
                    lemma_pix_byte(cj, 1);
                    lemma_pix_byte(cj, 2);
                    lemma_pix_byte(cj, 3);
                    assert(k != byte_of_pix(cj) && k != byte_of_pix(cj) + 1 && k != byte_of_pix(
                        cj,
                    ) + 2 && k != byte_of_pix(cj) + 3);
                    assert((exists|i: int| 0 <= i < j + 1 && clear_coords()[i] == pix_of_byte(k))
                        <==> (exists|i: int| 0 <= i < j && clear_coords()[i] == pix_of_byte(k)));
                }
            }
        }
        j += 1;
    }
    proof {
        assert(image.data@ =~= cleared(old(image).data@));
    }
}

/// Embed `bytes` into the void pixels of `image`: clear the void area,
/// derive the seed from the cleared buffer, write the marker (payload length
/// in little-endian order, one decorative filler byte, opaque alpha), pad
/// the payload with filler bytes to a multiple of three, and write it three
/// bytes per payload pixel in enumeration order.  Void pixels beyond the
/// payload stay cleared.  Fails, leaving the buffer untouched, exactly when
/// the buffer is not 64x64 or the payload exceeds the capacity.
pub fn embed_data(image: &mut PixelBuffer, bytes: Vec<u8>) -> (result: Result<(), CodecError>)
    requires
        old(image).wf(),
    ensures
        final(image).wf(),
        final(image).width == old(image).width,
        final(image).height == old(image).height,
        match result {
            Ok(()) => old(image).is_canvas() && bytes@.len() <= MAX_PAYLOAD
                && final(image).data@ == embedded(old(image).data@, bytes@),
            Err(CodecError::InvalidDimensions) => !old(image).is_canvas()
                && final(image).data@ == old(image).data@,
            Err(CodecError::PayloadTooLarge) => old(image).is_canvas() && bytes@.len()
                > MAX_PAYLOAD && final(image).data@ == old(image).data@,
        },
{
    if !(image.width == 64 && image.height == 64) {
        return Err(CodecError::InvalidDimensions);
    }
    if bytes.len() > MAX_PAYLOAD {
        return Err(CodecError::PayloadTooLarge);
    }
    proof {
        lemma_clear_coords_len();
        lemma_clear_first();
        lemma_clear_coords_no_dup();
        lemma_payload_no_dup();
        lemma_canvas_len(*old(image));
    }
    let ghost b0 = old(image).data@;
    let ghost p = bytes@;
    let data_len = bytes.len();

    clear_void(image);

    let hash = get_hash(image.data.as_slice());
    let ghost seed = seed_of(b0);
    let mut filler = Filler::from_seed(hash);
    let rb = filler.next_byte();
    let lo = (data_len % 256) as u8;
    let hi = (data_len / 256) as u8;
    image.put_pixel(MARKER_X, MARKER_Y, lo, hi, rb, 255);
    proof {
        lemma_pix_byte((MARKER_X, MARKER_Y), 0);
        assert(byte_of_pix((MARKER_X, MARKER_Y)) == 0);
        assert forall|k: int| 0 <= k < CANVAS_BYTES implies image.data@[k] == embedded_byte(
            b0,
            p,
            0,
            k,
        ) by {
            lemma_byte_pix(k);
            let pix = pix_of_byte(k);
            if 0 <= k < 4 {
                lemma_small_mod(k as nat, 4);
                assert(k % 4 == k);
                assert(byte_of_pix(pix) == 0);
                assert(pix == (MARKER_X, MARKER_Y));
            } else {
                if pix == (MARKER_X, MARKER_Y) {
                    assert(byte_of_pix(pix) + k % 4 == k);
                    assert(k < 4);
                }
                assert(image.data@[k] == cleared(b0)[k]);
            }
        }
    }

    let mut bytes = bytes;
    let rem = data_len % 3;
    if rem != 0 {
        let pb1 = filler.next_byte();
        bytes.push(pb1);
        if rem == 1 {
            let pb2 = filler.next_byte();
            bytes.push(pb2);
        }
    }
    proof {
        assert(pad_len(p.len() as int) == (if rem == 0 {
            0int
        } else {
            3 - rem
        }));
        assert(bytes@ =~= padded(p, seed));
    }

    let coords = void_pixels(false);
    let total = bytes.len();
    let ghost pp = padded(p, seed);
    let groups = total / 3;
    proof {
        lemma_fundamental_div_mod(total as int, 3);
        assert(3 * groups == total as int);
        assert(groups <= PAYLOAD_PIXEL_COUNT);
    }
    let mut g: usize = 0;
    while g < groups
        invariant
            0 <= g <= groups,
            groups <= PAYLOAD_PIXEL_COUNT,
            3 * groups == bytes@.len(),
            coords@ == payload_coords(),
            bytes@ == pp,
            pp == padded(p, seed),
            seed == seed_of(b0),
            image.wf(),
            image.is_canvas(),
            image.width == old(image).width,
            image.height == old(image).height,
            image.data@.len() == CANVAS_BYTES,
            b0.len() == CANVAS_BYTES,
            forall|k: int|
                0 <= k < CANVAS_BYTES ==> image.data@[k] == embedded_byte(b0, p, g as int, k),
        decreases groups - g,
    {
        proof {
            lemma_clear_coord_facts(g as int + 1);
            assert(payload_coords()[g as int] == clear_coords()[g as int + 1]);
        }
        let c = coords[g];
        let v0 = bytes[3 * g];
        let v1 = bytes[3 * g + 1];
        let v2 = bytes[3 * g + 2];
        image.put_pixel(c.0, c.1, v0, v1, v2, 255);
        proof {
            let gi = g as int;
            let cg = payload_coords()[gi];
            assert(payload_coords().contains(cg));
            let i0 = payload_coords().index_of(cg);
            assert(0 <= i0 < payload_coords().len() && payload_coords()[i0] == cg);
            assert(i0 == gi);
            assert(cg != (MARKER_X, MARKER_Y));
            assert forall|k: int| 0 <= k < CANVAS_BYTES implies image.data@[k] == embedded_byte(
                b0,
                p,
                gi + 1,
                k,
            ) by {
                lemma_byte_pix(k);
                let pix = pix_of_byte(k);
                let prev = embedded_byte(b0, p, gi, k);
                let next = embedded_byte(b0, p, gi + 1, k);
                if pix == cg {
                    let ch = k % 4;
                    lemma_pix_byte(cg, ch);
                    assert(k == byte_of_pix(cg) + ch);
                    assert(cg.1 * 64 + cg.0 >= 1);
                    assert(k >= 4);
                    assert(payload_coords().index_of(pix) == gi);
                    if ch == 0 {
                        assert(image.data@[k] == v0);
                        assert(next == pp[3 * gi]);
                    } else if ch == 1 {
                        assert(image.data@[k] == v1);
                        assert(next == pp[3 * gi + 1]);
                    } else if ch == 2 {
                        assert(image.data@[k] == v2);
                        assert(next == pp[3 * gi + 2]);
                    } else {
                        assert(image.data@[k] == 255);
                        assert(next == 255);
                    }
                } else {
                    lemma_pix_byte(cg, 0);
                    lemma_pix_byte(cg, 1);
                    lemma_pix_byte(cg, 2);
                    lemma_pix_byte(cg, 3);
                    assert(k != byte_of_pix(cg) && k != byte_of_pix(cg) + 1 && k != byte_of_pix(
                        cg,
                    ) + 2 && k != byte_of_pix(cg) + 3);
                    assert(image.data@[k] == prev);
                    if payload_coords().contains(pix) && payload_coords().index_of(pix) == gi {
                        assert(pix == cg);
                    }
                    assert(next == prev);
                }
            }
        }
        g += 1;
    }
    proof {
        assert(pp.len() as int / 3 == groups as int) by {
            lemma_fundamental_div_mod_converse(pp.len() as int, 3, groups as int, 0);
        }
        assert(image.data@ =~= embedded(b0, p));
    }
    Ok(())
}

/// Strip any embedded data: clear every void pixel, marker included, and
/// write nothing else.  Fails only when the buffer is not 64x64, in which
/// case nothing changes.
pub fn embed_data_clear(image: &mut PixelBuffer) -> (result: Result<(), CodecError>)
    requires
        old(image).wf(),
    ensures
        final(image).wf(),
        final(image).width == old(image).width,
        final(image).height == old(image).height,
        match result {
            Ok(()) => old(image).is_canvas() && final(image).data@ == cleared(old(image).data@),
            Err(e) => e == CodecError::InvalidDimensions && !old(image).is_canvas()
                && final(image).data@ == old(image).data@,
        },
{
    if !(image.width == 64 && image.height == 64) {
        return Err(CodecError::InvalidDimensions);
    }
    clear_void(image);
    Ok(())
}

/// Extract the embedded payload: read the declared length from the marker
/// pixel, then the color channels of every payload pixel in enumeration
/// order, truncated to the declared length.  Fails only when the buffer is
/// not 64x64.
pub fn extract_data(image: &PixelBuffer) -> (result: Result<Vec<u8>, CodecError>)
    requires
        image.wf(),
    ensures
        match result {
            Ok(v) => image.is_canvas() && v@ == extracted(image.data@),
            Err(e) => e == CodecError::InvalidDimensions && !image.is_canvas(),
        },
{
    if !(image.width == 64 && image.height == 64) {
        return Err(CodecError::InvalidDimensions);
    }
    proof {
        lemma_clear_coords_len();
        lemma_canvas_len(*image);
        lemma_pix_byte((MARKER_X, MARKER_Y), 1);
    }
    let m = image.get_pixel(MARKER_X, MARKER_Y);
    let n = (m.0 as usize) + 256 * (m.1 as usize);
    proof {
        assert(byte_of_pix((MARKER_X, MARKER_Y)) == 0);
        assert(n == declared_len(image.data@));
    }
    if n == 0 {
        let empty: Vec<u8> = Vec::new();
        return Ok(empty);
    }
    let coords = void_pixels(false);
    let mut out: Vec<u8> = Vec::new();
    let mut i: usize = 0;
    while i < PAYLOAD_PIXEL_COUNT
        invariant
            0 <= i <= PAYLOAD_PIXEL_COUNT,
            coords@ == payload_coords(),
            image.wf(),
            image.is_canvas(),
            image.data@.len() == CANVAS_BYTES,
            out@.len() == 3 * i,
            forall|j: int| 0 <= j < 3 * i ==> out@[j] == payload_area_bytes(image.data@)[j],
        decreases PAYLOAD_PIXEL_COUNT - i,
    {
        proof {
            lemma_clear_coord_facts(i as int + 1);
            assert(payload_coords()[i as int] == clear_coords()[i as int + 1]);
        }
        let c = coords[i];
        let px = image.get_pixel(c.0, c.1);
        out.push(px.0);
        out.push(px.1);
        out.push(px.2);
        proof {
            let ii = i as int;
            lemma_fundamental_div_mod_converse(3 * ii, 3, ii, 0);
            lemma_fundamental_div_mod_converse(3 * ii + 1, 3, ii, 1);
            lemma_fundamental_div_mod_converse(3 * ii + 2, 3, ii, 2);
            assert forall|j: int| 0 <= j < 3 * (ii + 1) implies out@[j] == payload_area_bytes(
                image.data@,
            )[j] by {
                if 3 * ii <= j {
                    assert(j / 3 == ii && j % 3 == j - 3 * ii);
                }
            }
        }
        i += 1;
    }
    proof {
        assert(out@ =~= payload_area_bytes(image.data@));
    }
    out.truncate(n);
    proof {
        if n < 3 * PAYLOAD_PIXEL_COUNT {
            assert(out@ =~= extracted(image.data@));
        } else {
            assert(out@ =~= extracted(image.data@));
        }
    }
    Ok(out)
}

} // verus!
