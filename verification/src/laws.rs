//! The codec's guarantees, stated and proved over the spec-level model.

use vstd::prelude::*;
use vstd::arithmetic::div_mod::{
    lemma_fundamental_div_mod, lemma_fundamental_div_mod_converse, lemma_div_pos_is_pos,
    lemma_mod_pos_bound, lemma_multiply_divide_lt,
};
use crate::buffer::{byte_of_pix, pix_of_byte, lemma_pix_byte, lemma_byte_pix, CANVAS_BYTES};
use crate::geometry::{
    clear_coords, payload_coords, is_void, lemma_clear_coords_len, lemma_clear_first,
    lemma_clear_coords_no_dup, lemma_clear_coord_facts, lemma_payload_no_dup,
    lemma_void_iff_contains, MARKER_X, MARKER_Y, PAYLOAD_PIXEL_COUNT,
};
use crate::filler::filler_byte;
use crate::codec::{
    cleared, seed_of, pad_len, padded, marker_byte, embedded, embedded_byte, declared_len,
    payload_area_bytes, extracted, MAX_PAYLOAD,
};

verus! {

/// The padded payload's length is the payload's rounded up to a multiple of
/// three, and the number of three-byte groups never exceeds the number of
/// payload pixels.
proof fn lemma_padded_len(b: Seq<u8>, p: Seq<u8>)
    requires
        p.len() <= MAX_PAYLOAD,
    ensures
        padded(p, seed_of(b)).len() == p.len() + pad_len(p.len() as int),
        3 * (padded(p, seed_of(b)).len() as int / 3) == padded(p, seed_of(b)).len() as int,
        p.len() <= padded(p, seed_of(b)).len() <= MAX_PAYLOAD,
        padded(p, seed_of(b)).len() as int / 3 <= PAYLOAD_PIXEL_COUNT,
{
    let n = p.len() as int;
    let q = n / 3;
    let r = n % 3;
    lemma_fundamental_div_mod(n, 3);
    lemma_mod_pos_bound(n, 3);
    lemma_div_pos_is_pos(n, 3);
    let l = n + pad_len(n);
    if r == 0 {
        lemma_fundamental_div_mod_converse(l, 3, q, 0);
    } else if r == 1 {
        lemma_fundamental_div_mod_converse(l, 3, q + 1, 0);
    } else {
        lemma_fundamental_div_mod_converse(l, 3, q + 1, 0);
    }
}

/// Round-trip law: extracting right after embedding hands the payload back
/// unchanged, for every payload up to the capacity and every 64x64 starting
/// buffer, whatever its prior content.
pub proof fn lemma_round_trip(b: Seq<u8>, p: Seq<u8>)
    requires
        b.len() == CANVAS_BYTES,
        p.len() <= MAX_PAYLOAD,
    ensures
        extracted(embedded(b, p)) == p,
{
    lemma_clear_coords_len();
    lemma_clear_first();
    lemma_payload_no_dup();
    lemma_padded_len(b, p);
    let seed = seed_of(b);
    let pp = padded(p, seed);
    let n = p.len() as int;
    let groups = pp.len() as int / 3;
    let e = embedded(b, p);
    assert(e.len() == CANVAS_BYTES);

    // The marker declares the payload's length.
    lemma_pix_byte((MARKER_X, MARKER_Y), 0);
    lemma_pix_byte((MARKER_X, MARKER_Y), 1);
    assert(byte_of_pix((MARKER_X, MARKER_Y)) == 0);
    lemma_fundamental_div_mod(n, 256);
    lemma_mod_pos_bound(n, 256);
    lemma_div_pos_is_pos(n, 256);
    lemma_multiply_divide_lt(n, 256, 256);
    assert(e[0] == marker_byte(0, n, filler_byte(seed, 0)));
    assert(e[1] == marker_byte(1, n, filler_byte(seed, 0)));
    assert(declared_len(e) == n);

    if n == 0 {
        assert(extracted(e) =~= p);
    } else {
        let full = payload_area_bytes(e);
        assert forall|j: int| 0 <= j < n implies full[j] == p[j] by {
            let i = j / 3;
            let ch = j % 3;
            lemma_mod_pos_bound(j, 3);
            lemma_div_pos_is_pos(j, 3);
            lemma_fundamental_div_mod(j, 3);
            assert(3 * i + ch == j);
            assert(i < groups);
            assert(i < PAYLOAD_PIXEL_COUNT);
            lemma_clear_coord_facts(i + 1);
            let c = payload_coords()[i];
            assert(c == clear_coords()[i + 1]);
            assert(c != (MARKER_X, MARKER_Y));
            let k = byte_of_pix(c) + ch;
            lemma_pix_byte(c, ch);
            assert(pix_of_byte(k) == c);
            assert(c.1 * 64 + c.0 >= 1);
            assert(k >= 4);
            assert(payload_coords().contains(c));
            let i0 = payload_coords().index_of(c);
            assert(0 <= i0 < payload_coords().len() && payload_coords()[i0] == c);
            assert(i0 == i);
            assert(full[j] == e[k]);
            assert(e[k] == embedded_byte(b, p, groups, k));
            assert(e[k] == pp[3 * i + ch]);
            assert(pp[j] == p[j]);
        }
        if n >= 3 * PAYLOAD_PIXEL_COUNT {
            assert(full.len() == n);
            assert(extracted(e) == full);
            assert(full =~= p);
        } else {
            assert(extracted(e) == full.take(n));
            assert(full.take(n) =~= p);
        }
    }
}

/// Determinism law: the embedded buffer is a function of the starting
/// buffer's bytes and the payload alone, so embedding the same payload into
/// the same buffer twice yields byte-identical results.
pub proof fn lemma_embed_deterministic(b: Seq<u8>, p: Seq<u8>, r1: Seq<u8>, r2: Seq<u8>)
    requires
        r1 == embedded(b, p),
        r2 == embedded(b, p),
    ensures
        r1 == r2,
{
}

/// Idempotent-clear law: a buffer whose void area was cleared extracts to
/// the empty payload, whatever was embedded before.
pub proof fn lemma_clear_extracts_empty(b: Seq<u8>)
    requires
        b.len() == CANVAS_BYTES,
    ensures
        extracted(cleared(b)) == Seq::<u8>::empty(),
{
    lemma_clear_coords_len();
    lemma_clear_first();
    lemma_pix_byte((MARKER_X, MARKER_Y), 0);
    lemma_pix_byte((MARKER_X, MARKER_Y), 1);
    assert(byte_of_pix((MARKER_X, MARKER_Y)) == 0);
    assert(clear_coords().contains((MARKER_X, MARKER_Y)));
    assert(cleared(b)[0] == 0 && cleared(b)[1] == 0);
    assert(declared_len(cleared(b)) == 0);
}

/// Capacity law: a payload of exactly the capacity needs no padding and
/// occupies every payload pixel (each gets its alpha forced opaque).
pub proof fn lemma_full_capacity(b: Seq<u8>, p: Seq<u8>)
    requires
        b.len() == CANVAS_BYTES,
        p.len() == 3 * PAYLOAD_PIXEL_COUNT,
    ensures
        padded(p, seed_of(b)) == p,
        forall|i: int|
            0 <= i < PAYLOAD_PIXEL_COUNT ==> embedded(b, p)[byte_of_pix(
                #[trigger] payload_coords()[i],
            ) + 3] == 255,
{
    lemma_clear_coords_len();
    lemma_clear_first();
    lemma_payload_no_dup();
    let n = p.len() as int;
    lemma_fundamental_div_mod_converse(n, 3, PAYLOAD_PIXEL_COUNT as int, 0);
    assert(n % 3 == 0);
    assert(padded(p, seed_of(b)) =~= p);
    let pp = padded(p, seed_of(b));
    let groups = pp.len() as int / 3;
    assert(groups == PAYLOAD_PIXEL_COUNT);
    assert forall|i: int| 0 <= i < PAYLOAD_PIXEL_COUNT implies embedded(b, p)[byte_of_pix(
        #[trigger] payload_coords()[i],
    ) + 3] == 255 by {
        lemma_clear_coord_facts(i + 1);
        let c = payload_coords()[i];
        assert(c == clear_coords()[i + 1]);
        let k = byte_of_pix(c) + 3;
        lemma_pix_byte(c, 3);
        assert(c.1 * 64 + c.0 >= 1);
        assert(k >= 4);
        assert(payload_coords().contains(c));
        let i0 = payload_coords().index_of(c);
        assert(0 <= i0 < payload_coords().len() && payload_coords()[i0] == c);
        assert(i0 == i);
        assert(embedded(b, p)[k] == embedded_byte(b, p, groups, k));
    }
}

/// Isolation law, first half: embedding never alters a byte of a pixel
/// outside the region table.
pub proof fn lemma_embed_preserves_visible(b: Seq<u8>, p: Seq<u8>)
    requires
        b.len() == CANVAS_BYTES,
    ensures
        forall|k: int|
            0 <= k < CANVAS_BYTES && !is_void(#[trigger] pix_of_byte(k)) ==> embedded(b, p)[k]
                == b[k],
{
    lemma_clear_coords_len();
    lemma_clear_first();
    assert forall|k: int|
        0 <= k < CANVAS_BYTES && !is_void(#[trigger] pix_of_byte(k)) implies embedded(b, p)[k]
        == b[k] by {
        lemma_byte_pix(k);
        let pix = pix_of_byte(k);
        lemma_void_iff_contains(pix);
        assert(!clear_coords().contains(pix));
        lemma_void_iff_contains((MARKER_X, MARKER_Y));
        assert(clear_coords().contains((MARKER_X, MARKER_Y)));
        assert(pix != (MARKER_X, MARKER_Y));
        assert(k >= 4) by {
            if k < 4 {
                lemma_pix_byte((MARKER_X, MARKER_Y), k);
                assert(byte_of_pix((MARKER_X, MARKER_Y)) == 0);
                assert(pix_of_byte(k) == (MARKER_X, MARKER_Y));
            }
        }
        if payload_coords().contains(pix) {
            let i0 = payload_coords().index_of(pix);
            assert(payload_coords()[i0] == pix);
            assert(clear_coords()[i0 + 1] == pix);
            assert(clear_coords().contains(pix));
        }
    }
}

/// Isolation law, second half: two buffers that agree on every byte outside
/// the void area clear to the same bytes, so they derive the same seed and
/// the same filler stream.
pub proof fn lemma_visible_determines_seed(b1: Seq<u8>, b2: Seq<u8>)
    requires
        b1.len() == CANVAS_BYTES,
        b2.len() == CANVAS_BYTES,
        forall|k: int|
            0 <= k < CANVAS_BYTES && !is_void(#[trigger] pix_of_byte(k)) ==> b1[k] == b2[k],
    ensures
        cleared(b1) == cleared(b2),
        seed_of(b1) == seed_of(b2),
{
    assert forall|k: int| 0 <= k < CANVAS_BYTES implies cleared(b1)[k] == cleared(b2)[k] by {
        let pix = pix_of_byte(k);
        lemma_void_iff_contains(pix);
        if !clear_coords().contains(pix) {
            assert(!is_void(pix));
            assert(b1[k] == b2[k]);
        }
    }
    assert(cleared(b1) =~= cleared(b2));
}

/// Isolation law, combined: the embedded buffer is determined by the
/// visible (non-void) pixel content and the payload alone, so marker and
/// filler bytes can differ only when the payload's length or content does.
pub proof fn lemma_visible_determines_embedding(b1: Seq<u8>, b2: Seq<u8>, p: Seq<u8>)
    requires
        b1.len() == CANVAS_BYTES,
        b2.len() == CANVAS_BYTES,
        forall|k: int|
            0 <= k < CANVAS_BYTES && !is_void(#[trigger] pix_of_byte(k)) ==> b1[k] == b2[k],
    ensures
        embedded(b1, p) == embedded(b2, p),
{
    lemma_visible_determines_seed(b1, b2);
    assert forall|k: int| 0 <= k < CANVAS_BYTES implies embedded(b1, p)[k] == embedded(b2, p)[k]
        by {
        let pix = pix_of_byte(k);
        lemma_void_iff_contains(pix);
        if !clear_coords().contains(pix) {
            assert(!is_void(pix));
            assert(b1[k] == b2[k]);
        }
    }
    assert(embedded(b1, p) =~= embedded(b2, p));
}

} // verus!
