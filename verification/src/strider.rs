//! The needle scanner: walks every offset of a byte buffer and reports each
//! place where the bytes, reinterpreted as an 8-, 16-, or 32-bit integer in
//! either byte order, equal the width-appropriate projection of the needle.

use vstd::prelude::*;
use crate::aggregate::{aggregate, lemma_merge_takes_left, lemma_merge_takes_right, merge_by_offset};
use crate::cursor::{ByteView, Endian, val16, val32};

verus! {

/// Scan failure: a planned read exceeded the buffer. Fatal to the whole scan.
#[derive(Clone, Copy, Debug, PartialEq, Eq, Structural)]
pub enum Error {
    BinaryReadError,
}

/// One location where the bytes, interpreted at `width_bits` under `endian`,
/// equal the needle's projection for that width.
#[derive(Clone, Copy, Debug, PartialEq, Eq, Structural)]
pub struct Offset {
    pub offset: usize,
    pub width_bits: u8,
    pub endian: Endian,
}

/// The width-specific values it is legal to compare against: a narrower
/// projection is present only if the needle fits losslessly in that width.
#[derive(Clone, Copy, Debug)]
pub struct NeedleProjections {
    pub as_u8: Option<u8>,
    pub as_u16: Option<u16>,
    pub as_u32: u32,
}

/// The 8-bit projection of the needle: defined only for lossless truncation.
pub open spec fn proj8(n: u32) -> Option<u8> {
    if n <= 0xFF {
        Some(n as u8)
    } else {
        None
    }
}

/// The 16-bit projection of the needle: defined only for lossless truncation.
pub open spec fn proj16(n: u32) -> Option<u16> {
    if n <= 0xFFFF {
        Some(n as u16)
    } else {
        None
    }
}

/// Derives the width-specific comparison values from one 32-bit needle.
/// Total; no failure modes.
pub fn project(needle: u32) -> (r: NeedleProjections)
    ensures
        r.as_u8 == proj8(needle),
        r.as_u16 == proj16(needle),
        r.as_u32 == needle,
{
    NeedleProjections {
        as_u8: if needle <= 0xFF {
            Some(needle as u8)
        } else {
            None
        },
        as_u16: if needle <= 0xFFFF {
            Some(needle as u16)
        } else {
            None
        },
        as_u32: needle,
    }
}

/// An 8-bit match at `off`: the needle fits in 8 bits and the byte there
/// equals it. Byte-order independent.
pub open spec fn match8(s: Seq<u8>, n: u32, off: int) -> bool {
    &&& 0 <= off < s.len()
    &&& n <= 0xFF
    &&& s[off] == n as u8
}

/// A 16-bit match at `off` under `e`: the needle fits in 16 bits, the margin
/// policy admits a 16-bit read there (one spare byte past the span), and the
/// two bytes equal it.
pub open spec fn match16(s: Seq<u8>, n: u32, off: int, e: Endian) -> bool {
    &&& 0 <= off
    &&& off + 2 < s.len()
    &&& n <= 0xFFFF
    &&& val16(s, off, e) == n
}

/// A 32-bit match at `off` under `e`: the margin policy admits a 32-bit read
/// there (one spare byte past the span) and the four bytes equal the needle.
pub open spec fn match32(s: Seq<u8>, n: u32, off: int, e: Endian) -> bool {
    &&& 0 <= off
    &&& off + 4 < s.len()
    &&& val32(s, off, e) == n
}

/// The matches one byte-order pass emits at `off`, in emission order:
/// width 8 first, then 16, then 32.
pub open spec fn matches_at(s: Seq<u8>, n: u32, off: int, e: Endian) -> Seq<Offset> {
    (if match8(s, n, off) {
        seq![Offset { offset: off as usize, width_bits: 8, endian: e }]
    } else {
        Seq::<Offset>::empty()
    }) + (if match16(s, n, off, e) {
        seq![Offset { offset: off as usize, width_bits: 16, endian: e }]
    } else {
        Seq::<Offset>::empty()
    }) + (if match32(s, n, off, e) {
        seq![Offset { offset: off as usize, width_bits: 32, endian: e }]
    } else {
        Seq::<Offset>::empty()
    })
}

/// All matches reported at `off`: the Little pass's before the Big pass's,
/// the per-offset order of the final match set.
pub open spec fn both_at(s: Seq<u8>, n: u32, off: int) -> Seq<Offset> {
    matches_at(s, n, off, Endian::Little) + matches_at(s, n, off, Endian::Big)
}

/// One byte-order pass's match list restricted to offsets below `k`.
pub open spec fn pass_upto(s: Seq<u8>, n: u32, e: Endian, k: int) -> Seq<Offset>
    decreases k,
{
    if k <= 0 {
        Seq::<Offset>::empty()
    } else {
        pass_upto(s, n, e, k - 1) + matches_at(s, n, k - 1, e)
    }
}

/// The whole match list of one byte-order pass, offsets ascending.
pub open spec fn pass_spec(s: Seq<u8>, n: u32, e: Endian) -> Seq<Offset> {
    pass_upto(s, n, e, s.len() as int)
}

/// One byte-order pass's match list from offset `k` to the end.
pub open spec fn pass_from(s: Seq<u8>, n: u32, e: Endian, k: int) -> Seq<Offset>
    decreases s.len() - k,
{
    if k < 0 || k >= s.len() {
        Seq::<Offset>::empty()
    } else {
        matches_at(s, n, k, e) + pass_from(s, n, e, k + 1)
    }
}

/// The final match set from offset `k` to the end.
pub open spec fn scan_from(s: Seq<u8>, n: u32, k: int) -> Seq<Offset>
    decreases s.len() - k,
{
    if k < 0 || k >= s.len() {
        Seq::<Offset>::empty()
    } else {
        both_at(s, n, k) + scan_from(s, n, k + 1)
    }
}

/// The final match set restricted to offsets below `k`.
pub open spec fn scan_upto(s: Seq<u8>, n: u32, k: int) -> Seq<Offset>
    decreases k,
{
    if k <= 0 {
        Seq::<Offset>::empty()
    } else {
        scan_upto(s, n, k - 1) + both_at(s, n, k - 1)
    }
}

/// The full match set of scanning `s` for `n`: grouped by ascending offset,
/// Little-pass matches before Big-pass matches at each offset, widths
/// ascending within each pass.
pub open spec fn scan_spec(s: Seq<u8>, n: u32) -> Seq<Offset> {
    scan_upto(s, n, s.len() as int)
}

/// A match record is sound for `s` and `n`: its width's projection of the
/// needle is defined, the read span obeys the margin policy, and the value
/// interpreted at its offset equals the projection.
pub open spec fn match_holds(s: Seq<u8>, n: u32, m: Offset) -> bool {
    if m.width_bits == 8 {
        match8(s, n, m.offset as int)
    } else if m.width_bits == 16 {
        match16(s, n, m.offset as int, m.endian)
    } else if m.width_bits == 32 {
        match32(s, n, m.offset as int, m.endian)
    } else {
        false
    }
}

/// Every record one pass emits at `off` carries that offset and byte order,
/// is sound, and the widths come out strictly ascending.
proof fn lemma_matches_at_elems(s: Seq<u8>, n: u32, off: int, e: Endian)
    requires
        0 <= off < s.len(),
        s.len() <= usize::MAX,
    ensures
        forall|i: int| 0 <= i < matches_at(s, n, off, e).len() ==> {
            let m = #[trigger] matches_at(s, n, off, e)[i];
            m.offset as int == off && m.endian == e && match_holds(s, n, m)
        },
        forall|i: int, j: int|
            0 <= i < j < matches_at(s, n, off, e).len() ==> matches_at(s, n, off, e)[i].width_bits
                < matches_at(s, n, off, e)[j].width_bits,
{
}

/// Every record of one pass's tail list lies at offset `k` or beyond.
proof fn lemma_pass_from_elems(s: Seq<u8>, n: u32, e: Endian, k: int)
    requires
        0 <= k,
        s.len() <= usize::MAX,
    ensures
        forall|i: int| 0 <= i < pass_from(s, n, e, k).len() ==> (#[trigger] pass_from(
            s,
            n,
            e,
            k,
        )[i]).offset as int >= k,
    decreases s.len() - k,
{
    if k < s.len() {
        lemma_pass_from_elems(s, n, e, k + 1);
        lemma_matches_at_elems(s, n, k, e);
    }
}

/// One pass's list below `k` and its list from `k` make the whole pass.
proof fn lemma_pass_from_covers(s: Seq<u8>, n: u32, e: Endian, k: int)
    requires
        0 <= k <= s.len(),
    ensures
        pass_upto(s, n, e, k) + pass_from(s, n, e, k) == pass_spec(s, n, e),
    decreases s.len() - k,
{
    if k == s.len() {
        assert(pass_upto(s, n, e, k) + pass_from(s, n, e, k) =~= pass_upto(s, n, e, k));
    } else {
        lemma_pass_from_covers(s, n, e, k + 1);
        assert(pass_upto(s, n, e, k) + pass_from(s, n, e, k) =~= (pass_upto(s, n, e, k)
            + matches_at(s, n, k, e)) + pass_from(s, n, e, k + 1));
    }
}

/// The final set below `k` and the final set from `k` make the whole set.
proof fn lemma_scan_from_covers(s: Seq<u8>, n: u32, k: int)
    requires
        0 <= k <= s.len(),
    ensures
        scan_upto(s, n, k) + scan_from(s, n, k) == scan_spec(s, n),
    decreases s.len() - k,
{
    if k == s.len() {
        assert(scan_upto(s, n, k) + scan_from(s, n, k) =~= scan_upto(s, n, k));
    } else {
        lemma_scan_from_covers(s, n, k + 1);
        assert(scan_upto(s, n, k) + scan_from(s, n, k) =~= (scan_upto(s, n, k) + both_at(s, n, k))
            + scan_from(s, n, k + 1));
    }
}

/// Stably merging the two passes' tails by ascending offset yields the
/// final set's tail: at each offset, the Little matches then the Big ones.
proof fn lemma_merge_passes(s: Seq<u8>, n: u32, k: int)
    requires
        0 <= k <= s.len(),
        s.len() <= usize::MAX,
    ensures
        merge_by_offset(pass_from(s, n, Endian::Little, k), pass_from(s, n, Endian::Big, k))
            == scan_from(s, n, k),
    decreases s.len() - k,
{
    if k < s.len() {
        lemma_merge_passes(s, n, k + 1);
        lemma_matches_at_elems(s, n, k, Endian::Little);
        lemma_matches_at_elems(s, n, k, Endian::Big);
        lemma_pass_from_elems(s, n, Endian::Little, k + 1);
        lemma_pass_from_elems(s, n, Endian::Big, k + 1);
        let ml = matches_at(s, n, k, Endian::Little);
        let mb = matches_at(s, n, k, Endian::Big);
        let restl = pass_from(s, n, Endian::Little, k + 1);
        let restb = pass_from(s, n, Endian::Big, k + 1);
        if (mb + restb).len() > 0 {
            if mb.len() > 0 {
                assert((mb + restb).first() == mb.first());
            } else {
                assert(mb + restb =~= restb);
            }
            assert((mb + restb).first().offset as int >= k);
        }
        lemma_merge_takes_left(ml, restl, mb + restb);
        lemma_merge_takes_right(restl, mb, restb);
        assert(ml + (mb + merge_by_offset(restl, restb)) =~= (ml + mb) + merge_by_offset(
            restl,
            restb,
        ));
    }
}

/// Every record of the match set restricted below `k` has an offset below
/// `k` and is sound.
proof fn lemma_scan_upto_elems(s: Seq<u8>, n: u32, k: int)
    requires
        k <= s.len(),
        s.len() <= usize::MAX,
    ensures
        forall|i: int| 0 <= i < scan_upto(s, n, k).len() ==> {
            let m = #[trigger] scan_upto(s, n, k)[i];
            (m.offset as int) < k && match_holds(s, n, m)
        },
    decreases k,
{
    if k > 0 {
        lemma_scan_upto_elems(s, n, k - 1);
        lemma_matches_at_elems(s, n, k - 1, Endian::Little);
        lemma_matches_at_elems(s, n, k - 1, Endian::Big);
    }
}

/// Soundness: every match in the set, read at its width and byte order from
/// the buffer, yields exactly the needle's projection for that width, and
/// that projection is defined.
pub proof fn lemma_scan_sound(s: Seq<u8>, n: u32)
    requires
        s.len() <= usize::MAX,
    ensures
        forall|i: int| 0 <= i < scan_spec(s, n).len() ==> match_holds(
            s,
            n,
            #[trigger] scan_spec(s, n)[i],
        ),
{
    lemma_scan_upto_elems(s, n, s.len() as int);
}

/// Bounds compliance: every match's read span lies within the buffer and
/// additionally satisfies the one-byte-margin boundary policy.
pub proof fn lemma_scan_bounds(s: Seq<u8>, n: u32)
    requires
        s.len() <= usize::MAX,
    ensures
        forall|i: int| 0 <= i < scan_spec(s, n).len() ==> {
            let m = #[trigger] scan_spec(s, n)[i];
            m.offset < s.len() && (m.width_bits == 16 ==> m.offset + 2 < s.len()) && (
            m.width_bits == 32 ==> m.offset + 4 < s.len())
        },
{
    lemma_scan_sound(s, n);
}

/// At one offset, the Little pass's matches precede the Big pass's, and a
/// width appears at most once per pass.
proof fn lemma_both_at_block(s: Seq<u8>, n: u32, off: int)
    requires
        0 <= off < s.len(),
        s.len() <= usize::MAX,
    ensures
        forall|i: int| 0 <= i < both_at(s, n, off).len() ==> (#[trigger] both_at(s, n, off)[i]).offset
            as int == off,
        forall|i: int, j: int|
            0 <= i < j < both_at(s, n, off).len() && both_at(s, n, off)[i].width_bits == both_at(
                s,
                n,
                off,
            )[j].width_bits ==> both_at(s, n, off)[i].endian == Endian::Little && both_at(
                s,
                n,
                off,
            )[j].endian == Endian::Big,
{
    lemma_matches_at_elems(s, n, off, Endian::Little);
    lemma_matches_at_elems(s, n, off, Endian::Big);
}

/// The match set restricted below `k` is non-decreasing in offset, and at
/// equal offsets a Little-tagged match of a width precedes the Big-tagged
/// match of the same width.
proof fn lemma_scan_upto_ordered(s: Seq<u8>, n: u32, k: int)
    requires
        k <= s.len(),
        s.len() <= usize::MAX,
    ensures
        forall|i: int, j: int|
            0 <= i < j < scan_upto(s, n, k).len() ==> (#[trigger] scan_upto(s, n, k)[i]).offset <= (
            #[trigger] scan_upto(s, n, k)[j]).offset,
        forall|i: int, j: int|
            0 <= i < j < scan_upto(s, n, k).len() && (#[trigger] scan_upto(s, n, k)[i]).offset == (
            #[trigger] scan_upto(s, n, k)[j]).offset && scan_upto(s, n, k)[i].width_bits
                == scan_upto(s, n, k)[j].width_bits ==> scan_upto(s, n, k)[i].endian
                == Endian::Little && scan_upto(s, n, k)[j].endian == Endian::Big,
    decreases k,
{
    if k > 0 {
        lemma_scan_upto_ordered(s, n, k - 1);
        lemma_scan_upto_elems(s, n, k - 1);
        lemma_both_at_block(s, n, k - 1);
    }
}

/// Ordering: the match set is non-decreasing in offset; for equal offsets, a
/// Little-tagged match appears before the Big-tagged match of the same
/// width, when both exist.
pub proof fn lemma_scan_ordered(s: Seq<u8>, n: u32)
    requires
        s.len() <= usize::MAX,
    ensures
        forall|i: int, j: int|
            0 <= i < j < scan_spec(s, n).len() ==> (#[trigger] scan_spec(s, n)[i]).offset <= (
            #[trigger] scan_spec(s, n)[j]).offset,
        forall|i: int, j: int|
            0 <= i < j < scan_spec(s, n).len() && (#[trigger] scan_spec(s, n)[i]).offset == (
            #[trigger] scan_spec(s, n)[j]).offset && scan_spec(s, n)[i].width_bits == scan_spec(
                s,
                n,
            )[j].width_bits ==> scan_spec(s, n)[i].endian == Endian::Little && scan_spec(
                s,
                n,
            )[j].endian == Endian::Big,
{
    lemma_scan_upto_ordered(s, n, s.len() as int);
}

/// How many times `m` occurs in `q`.
pub open spec fn count_of(q: Seq<Offset>, m: Offset) -> nat
    decreases q.len(),
{
    if q.len() == 0 {
        0
    } else {
        count_of(q.drop_last(), m) + (if q.last() == m {
            1nat
        } else {
            0nat
        })
    }
}

/// Occurrence counts add across concatenation.
proof fn lemma_count_add(a: Seq<Offset>, b: Seq<Offset>, m: Offset)
    ensures
        count_of(a + b, m) == count_of(a, m) + count_of(b, m),
    decreases b.len(),
{
    if b.len() == 0 {
        assert(a + b =~= a);
    } else {
        lemma_count_add(a, b.drop_last(), m);
        assert((a + b).drop_last() =~= a + b.drop_last());
    }
}

/// A one-element sequence holds `m` once or not at all.
proof fn lemma_count_singleton(x: Offset, m: Offset)
    ensures
        count_of(seq![x], m) == (if x == m {
            1nat
        } else {
            0nat
        }),
{
    assert(seq![x].drop_last() =~= Seq::<Offset>::empty());
    assert(count_of(Seq::<Offset>::empty(), m) == 0);
    assert(seq![x].last() == x);
}

/// One pass's block at `off` holds the 8-bit record for target offset `t`
/// and byte order `te` exactly when this is that offset and that pass.
proof fn lemma_matches_at_count8(s: Seq<u8>, n: u32, off: int, e: Endian, t: int, te: Endian)
    requires
        0 <= off < s.len(),
        s.len() <= usize::MAX,
        match8(s, n, t),
    ensures
        count_of(
            matches_at(s, n, off, e),
            (Offset { offset: t as usize, width_bits: 8, endian: te }),
        ) == (if off == t && te == e {
            1nat
        } else {
            0nat
        }),
{
    let m = Offset { offset: t as usize, width_bits: 8, endian: te };
    let c8 = if match8(s, n, off) {
        seq![Offset { offset: off as usize, width_bits: 8, endian: e }]
    } else {
        Seq::<Offset>::empty()
    };
    let c16 = if match16(s, n, off, e) {
        seq![Offset { offset: off as usize, width_bits: 16, endian: e }]
    } else {
        Seq::<Offset>::empty()
    };
    let c32 = if match32(s, n, off, e) {
        seq![Offset { offset: off as usize, width_bits: 32, endian: e }]
    } else {
        Seq::<Offset>::empty()
    };
    lemma_count_add(c8 + c16, c32, m);
    lemma_count_add(c8, c16, m);
    if match8(s, n, off) {
        lemma_count_singleton(Offset { offset: off as usize, width_bits: 8, endian: e }, m);
    }
    if match16(s, n, off, e) {
        lemma_count_singleton(Offset { offset: off as usize, width_bits: 16, endian: e }, m);
    }
    if match32(s, n, off, e) {
        lemma_count_singleton(Offset { offset: off as usize, width_bits: 32, endian: e }, m);
    }
}

/// The match set restricted below `k` holds the 8-bit record for offset `t`
/// and byte order `te` exactly once, as soon as the scan has passed `t`.
proof fn lemma_scan_upto_count8(s: Seq<u8>, n: u32, t: int, te: Endian, k: int)
    requires
        s.len() <= usize::MAX,
        match8(s, n, t),
        0 <= k <= s.len(),
    ensures
        count_of(
            scan_upto(s, n, k),
            (Offset { offset: t as usize, width_bits: 8, endian: te }),
        ) == (if t < k {
            1nat
        } else {
            0nat
        }),
    decreases k,
{
    let m = Offset { offset: t as usize, width_bits: 8, endian: te };
    if k > 0 {
        lemma_scan_upto_count8(s, n, t, te, k - 1);
        lemma_count_add(scan_upto(s, n, k - 1), both_at(s, n, k - 1), m);
        lemma_count_add(
            matches_at(s, n, k - 1, Endian::Little),
            matches_at(s, n, k - 1, Endian::Big),
            m,
        );
        lemma_matches_at_count8(s, n, k - 1, Endian::Little, t, te);
        lemma_matches_at_count8(s, n, k - 1, Endian::Big, t, te);
    }
}

/// Width-8 duplication: an 8-bit match at an offset is reported exactly once
/// per byte-order pass — once tagged Little and once tagged Big — since a
/// single-byte interpretation is byte-order independent.
pub proof fn lemma_scan_width8_duplication(s: Seq<u8>, n: u32, t: int)
    requires
        s.len() <= usize::MAX,
        match8(s, n, t),
    ensures
        count_of(
            scan_spec(s, n),
            (Offset { offset: t as usize, width_bits: 8, endian: Endian::Little }),
        ) == 1,
        count_of(
            scan_spec(s, n),
            (Offset { offset: t as usize, width_bits: 8, endian: Endian::Big }),
        ) == 1,
{
    lemma_scan_upto_count8(s, n, t, Endian::Little, s.len() as int);
    lemma_scan_upto_count8(s, n, t, Endian::Big, s.len() as int);
}

/// Idempotence: two scans of an identical buffer and needle produce the
/// identical match set.
pub proof fn lemma_scan_idempotent(s: Seq<u8>, n: u32, r1: Seq<Offset>, r2: Seq<Offset>)
    requires
        r1 == scan_spec(s, n),
        r2 == scan_spec(s, n),
    ensures
        r1 == r2,
{
}

/// The scanner: the buffer under scan and the needle's projections.
#[derive(Debug)]
pub struct Strider<'a> {
    pub data: &'a [u8],
    pub needle_u8: Option<u8>,
    pub needle_u16: Option<u16>,
    pub needle_u32: u32,
}

impl<'a> Strider<'a> {
    /// The stored narrow needles are the projections of the 32-bit needle.
    pub open spec fn wf(self) -> bool {
        &&& self.needle_u8 == proj8(self.needle_u32)
        &&& self.needle_u16 == proj16(self.needle_u32)
    }

    pub fn new(needle: u32, data: &'a [u8]) -> (r: Strider<'a>)
        ensures
            r.data@ == data@,
            r.needle_u32 == needle,
            r.wf(),
    {
        let p = project(needle);
        Strider { data, needle_u8: p.as_u8, needle_u16: p.as_u16, needle_u32: needle }
    }

    /// One offset of one byte-order pass: reads the widths the margin policy
    /// allows at `offset` and appends a match for each equal interpretation,
    /// widths ascending.
    fn push_matches_at(&self, results: &mut Vec<Offset>, offset: usize, endian: Endian) -> (r:
        Result<(), Error>)
        requires
            self.wf(),
            offset < self.data@.len(),
        ensures
            r is Ok,
            final(results)@ == old(results)@ + matches_at(
                self.data@,
                self.needle_u32,
                offset as int,
                endian,
            ),
    {
        let ghost s = self.data@;
        let ghost n = self.needle_u32;
        let ghost off = offset as int;
        let len = self.data.len();
        let mut bv = ByteView::new(self.data);
        bv.set_byte_order(endian);

        bv.seek(offset);
        let v8 = match bv.read_u8() {
            Ok(v) => v,
            Err(_) => {
                return Err(Error::BinaryReadError);
            },
        };
        if let Some(n8) = self.needle_u8 {
            if v8 == n8 {
                results.push(Offset { offset, width_bits: 8, endian });
            }
        }

        if len - offset > 2 {
            bv.seek(offset);
            let v16 = match bv.read_u16() {
                Ok(v) => v,
                Err(_) => {
                    return Err(Error::BinaryReadError);
                },
            };
            if let Some(n16) = self.needle_u16 {
                if v16 == n16 {
                    results.push(Offset { offset, width_bits: 16, endian });
                }
            }
        }

        if len - offset > 4 {
            bv.seek(offset);
            let v32 = match bv.read_u32() {
                Ok(v) => v,
                Err(_) => {
                    return Err(Error::BinaryReadError);
                },
            };
            if v32 == self.needle_u32 {
                results.push(Offset { offset, width_bits: 32, endian });
            }
        }

        proof {
            assert(results@ =~= old(results)@ + matches_at(s, n, off, endian));
        }
        Ok(())
    }

    /// One full byte-order pass: walks every offset in ascending order and
    /// collects this pass's matches.
    fn pass(&self, endian: Endian) -> (r: Result<Vec<Offset>, Error>)
        requires
            self.wf(),
        ensures
            r is Ok,
            r->Ok_0@ == pass_spec(self.data@, self.needle_u32, endian),
    {
        let mut results: Vec<Offset> = Vec::new();
        let len = self.data.len();
        let mut offset: usize = 0;
        while offset < len
            invariant
                self.wf(),
                len == self.data@.len(),
                offset <= len,
                results@ == pass_upto(self.data@, self.needle_u32, endian, offset as int),
            decreases len - offset,
        {
            match self.push_matches_at(&mut results, offset, endian) {
                Ok(()) => {},
                Err(e) => {
                    return Err(e);
                },
            }
            offset = offset + 1;
        }
        Ok(results)
    }

    /// Runs both byte-order passes — Little first, then Big — and aggregates
    /// their match lists into the final set: the concatenation of the two,
    /// stably sorted by ascending offset. The margin policy keeps every
    /// planned read in bounds, so the scan always succeeds.
    pub fn run(&self) -> (r: Result<Vec<Offset>, Error>)
        requires
            self.wf(),
        ensures
            r is Ok,
            r->Ok_0@ == scan_spec(self.data@, self.needle_u32),
    {
        let ghost s = self.data@;
        let ghost n = self.needle_u32;
        let len = self.data.len();
        let little = match self.pass(Endian::Little) {
            Ok(v) => v,
            Err(e) => {
                return Err(e);
            },
        };
        let big = match self.pass(Endian::Big) {
            Ok(v) => v,
            Err(e) => {
                return Err(e);
            },
        };
        let results = aggregate(little, big);
        proof {
            assert(s.len() == len);
            lemma_pass_from_covers(s, n, Endian::Little, 0);
            lemma_pass_from_covers(s, n, Endian::Big, 0);
            lemma_scan_from_covers(s, n, 0);
            lemma_merge_passes(s, n, 0);
            assert(Seq::<Offset>::empty() + pass_from(s, n, Endian::Little, 0) =~= pass_from(
                s,
                n,
                Endian::Little,
                0,
            ));
            assert(Seq::<Offset>::empty() + pass_from(s, n, Endian::Big, 0) =~= pass_from(
                s,
                n,
                Endian::Big,
                0,
            ));
            assert(Seq::<Offset>::empty() + scan_from(s, n, 0) =~= scan_from(s, n, 0));
        }
        Ok(results)
    }
}

} // verus!
