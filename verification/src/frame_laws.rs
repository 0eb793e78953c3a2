//! What each edit leaves alone: every byte outside the fields it writes and
//! the checksums it recomputes keeps its value.
use crate::bnd4::{
    body_end, body_start, lemma_anchor_from, min_int, name_pos, sec_body, sec_off, sec_size,
};
use crate::bytes::{splice, u16_bytes, u32_bytes, zeroed};
use crate::laws::{
    lemma_appended_frame, lemma_checksum_frame, lemma_qty_pos, lemma_splice_frame, same_outside,
};
use crate::save::{
    anchor_pos, append_outcome, appended, common_table, delete_outcome, goods_handle, level_of,
    name_field, put_stats, qty_pos_from, set_name_outcome, set_qty_outcome, set_runes_outcome,
    set_stats_outcome, stats_edited, with_checksum,
};
use crate::utf16::utf16_encode;
use vstd::prelude::*;

verus! {

/// `e` has the length of `d` and differs from it only inside the spans
/// (start, length) listed.
pub open spec fn only_touches(d: Seq<u8>, e: Seq<u8>, spans: Seq<(int, int)>) -> bool {
    &&& e.len() == d.len()
    &&& forall|i: int|
        0 <= i < d.len() && (forall|k: int|
            0 <= k < spans.len() ==> !(#[trigger] spans[k].0 <= i < spans[k].0 + spans[k].1))
            ==> #[trigger] e[i] == d[i]
}

proof fn lemma_touch_none(d: Seq<u8>)
    ensures
        only_touches(d, d, seq![]),
{
}

/// A change inside one more span adds that span to what was touched.
proof fn lemma_touch_more(d: Seq<u8>, m: Seq<u8>, e: Seq<u8>, spans: Seq<(int, int)>, lo: int, n: int)
    requires
        only_touches(d, m, spans),
        same_outside(m, e, lo, lo + n),
    ensures
        only_touches(d, e, spans.push((lo, n))),
{
    let t = spans.push((lo, n));
    assert forall|i: int|
        0 <= i < d.len() && (forall|k: int|
            0 <= k < t.len() ==> !(#[trigger] t[k].0 <= i < t[k].0 + t[k].1)) implies #[trigger] e[i]
        == d[i] by {
        assert(!(t[spans.len() as int].0 <= i < t[spans.len() as int].0 + t[spans.len() as int].1));
        assert forall|k: int| 0 <= k < spans.len() implies !(#[trigger] spans[k].0 <= i < spans[k].0
            + spans[k].1) by {
            assert(t[k] == spans[k]);
            assert(!(t[k].0 <= i < t[k].0 + t[k].1));
        }
    }
}

/// Setting the runes of `slot` changes only the four bytes of the rune count
/// (48 bytes past the stat anchor) and the checksum of that slot's section.
pub proof fn lemma_set_runes_frame(d: Seq<u8>, slot: int, v: u32)
    requires
        set_runes_outcome(d, slot, v) is Ok,
    ensures
        only_touches(
            d,
            set_runes_outcome(d, slot, v)->Ok_0,
            seq![(anchor_pos(d, slot) + 48, 4), (sec_off(d, slot), 16)],
        ),
{
    lemma_anchor_from(sec_body(d, slot), 0);
    let p = anchor_pos(d, slot) + 48;
    let d1 = splice(d, p, u32_bytes(v));
    lemma_splice_frame(d, p, u32_bytes(v));
    lemma_checksum_frame(d1, sec_off(d, slot), sec_size(d, slot));
    lemma_touch_none(d);
    lemma_touch_more(d, d, d1, seq![], p, 4);
    lemma_touch_more(d, d1, set_runes_outcome(d, slot, v)->Ok_0, seq![(p, 4)], sec_off(d, slot), 16);
    assert(seq![(p, 4int)].push((sec_off(d, slot), 16int)) =~= seq![(p, 4int), (sec_off(d, slot), 16int)]);
}

/// Renaming `slot` changes only its 32-byte name field in the header section
/// and the header section's checksum.
pub proof fn lemma_set_name_frame(d: Seq<u8>, slot: int, name: Seq<char>)
    requires
        set_name_outcome(d, slot, name) is Ok,
        0 <= slot,
    ensures
        only_touches(
            d,
            set_name_outcome(d, slot, name)->Ok_0,
            seq![(name_pos(d, slot), 32), (sec_off(d, 10), 16)],
        ),
{
    let np = name_pos(d, slot);
    let f = name_field(utf16_encode(name));
    let d1 = splice(d, np, f);
    lemma_splice_frame(d, np, f);
    lemma_checksum_frame(d1, sec_off(d, 10), sec_size(d, 10));
    lemma_touch_none(d);
    lemma_touch_more(d, d, d1, seq![], np, 32);
    lemma_touch_more(d, d1, set_name_outcome(d, slot, name)->Ok_0, seq![(np, 32)], sec_off(d, 10), 16);
    assert(seq![(np, 32int)].push((sec_off(d, 10), 16int)) =~= seq![(np, 32int), (sec_off(d, 10), 16int)]);
}

proof fn lemma_zeroed_outside(d: Seq<u8>, lo: int, hi: int)
    ensures
        same_outside(d, zeroed(d, lo, hi), lo, lo + (hi - lo)),
{
}

proof fn lemma_put_stats_outside(d: Seq<u8>, a: int, st: Seq<u8>)
    ensures
        same_outside(d, put_stats(d, a, st, 8), a, a + 32),
{
}

/// Setting the quantity of an owned item changes only the four quantity
/// bytes of the entry found and the checksum of the slot's section.
pub proof fn lemma_set_qty_frame(d: Seq<u8>, slot: int, base_id: u32, qty: u32)
    requires
        set_qty_outcome(d, slot, base_id, qty) is Ok,
    ensures
        only_touches(
            d,
            set_qty_outcome(d, slot, base_id, qty)->Ok_0,
            seq![
                (qty_pos_from(d, body_start(d, slot), body_end(d, slot), goods_handle(base_id))->0, 4),
                (sec_off(d, slot), 16),
            ],
        ),
{
    let h = goods_handle(base_id);
    let p = qty_pos_from(d, body_start(d, slot), body_end(d, slot), h)->0;
    lemma_qty_pos(d, body_start(d, slot), body_end(d, slot), h);
    let d1 = splice(d, p, u32_bytes(qty));
    lemma_splice_frame(d, p, u32_bytes(qty));
    lemma_checksum_frame(d1, sec_off(d, slot), sec_size(d, slot));
    lemma_touch_none(d);
    lemma_touch_more(d, d, d1, seq![], p, 4);
    lemma_touch_more(
        d,
        d1,
        set_qty_outcome(d, slot, base_id, qty)->Ok_0,
        seq![(p, 4)],
        sec_off(d, slot),
        16,
    );
    assert(seq![(p, 4int)].push((sec_off(d, slot), 16int)) =~= seq![(p, 4int), (sec_off(d, slot), 16int)]);
}

/// Setting the stats of `slot` changes only the eight stat fields, the
/// in-slot level (44 bytes past the anchor), the level copy beside the name
/// in the header section, and the checksums of the two sections.
pub proof fn lemma_set_stats_frame(d: Seq<u8>, slot: int, st: Seq<u8>)
    requires
        0 <= slot,
        st.len() == 8,
        set_stats_outcome(d, slot, st) is Ok,
    ensures
        only_touches(
            d,
            set_stats_outcome(d, slot, st)->Ok_0,
            seq![
                (anchor_pos(d, slot), 32),
                (anchor_pos(d, slot) + 44, 2),
                (name_pos(d, slot) + 34, 2),
                (sec_off(d, slot), 16),
                (sec_off(d, 10), 16),
            ],
        ),
{
    lemma_anchor_from(sec_body(d, slot), 0);
    let a = anchor_pos(d, slot);
    let level = level_of(st) as u16;
    let d1 = put_stats(d, a, st, 8);
    let d2 = splice(d1, a + 44, u16_bytes(level));
    let lo = name_pos(d, slot) + 34;
    let d3 = if lo + 2 <= d.len() {
        splice(d2, lo, u16_bytes(level))
    } else {
        d2
    };
    let d4 = with_checksum(d3, sec_off(d, slot), sec_size(d, slot));
    let e = with_checksum(d4, sec_off(d, 10), sec_size(d, 10));
    assert(e == stats_edited(d, slot, st));
    lemma_put_stats_outside(d, a, st);
    lemma_splice_frame(d1, a + 44, u16_bytes(level));
    if lo + 2 <= d.len() {
        lemma_splice_frame(d2, lo, u16_bytes(level));
    }
    lemma_checksum_frame(d3, sec_off(d, slot), sec_size(d, slot));
    lemma_checksum_frame(d4, sec_off(d, 10), sec_size(d, 10));
    lemma_touch_none(d);
    lemma_touch_more(d, d, d1, seq![], a, 32);
    let s1 = seq![(a, 32int)];
    assert(seq![].push((a, 32int)) =~= s1);
    lemma_touch_more(d, d1, d2, s1, a + 44, 2);
    let s2 = s1.push((a + 44, 2int));
    lemma_touch_more(d, d2, d3, s2, lo, 2);
    let s3 = s2.push((lo, 2int));
    lemma_touch_more(d, d3, d4, s3, sec_off(d, slot), 16);
    let s4 = s3.push((sec_off(d, slot), 16int));
    lemma_touch_more(d, d4, e, s4, sec_off(d, 10), 16);
    assert(s4.push((sec_off(d, 10), 16int)) =~= seq![
        (a, 32int),
        (a + 44, 2int),
        (lo, 2int),
        (sec_off(d, slot), 16int),
        (sec_off(d, 10), 16int),
    ]);
}

/// Deleting the character of `slot` changes only the slot's section, the
/// 40 bytes of its name entry in the header section, and the header
/// section's checksum.
pub proof fn lemma_delete_frame(d: Seq<u8>, slot: int)
    requires
        delete_outcome(d, slot) is Ok,
    ensures
        only_touches(
            d,
            delete_outcome(d, slot)->Ok_0,
            seq![
                (body_start(d, slot), body_end(d, slot) - body_start(d, slot)),
                (name_pos(d, slot), 40),
                (sec_off(d, slot), 16),
                (sec_off(d, 10), 16),
            ],
        ),
{
    let bs = body_start(d, slot);
    let be = body_end(d, slot);
    let np = name_pos(d, slot);
    let ne = min_int(np + 40, d.len() as int);
    let d1 = zeroed(d, bs, be);
    let d2 = zeroed(d1, np, ne);
    let d3 = with_checksum(d2, sec_off(d, slot), sec_size(d, slot));
    let e = with_checksum(d3, sec_off(d, 10), sec_size(d, 10));
    assert(e == delete_outcome(d, slot)->Ok_0);
    lemma_zeroed_outside(d, bs, be);
    lemma_zeroed_outside(d1, np, ne);
    assert(same_outside(d1, d2, np, np + 40));
    lemma_checksum_frame(d2, sec_off(d, slot), sec_size(d, slot));
    lemma_checksum_frame(d3, sec_off(d, 10), sec_size(d, 10));
    lemma_touch_none(d);
    lemma_touch_more(d, d, d1, seq![], bs, be - bs);
    let s1 = seq![(bs, be - bs)];
    assert(seq![].push((bs, be - bs)) =~= s1);
    lemma_touch_more(d, d1, d2, s1, np, 40);
    let s2 = s1.push((np, 40int));
    lemma_touch_more(d, d2, d3, s2, sec_off(d, slot), 16);
    let s3 = s2.push((sec_off(d, slot), 16int));
    lemma_touch_more(d, d3, e, s3, sec_off(d, 10), 16);
    assert(s3.push((sec_off(d, 10), 16int)) =~= seq![
        (bs, be - bs),
        (np, 40int),
        (sec_off(d, slot), 16int),
        (sec_off(d, 10), 16int),
    ]);
}

/// Adding a new item changes only the held common-items table of the slot
/// (its count, entries and the two counters after it, 0x9010 bytes from
/// the count) and the checksum of the slot's section.
pub proof fn lemma_append_frame(d: Seq<u8>, slot: int, base_id: u32, qty: u32)
    requires
        append_outcome(d, slot, base_id, qty) is Ok,
    ensures
        only_touches(
            d,
            append_outcome(d, slot, base_id, qty)->Ok_0,
            seq![(common_table(d, slot), 0x9010), (sec_off(d, slot), 16)],
        ),
{
    lemma_anchor_from(sec_body(d, slot), 0);
    let cd = common_table(d, slot);
    let d1 = appended(d, cd, base_id, qty);
    lemma_appended_frame(d, cd, base_id, qty);
    lemma_checksum_frame(d1, sec_off(d, slot), sec_size(d, slot));
    lemma_touch_none(d);
    lemma_touch_more(d, d, d1, seq![], cd, 0x9010);
    lemma_touch_more(
        d,
        d1,
        append_outcome(d, slot, base_id, qty)->Ok_0,
        seq![(cd, 0x9010int)],
        sec_off(d, slot),
        16,
    );
    assert(seq![(cd, 0x9010int)].push((sec_off(d, slot), 16int)) =~= seq![
        (cd, 0x9010int),
        (sec_off(d, slot), 16int),
    ]);
}

} // verus!
