//! When the edits succeed, what the readers report, and what the front-end
//! asks for, each stated against the bytes of the file and the user's
//! choices rather than through the specs that restate the code.
use crate::bnd4::{
    body_end, body_start, character_in, character_of, characters_in, characters_of,
    lemma_anchor_from, present_slots, sec_body, sec_off, sec_size, section_count, slots_in,
    span_body, stat_anchor, Character,
};
use crate::bytes::le32;
use crate::laws::{lemma_appended_entry, lemma_checksum_frame, lemma_splice_frame};
use crate::save::{append_outcome, give_outcome, owns, set_qty_outcome, set_stats_outcome};
use crate::screen::{todo_after, Cursor, Input, Key, Todo};
use crate::text::{lemma_trimmed_twice, parsed_u32, trimmed};
use crate::bytes::{splice, u32_bytes};
use vstd::prelude::*;

verus! {

// ---------------------------------------------------------------------------
// Stats.
/// For a slot that holds a character (the header section exists and the
/// slot body has a stat anchor), `set_stats` succeeds exactly when the eight
/// new stats sum to 80..=792, i.e. give a level of 1..=713.
pub proof fn lemma_set_stats_accepts(d: Seq<u8>, slot: int, st: Seq<u8>)
    requires
        0 <= slot < section_count(d),
        section_count(d) > 10,
        stat_anchor(sec_body(d, slot)) is Some,
        st.len() == 8,
    ensures
        set_stats_outcome(d, slot, st) is Ok <==> 80 <= st[0] + st[1] + st[2] + st[3] + st[4]
            + st[5] + st[6] + st[7] <= 792,
{
}

/// What `set_stats` writes into the slot body: stat `k` in the low byte of
/// the `k`th u32 from the stat anchor, and the level (the stats' sum minus
/// 79) as the u16 44 bytes past the anchor; this when the header's checksum
/// and its level copy lie outside the 46-byte record.
#[verifier::spinoff_prover]
#[verifier::rlimit(40)]
pub proof fn lemma_set_stats_writes(d: Seq<u8>, slot: int, st: Seq<u8>)
    requires
        0 <= slot,
        st.len() == 8,
        set_stats_outcome(d, slot, st) is Ok,
        ({
            let a = body_start(d, slot) + stat_anchor(sec_body(d, slot))->0;
            let lo = sec_off(d, 10) + 16 + 0x195E + slot * 588 + 34;
            &&& lo + 2 <= a || lo >= a + 46
            &&& sec_off(d, 10) + 16 <= a || sec_off(d, 10) >= a + 46
        }),
    ensures
        ({
            let e = set_stats_outcome(d, slot, st)->Ok_0;
            let a = body_start(d, slot) + stat_anchor(sec_body(d, slot))->0;
            &&& e.len() == d.len()
            &&& forall|k: int| 0 <= k < 8 ==> #[trigger] e[a + 4 * k] == st[k]
            &&& e[a + 44] + e[a + 45] * 0x100 == st[0] + st[1] + st[2] + st[3] + st[4] + st[5]
                + st[6] + st[7] - 79
        }),
{
    lemma_anchor_from(sec_body(d, slot), 0);
    let a = crate::save::anchor_pos(d, slot);
    let level = crate::save::level_of(st) as u16;
    let d1 = crate::save::put_stats(d, a, st, 8);
    let d2 = splice(d1, a + 44, crate::bytes::u16_bytes(level));
    let lo = crate::bnd4::name_pos(d, slot) + 34;
    let d3 = if lo + 2 <= d.len() {
        splice(d2, lo, crate::bytes::u16_bytes(level))
    } else {
        d2
    };
    let d4 = crate::save::with_checksum(d3, sec_off(d, slot), sec_size(d, slot));
    let e = crate::save::with_checksum(d4, sec_off(d, 10), sec_size(d, 10));
    assert(e == set_stats_outcome(d, slot, st)->Ok_0);
    crate::bytes::lemma_le16_splice(d1, a + 44, level);
    lemma_splice_frame(d1, a + 44, crate::bytes::u16_bytes(level));
    if lo + 2 <= d.len() {
        lemma_splice_frame(d2, lo, crate::bytes::u16_bytes(level));
    }
    lemma_checksum_frame(d3, sec_off(d, slot), sec_size(d, slot));
    lemma_checksum_frame(d4, sec_off(d, 10), sec_size(d, 10));
    assert forall|k: int| 0 <= k < 8 implies #[trigger] e[a + 4 * k] == st[k] by {
        assert(e[a + 4 * k] == d4[a + 4 * k]);
        assert(d4[a + 4 * k] == d3[a + 4 * k]);
        assert(d3[a + 4 * k] == d2[a + 4 * k]);
        assert(d2[a + 4 * k] == d1[a + 4 * k]);
        assert((a + 4 * k - a) % 4 == 0 && (a + 4 * k - a) / 4 == k);
    }
    assert(e[a + 44] == d2[a + 44] && e[a + 45] == d2[a + 45]) by {
        assert(e[a + 44] == d4[a + 44] && e[a + 45] == d4[a + 45]);
        assert(d4[a + 44] == d3[a + 44] && d4[a + 45] == d3[a + 45]);
    }
}

/// For a slot that holds a character whose rune field (48 bytes past the
/// stat anchor) lies in the file, `set_runes` succeeds and writes the value
/// there as a little-endian u32.
pub proof fn lemma_set_runes_accepts(d: Seq<u8>, slot: int, v: u32)
    requires
        0 <= slot < section_count(d),
        stat_anchor(sec_body(d, slot)) is Some,
        body_start(d, slot) + stat_anchor(sec_body(d, slot))->0 + 52 <= d.len(),
    ensures
        crate::save::set_runes_outcome(d, slot, v) is Ok,
        ({
            let e = crate::save::set_runes_outcome(d, slot, v)->Ok_0;
            let p = body_start(d, slot) + stat_anchor(sec_body(d, slot))->0 + 48;
            &&& e.len() == d.len()
            &&& e[p] + e[p + 1] * 0x100 + e[p + 2] * 0x1_0000 + e[p + 3] * 0x100_0000 == v
        }),
{
    lemma_anchor_from(sec_body(d, slot), 0);
    let p = body_start(d, slot) + stat_anchor(sec_body(d, slot))->0 + 48;
    let d1 = splice(d, p, u32_bytes(v));
    crate::bytes::lemma_le32_splice(d, p, v);
    lemma_checksum_frame(d1, sec_off(d, slot), sec_size(d, slot));
    let e = crate::save::set_runes_outcome(d, slot, v)->Ok_0;
    assert(e[p] == d1[p] && e[p + 1] == d1[p + 1] && e[p + 2] == d1[p + 2] && e[p + 3] == d1[p
        + 3]);
}

/// With a header section whose name record of `slot` lies in the file, a
/// name of at most 16 UTF-16 units is accepted.
pub proof fn lemma_set_name_accepts(d: Seq<u8>, slot: int, name: Seq<char>)
    requires
        0 <= slot,
        section_count(d) > 10,
        sec_off(d, 10) + 16 + 0x195E + slot * 588 + 32 <= d.len(),
        crate::utf16::utf16_encode(name).len() <= 16,
    ensures
        crate::save::set_name_outcome(d, slot, name) is Ok,
{
}

/// With a header section, deleting any slot of the table succeeds, and
/// leaves the slot's body all zeros when the header's checksum lies outside
/// it.
pub proof fn lemma_delete_accepts(d: Seq<u8>, slot: int)
    requires
        0 <= slot < section_count(d),
        section_count(d) > 10,
    ensures
        crate::save::delete_outcome(d, slot) is Ok,
        sec_off(d, 10) + 16 <= body_start(d, slot) || sec_off(d, 10) >= body_end(d, slot) ==> (
        forall|i: int|
            body_start(d, slot) <= i < body_end(d, slot) ==> #[trigger] crate::save::delete_outcome(
                d,
                slot,
            )->Ok_0[i] == 0),
{
    let bs = body_start(d, slot);
    let be = body_end(d, slot);
    let d1 = crate::bytes::zeroed(d, bs, be);
    let np = crate::bnd4::name_pos(d, slot);
    let d2 = crate::bytes::zeroed(d1, np, crate::bnd4::min_int(np + 40, d.len() as int));
    let d3 = crate::save::with_checksum(d2, sec_off(d, slot), sec_size(d, slot));
    let e = crate::save::with_checksum(d3, sec_off(d, 10), sec_size(d, 10));
    assert(e == crate::save::delete_outcome(d, slot)->Ok_0);
    if 0 <= sec_off(d, slot) && 0 <= sec_off(d, 10) {
        lemma_checksum_frame(d2, sec_off(d, slot), sec_size(d, slot));
        lemma_checksum_frame(d3, sec_off(d, 10), sec_size(d, 10));
        if sec_off(d, 10) + 16 <= bs || sec_off(d, 10) >= be {
            assert forall|i: int| bs <= i < be implies #[trigger] e[i] == 0 by {
                assert(e[i] == d3[i]);
                assert(d3[i] == d2[i]);
            }
        }
    }
}

// ---------------------------------------------------------------------------
// Giving a new item.
/// For a slot that holds a character whose held common-items table (its
/// count 0x370 bytes past the stat anchor, 0x9010 bytes in all) lies in the
/// file with a count below 0xA80, appending a new item succeeds, and giving
/// an item the character does not own appends it.
pub proof fn lemma_give_new_accepts(d: Seq<u8>, slot: int, base_id: u32, qty: u32)
    requires
        0 <= slot < section_count(d),
        stat_anchor(sec_body(d, slot)) is Some,
        body_start(d, slot) + stat_anchor(sec_body(d, slot))->0 + 0x370 + 0x9010 <= d.len(),
        le32(d, body_start(d, slot) + stat_anchor(sec_body(d, slot))->0 + 0x370) < 0xA80,
    ensures
        append_outcome(d, slot, base_id, qty) is Ok,
        !owns(d, slot, base_id) ==> give_outcome(d, slot, base_id, qty) == append_outcome(
            d,
            slot,
            base_id,
            qty,
        ),
{
    assert(crate::save::common_table(d, slot) == body_start(d, slot) + stat_anchor(
        sec_body(d, slot),
    )->0 + 0x370);
}

/// What appending writes: the held table's count grows by one, and the entry
/// at the old count holds the goods handle and the quantity.
#[verifier::spinoff_prover]
pub proof fn lemma_give_new_writes(d: Seq<u8>, slot: int, base_id: u32, qty: u32)
    requires
        0 <= slot,
        append_outcome(d, slot, base_id, qty) is Ok,
    ensures
        ({
            let e = append_outcome(d, slot, base_id, qty)->Ok_0;
            let cd = body_start(d, slot) + stat_anchor(sec_body(d, slot))->0 + 0x370;
            let entry = cd + 4 + le32(d, cd) * 12;
            &&& e.len() == d.len()
            &&& le32(e, cd) == le32(d, cd) + 1
            &&& le32(e, entry) == (0xB000_0000u32 | base_id)
            &&& le32(e, entry + 4) == qty
        }),
{
    lemma_anchor_from(sec_body(d, slot), 0);
    let cd = body_start(d, slot) + stat_anchor(sec_body(d, slot))->0 + 0x370;
    let x = crate::save::appended(d, cd, base_id, qty);
    lemma_appended_entry(d, cd, base_id, qty);
    let off = sec_off(d, slot);
    lemma_checksum_frame(x, off, sec_size(d, slot));
    let e = append_outcome(d, slot, base_id, qty)->Ok_0;
    let entry = cd + 4 + le32(d, cd) * 12;
    assert(e[cd] == x[cd] && e[cd + 1] == x[cd + 1] && e[cd + 2] == x[cd + 2] && e[cd + 3]
        == x[cd + 3]);
    assert(le32(d, cd) * 12 <= 0xA7F * 12);
    assert(e[entry] == x[entry] && e[entry + 1] == x[entry + 1] && e[entry + 2] == x[entry + 2]
        && e[entry + 3] == x[entry + 3]);
    assert(e[entry + 4] == x[entry + 4] && e[entry + 5] == x[entry + 5] && e[entry + 6] == x[entry
        + 6] && e[entry + 7] == x[entry + 7]);
}

// ---------------------------------------------------------------------------
// Setting the quantity of an owned item.
proof fn lemma_scan_finds(d: Seq<u8>, k: int, end: int, h: u32, i: int)
    requires
        0 <= k <= i,
        i + 8 <= end <= d.len(),
        le32(d, i) == h,
        le32(d, i + 4) < 0x4000_0000,
    ensures
        crate::save::qty_pos_from(d, k, end, h) is Some,
        crate::save::qty_pos_from(d, k, end, h)->0 <= i + 4,
        (forall|j: int| k <= j < i ==> !(#[trigger] le32(d, j) == h && le32(d, j + 4) < 0x4000_0000))
            ==> crate::save::qty_pos_from(d, k, end, h) == Some(i + 4),
    decreases i - k,
{
    if !(le32(d, k) == h && le32(d, k + 4) < 0x4000_0000) {
        lemma_scan_finds(d, k + 1, end, h, i);
    }
}

/// If the slot body holds, at `i`, the goods handle of `base_id` followed by
/// a value below 0x4000_0000 (an inventory quantity, not an item id), then
/// `set_item_quantity` succeeds, wherever in the body that is; and when no
/// such pair comes earlier in the body, the quantity it writes is the one at
/// `i + 4`, while the handle stays.
pub proof fn lemma_set_qty_finds(d: Seq<u8>, slot: int, base_id: u32, qty: u32, i: int)
    requires
        0 <= slot < section_count(d),
        body_start(d, slot) <= i,
        i + 8 <= body_end(d, slot),
        le32(d, i) == (0xB000_0000u32 | base_id),
        le32(d, i + 4) < 0x4000_0000,
    ensures
        set_qty_outcome(d, slot, base_id, qty) is Ok,
        (forall|j: int|
            body_start(d, slot) <= j < i ==> !(#[trigger] le32(d, j) == (0xB000_0000u32 | base_id)
                && le32(d, j + 4) < 0x4000_0000)) ==> ({
            let e = set_qty_outcome(d, slot, base_id, qty)->Ok_0;
            &&& le32(e, i + 4) == qty
            &&& le32(e, i) == le32(d, i)
        }),
{
    let h = 0xB000_0000u32 | base_id;
    let bs = body_start(d, slot);
    let be = body_end(d, slot);
    lemma_scan_finds(d, bs, be, h, i);
    if forall|j: int| bs <= j < i ==> !(#[trigger] le32(d, j) == h && le32(d, j + 4) < 0x4000_0000) {
        let p = i + 4;
        let d1 = splice(d, p, u32_bytes(qty));
        crate::bytes::lemma_le32_splice(d, p, qty);
        lemma_splice_frame(d, p, u32_bytes(qty));
        lemma_checksum_frame(d1, sec_off(d, slot), sec_size(d, slot));
        let e = set_qty_outcome(d, slot, base_id, qty)->Ok_0;
        assert(e[p] == d1[p] && e[p + 1] == d1[p + 1] && e[p + 2] == d1[p + 2] && e[p + 3]
            == d1[p + 3]);
        assert(e[i] == d[i] && e[i + 1] == d[i + 1] && e[i + 2] == d[i + 2] && e[i + 3] == d[i
            + 3]) by {
            assert(e[i] == d1[i] && e[i + 1] == d1[i + 1] && e[i + 2] == d1[i + 2] && e[i + 3]
                == d1[i + 3]);
        }
    }
}

// ---------------------------------------------------------------------------
// Owned items.
/// At `j` of the slot body `b` lies an inventory entry of goods `bid`: the
/// handle 0xB000_0000 + `bid`, then a quantity in 1..=99_999.
pub open spec fn goods_at(b: Seq<u8>, j: int, bid: u32) -> bool {
    &&& 0 <= j
    &&& j + 8 <= b.len()
    &&& le32(b, j) == 0xB000_0000 + bid
    &&& 1 <= le32(b, j + 4) <= 99_999
}

/// `j` is the first entry of goods `bid` at or after `i`.
pub open spec fn first_goods(b: Seq<u8>, i: int, j: int, bid: u32) -> bool {
    &&& i <= j
    &&& goods_at(b, j, bid)
    &&& forall|k: int| i <= k < j ==> !#[trigger] goods_at(b, k, bid)
}

proof fn lemma_goods_at(b: Seq<u8>, k: int, bid: u32)
    requires
        bid < 0x1000_0000,
        0 <= k,
        k + 8 <= b.len(),
    ensures
        goods_at(b, k, bid) <==> (crate::save::is_goods_entry(b, k) && crate::save::goods_base(b, k)
            == bid),
{
    let w = le32(b, k);
    assert(0 <= w < 0x1_0000_0000);
}

proof fn lemma_owned_from_iff(b: Seq<u8>, i: int, seen: Set<u32>, bid: u32, q: u32)
    requires
        0 <= i,
        !seen.contains(bid),
        bid < 0x1000_0000,
        crate::item_db::item_name_of(bid) is Some,
    ensures
        crate::save::owned_from(b, i, seen).contains((bid, q)) <==> exists|j: int|
            #[trigger] first_goods(b, i, j, bid) && le32(b, j + 4) == q,
    decreases b.len() - i,
{
    let r = crate::save::owned_from(b, i, seen);
    if i + 8 > b.len() {
        assert(r.len() == 0);
        if exists|j: int| #[trigger] first_goods(b, i, j, bid) && le32(b, j + 4) == q {
            let j = choose|j: int| #[trigger] first_goods(b, i, j, bid) && le32(b, j + 4) == q;
            assert(false);
        }
    } else {
        lemma_goods_at(b, i, bid);
        let g = crate::save::goods_base(b, i);
        if crate::save::is_goods_entry(b, i) && !seen.contains(g) {
            let s2 = seen.insert(g);
            let rest = crate::save::owned_from(b, i + 1, s2);
            if g == bid {
                crate::laws::lemma_owned_from_distinct(b, i + 1, s2);
                let qi = le32(b, i + 4) as u32;
                assert(r == seq![(bid, qi)] + rest);
                if r.contains((bid, q)) {
                    let k = choose|k: int| 0 <= k < r.len() && r[k] == (bid, q);
                    if k > 0 {
                        assert(r[k] == rest[k - 1]);
                        assert(!s2.contains(rest[k - 1].0));
                    }
                    assert(first_goods(b, i, i, bid));
                }
                if exists|j: int| #[trigger] first_goods(b, i, j, bid) && le32(b, j + 4) == q {
                    let j = choose|j: int| #[trigger] first_goods(b, i, j, bid) && le32(b, j + 4) == q;
                    if j > i {
                        assert(!goods_at(b, i, bid));
                    }
                    assert(r[0] == (bid, q));
                }
            } else {
                lemma_owned_from_iff(b, i + 1, s2, bid, q);
                assert(!goods_at(b, i, bid));
                let named = crate::item_db::item_name_of(g) is Some;
                if named {
                    assert(r == seq![(g, le32(b, i + 4) as u32)] + rest);
                } else {
                    assert(r == rest);
                }
                assert(r.contains((bid, q)) <==> rest.contains((bid, q))) by {
                    if named {
                        if r.contains((bid, q)) {
                            let k = choose|k: int| 0 <= k < r.len() && r[k] == (bid, q);
                            assert(k > 0);
                            assert(rest[k - 1] == (bid, q));
                        }
                        if rest.contains((bid, q)) {
                            let k = choose|k: int| 0 <= k < rest.len() && rest[k] == (bid, q);
                            assert(r[k + 1] == (bid, q));
                        }
                    }
                }
                lemma_first_shift(b, i, bid, q);
            }
        } else {
            lemma_owned_from_iff(b, i + 1, seen, bid, q);
            assert(r == crate::save::owned_from(b, i + 1, seen));
            assert(!goods_at(b, i, bid));
            lemma_first_shift(b, i, bid, q);
        }
    }
}

/// With no entry of `bid` at `i`, the first one from `i` is the first one
/// from `i + 1`.
proof fn lemma_first_shift(b: Seq<u8>, i: int, bid: u32, q: u32)
    requires
        !goods_at(b, i, bid),
    ensures
        (exists|j: int| #[trigger] first_goods(b, i, j, bid) && le32(b, j + 4) == q) <==> (exists|j: int|
            #[trigger] first_goods(b, i + 1, j, bid) && le32(b, j + 4) == q),
{
    if exists|j: int| #[trigger] first_goods(b, i, j, bid) && le32(b, j + 4) == q {
        let j = choose|j: int| #[trigger] first_goods(b, i, j, bid) && le32(b, j + 4) == q;
        assert(j != i);
        assert(first_goods(b, i + 1, j, bid));
    }
    if exists|j: int| #[trigger] first_goods(b, i + 1, j, bid) && le32(b, j + 4) == q {
        let j = choose|j: int| #[trigger] first_goods(b, i + 1, j, bid) && le32(b, j + 4) == q;
        assert forall|k: int| i <= k < j implies !#[trigger] goods_at(b, k, bid) by {
            if k > i {
                assert(i + 1 <= k < j);
            }
        }
        assert(first_goods(b, i, j, bid));
    }
}

/// `owned_items` lists an item the table names, with quantity `q`, exactly
/// when the slot body holds an inventory entry of it (its goods handle, then
/// a quantity in 1..=99_999) and the first such entry holds `q`.
pub proof fn lemma_owned_items_bytes(d: Seq<u8>, slot: int, bid: u32, q: u32)
    requires
        0 <= slot < section_count(d),
        bid < 0x1000_0000,
        crate::item_db::item_name_of(bid) is Some,
    ensures
        crate::save::owned_list(d, slot).contains((bid, q)) <==> exists|j: int|
            #[trigger] first_goods(sec_body(d, slot), 0, j, bid) && le32(sec_body(d, slot), j + 4) == q,
{
    lemma_owned_from_iff(sec_body(d, slot), 0, Set::empty(), bid, q);
}

// ---------------------------------------------------------------------------
// What the characters read.
/// Each character that `characters` lists reads its fields from the file's
/// bytes: the level is the u16 44 bytes past the stat anchor of its slot
/// body, the runes the u32 48 bytes past it (0 when the body ends before),
/// and the play time the full u32 38 bytes into the slot's name record in
/// the header section (0 when the file ends before).
pub proof fn lemma_listed_fields(d: Seq<u8>, chars: Seq<Character>, j: int)
    requires
        characters_of(d, chars),
        0 <= j < chars.len(),
    ensures
        ({
            let c = chars[j];
            let b = sec_body(d, c.slot as int);
            let a = stat_anchor(b)->0;
            let np = sec_off(d, 10) + 16 + 0x195E + c.slot * 588;
            &&& stat_anchor(b) is Some
            &&& c.level == b[a + 44] + b[a + 45] * 0x100
            &&& c.runes == (if a + 52 <= b.len() {
                b[a + 48] + b[a + 49] * 0x100 + b[a + 50] * 0x1_0000 + b[a + 51] * 0x100_0000
            } else {
                0
            })
            &&& c.playtime_secs == (if np + 42 <= d.len() {
                d[np + 38] + d[np + 39] * 0x100 + d[np + 40] * 0x1_0000 + d[np + 41] * 0x100_0000
            } else {
                0
            })
        }),
{
    let s = present_slots(d)[j];
    let all = Seq::new(10, |x: int| x);
    all.filter_lemma(|x: int| crate::bnd4::char_present(d, x));
    assert(character_of(d, s, chars[j]));
}

/// The same of the characters read over any list of sections: each one's
/// play time is the full u32 38 bytes into its name record in the header
/// section of the list, its runes and level those of its slot body.
pub proof fn lemma_found_fields(d: Seq<u8>, g: Seq<(int, int)>, chars: Seq<Character>, j: int)
    requires
        characters_in(d, g, chars),
        0 <= j < chars.len(),
    ensures
        ({
            let c = chars[j];
            let b = span_body(d, g[c.slot as int].0, g[c.slot as int].1);
            let a = stat_anchor(b)->0;
            let np = g[10].0 + 16 + 0x195E + c.slot * 588;
            &&& c.slot < 10
            &&& stat_anchor(b) is Some
            &&& c.level == b[a + 44] + b[a + 45] * 0x100
            &&& c.runes == (if a + 52 <= b.len() {
                b[a + 48] + b[a + 49] * 0x100 + b[a + 50] * 0x1_0000 + b[a + 51] * 0x100_0000
            } else {
                0
            })
            &&& c.playtime_secs == (if np + 42 <= d.len() {
                d[np + 38] + d[np + 39] * 0x100 + d[np + 40] * 0x1_0000 + d[np + 41] * 0x100_0000
            } else {
                0
            })
        }),
{
    let s = slots_in(d, g)[j];
    let all = Seq::new(10, |x: int| x);
    all.filter_lemma(|x: int| crate::bnd4::present_in(d, g, x));
    assert(character_in(d, g, s, chars[j]));
}

// ---------------------------------------------------------------------------
// What the front-end asks for.
/// Committing a quantity `q` in the add-item search while a character is
/// selected gives the search result under the cursor: the action is to give
/// result `add_sel`, when the cursor is on a result.
pub proof fn lemma_give_selected(c: Cursor, b: Seq<char>, shown: nat, q: u32)
    requires
        c.input == Input::AddQty,
        c.char_sel < c.char_count,
        c.add_sel < shown,
        parsed_u32(trimmed(b)) == Some(q),
    ensures
        todo_after(c, Key::Enter, b, shown) == Todo::GiveItem(c.add_sel, q),
{
    lemma_trimmed_twice(b);
}

/// Committing a quantity `q` in the item list while a character is selected
/// sets the quantity of the owned item under the cursor.
pub proof fn lemma_qty_selected(c: Cursor, b: Seq<char>, shown: nat, q: u32)
    requires
        c.input == Input::ItemQty,
        c.char_sel < c.char_count,
        c.item_sel < c.item_count,
        parsed_u32(trimmed(b)) == Some(q),
    ensures
        todo_after(c, Key::Enter, b, shown) == Todo::SetItemQty(c.item_sel, q),
{
}

/// Committing a number `v` on the runes prompt while a character is selected
/// sets that character's runes to `v`.
pub proof fn lemma_runes_committed(c: Cursor, b: Seq<char>, shown: nat, v: u32)
    requires
        c.input == Input::Runes,
        c.char_sel < c.char_count,
        parsed_u32(trimmed(b)) == Some(v),
    ensures
        todo_after(c, Key::Enter, b, shown) == Todo::SetRunes(v),
{
}

/// In the main view with the snapshot list focused, Enter restores and `d`
/// deletes the snapshot under the cursor.
pub proof fn lemma_snapshot_selected(c: Cursor, b: Seq<char>, shown: nat)
    requires
        c.input == Input::Idle,
        c.mode == crate::screen::Mode::Normal,
        c.focus == crate::screen::Focus::Snapshots,
        c.snap_sel < c.snap_count,
    ensures
        todo_after(c, Key::Enter, b, shown) == Todo::LoadSnapshot(c.snap_sel),
        todo_after(c, Key::Char('d'), b, shown) == Todo::DeleteSnapshot(c.snap_sel),
{
}

/// In the main view with a character selected and the character list
/// focused, `i` opens that character's items.
pub proof fn lemma_open_items_selected(c: Cursor, b: Seq<char>, shown: nat)
    requires
        c.input == Input::Idle,
        c.mode == crate::screen::Mode::Normal,
        c.focus == crate::screen::Focus::Chars,
        c.char_sel < c.char_count,
    ensures
        todo_after(c, Key::Char('i'), b, shown) == Todo::OpenItems,
{
}

/// In the main view the cursor keys move one entry in the focused list and
/// stop at its ends.
pub proof fn lemma_cursor_moves(c: Cursor, found: nat, shown: nat)
    requires
        c.input == Input::Idle,
        c.mode == crate::screen::Mode::Normal,
        c.focus == crate::screen::Focus::Snapshots,
        c.snap_sel < c.snap_count,
    ensures
        crate::screen::cursor_after(c, Key::Down, found, shown).snap_sel == if c.snap_sel + 1
            < c.snap_count {
            c.snap_sel + 1
        } else {
            c.snap_sel as int
        },
        crate::screen::cursor_after(c, Key::Up, found, shown).snap_sel == if c.snap_sel > 0 {
            c.snap_sel - 1
        } else {
            0
        },
{
}

} // verus!
