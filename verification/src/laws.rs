//! What the edits promise when read back: the laws of the library, over the
//! same spec functions that the edits' contracts use.
use crate::bnd4::{
    anchor_from, anchor_limit, body_end, min_int, body_start, char_level, char_name, char_present, char_runes,
    char_stats, character_of, characters_of, entry_base, is_anchor, lemma_anchor_from,
    lemma_anchor_least, name_pos, present_slots, sec_body, sec_off, sec_size, section_count,
    stat_anchor, stat_sum, stats_at, zstr_units, Character,
};
use crate::bytes::{
    le16, le32, lemma_le16_splice, lemma_le32_splice, splice, u16_bytes, u32_bytes, zeroed,
};
use crate::save::{
    goods_base, is_goods_entry, owned_from, owned_list,
    anchor_pos, append_outcome, appended, common_table, delete_outcome, goods_handle, qty_pos_from,
    set_qty_outcome, level_of, md5_digest, name_field, put_stats,
    set_name_outcome, set_runes_outcome, set_stats_outcome, stats_edited, with_checksum,
};
use crate::item_db::{item_name_of, lemma_named_ids_small};
use crate::utf16::{lemma_decode_encode, utf16_decode, utf16_encode};
use vstd::prelude::*;

verus! {

/// End of the section table: the file header and every section entry lie
/// before it.
pub open spec fn table_end(d: Seq<u8>) -> int {
    entry_base(section_count(d))
}

/// `a` and `b` have the same length and the same bytes outside `[lo, hi)`.
pub open spec fn same_outside(a: Seq<u8>, b: Seq<u8>, lo: int, hi: int) -> bool {
    &&& a.len() == b.len()
    &&& forall|i: int| 0 <= i < a.len() && !(lo <= i < hi) ==> #[trigger] b[i] == a[i]
}

/// The stored checksum of section `i` is the MD5 of its body.
pub open spec fn checksum_ok(d: Seq<u8>, i: int) -> bool {
    body_start(d, i) < body_end(d, i) ==> d.subrange(sec_off(d, i), sec_off(d, i) + 16)
        == md5_digest(d.subrange(body_start(d, i), body_end(d, i)))@
}

pub(crate) proof fn lemma_splice_frame(d: Seq<u8>, o: int, b: Seq<u8>)
    requires
        0 <= o,
        o + b.len() <= d.len(),
    ensures
        same_outside(d, splice(d, o, b), o, o + b.len()),
        forall|k: int| 0 <= k < b.len() ==> #[trigger] splice(d, o, b)[o + k] == b[k],
{
    let s = splice(d, o, b);
    assert forall|i: int| 0 <= i < d.len() && !(o <= i < o + b.len()) implies #[trigger] s[i]
        == d[i] by {}
    assert forall|k: int| 0 <= k < b.len() implies #[trigger] s[o + k] == b[k] by {}
}

pub(crate) proof fn lemma_checksum_frame(d: Seq<u8>, off: int, size: int)
    requires
        0 <= off,
    ensures
        same_outside(d, with_checksum(d, off, size), off, off + 16),
{
    let start = off + 16;
    let end = if off + size < d.len() {
        off + size
    } else {
        d.len() as int
    };
    if start < end {
        lemma_splice_frame(d, off, md5_digest(d.subrange(start, end))@);
    }
}

/// The section table ends inside the file.
pub(crate) proof fn lemma_table_end(d: Seq<u8>)
    requires
        d.len() >= 0x40,
    ensures
        0x40 <= table_end(d) <= d.len(),
{
    if d.len() >= 0x60 {
        let fit = (d.len() - 0x40) / 0x20;
        assert(fit * 0x20 <= d.len() - 0x40) by (nonlinear_arith)
            requires
                fit == (d.len() - 0x40) / 0x20,
                d.len() >= 0x60,
        ;
    }
}

/// Two files with the same bytes up to the end of the section table have the
/// same sections.
pub(crate) proof fn lemma_same_table(d: Seq<u8>, e: Seq<u8>)
    requires
        d.len() >= 0x40,
        e.len() == d.len(),
        forall|i: int| 0 <= i < table_end(d) ==> #[trigger] e[i] == d[i],
    ensures
        section_count(e) == section_count(d),
        table_end(e) == table_end(d),
        forall|i: int|
            0 <= i < section_count(d) ==> sec_off(e, i) == sec_off(d, i) && sec_size(e, i)
                == sec_size(d, i),
{
    lemma_table_end(d);
    assert(e[0x0C] == d[0x0C] && e[0x0D] == d[0x0D] && e[0x0E] == d[0x0E] && e[0x0F] == d[0x0F]);
    assert(section_count(e) == section_count(d));
    assert forall|i: int| 0 <= i < section_count(d) implies sec_off(e, i) == sec_off(d, i)
        && sec_size(e, i) == sec_size(d, i) by {
        let b = entry_base(i);
        assert(b + 0x20 <= table_end(d));
        assert(e[b + 8] == d[b + 8]);
        assert(e[b + 9] == d[b + 9]);
        assert(e[b + 10] == d[b + 10]);
        assert(e[b + 11] == d[b + 11]);
        assert(e[b + 12] == d[b + 12]);
        assert(e[b + 13] == d[b + 13]);
        assert(e[b + 14] == d[b + 14]);
        assert(e[b + 15] == d[b + 15]);
        assert(e[b + 16] == d[b + 16]);
        assert(e[b + 17] == d[b + 17]);
        assert(e[b + 18] == d[b + 18]);
        assert(e[b + 19] == d[b + 19]);
    }
}

/// Every character that `characters` lists is self-consistent: its level is
/// in 1..=713 and its eight stats sum to the level plus 79.
pub proof fn lemma_characters_consistent(d: Seq<u8>, chars: Seq<Character>, j: int)
    requires
        characters_of(d, chars),
        0 <= j < chars.len(),
    ensures
        1 <= chars[j].level <= 713,
        stat_sum(chars[j].stats@) == chars[j].level + 79,
        0 <= chars[j].slot < 10,
{
    let s = present_slots(d)[j];
    let all = Seq::new(10, |x: int| x);
    let pred = |x: int| char_present(d, x);
    all.lemma_filter_pred(pred, j);
    assert(all.filter(pred).len() == chars.len());
    assert(character_of(d, s, chars[j]));
    let b = sec_body(d, s);
    lemma_anchor_from(b, 0);
}

// ---------------------------------------------------------------------------
// Stats.
/// The stats and in-slot level copy that `set_stats` writes, before the
/// header copy and the checksums.
pub open spec fn stats_core(d: Seq<u8>, slot: int, st: Seq<u8>) -> Seq<u8> {
    let A = anchor_pos(d, slot);
    splice(put_stats(d, A, st, 8), A + 44, u16_bytes(level_of(st) as u16))
}

/// `set_stats` keeps the section table, and inside the slot body it writes
/// only the stats and the level copy.
proof fn lemma_stats_frame(d: Seq<u8>, slot: int, st: Seq<u8>)
    requires
        d.len() >= 0x40,
        st.len() == 8,
        0 <= slot,
        set_stats_outcome(d, slot, st) is Ok,
        body_start(d, slot) <= body_end(d, slot),
        sec_off(d, slot) >= table_end(d),
        sec_off(d, 10) >= table_end(d),
        sec_off(d, 10) + 16 <= body_start(d, slot) || sec_off(d, 10) >= body_end(d, slot),
        name_pos(d, slot) + 36 <= body_start(d, slot) || name_pos(d, slot) + 34 >= body_end(
            d,
            slot,
        ),
    ensures
        ({
            let e = stats_edited(d, slot, st);
            let c = stats_core(d, slot, st);
            &&& e.len() == d.len()
            &&& c.len() == d.len()
            &&& forall|i: int| 0 <= i < table_end(d) ==> #[trigger] e[i] == d[i]
            &&& forall|i: int|
                body_start(d, slot) <= i < body_end(d, slot) ==> #[trigger] e[i] == c[i]
        }),
{
    let b = sec_body(d, slot);
    lemma_anchor_from(b, 0);
    let A = anchor_pos(d, slot);
    let level = level_of(st) as u16;
    let d1 = put_stats(d, A, st, 8);
    let d2 = splice(d1, A + 44, u16_bytes(level));
    let lo = name_pos(d, slot) + 34;
    let d3 = if lo + 2 <= d.len() {
        splice(d2, lo, u16_bytes(level))
    } else {
        d2
    };
    let d4 = with_checksum(d3, sec_off(d, slot), sec_size(d, slot));
    let e = with_checksum(d4, sec_off(d, 10), sec_size(d, 10));
    assert(e == stats_edited(d, slot, st));
    assert(d2 == stats_core(d, slot, st));
    lemma_table_end(d);
    assert(same_outside(d, d1, A, A + 29));
    lemma_splice_frame(d1, A + 44, u16_bytes(level));
    if lo + 2 <= d.len() {
        lemma_splice_frame(d2, lo, u16_bytes(level));
    }
    assert(same_outside(d2, d3, lo, lo + 2));
    lemma_checksum_frame(d3, sec_off(d, slot), sec_size(d, slot));
    lemma_checksum_frame(d4, sec_off(d, 10), sec_size(d, 10));
    assert forall|i: int| 0 <= i < table_end(d) implies #[trigger] e[i] == d[i] by {
        assert(e[i] == d4[i]);
        assert(d4[i] == d3[i]);
        assert(d3[i] == d2[i]);
        assert(d2[i] == d1[i]);
    }
    assert forall|i: int| body_start(d, slot) <= i < body_end(d, slot) implies #[trigger] e[i]
        == d2[i] by {
        assert(e[i] == d4[i]);
        assert(d4[i] == d3[i]);
    }
}

/// Stats written by `set_stats` are read back: the slot still holds a
/// character, with the new stats and the level that they give (their sum
/// minus 79). This holds when the two edited sections lie after the section
/// table, when the header's checksum and its level copy lie outside the slot
/// body, and when the new stats make no record before the old anchor
/// self-consistent.
pub proof fn lemma_set_stats_read_back(d: Seq<u8>, slot: int, st: Seq<u8>)
    requires
        d.len() >= 0x40,
        st.len() == 8,
        0 <= slot < 10,
        set_stats_outcome(d, slot, st) is Ok,
        body_start(d, slot) <= body_end(d, slot),
        sec_off(d, slot) >= table_end(d),
        sec_off(d, 10) >= table_end(d),
        sec_off(d, 10) + 16 <= body_start(d, slot) || sec_off(d, 10) >= body_end(d, slot),
        name_pos(d, slot) + 36 <= body_start(d, slot) || name_pos(d, slot) + 34 >= body_end(
            d,
            slot,
        ),
        forall|j: int|
            0 <= j < stat_anchor(sec_body(d, slot))->0 ==> !is_anchor(
                sec_body(stats_edited(d, slot, st), slot),
                j,
            ),
    ensures
        char_present(stats_edited(d, slot, st), slot),
        char_stats(stats_edited(d, slot, st), slot) == st,
        char_level(stats_edited(d, slot, st), slot) == level_of(st),
{
    lemma_stats_frame(d, slot, st);
    lemma_stats_core(d, stats_edited(d, slot, st), slot, st);
}

/// The read-back of `set_stats`, from the frame of its result `e`.
proof fn lemma_stats_core(d: Seq<u8>, e: Seq<u8>, slot: int, st: Seq<u8>)
    requires
        d.len() >= 0x40,
        st.len() == 8,
        0 <= slot < 10,
        section_count(d) > 10,
        slot < section_count(d),
        stat_anchor(sec_body(d, slot)) is Some,
        80 <= stat_sum(st) <= 792,
        body_start(d, slot) <= body_end(d, slot),
        e.len() == d.len(),
        forall|i: int| 0 <= i < table_end(d) ==> #[trigger] e[i] == d[i],
        forall|i: int|
            body_start(d, slot) <= i < body_end(d, slot) ==> #[trigger] e[i] == stats_core(
                d,
                slot,
                st,
            )[i],
        forall|j: int|
            0 <= j < stat_anchor(sec_body(d, slot))->0 ==> !is_anchor(sec_body(e, slot), j),
    ensures
        char_present(e, slot),
        char_stats(e, slot) == st,
        char_level(e, slot) == level_of(st),
{
    let bs = body_start(d, slot);
    let be = body_end(d, slot);
    let b = sec_body(d, slot);
    let a = stat_anchor(b)->0;
    lemma_anchor_from(b, 0);
    let A = anchor_pos(d, slot);
    let level = level_of(st) as u16;
    let d1 = put_stats(d, A, st, 8);
    let c = stats_core(d, slot, st);
    lemma_same_table(d, e);
    let nb = sec_body(e, slot);
    assert(nb.len() == b.len());
    assert forall|k: int| 0 <= k < nb.len() implies #[trigger] nb[k] == c[bs + k] by {
        assert(nb[k] == e[bs + k]);
    }
    lemma_le16_splice(d1, A + 44, level);
    assert(le16(nb, a + 44) == le16(c, A + 44));
    lemma_splice_frame(d1, A + 44, u16_bytes(level));
    assert(stats_at(nb, a) =~= st) by {
        assert forall|k: int| 0 <= k < 8 implies stats_at(nb, a)[k] == st[k] by {
            assert(nb[a + 4 * k] == c[A + 4 * k]);
            assert(c[A + 4 * k] == d1[A + 4 * k]);
            assert((A + 4 * k - A) % 4 == 0);
            assert((A + 4 * k - A) / 4 == k);
        }
    }
    assert(is_anchor(nb, a));
    lemma_anchor_least(nb, a);
}

// ---------------------------------------------------------------------------
// Runes.
/// Runes written by `set_runes` are read back, when the slot section lies
/// after the section table and its body holds the rune field.
pub proof fn lemma_set_runes_read_back(d: Seq<u8>, slot: int, v: u32)
    requires
        d.len() >= 0x40,
        0 <= slot < 10,
        section_count(d) > 10,
        set_runes_outcome(d, slot, v) is Ok,
        body_start(d, slot) <= body_end(d, slot),
        sec_off(d, slot) >= table_end(d),
        stat_anchor(sec_body(d, slot))->0 + 52 <= sec_body(d, slot).len(),
    ensures
        char_present(set_runes_outcome(d, slot, v)->Ok_0, slot),
        char_runes(set_runes_outcome(d, slot, v)->Ok_0, slot) == v,
        char_stats(set_runes_outcome(d, slot, v)->Ok_0, slot) == char_stats(d, slot),
        char_level(set_runes_outcome(d, slot, v)->Ok_0, slot) == char_level(d, slot),
{
    let bs = body_start(d, slot);
    let b = sec_body(d, slot);
    let a = stat_anchor(b)->0;
    lemma_anchor_from(b, 0);
    let p = anchor_pos(d, slot) + 48;
    let d1 = splice(d, p, u32_bytes(v));
    let e = with_checksum(d1, sec_off(d, slot), sec_size(d, slot));
    assert(e == set_runes_outcome(d, slot, v)->Ok_0);
    lemma_table_end(d);
    lemma_splice_frame(d, p, u32_bytes(v));
    lemma_checksum_frame(d1, sec_off(d, slot), sec_size(d, slot));
    assert forall|i: int| 0 <= i < table_end(d) implies #[trigger] e[i] == d[i] by {
        assert(e[i] == d1[i]);
    }
    lemma_same_table(d, e);
    let nb = sec_body(e, slot);
    assert(nb.len() == b.len());
    assert forall|k: int| 0 <= k < nb.len() implies #[trigger] nb[k] == d1[bs + k] by {
        assert(e[bs + k] == d1[bs + k]);
    }
    // the record and everything before it is unchanged
    assert forall|k: int| 0 <= k < a + 48 implies #[trigger] nb[k] == b[k] by {
        assert(d1[bs + k] == d[bs + k]);
    }
    assert forall|j: int| 0 <= j <= a implies is_anchor(nb, j) == is_anchor(b, j) by {
        assert(stats_at(nb, j) =~= stats_at(b, j));
        assert(nb[j + 44] == b[j + 44]);
        assert(nb[j + 45] == b[j + 45]);
    }
    lemma_anchor_least(nb, a);
    lemma_le32_splice(d, p, v);
    assert(le32(nb, a + 48) == le32(d1, p));
    assert(stats_at(nb, a) =~= stats_at(b, a));
}

// ---------------------------------------------------------------------------
// Names.
/// The zero-terminated units of a name field are the name's units, when
/// none of them is zero.
proof fn lemma_name_field_units(e: Seq<u8>, np: int, units: Seq<u16>, k: int)
    requires
        0 <= np,
        np + 32 <= e.len(),
        units.len() <= 16,
        0 <= k <= units.len(),
        forall|j: int| 0 <= j < units.len() ==> units[j] != 0,
        e.subrange(np, np + 32) == name_field(units),
    ensures
        zstr_units(e, np + 2 * k, np + 32) == units.skip(k),
    decreases units.len() - k,
{
    let f = name_field(units);
    if k < 16 {
        assert(e[np + 2 * k] == f[2 * k]) by {
            assert(e.subrange(np, np + 32)[2 * k] == e[np + 2 * k]);
        }
    }
    if k < units.len() {
        assert(e[np + 2 * k + 1] == f[2 * k + 1]) by {
            assert(e.subrange(np, np + 32)[2 * k + 1] == e[np + 2 * k + 1]);
        }
        assert((2 * k) / 2 == k && (2 * k) % 2 == 0);
        assert((2 * k + 1) / 2 == k && (2 * k + 1) % 2 == 1);
        let u = units[k];
        assert(le16(e, np + 2 * k) == u) by {
            assert(u == u % 256 + (u / 256) * 256);
        }
        lemma_name_field_units(e, np, units, k + 1);
        assert(units.skip(k) =~= seq![u] + units.skip(k + 1));
    } else if k < 16 {
        assert(e[np + 2 * k + 1] == f[2 * k + 1]) by {
            assert(e.subrange(np, np + 32)[2 * k + 1] == e[np + 2 * k + 1]);
        }
        assert(le16(e, np + 2 * k) == 0);
        assert(units.skip(k) =~= Seq::<u16>::empty());
    } else {
        assert(units.skip(k) =~= Seq::<u16>::empty());
    }
}

/// A character's units are zero only for the NUL character.
proof fn lemma_encode_nonzero(s: Seq<char>)
    requires
        !s.contains('\0'),
    ensures
        forall|j: int| 0 <= j < utf16_encode(s).len() ==> utf16_encode(s)[j] != 0,
    decreases s.len(),
{
    if s.len() > 0 {
        assert(s[0] != '\0');
        assert(!s.drop_first().contains('\0')) by {
            if s.drop_first().contains('\0') {
                let k = choose|k: int| 0 <= k < s.drop_first().len() && s.drop_first()[k] == '\0';
                assert(s[k + 1] == '\0');
            }
        }
        lemma_encode_nonzero(s.drop_first());
        vstd::utf8::char_is_scalar(s[0]);
        vstd::utf8::char_u32_cast(s[0], s[0] as u32);
        assert((s[0] as u32) != 0) by {
            if (s[0] as u32) == 0 {
                assert(((s[0] as u32) as char) == '\0');
            }
        }
        let e = utf16_encode(s);
        let h = crate::utf16::char_units(s[0]);
        let r = utf16_encode(s.drop_first());
        assert(e == h + r);
        assert forall|j: int| 0 <= j < e.len() implies e[j] != 0 by {
            if j >= h.len() {
                assert(e[j] == r[j - h.len()]);
            }
        }
    }
}

/// A name written by `set_name` is read back through the edited file's own
/// table, when it holds no NUL character and the header section lies after
/// the section table (else the recomputed checksum may rewrite the table and
/// move the name record; `lemma_set_name_written` holds regardless).
pub proof fn lemma_set_name_read_back(d: Seq<u8>, slot: int, name: Seq<char>)
    requires
        d.len() >= 0x40,
        0 <= slot,
        set_name_outcome(d, slot, name) is Ok,
        sec_off(d, 10) >= table_end(d),
        !name.contains('\0'),
    ensures
        char_name(set_name_outcome(d, slot, name)->Ok_0, slot) == name,
{
    let np = name_pos(d, slot);
    let f = name_field(utf16_encode(name));
    let d1 = splice(d, np, f);
    let e = with_checksum(d1, sec_off(d, 10), sec_size(d, 10));
    assert(e == set_name_outcome(d, slot, name)->Ok_0);
    lemma_table_end(d);
    lemma_splice_frame(d, np, f);
    lemma_checksum_frame(d1, sec_off(d, 10), sec_size(d, 10));
    assert forall|i: int| 0 <= i < table_end(d) implies #[trigger] e[i] == d[i] by {
        assert(e[i] == d1[i]);
    }
    lemma_same_table(d, e);
    assert(name_pos(e, slot) == np);
    lemma_set_name_written(d, slot, name);
}

/// The checksum field at `off` of the section of `size` bytes holds the MD5
/// of the rest of that section (as far as the file reaches).
pub open spec fn checksum_at(e: Seq<u8>, off: int, size: int) -> bool {
    let start = off + 16;
    let end = min_int(off + size, e.len() as int);
    start < end ==> e.subrange(off, off + 16) == md5_digest(e.subrange(start, end))@
}

/// Recomputing a checksum makes it match the section it was computed for.
proof fn lemma_with_checksum_at(x: Seq<u8>, off: int, size: int)
    requires
        0 <= off,
    ensures
        checksum_at(with_checksum(x, off, size), off, size),
{
    let start = off + 16;
    let end = min_int(off + size, x.len() as int);
    if start < end {
        let dg = md5_digest(x.subrange(start, end))@;
        let e = with_checksum(x, off, size);
        lemma_splice_frame(x, off, dg);
        assert(e.subrange(start, end) =~= x.subrange(start, end));
        assert(e.subrange(off, off + 16) =~= dg);
    }
}

/// A name written by `set_name` is read back at the place it was written to
/// (the name record that the file's table gave before the edit), when it
/// holds no NUL character; and the header checksum that the table gave before
/// the edit is the MD5 of the header body. Nothing is assumed of where the
/// sections lie.
pub proof fn lemma_set_name_written(d: Seq<u8>, slot: int, name: Seq<char>)
    requires
        0 <= slot,
        set_name_outcome(d, slot, name) is Ok,
    ensures
        ({
            let e = set_name_outcome(d, slot, name)->Ok_0;
            let np = name_pos(d, slot);
            &&& !name.contains('\0') ==> utf16_decode(
                zstr_units(e, np, min_int(np + 32, e.len() as int)),
            ) == name
            &&& checksum_at(e, sec_off(d, 10), sec_size(d, 10))
        }),
{
    let np = name_pos(d, slot);
    let units = utf16_encode(name);
    let f = name_field(units);
    let d1 = splice(d, np, f);
    let off = sec_off(d, 10);
    let e = with_checksum(d1, off, sec_size(d, 10));
    assert(e == set_name_outcome(d, slot, name)->Ok_0);
    lemma_splice_frame(d, np, f);
    lemma_checksum_frame(d1, off, sec_size(d, 10));
    lemma_with_checksum_at(d1, off, sec_size(d, 10));
    if !name.contains('\0') {
        assert(e.subrange(np, np + 32) =~= f) by {
            assert forall|k: int| 0 <= k < 32 implies e.subrange(np, np + 32)[k] == f[k] by {
                assert(e[np + k] == d1[np + k]);
                assert(d1[np + k] == f[k]);
            }
        }
        lemma_encode_nonzero(name);
        lemma_name_field_units(e, np, units, 0);
        assert(units.skip(0) =~= units);
        lemma_decode_encode(name);
    }
}

// ---------------------------------------------------------------------------
// Checksums.
/// After `set_runes`, the stored checksum of the slot section is the MD5 of
/// its body, when the slot section lies after the section table.
pub proof fn lemma_set_runes_checksum(d: Seq<u8>, slot: int, v: u32)
    requires
        d.len() >= 0x40,
        0 <= slot,
        set_runes_outcome(d, slot, v) is Ok,
        sec_off(d, slot) >= table_end(d),
    ensures
        checksum_ok(set_runes_outcome(d, slot, v)->Ok_0, slot),
{
    let p = anchor_pos(d, slot) + 48;
    let d1 = splice(d, p, u32_bytes(v));
    lemma_table_end(d);
    lemma_anchor_from(sec_body(d, slot), 0);
    lemma_splice_frame(d, p, u32_bytes(v));
    assert forall|i: int| 0 <= i < table_end(d) implies #[trigger] d1[i] == d[i] by {}
    lemma_checksum_written(d1, d, slot);
}

/// Two bodies that agree up to 46 bytes past the first anchor of one have the
/// same first anchor.
proof fn lemma_anchor_same(b1: Seq<u8>, b2: Seq<u8>, i: int)
    requires
        0 <= i,
        b1.len() == b2.len(),
        anchor_from(b1, i) is Some,
        forall|k: int| 0 <= k < anchor_from(b1, i)->0 + 46 ==> #[trigger] b1[k] == b2[k],
    ensures
        anchor_from(b2, i) == anchor_from(b1, i),
    decreases anchor_limit(b1.len() as int) - i,
{
    lemma_anchor_from(b1, i);
    let a = anchor_from(b1, i)->0;
    assert(stats_at(b1, i) =~= stats_at(b2, i) && le16(b1, i + 44) == le16(b2, i + 44)) by {
        if i <= a {
            assert(b1[i] == b2[i] && b1[i + 4] == b2[i + 4] && b1[i + 8] == b2[i + 8] && b1[i + 12]
                == b2[i + 12] && b1[i + 16] == b2[i + 16] && b1[i + 20] == b2[i + 20] && b1[i + 24]
                == b2[i + 24] && b1[i + 28] == b2[i + 28]);
            assert(b1[i + 44] == b2[i + 44] && b1[i + 45] == b2[i + 45]);
        }
    }
    if !is_anchor(b1, i) {
        lemma_anchor_same(b1, b2, i + 1);
    }
}

/// Writing `[lo, hi)` leaves the section count and the table entry of
/// `slot` (its size and offset fields) as they are.
pub open spec fn keeps_entry(slot: int, lo: int, hi: int) -> bool {
    &&& apart(lo, hi, 0x0C, 0x10)
    &&& apart(lo, hi, entry_base(slot) + 8, entry_base(slot) + 0x14)
}

/// What a first `set_runes` leaves for a second: the same section and stat
/// anchor, and the old bytes outside the rune field and the checksum.
proof fn lemma_runes_once(d: Seq<u8>, slot: int, x: u32)
    requires
        0 <= slot,
        set_runes_outcome(d, slot, x) is Ok,
        keeps_entry(slot, sec_off(d, slot), sec_off(d, slot) + 16),
        keeps_entry(slot, anchor_pos(d, slot) + 48, anchor_pos(d, slot) + 52),
    ensures
        ({
            let e = set_runes_outcome(d, slot, x)->Ok_0;
            let off = sec_off(d, slot);
            let p = anchor_pos(d, slot) + 48;
            &&& e.len() == d.len()
            &&& slot < section_count(e)
            &&& sec_off(e, slot) == off
            &&& sec_size(e, slot) == sec_size(d, slot)
            &&& stat_anchor(sec_body(e, slot)) is Some
            &&& anchor_pos(e, slot) == anchor_pos(d, slot)
            &&& off + 16 <= p
            &&& p + 4 <= d.len()
            &&& forall|i: int|
                0 <= i < d.len() && !(off <= i < off + 16) && !(p <= i < p + 4) ==> #[trigger] e[i]
                    == d[i]
        }),
{
    let b = sec_body(d, slot);
    lemma_anchor_from(b, 0);
    let off = sec_off(d, slot);
    let size = sec_size(d, slot);
    let p = anchor_pos(d, slot) + 48;
    let d1 = splice(d, p, u32_bytes(x));
    let e = with_checksum(d1, off, size);
    assert(e == set_runes_outcome(d, slot, x)->Ok_0);
    lemma_splice_frame(d, p, u32_bytes(x));
    lemma_checksum_frame(d1, off, size);
    assert forall|i: int|
        0 <= i < d.len() && !(off <= i < off + 16) && !(p <= i < p + 4) implies #[trigger] e[i]
        == d[i] by {
        assert(e[i] == d1[i]);
    }
    // the count and the slot's entry are kept
    let eb = entry_base(slot);
    if d.len() >= 0x60 {
        assert(e[0x0C] == d[0x0C] && e[0x0D] == d[0x0D] && e[0x0E] == d[0x0E] && e[0x0F] == d[0x0F]);
    }
    assert(section_count(e) == section_count(d));
    assert(eb + 0x20 <= d.len()) by {
        lemma_entry_inside(d, slot);
    }
    assert(e[eb + 8] == d[eb + 8] && e[eb + 9] == d[eb + 9] && e[eb + 10] == d[eb + 10] && e[eb
        + 11] == d[eb + 11] && e[eb + 12] == d[eb + 12] && e[eb + 13] == d[eb + 13] && e[eb + 14]
        == d[eb + 14] && e[eb + 15] == d[eb + 15]);
    assert(e[eb + 16] == d[eb + 16] && e[eb + 17] == d[eb + 17] && e[eb + 18] == d[eb + 18] && e[eb
        + 19] == d[eb + 19]);
    assert(sec_off(e, slot) == off && sec_size(e, slot) == size);
    let bs = body_start(d, slot);
    let a = stat_anchor(b)->0;
    let nb = sec_body(e, slot);
    assert forall|k: int| 0 <= k < a + 46 implies #[trigger] b[k] == nb[k] by {
        assert(e[bs + k] == d[bs + k]);
    }
    lemma_anchor_same(b, nb, 0);
}

/// An entry of a section that the table counts lies inside the file.
proof fn lemma_entry_inside(d: Seq<u8>, slot: int)
    requires
        0 <= slot < section_count(d),
    ensures
        entry_base(slot) + 0x20 <= d.len(),
{
    let fit = (d.len() - 0x40) / 0x20;
    assert(fit * 0x20 <= d.len() - 0x40) by (nonlinear_arith)
        requires
            fit == (d.len() - 0x40) / 0x20,
            d.len() >= 0x60,
    ;
    assert(slot + 1 <= fit);
    assert((slot + 1) * 0x20 <= fit * 0x20) by (nonlinear_arith)
        requires
            slot + 1 <= fit,
    ;
}

/// Setting the runes twice is setting them once to the second value: the
/// last write wins, and writing the same value again changes nothing. This
/// holds when neither the first write's checksum nor its rune field lands on
/// the section count or the slot's table entry (else the second call reads
/// another section).
#[verifier::spinoff_prover]
pub proof fn lemma_set_runes_twice(d: Seq<u8>, slot: int, x: u32, y: u32)
    requires
        0 <= slot,
        set_runes_outcome(d, slot, x) is Ok,
        keeps_entry(slot, sec_off(d, slot), sec_off(d, slot) + 16),
        keeps_entry(slot, anchor_pos(d, slot) + 48, anchor_pos(d, slot) + 52),
    ensures
        set_runes_outcome(set_runes_outcome(d, slot, x)->Ok_0, slot, y) == set_runes_outcome(
            d,
            slot,
            y,
        ),
{
    lemma_runes_once(d, slot, x);
    let e = set_runes_outcome(d, slot, x)->Ok_0;
    let off = sec_off(d, slot);
    let size = sec_size(d, slot);
    let p = anchor_pos(d, slot) + 48;
    let f1 = splice(e, p, u32_bytes(y));
    let f2 = splice(d, p, u32_bytes(y));
    assert(set_runes_outcome(e, slot, y) == Ok::<Seq<u8>, Seq<char>>(with_checksum(f1, off, size)));
    assert(set_runes_outcome(d, slot, y) == Ok::<Seq<u8>, Seq<char>>(with_checksum(f2, off, size)));
    assert forall|i: int| 0 <= i < d.len() && !(off <= i < off + 16) implies #[trigger] f1[i]
        == f2[i] by {
        if !(p <= i < p + 4) {
            assert(f1[i] == e[i] && f2[i] == d[i]);
        }
    }
    let start = off + 16;
    let end = min_int(off + size, d.len() as int);
    if start < end {
        assert(f1.subrange(start, end) =~= f2.subrange(start, end));
        assert(with_checksum(f1, off, size) =~= with_checksum(f2, off, size));
    } else {
        let d1 = splice(d, p, u32_bytes(x));
        assert(e == d1);
        assert(f1 =~= f2);
    }
}

/// Recomputing the checksum of section `slot` (taken from `orig`'s table)
/// makes it consistent, when the section lies after the table and the file
/// keeps `orig`'s table.
pub(crate) proof fn lemma_checksum_written(x: Seq<u8>, orig: Seq<u8>, slot: int)
    requires
        orig.len() >= 0x40,
        x.len() == orig.len(),
        0 <= slot < section_count(orig),
        sec_off(orig, slot) >= table_end(orig),
        forall|i: int| 0 <= i < table_end(orig) ==> #[trigger] x[i] == orig[i],
    ensures
        checksum_ok(with_checksum(x, sec_off(orig, slot), sec_size(orig, slot)), slot),
{
    let off = sec_off(orig, slot);
    let e = with_checksum(x, off, sec_size(orig, slot));
    lemma_table_end(orig);
    lemma_checksum_frame(x, off, sec_size(orig, slot));
    assert forall|i: int| 0 <= i < table_end(orig) implies #[trigger] e[i] == orig[i] by {
        assert(e[i] == x[i]);
    }
    lemma_same_table(orig, e);
    let bs = body_start(e, slot);
    let be = body_end(e, slot);
    if bs < be {
        let dg = md5_digest(x.subrange(bs, be))@;
        lemma_splice_frame(x, off, dg);
        assert(e.subrange(bs, be) =~= x.subrange(bs, be));
        assert(e.subrange(off, off + 16) =~= dg);
    }
}

/// A checksum that was consistent stays so when only bytes outside the
/// section (and outside the table) change.
pub(crate) proof fn lemma_checksum_kept(x: Seq<u8>, e: Seq<u8>, orig: Seq<u8>, slot: int, lo: int, hi: int)
    requires
        orig.len() >= 0x40,
        x.len() == orig.len(),
        0 <= slot < section_count(orig),
        forall|i: int| 0 <= i < table_end(orig) ==> #[trigger] x[i] == orig[i],
        checksum_ok(x, slot),
        same_outside(x, e, lo, hi),
        table_end(orig) <= lo,
        hi <= sec_off(orig, slot) || lo >= body_end(orig, slot),
    ensures
        checksum_ok(e, slot),
        forall|i: int| 0 <= i < table_end(orig) ==> #[trigger] e[i] == orig[i],
{
    lemma_table_end(orig);
    lemma_same_table(orig, x);
    assert forall|i: int| 0 <= i < table_end(orig) implies #[trigger] e[i] == orig[i] by {
        assert(e[i] == x[i]);
    }
    lemma_same_table(orig, e);
    let off = sec_off(orig, slot);
    let bs = body_start(orig, slot);
    let be = body_end(orig, slot);
    if bs < be {
        assert(e.subrange(bs, be) =~= x.subrange(bs, be));
        assert(e.subrange(off, off + 16) =~= x.subrange(off, off + 16));
    }
}

/// After `set_stats`, the stored checksum of the slot section is the MD5 of
/// its body, when the edited sections lie after the section table and the
/// header's checksum lies outside the slot section.
pub proof fn lemma_set_stats_checksum(d: Seq<u8>, slot: int, st: Seq<u8>)
    requires
        d.len() >= 0x40,
        st.len() == 8,
        0 <= slot,
        set_stats_outcome(d, slot, st) is Ok,
        body_start(d, slot) <= body_end(d, slot),
        sec_off(d, slot) >= table_end(d),
        sec_off(d, 10) >= table_end(d),
        sec_off(d, 10) + 16 <= sec_off(d, slot) || sec_off(d, 10) >= body_end(d, slot),
    ensures
        checksum_ok(stats_edited(d, slot, st), slot),
{
    let b = sec_body(d, slot);
    lemma_anchor_from(b, 0);
    lemma_table_end(d);
    let A = anchor_pos(d, slot);
    let level = level_of(st) as u16;
    let d1 = put_stats(d, A, st, 8);
    let d2 = splice(d1, A + 44, u16_bytes(level));
    let lo = name_pos(d, slot) + 34;
    let d3 = if lo + 2 <= d.len() {
        splice(d2, lo, u16_bytes(level))
    } else {
        d2
    };
    let d4 = with_checksum(d3, sec_off(d, slot), sec_size(d, slot));
    let e = with_checksum(d4, sec_off(d, 10), sec_size(d, 10));
    assert(same_outside(d, d1, A, A + 29));
    lemma_splice_frame(d1, A + 44, u16_bytes(level));
    if lo + 2 <= d.len() {
        lemma_splice_frame(d2, lo, u16_bytes(level));
    }
    assert forall|i: int| 0 <= i < table_end(d) implies #[trigger] d3[i] == d[i] by {
        assert(d3[i] == d2[i]);
        assert(d2[i] == d1[i]);
    }
    lemma_checksum_written(d3, d, slot);
    lemma_checksum_frame(d3, sec_off(d, slot), sec_size(d, slot));
    assert forall|i: int| 0 <= i < table_end(d) implies #[trigger] d4[i] == d[i] by {
        assert(d4[i] == d3[i]);
    }
    lemma_checksum_frame(d4, sec_off(d, 10), sec_size(d, 10));
    lemma_checksum_kept(d4, e, d, slot, sec_off(d, 10), sec_off(d, 10) + 16);
}

/// After `set_name`, the stored checksum of the header section, found through
/// the edited file's own table, is the MD5 of its body, when the header
/// section lies after the section table. At the place the table gave before
/// the edit it holds regardless (`lemma_set_name_written`).
pub proof fn lemma_set_name_checksum(d: Seq<u8>, slot: int, name: Seq<char>)
    requires
        d.len() >= 0x40,
        0 <= slot,
        set_name_outcome(d, slot, name) is Ok,
        sec_off(d, 10) >= table_end(d),
    ensures
        checksum_ok(set_name_outcome(d, slot, name)->Ok_0, 10),
{
    lemma_table_end(d);
    let np = name_pos(d, slot);
    let f = name_field(utf16_encode(name));
    let d1 = splice(d, np, f);
    lemma_splice_frame(d, np, f);
    assert forall|i: int| 0 <= i < table_end(d) implies #[trigger] d1[i] == d[i] by {}
    lemma_checksum_written(d1, d, 10);
}

// ---------------------------------------------------------------------------
// Deleting a character.
/// After `delete_character`, the slot holds no character any more, when the
/// edited sections lie after the section table and the header's checksum
/// lies outside the slot body.
pub proof fn lemma_delete_removes(d: Seq<u8>, slot: int)
    requires
        d.len() >= 0x40,
        0 <= slot,
        delete_outcome(d, slot) is Ok,
        body_start(d, slot) <= body_end(d, slot),
        sec_off(d, slot) >= table_end(d),
        sec_off(d, 10) >= table_end(d),
        sec_off(d, 10) + 16 <= body_start(d, slot) || sec_off(d, 10) >= body_end(d, slot),
    ensures
        !char_present(delete_outcome(d, slot)->Ok_0, slot),
{
    lemma_table_end(d);
    let bs = body_start(d, slot);
    let be = body_end(d, slot);
    let d1 = zeroed(d, bs, be);
    let np = name_pos(d, slot);
    let ne = if np + 40 < d.len() {
        np + 40
    } else {
        d.len() as int
    };
    let d2 = zeroed(d1, np, ne);
    let d3 = with_checksum(d2, sec_off(d, slot), sec_size(d, slot));
    let e = with_checksum(d3, sec_off(d, 10), sec_size(d, 10));
    assert(e == delete_outcome(d, slot)->Ok_0);
    lemma_checksum_frame(d2, sec_off(d, slot), sec_size(d, slot));
    lemma_checksum_frame(d3, sec_off(d, 10), sec_size(d, 10));
    assert forall|i: int| 0 <= i < table_end(d) implies #[trigger] e[i] == d[i] by {
        assert(e[i] == d3[i]);
        assert(d3[i] == d2[i]);
    }
    lemma_same_table(d, e);
    let nb = sec_body(e, slot);
    assert forall|k: int| 0 <= k < nb.len() implies #[trigger] nb[k] == 0 by {
        assert(nb[k] == e[bs + k]);
        assert(e[bs + k] == d3[bs + k]);
        assert(d3[bs + k] == d2[bs + k]);
    }
    lemma_anchor_from(nb, 0);
    if stat_anchor(nb) is Some {
        let a = stat_anchor(nb)->0;
        assert(nb[a + 44] == 0 && nb[a + 45] == 0);
    }
}

/// After `delete_character`, the stored checksum of the slot section is the
/// MD5 of its (zeroed) body, when the edited sections lie after the section
/// table and the header's checksum lies outside the slot section.
pub proof fn lemma_delete_checksum(d: Seq<u8>, slot: int)
    requires
        d.len() >= 0x40,
        0 <= slot,
        delete_outcome(d, slot) is Ok,
        body_start(d, slot) <= body_end(d, slot),
        sec_off(d, slot) >= table_end(d),
        sec_off(d, 10) >= table_end(d),
        sec_off(d, 10) + 16 <= sec_off(d, slot) || sec_off(d, 10) >= body_end(d, slot),
    ensures
        checksum_ok(delete_outcome(d, slot)->Ok_0, slot),
{
    lemma_table_end(d);
    let bs = body_start(d, slot);
    let be = body_end(d, slot);
    let d1 = zeroed(d, bs, be);
    let np = name_pos(d, slot);
    let ne = if np + 40 < d.len() {
        np + 40
    } else {
        d.len() as int
    };
    let d2 = zeroed(d1, np, ne);
    let d3 = with_checksum(d2, sec_off(d, slot), sec_size(d, slot));
    let e = with_checksum(d3, sec_off(d, 10), sec_size(d, 10));
    assert(e == delete_outcome(d, slot)->Ok_0);
    assert forall|i: int| 0 <= i < table_end(d) implies #[trigger] d2[i] == d[i] by {}
    lemma_checksum_written(d2, d, slot);
    lemma_checksum_frame(d2, sec_off(d, slot), sec_size(d, slot));
    assert forall|i: int| 0 <= i < table_end(d) implies #[trigger] d3[i] == d[i] by {
        assert(d3[i] == d2[i]);
    }
    lemma_checksum_frame(d3, sec_off(d, 10), sec_size(d, 10));
    lemma_checksum_kept(d3, e, d, slot, sec_off(d, 10), sec_off(d, 10) + 16);
}

/// `delete_character` keeps the section table and changes no byte outside
/// the deleted slot's section, its name record and the header's checksum.
pub(crate) proof fn lemma_delete_bytes(d: Seq<u8>, slot: int)
    requires
        d.len() >= 0x40,
        0 <= slot,
        delete_outcome(d, slot) is Ok,
        body_start(d, slot) <= body_end(d, slot),
        sec_off(d, slot) >= table_end(d),
        sec_off(d, 10) >= table_end(d),
    ensures
        ({
            let e = delete_outcome(d, slot)->Ok_0;
            &&& e.len() == d.len()
            &&& forall|i: int| 0 <= i < table_end(d) ==> #[trigger] e[i] == d[i]
            &&& forall|i: int|
                0 <= i < d.len() && !(sec_off(d, slot) <= i < body_end(d, slot)) && !(name_pos(
                    d,
                    slot,
                ) <= i < name_pos(d, slot) + 40) && !(sec_off(d, 10) <= i < sec_off(d, 10) + 16)
                    ==> #[trigger] e[i] == d[i]
        }),
{
    lemma_table_end(d);
    let bs = body_start(d, slot);
    let be = body_end(d, slot);
    let d1 = zeroed(d, bs, be);
    let np = name_pos(d, slot);
    let ne = if np + 40 < d.len() {
        np + 40
    } else {
        d.len() as int
    };
    let d2 = zeroed(d1, np, ne);
    let d3 = with_checksum(d2, sec_off(d, slot), sec_size(d, slot));
    let e = with_checksum(d3, sec_off(d, 10), sec_size(d, 10));
    assert(e == delete_outcome(d, slot)->Ok_0);
    lemma_checksum_frame(d2, sec_off(d, slot), sec_size(d, slot));
    lemma_checksum_frame(d3, sec_off(d, 10), sec_size(d, 10));
    assert forall|i: int|
        0 <= i < d.len() && !(sec_off(d, slot) <= i < be) && !(np <= i < np + 40) && !(sec_off(
            d,
            10,
        ) <= i < sec_off(d, 10) + 16) implies #[trigger] e[i] == d[i] by {
        assert(e[i] == d3[i]);
        assert(d3[i] == d2[i]);
    }
    assert forall|i: int| 0 <= i < table_end(d) implies #[trigger] e[i] == d[i] by {
        assert(e[i] == d3[i]);
        assert(d3[i] == d2[i]);
    }
}

/// Two ranges of positions do not overlap.
pub open spec fn apart(lo1: int, hi1: int, lo2: int, hi2: int) -> bool {
    hi1 <= lo2 || hi2 <= lo1
}

/// `delete_character` leaves every other slot as it was: its body is the
/// same, so it holds the same character or none. This holds when the edited
/// sections lie after the section table and the other slot's body is apart
/// from the deleted slot's section, from the deleted name record and from
/// the header's checksum.
pub proof fn lemma_delete_keeps_others(d: Seq<u8>, slot: int, other: int)
    requires
        d.len() >= 0x40,
        0 <= slot,
        0 <= other < section_count(d),
        other != slot,
        delete_outcome(d, slot) is Ok,
        body_start(d, slot) <= body_end(d, slot),
        sec_off(d, slot) >= table_end(d),
        sec_off(d, 10) >= table_end(d),
        apart(body_start(d, other), body_end(d, other), sec_off(d, slot), body_end(d, slot)),
        apart(body_start(d, other), body_end(d, other), name_pos(d, slot), name_pos(d, slot) + 40),
        apart(body_start(d, other), body_end(d, other), sec_off(d, 10), sec_off(d, 10) + 16),
    ensures
        sec_body(delete_outcome(d, slot)->Ok_0, other) == sec_body(d, other),
        char_present(delete_outcome(d, slot)->Ok_0, other) == char_present(d, other),
{
    lemma_delete_bytes(d, slot);
    lemma_keeps_body(d, delete_outcome(d, slot)->Ok_0, slot, other);
}

pub(crate) proof fn lemma_keeps_body(d: Seq<u8>, e: Seq<u8>, slot: int, other: int)
    requires
        d.len() >= 0x40,
        e.len() == d.len(),
        0 <= other < section_count(d),
        forall|i: int| 0 <= i < table_end(d) ==> #[trigger] e[i] == d[i],
        forall|i: int|
            0 <= i < d.len() && !(sec_off(d, slot) <= i < body_end(d, slot)) && !(name_pos(
                d,
                slot,
            ) <= i < name_pos(d, slot) + 40) && !(sec_off(d, 10) <= i < sec_off(d, 10) + 16)
                ==> #[trigger] e[i] == d[i],
        apart(body_start(d, other), body_end(d, other), sec_off(d, slot), body_end(d, slot)),
        apart(body_start(d, other), body_end(d, other), name_pos(d, slot), name_pos(d, slot) + 40),
        apart(body_start(d, other), body_end(d, other), sec_off(d, 10), sec_off(d, 10) + 16),
    ensures
        sec_body(e, other) == sec_body(d, other),
        char_present(e, other) == char_present(d, other),
{
    lemma_table_end(d);
    lemma_same_table(d, e);
    let ob = body_start(d, other);
    let oe = body_end(d, other);
    let lo = if ob < oe {
        ob
    } else {
        oe
    };
    assert forall|i: int| lo <= i < oe implies #[trigger] e[i] == d[i] by {}
    assert(sec_body(e, other) =~= sec_body(d, other));
}

// ---------------------------------------------------------------------------
// Items.
/// After `set_item_quantity`, the found quantity field reads the new
/// quantity and the slot's checksum is the MD5 of its body, when the slot
/// section lies after the section table.
pub proof fn lemma_set_qty_read_back(d: Seq<u8>, slot: int, base_id: u32, qty: u32)
    requires
        d.len() >= 0x40,
        0 <= slot,
        set_qty_outcome(d, slot, base_id, qty) is Ok,
        sec_off(d, slot) >= table_end(d),
    ensures
        ({
            let p = qty_pos_from(
                d,
                body_start(d, slot),
                body_end(d, slot),
                goods_handle(base_id),
            )->0;
            let e = set_qty_outcome(d, slot, base_id, qty)->Ok_0;
            &&& le32(e, p) == qty
            &&& le32(e, p - 4) == goods_handle(base_id)
            &&& checksum_ok(e, slot)
        }),
{
    lemma_table_end(d);
    let h = goods_handle(base_id);
    let p = qty_pos_from(d, body_start(d, slot), body_end(d, slot), h)->0;
    lemma_qty_pos(d, body_start(d, slot), body_end(d, slot), h);
    let d1 = splice(d, p, u32_bytes(qty));
    let e = with_checksum(d1, sec_off(d, slot), sec_size(d, slot));
    lemma_le32_splice(d, p, qty);
    lemma_splice_frame(d, p, u32_bytes(qty));
    lemma_checksum_frame(d1, sec_off(d, slot), sec_size(d, slot));
    assert(le32(e, p) == le32(d1, p));
    assert(le32(e, p - 4) == le32(d1, p - 4));
    assert forall|i: int| 0 <= i < table_end(d) implies #[trigger] d1[i] == d[i] by {}
    lemma_checksum_written(d1, d, slot);
}

/// After `set_item_quantity`, `owned_items` lists the item with the new
/// quantity. This holds when the slot section lies after the section table,
/// the item table names the base id, and the quantity is one that the scan
/// counts (1..=99_999).
#[verifier::spinoff_prover]
#[verifier::rlimit(40)]
pub proof fn lemma_set_qty_listed(d: Seq<u8>, slot: int, base_id: u32, qty: u32)
    requires
        d.len() >= 0x40,
        0 <= slot,
        set_qty_outcome(d, slot, base_id, qty) is Ok,
        sec_off(d, slot) >= table_end(d),
        1 <= qty <= 99_999,
        item_name_of(base_id) is Some,
    ensures
        owned_list(set_qty_outcome(d, slot, base_id, qty)->Ok_0, slot).contains((base_id, qty)),
{
    lemma_named_ids_small(base_id);
    lemma_table_end(d);
    let h = goods_handle(base_id);
    let bs = body_start(d, slot);
    let be = body_end(d, slot);
    let p = qty_pos_from(d, bs, be, h)->0;
    lemma_qty_pos(d, bs, be, h);
    let d1 = splice(d, p, u32_bytes(qty));
    let e = with_checksum(d1, sec_off(d, slot), sec_size(d, slot));
    assert(e == set_qty_outcome(d, slot, base_id, qty)->Ok_0);
    lemma_le32_splice(d, p, qty);
    lemma_splice_frame(d, p, u32_bytes(qty));
    lemma_checksum_frame(d1, sec_off(d, slot), sec_size(d, slot));
    assert forall|i: int| 0 <= i < table_end(d) implies #[trigger] e[i] == d[i] by {
        assert(e[i] == d1[i]);
    }
    lemma_same_table(d, e);
    let nb = sec_body(e, slot);
    assert(nb =~= e.subrange(bs, be));
    assert forall|k: int| 0 <= k < be - bs implies #[trigger] nb[k] == d1[bs + k] by {
        assert(e[bs + k] == d1[bs + k]);
    }
    assert forall|k: int| 0 <= k < be - bs && !(p <= bs + k < p + 4) implies #[trigger] nb[k]
        == d[bs + k] by {
        assert(nb[k] == d1[bs + k]);
    }
    assert(h / 0x1000_0000 == 0xB && h % 0x1000_0000 == base_id && h == 0xB000_0000 + base_id)
        by (bit_vector)
        requires
            h == 0xB000_0000u32 | base_id,
            base_id < 0x1000_0000,
    ;
    let j0 = p - 4 - bs;
    assert(le32(nb, j0) == h) by {
        assert(nb[j0] == d[p - 4] && nb[j0 + 1] == d[p - 3] && nb[j0 + 2] == d[p - 2] && nb[j0
            + 3] == d[p - 1]);
    }
    assert(le32(nb, j0 + 4) == qty) by {
        assert(nb[j0 + 4] == d1[p] && nb[j0 + 5] == d1[p + 1] && nb[j0 + 6] == d1[p + 2] && nb[j0
            + 7] == d1[p + 3]);
    }
    assert(is_goods_entry(nb, j0));
    assert(goods_base(nb, j0) == base_id);
    assert forall|j: int| 0 <= j < j0 && is_goods_entry(nb, j) implies #[trigger] goods_base(
        nb,
        j,
    ) != goods_base(nb, j0) by {
        if goods_base(nb, j) == base_id {
            let w = le32(nb, j);
            assert(w == h) by {
                assert(0 <= w < 0x1_0000_0000);
            }
            assert(le32(nb, j) == le32(d, bs + j)) by {
                assert(nb[j] == d[bs + j] && nb[j + 1] == d[bs + j + 1] && nb[j + 2] == d[bs + j
                    + 2] && nb[j + 3] == d[bs + j + 3]);
            }
            if j + 4 < j0 + 4 - 3 {
                assert(le32(nb, j + 4) == le32(d, bs + j + 4)) by {
                    assert(nb[j + 4] == d[bs + j + 4] && nb[j + 5] == d[bs + j + 5] && nb[j + 6]
                        == d[bs + j + 6] && nb[j + 7] == d[bs + j + 7]);
                }
                assert(!(le32(d, bs + j) == h && le32(d, bs + j + 4) < 0x4000_0000));
            } else {
                lemma_no_overlapping_handle(nb, j, j0, base_id);
            }
        }
    }
    lemma_owned_from_lists(nb, 0, Set::empty(), j0);
}

/// The bytes of a stored u32, low byte first.
proof fn lemma_le32_bytes(b: Seq<u8>, o: int, v: u32)
    requires
        0 <= o,
        o + 4 <= b.len(),
        le32(b, o) == v,
    ensures
        b[o] as u32 == v & 0xff,
        b[o + 1] as u32 == (v >> 8) & 0xff,
        b[o + 2] as u32 == (v >> 16) & 0xff,
        b[o + 3] as u32 == v >> 24,
{
    let x0 = b[o] as u32;
    let x1 = b[o + 1] as u32;
    let x2 = b[o + 2] as u32;
    let x3 = b[o + 3] as u32;
    assert(x0 == v & 0xff && x1 == (v >> 8) & 0xff && x2 == (v >> 16) & 0xff && x3 == v >> 24)
        by (bit_vector)
        requires
            x0 < 256 && x1 < 256 && x2 < 256 && x3 < 256,
            x0 + x1 * 256 + x2 * 65536 + x3 * 16777216 == v,
    ;
}

/// A copy of a named item's handle cannot start one, two or three bytes
/// before another and be read there as an owned entry: the handle's bytes
/// are a low id byte, a second id byte below 0xB0, a zero and 0xB0.
proof fn lemma_no_overlapping_handle(b: Seq<u8>, j: int, j0: int, base_id: u32)
    requires
        base_id < 0xB000,
        0 <= j < j0 <= j + 3,
        j0 + 4 <= b.len(),
        le32(b, j0) == goods_handle(base_id),
    ensures
        !(is_goods_entry(b, j) && le32(b, j) == goods_handle(base_id)),
{
    let h = goods_handle(base_id);
    assert((h >> 24) == 0xB0 && (h >> 16) & 0xff == 0 && (h >> 8) & 0xff < 0xB0) by (bit_vector)
        requires
            h == 0xB000_0000u32 | base_id,
            base_id < 0xB000,
    ;
    lemma_le32_bytes(b, j0, h);
    if is_goods_entry(b, j) && le32(b, j) == h {
        lemma_le32_bytes(b, j, h);
        if j0 == j + 3 {
            assert(b[j + 6] == 0xB0);
            assert(le32(b, j + 4) >= 0xB0 * 0x1_0000);
        }
    }
}

/// The found quantity field lies in `[i + 4, end - 4]`, after its handle.
pub(crate) proof fn lemma_qty_pos(d: Seq<u8>, i: int, end: int, h: u32)
    ensures
        qty_pos_from(d, i, end, h) matches Some(p) ==> {
            &&& i + 4 <= p
            &&& p + 4 <= end <= d.len()
            &&& le32(d, p - 4) == h
            &&& le32(d, p) < 0x4000_0000
            &&& forall|j: int|
                i <= j < p - 4 ==> !(#[trigger] le32(d, j) == h && le32(d, j + 4) < 0x4000_0000)
        },
    decreases end - i,
{
    if !(i < 0 || i + 8 > end || end > d.len()) {
        if !(le32(d, i) == h && le32(d, i + 4) < 0x4000_0000) {
            lemma_qty_pos(d, i + 1, end, h);
        }
    }
}

/// After `give_item` appends a new entry, the slot's checksum is the MD5 of
/// its body, when the slot section lies after the section table.
pub proof fn lemma_append_checksum(d: Seq<u8>, slot: int, base_id: u32, qty: u32)
    requires
        d.len() >= 0x40,
        0 <= slot,
        append_outcome(d, slot, base_id, qty) is Ok,
        body_start(d, slot) <= body_end(d, slot),
        sec_off(d, slot) >= table_end(d),
    ensures
        checksum_ok(append_outcome(d, slot, base_id, qty)->Ok_0, slot),
{
    lemma_table_end(d);
    lemma_anchor_from(sec_body(d, slot), 0);
    let cd = common_table(d, slot);
    let x = appended(d, cd, base_id, qty);
    lemma_appended_frame(d, cd, base_id, qty);
    assert forall|i: int| 0 <= i < table_end(d) implies #[trigger] x[i] == d[i] by {}
    lemma_checksum_written(x, d, slot);
}

/// A goods entry of a named base id that no earlier goods entry shares is
/// listed by the scan, with its quantity.
proof fn lemma_owned_from_lists(b: Seq<u8>, i: int, seen: Set<u32>, p: int)
    requires
        0 <= i <= p,
        is_goods_entry(b, p),
        !seen.contains(goods_base(b, p)),
        item_name_of(goods_base(b, p)) is Some,
        forall|j: int|
            i <= j < p && is_goods_entry(b, j) ==> #[trigger] goods_base(b, j) != goods_base(b, p),
    ensures
        owned_from(b, i, seen).contains((goods_base(b, p), le32(b, p + 4) as u32)),
    decreases p - i,
{
    let g = goods_base(b, p);
    let x = (g, le32(b, p + 4) as u32);
    if i == p {
        assert(owned_from(b, i, seen)[0] == x);
    } else if is_goods_entry(b, i) && !seen.contains(goods_base(b, i)) {
        let s2 = seen.insert(goods_base(b, i));
        lemma_owned_from_lists(b, i + 1, s2, p);
        let rest = owned_from(b, i + 1, s2);
        let k = choose|k: int| 0 <= k < rest.len() && rest[k] == x;
        if item_name_of(goods_base(b, i)) is Some {
            assert(owned_from(b, i, seen)[k + 1] == x);
        } else {
            assert(owned_from(b, i, seen)[k] == x);
        }
    } else {
        lemma_owned_from_lists(b, i + 1, seen, p);
        assert(owned_from(b, i, seen) == owned_from(b, i + 1, seen));
    }
}

/// After `give_item` appends a new entry, `owned_items` lists the item with
/// the given quantity. This holds when the slot section lies after the
/// section table, the new entry lies inside the slot body, the base id fits
/// beside the category nibble and is named by the item table, the quantity
/// is one that the scan counts (1..=99_999), and no goods entry of the same
/// base id comes before the new one.
#[verifier::spinoff_prover]
#[verifier::rlimit(40)]
pub proof fn lemma_give_listed(d: Seq<u8>, slot: int, base_id: u32, qty: u32)
    requires
        d.len() >= 0x40,
        0 <= slot,
        append_outcome(d, slot, base_id, qty) is Ok,
        body_start(d, slot) <= body_end(d, slot),
        sec_off(d, slot) >= table_end(d),
        base_id < 0x1000_0000,
        1 <= qty <= 99_999,
        item_name_of(base_id) is Some,
        common_table(d, slot) + 4 + le32(d, common_table(d, slot)) * 12 + 8 <= body_end(d, slot),
        forall|j: int|
            0 <= j < common_table(d, slot) + 4 + le32(d, common_table(d, slot)) * 12 - body_start(
                d,
                slot,
            ) && is_goods_entry(sec_body(append_outcome(d, slot, base_id, qty)->Ok_0, slot), j)
                ==> #[trigger] goods_base(
                sec_body(append_outcome(d, slot, base_id, qty)->Ok_0, slot),
                j,
            ) != base_id,
    ensures
        owned_list(append_outcome(d, slot, base_id, qty)->Ok_0, slot).contains((base_id, qty)),
{
    lemma_table_end(d);
    lemma_anchor_from(sec_body(d, slot), 0);
    let cd = common_table(d, slot);
    let entry = cd + 4 + le32(d, cd) * 12;
    let x = appended(d, cd, base_id, qty);
    let e = append_outcome(d, slot, base_id, qty)->Ok_0;
    assert(e == with_checksum(x, sec_off(d, slot), sec_size(d, slot)));
    lemma_appended_entry(d, cd, base_id, qty);
    lemma_appended_frame(d, cd, base_id, qty);
    lemma_checksum_frame(x, sec_off(d, slot), sec_size(d, slot));
    assert forall|i: int| 0 <= i < table_end(d) implies #[trigger] e[i] == d[i] by {
        assert(e[i] == x[i]);
    }
    lemma_same_table(d, e);
    let bs = body_start(d, slot);
    let nb = sec_body(e, slot);
    let p = entry - bs;
    assert(nb[p] == x[entry] && nb[p + 1] == x[entry + 1] && nb[p + 2] == x[entry + 2] && nb[p
        + 3] == x[entry + 3]) by {
        assert(e[entry] == x[entry] && e[entry + 1] == x[entry + 1] && e[entry + 2] == x[entry
            + 2] && e[entry + 3] == x[entry + 3]);
    }
    assert(nb[p + 4] == x[entry + 4] && nb[p + 5] == x[entry + 5] && nb[p + 6] == x[entry + 6]
        && nb[p + 7] == x[entry + 7]) by {
        assert(e[entry + 4] == x[entry + 4] && e[entry + 5] == x[entry + 5] && e[entry + 6]
            == x[entry + 6] && e[entry + 7] == x[entry + 7]);
    }
    let h = goods_handle(base_id);
    assert(le32(nb, p) == h);
    assert(le32(nb, p + 4) == qty);
    assert(h / 0x1000_0000 == 0xB && h % 0x1000_0000 == base_id) by (bit_vector)
        requires
            h == 0xB000_0000u32 | base_id,
            base_id < 0x1000_0000,
    ;
    assert(is_goods_entry(nb, p));
    assert(goods_base(nb, p) == base_id);
    lemma_owned_from_lists(nb, 0, Set::empty(), p);
}

/// An append only changes bytes of the inventory table, from `cd` on.
pub(crate) proof fn lemma_appended_frame(d: Seq<u8>, cd: int, base_id: u32, qty: u32)
    requires
        0 <= cd,
        cd + 0x9010 <= d.len(),
        le32(d, cd) < 0xA80,
    ensures
        same_outside(d, appended(d, cd, base_id, qty), cd, cd + 0x9010),
{
    let distinct = le32(d, cd);
    let nei = le32(d, cd + 0x9008) as u32;
    let nas = le32(d, cd + 0x900C) as u32;
    let entry = cd + 4 + distinct * 12;
    let d1 = splice(d, entry, u32_bytes(goods_handle(base_id)));
    let d2 = splice(d1, entry + 4, u32_bytes(qty));
    let d3 = splice(d2, entry + 8, u32_bytes(nas));
    let d4 = splice(d3, cd, u32_bytes((distinct + 1) as u32));
    let d5 = splice(d4, cd + 0x9008, u32_bytes(nei.wrapping_add(1)));
    let e = splice(d5, cd + 0x900C, u32_bytes(nas.wrapping_add(1)));
    lemma_splice_frame(d, entry, u32_bytes(goods_handle(base_id)));
    lemma_splice_frame(d1, entry + 4, u32_bytes(qty));
    lemma_splice_frame(d2, entry + 8, u32_bytes(nas));
    lemma_splice_frame(d3, cd, u32_bytes((distinct + 1) as u32));
    lemma_splice_frame(d4, cd + 0x9008, u32_bytes(nei.wrapping_add(1)));
    lemma_splice_frame(d5, cd + 0x900C, u32_bytes(nas.wrapping_add(1)));
    assert forall|i: int| 0 <= i < d.len() && !(cd <= i < cd + 0x9010) implies #[trigger] e[i]
        == d[i] by {
        assert(e[i] == d5[i]);
        assert(d5[i] == d4[i]);
        assert(d4[i] == d3[i]);
        assert(d3[i] == d2[i]);
        assert(d2[i] == d1[i]);
    }
}

// ---------------------------------------------------------------------------
// Owned items.
pub(crate) proof fn lemma_owned_from_distinct(b: Seq<u8>, i: int, seen: Set<u32>)
    ensures
        forall|j: int|
            0 <= j < owned_from(b, i, seen).len() ==> !seen.contains(
                #[trigger] owned_from(b, i, seen)[j].0,
            ),
        forall|j: int, k: int|
            0 <= j < k < owned_from(b, i, seen).len() ==> #[trigger] owned_from(b, i, seen)[j].0
                != #[trigger] owned_from(b, i, seen)[k].0,
    decreases b.len() - i,
{
    if i < 0 || i + 8 > b.len() {
    } else if is_goods_entry(b, i) && !seen.contains(goods_base(b, i)) {
        let g = goods_base(b, i);
        let s2 = seen.insert(g);
        lemma_owned_from_distinct(b, i + 1, s2);
        let rest = owned_from(b, i + 1, s2);
        if item_name_of(g) is Some {
            let r = owned_from(b, i, seen);
            assert(r == seq![(g, le32(b, i + 4) as u32)] + rest);
            assert forall|j: int| 0 <= j < r.len() implies !seen.contains(#[trigger] r[j].0) by {
                if j > 0 {
                    assert(r[j] == rest[j - 1]);
                    assert(!s2.contains(rest[j - 1].0));
                }
            }
            assert forall|j: int, k: int| 0 <= j < k < r.len() implies #[trigger] r[j].0
                != #[trigger] r[k].0 by {
                assert(r[k] == rest[k - 1]);
                assert(!s2.contains(rest[k - 1].0));
                if j > 0 {
                    assert(r[j] == rest[j - 1]);
                }
            }
        } else {
            assert(owned_from(b, i, seen) == rest);
            assert forall|j: int| 0 <= j < rest.len() implies !seen.contains(#[trigger] rest[j].0) by {
                assert(!s2.contains(rest[j].0));
            }
        }
    } else {
        lemma_owned_from_distinct(b, i + 1, seen);
        assert(owned_from(b, i, seen) == owned_from(b, i + 1, seen));
    }
}

/// `owned_items` lists each base id at most once.
pub proof fn lemma_owned_distinct(d: Seq<u8>, slot: int)
    ensures
        forall|j: int, k: int|
            0 <= j < k < owned_list(d, slot).len() ==> #[trigger] owned_list(d, slot)[j].0
                != #[trigger] owned_list(d, slot)[k].0,
{
    if 0 <= slot < section_count(d) {
        lemma_owned_from_distinct(sec_body(d, slot), 0, Set::empty());
    }
}

// ---------------------------------------------------------------------------
// Giving an item.
/// An appended item lands at the end of the held common-items table: the
/// table's count grows by one and the new entry holds the goods handle, the
/// quantity and the acquisition sort id that the table held before.
pub proof fn lemma_appended_entry(d: Seq<u8>, cd: int, base_id: u32, qty: u32)
    requires
        0 <= cd,
        cd + 0x9010 <= d.len(),
        le32(d, cd) < 0xA80,
    ensures
        ({
            let e = appended(d, cd, base_id, qty);
            let entry = cd + 4 + le32(d, cd) * 12;
            &&& e.len() == d.len()
            &&& le32(e, cd) == le32(d, cd) + 1
            &&& le32(e, entry) == goods_handle(base_id)
            &&& le32(e, entry + 4) == qty
            &&& le32(e, entry + 8) == le32(d, cd + 0x900C)
        }),
{
    let distinct = le32(d, cd);
    let nei = le32(d, cd + 0x9008) as u32;
    let nas = le32(d, cd + 0x900C) as u32;
    let entry = cd + 4 + distinct * 12;
    let d1 = splice(d, entry, u32_bytes(goods_handle(base_id)));
    let d2 = splice(d1, entry + 4, u32_bytes(qty));
    let d3 = splice(d2, entry + 8, u32_bytes(nas));
    let d4 = splice(d3, cd, u32_bytes((distinct + 1) as u32));
    let d5 = splice(d4, cd + 0x9008, u32_bytes(nei.wrapping_add(1)));
    let e = splice(d5, cd + 0x900C, u32_bytes(nas.wrapping_add(1)));
    assert(e == appended(d, cd, base_id, qty));
    assert(entry + 12 <= cd + 0x9008);
    lemma_le32_splice(d, entry, goods_handle(base_id));
    lemma_le32_splice(d1, entry + 4, qty);
    lemma_le32_splice(d2, entry + 8, nas);
    lemma_le32_splice(d3, cd, (distinct + 1) as u32);
    lemma_le32_splice(d4, cd + 0x9008, nei.wrapping_add(1));
    lemma_le32_splice(d5, cd + 0x900C, nas.wrapping_add(1));
    // the count field: written by d4, untouched afterwards
    lemma_le32_apart(d4, cd + 0x9008, nei.wrapping_add(1), cd);
    lemma_le32_apart(d5, cd + 0x900C, nas.wrapping_add(1), cd);
    // the entry: written by d1..d3, untouched afterwards
    lemma_le32_apart(d1, entry + 4, qty, entry);
    lemma_le32_apart(d2, entry + 8, nas, entry);
    lemma_le32_apart(d3, cd, (distinct + 1) as u32, entry);
    lemma_le32_apart(d4, cd + 0x9008, nei.wrapping_add(1), entry);
    lemma_le32_apart(d5, cd + 0x900C, nas.wrapping_add(1), entry);
    lemma_le32_apart(d2, entry + 8, nas, entry + 4);
    lemma_le32_apart(d3, cd, (distinct + 1) as u32, entry + 4);
    lemma_le32_apart(d4, cd + 0x9008, nei.wrapping_add(1), entry + 4);
    lemma_le32_apart(d5, cd + 0x900C, nas.wrapping_add(1), entry + 4);
    lemma_le32_apart(d3, cd, (distinct + 1) as u32, entry + 8);
    lemma_le32_apart(d4, cd + 0x9008, nei.wrapping_add(1), entry + 8);
    lemma_le32_apart(d5, cd + 0x900C, nas.wrapping_add(1), entry + 8);
}

/// A 4-byte write leaves a 4-byte field that it does not overlap as it was.
proof fn lemma_le32_apart(d: Seq<u8>, o: int, v: u32, p: int)
    requires
        0 <= o,
        o + 4 <= d.len(),
        0 <= p,
        p + 4 <= d.len(),
        p + 4 <= o || o + 4 <= p,
    ensures
        le32(splice(d, o, u32_bytes(v)), p) == le32(d, p),
        splice(d, o, u32_bytes(v)).len() == d.len(),
{
    let s = splice(d, o, u32_bytes(v));
    assert(s[p] == d[p] && s[p + 1] == d[p + 1] && s[p + 2] == d[p + 2] && s[p + 3] == d[p + 3]);
}

} // verus!
