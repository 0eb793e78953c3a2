//! What an edit of one slot keeps: on a save laid out as the game writes
//! it, every other character reads back exactly as before, and deleting a
//! character removes its slot, and only it, from the occupied slots.
use crate::bnd4::{
    body_end, body_start, char_present, character_of, lemma_anchor_from, name_pos, present_slots,
    sec_body, sec_off, section_count, zstr_units, Character,
};
use crate::frame_laws::{
    lemma_append_frame, lemma_set_name_frame, lemma_set_qty_frame, lemma_set_runes_frame,
    lemma_set_stats_frame, only_touches,
};
use crate::bytes::le32;
use crate::laws::{
    apart, lemma_delete_bytes, lemma_delete_removes, lemma_keeps_body, lemma_qty_pos,
    lemma_same_table, lemma_table_end, table_end,
};
use crate::save::{
    anchor_pos, append_outcome, common_table, delete_outcome, give_outcome, goods_handle, owns,
    qty_pos_from, set_name_outcome, set_qty_outcome, set_runes_outcome, set_stats_outcome,
};
use vstd::prelude::*;

verus! {

/// The save is laid out as the game writes it: the ten slot sections and the
/// header section lie after the section table and apart from one another,
/// and the name record (42 bytes) of each slot lies inside the header body.
pub open spec fn laid_out(d: Seq<u8>) -> bool {
    &&& d.len() >= 0x40
    &&& section_count(d) > 10
    &&& forall|i: int|
        0 <= i <= 10 ==> #[trigger] sec_off(d, i) >= table_end(d) && body_start(d, i) <= body_end(
            d,
            i,
        )
    &&& forall|i: int, j: int|
        0 <= i < j <= 10 ==> apart(
            #[trigger] sec_off(d, i),
            body_end(d, i),
            #[trigger] sec_off(d, j),
            body_end(d, j),
        )
    &&& forall|s: int|
        0 <= s < 10 ==> body_start(d, 10) <= #[trigger] name_pos(d, s) && name_pos(d, s) + 42
            <= body_end(d, 10)
} // verus!

/// Filtering by `q`, which holds where `p` and `r` both do, is filtering by
/// `p` and then by `r`.
proof fn lemma_filter_both(s: Seq<int>, p: spec_fn(int) -> bool, q: spec_fn(int) -> bool, r: spec_fn(int) -> bool)
    requires
        forall|i: int| 0 <= i < s.len() ==> #[trigger] q(s[i]) == (p(s[i]) && r(s[i])),
    ensures
        s.filter(q) == s.filter(p).filter(r),
    decreases s.len(),
{
    reveal(Seq::filter);
    if s.len() > 0 {
        let init = s.drop_last();
        let v = s.last();
        assert forall|i: int| 0 <= i < init.len() implies #[trigger] q(init[i]) == (p(init[i])
            && r(init[i])) by {
            assert(init[i] == s[i]);
        }
        lemma_filter_both(init, p, q, r);
        let a = init.filter(p);
        assert(q(v) == (p(v) && r(v))) by {
            assert(v == s[s.len() - 1]);
        }
        if p(v) {
            assert(a.push(v).drop_last() =~= a);
            assert(a.push(v).last() == v);
        }
    }
} // verus!

/// The units read from `[off, end)` depend only on the bytes there.
proof fn lemma_zstr_same(d: Seq<u8>, e: Seq<u8>, off: int, end: int)
    requires
        e.len() == d.len(),
        forall|k: int| off <= k < end ==> #[trigger] e[k] == d[k],
    ensures
        zstr_units(e, off, end) == zstr_units(d, off, end),
    decreases end - off,
{
    if 0 <= off && off + 1 < end && end <= d.len() {
        assert(e[off] == d[off] && e[off + 1] == d[off + 1]);
        lemma_zstr_same(d, e, off + 2, end);
    }
}

/// The bytes that a delete writes, and the section table it keeps, on a save
/// laid out as the game writes it.
proof fn lemma_delete_writes(d: Seq<u8>, slot: int)
    requires
        laid_out(d),
        0 <= slot < 10,
    ensures
        delete_outcome(d, slot) is Ok,
        ({
            let e = delete_outcome(d, slot)->Ok_0;
            &&& e.len() == d.len()
            &&& forall|i: int| 0 <= i < table_end(d) ==> #[trigger] e[i] == d[i]
            &&& forall|i: int|
                0 <= i < d.len() && !(sec_off(d, slot) <= i < body_end(d, slot)) && !(name_pos(
                    d,
                    slot,
                ) <= i < name_pos(d, slot) + 40) && !(sec_off(d, 10) <= i < sec_off(d, 10) + 16)
                    ==> #[trigger] e[i] == d[i]
            &&& !char_present(e, slot)
        }),
{
    lemma_table_end(d);
    assert(sec_off(d, slot) >= table_end(d) && body_start(d, slot) <= body_end(d, slot));
    assert(sec_off(d, 10) >= table_end(d) && body_start(d, 10) <= body_end(d, 10));
    assert(apart(sec_off(d, slot), body_end(d, slot), sec_off(d, 10), body_end(d, 10)));
    lemma_delete_bytes(d, slot);
    lemma_delete_removes(d, slot);
}

/// A file with the table of a laid-out save is laid out too.
proof fn lemma_same_layout(d: Seq<u8>, e: Seq<u8>)
    requires
        laid_out(d),
        e.len() == d.len(),
        forall|i: int| 0 <= i < table_end(d) ==> #[trigger] e[i] == d[i],
    ensures
        laid_out(e),
{
    lemma_same_table(d, e);
    assert forall|i: int| 0 <= i <= 10 implies #[trigger] sec_off(e, i) >= table_end(e)
        && body_start(e, i) <= body_end(e, i) by {
        assert(sec_off(d, i) >= table_end(d) && body_start(d, i) <= body_end(d, i));
    }
    assert forall|i: int, j: int| 0 <= i < j <= 10 implies apart(
        #[trigger] sec_off(e, i),
        body_end(e, i),
        #[trigger] sec_off(e, j),
        body_end(e, j),
    ) by {
        assert(apart(sec_off(d, i), body_end(d, i), sec_off(d, j), body_end(d, j)));
    }
    assert forall|s: int| 0 <= s < 10 implies body_start(e, 10) <= #[trigger] name_pos(e, s)
        && name_pos(e, s) + 42 <= body_end(e, 10) by {
        assert(body_start(d, 10) <= name_pos(d, s) && name_pos(d, s) + 42 <= body_end(d, 10));
    }
}

/// A slot other than the deleted one keeps its character.
proof fn lemma_delete_keeps_slot(d: Seq<u8>, slot: int, o: int)
    requires
        laid_out(d),
        0 <= slot < 10,
        0 <= o < 10,
        o != slot,
    ensures
        char_present(delete_outcome(d, slot)->Ok_0, o) == char_present(d, o),
        forall|c: Character|
            character_of(delete_outcome(d, slot)->Ok_0, o, c) == #[trigger] character_of(d, o, c),
{
    let e = delete_outcome(d, slot)->Ok_0;
    lemma_delete_writes(d, slot);
    lemma_table_end(d);
    lemma_same_table(d, e);
    assert(sec_off(d, o) >= table_end(d) && body_start(d, o) <= body_end(d, o));
    assert(sec_off(d, 10) >= table_end(d) && body_start(d, 10) <= body_end(d, 10));
    if o < slot {
        assert(apart(sec_off(d, o), body_end(d, o), sec_off(d, slot), body_end(d, slot)));
    } else {
        assert(apart(sec_off(d, slot), body_end(d, slot), sec_off(d, o), body_end(d, o)));
    }
    assert(apart(sec_off(d, o), body_end(d, o), sec_off(d, 10), body_end(d, 10)));
    assert(apart(sec_off(d, slot), body_end(d, slot), sec_off(d, 10), body_end(d, 10)));
    let np = name_pos(d, slot);
    assert(body_start(d, 10) <= np && np + 42 <= body_end(d, 10));
    lemma_keeps_body(d, e, slot, o);
    let no = name_pos(d, o);
    assert(body_start(d, 10) <= no && no + 42 <= body_end(d, 10));
    assert(name_pos(e, o) == no);
    assert forall|k: int| no <= k < no + 42 implies #[trigger] e[k] == d[k] by {
        assert(no - np == (o - slot) * 588);
    }
    lemma_zstr_same(d, e, no, no + 32);
    assert(le32(e, no + 38) == le32(d, no + 38)) by {
        assert(e[no + 38] == d[no + 38] && e[no + 39] == d[no + 39] && e[no + 40] == d[no + 40]
            && e[no + 41] == d[no + 41]);
    }
}

/// Deleting the character of `slot` from a save laid out as the game writes
/// it keeps the layout, removes `slot` from the occupied slots and nothing
/// else, and leaves every other slot's character (level, stats, runes, name
/// and play time) as it was.
pub proof fn lemma_delete_keeps_characters(d: Seq<u8>, slot: int)
    requires
        laid_out(d),
        0 <= slot < 10,
    ensures
        delete_outcome(d, slot) is Ok,
        keeps_others(d, delete_outcome(d, slot)->Ok_0, slot),
        present_slots(delete_outcome(d, slot)->Ok_0) == present_slots(d).filter(
            |x: int| x != slot,
        ),
{
    let e = delete_outcome(d, slot)->Ok_0;
    lemma_delete_writes(d, slot);
    lemma_same_layout(d, e);
    assert forall|o: int, c: Character| 0 <= o < 10 && o != slot implies (character_of(e, o, c)
        == #[trigger] character_of(d, o, c)) by {
        lemma_delete_keeps_slot(d, slot, o);
    }
    assert forall|o: int| 0 <= o < 10 && o != slot implies #[trigger] char_present(e, o)
        == char_present(d, o) by {
        lemma_delete_keeps_slot(d, slot, o);
    }
    let all = Seq::new(10, |x: int| x);
    let pd = |x: int| char_present(d, x);
    let pe = |x: int| char_present(e, x);
    let r = |x: int| x != slot;
    assert forall|i: int| 0 <= i < all.len() implies #[trigger] pe(all[i]) == (pd(all[i]) && r(
        all[i],
    )) by {
        if i != slot {
            lemma_delete_keeps_slot(d, slot, i);
        }
    }
    lemma_filter_both(all, pd, pe, r);
}

/// `e` keeps the layout of `d` and every character of `d` outside `slot`:
/// the other slots are occupied as before and read back the same.
pub open spec fn keeps_others(d: Seq<u8>, e: Seq<u8>, slot: int) -> bool {
    &&& laid_out(e)
    &&& forall|o: int|
        0 <= o < 10 && o != slot ==> #[trigger] char_present(e, o) == char_present(d, o)
    &&& forall|o: int, c: Character|
        0 <= o < 10 && o != slot ==> (character_of(e, o, c) == #[trigger] character_of(d, o, c))
}

/// The span (start, length) lies inside what belongs to `slot`: its section,
/// its name record, or the header section's checksum.
pub open spec fn slot_span(d: Seq<u8>, slot: int, span: (int, int)) -> bool {
    ||| sec_off(d, slot) <= span.0 && span.0 + span.1 <= body_end(d, slot)
    ||| name_pos(d, slot) <= span.0 && span.0 + span.1 <= name_pos(d, slot) + 42
    ||| sec_off(d, 10) <= span.0 && span.0 + span.1 <= sec_off(d, 10) + 16
}

/// An edit that only touches what belongs to `slot` keeps the others.
proof fn lemma_local_edit(d: Seq<u8>, e: Seq<u8>, slot: int, spans: Seq<(int, int)>)
    requires
        laid_out(d),
        0 <= slot < 10,
        only_touches(d, e, spans),
        forall|k: int| 0 <= k < spans.len() ==> slot_span(d, slot, #[trigger] spans[k]),
    ensures
        keeps_others(d, e, slot),
{
    lemma_table_end(d);
    assert(sec_off(d, slot) >= table_end(d) && body_start(d, slot) <= body_end(d, slot));
    assert(sec_off(d, 10) >= table_end(d) && body_start(d, 10) <= body_end(d, 10));
    assert(apart(sec_off(d, slot), body_end(d, slot), sec_off(d, 10), body_end(d, 10)));
    let np = name_pos(d, slot);
    assert(body_start(d, 10) <= np && np + 42 <= body_end(d, 10));
    assert forall|i: int|
        0 <= i < d.len() && !(sec_off(d, slot) <= i < body_end(d, slot)) && !(np <= i < np + 42)
            && !(sec_off(d, 10) <= i < sec_off(d, 10) + 16) implies #[trigger] e[i] == d[i] by {
        assert forall|k: int| 0 <= k < spans.len() implies !(#[trigger] spans[k].0 <= i < spans[k].0
            + spans[k].1) by {
            assert(slot_span(d, slot, spans[k]));
        }
    }
    assert forall|i: int| 0 <= i < table_end(d) implies #[trigger] e[i] == d[i] by {
        assert(sec_off(d, slot) >= table_end(d));
    }
    lemma_same_layout(d, e);
    lemma_same_table(d, e);
    assert forall|o: int| 0 <= o < 10 && o != slot implies #[trigger] char_present(e, o)
        == char_present(d, o) && forall|c: Character| character_of(e, o, c) == #[trigger] character_of(
        d,
        o,
        c,
    ) by {
        assert(sec_off(d, o) >= table_end(d) && body_start(d, o) <= body_end(d, o));
        if o < slot {
            assert(apart(sec_off(d, o), body_end(d, o), sec_off(d, slot), body_end(d, slot)));
        } else {
            assert(apart(sec_off(d, slot), body_end(d, slot), sec_off(d, o), body_end(d, o)));
        }
        assert(apart(sec_off(d, o), body_end(d, o), sec_off(d, 10), body_end(d, 10)));
        let ob = body_start(d, o);
        let oe = body_end(d, o);
        assert forall|i: int| ob <= i < oe implies #[trigger] e[i] == d[i] by {}
        assert(sec_body(e, o) =~= sec_body(d, o));
        let no = name_pos(d, o);
        assert(body_start(d, 10) <= no && no + 42 <= body_end(d, 10));
        assert(name_pos(e, o) == no);
        assert forall|k: int| no <= k < no + 42 implies #[trigger] e[k] == d[k] by {
            assert(no - np == (o - slot) * 588);
        }
        lemma_zstr_same(d, e, no, no + 32);
        assert(le32(e, no + 38) == le32(d, no + 38)) by {
            assert(e[no + 38] == d[no + 38] && e[no + 39] == d[no + 39] && e[no + 40] == d[no
                + 40] && e[no + 41] == d[no + 41]);
        }
    }
    assert forall|o: int, c: Character| 0 <= o < 10 && o != slot implies (character_of(e, o, c)
        == #[trigger] character_of(d, o, c)) by {
        assert(char_present(e, o) == char_present(d, o));
    }
}

/// Setting the runes of `slot` keeps every other character, when the rune
/// count lies inside the slot's body.
pub proof fn lemma_set_runes_keeps_others(d: Seq<u8>, slot: int, v: u32)
    requires
        laid_out(d),
        0 <= slot < 10,
        set_runes_outcome(d, slot, v) is Ok,
        anchor_pos(d, slot) + 52 <= body_end(d, slot),
    ensures
        keeps_others(d, set_runes_outcome(d, slot, v)->Ok_0, slot),
{
    lemma_anchor_from(sec_body(d, slot), 0);
    lemma_set_runes_frame(d, slot, v);
    let spans = seq![(anchor_pos(d, slot) + 48, 4int), (sec_off(d, slot), 16int)];
    assert forall|k: int| 0 <= k < spans.len() implies slot_span(d, slot, #[trigger] spans[k]) by {
        if k == 0 {
            assert(spans[k] == (anchor_pos(d, slot) + 48, 4int));
        } else {
            assert(spans[k] == (sec_off(d, slot), 16int));
        }
    }
    lemma_local_edit(d, set_runes_outcome(d, slot, v)->Ok_0, slot, spans);
}

/// Setting the stats of `slot` keeps every other character.
pub proof fn lemma_set_stats_keeps_others(d: Seq<u8>, slot: int, st: Seq<u8>)
    requires
        laid_out(d),
        0 <= slot < 10,
        st.len() == 8,
        set_stats_outcome(d, slot, st) is Ok,
    ensures
        keeps_others(d, set_stats_outcome(d, slot, st)->Ok_0, slot),
{
    lemma_anchor_from(sec_body(d, slot), 0);
    lemma_set_stats_frame(d, slot, st);
    let a = anchor_pos(d, slot);
    let np = name_pos(d, slot);
    let spans = seq![
        (a, 32int),
        (a + 44, 2int),
        (np + 34, 2int),
        (sec_off(d, slot), 16int),
        (sec_off(d, 10), 16int),
    ];
    assert forall|k: int| 0 <= k < spans.len() implies slot_span(d, slot, #[trigger] spans[k]) by {
        if k == 0 {
            assert(spans[k] == (a, 32int));
        } else if k == 1 {
            assert(spans[k] == (a + 44, 2int));
        } else if k == 2 {
            assert(spans[k] == (np + 34, 2int));
        } else if k == 3 {
            assert(spans[k] == (sec_off(d, slot), 16int));
        } else {
            assert(spans[k] == (sec_off(d, 10), 16int));
        }
    }
    lemma_local_edit(d, set_stats_outcome(d, slot, st)->Ok_0, slot, spans);
}

/// Renaming `slot` keeps every other character.
pub proof fn lemma_set_name_keeps_others(d: Seq<u8>, slot: int, name: Seq<char>)
    requires
        laid_out(d),
        0 <= slot < 10,
        set_name_outcome(d, slot, name) is Ok,
    ensures
        keeps_others(d, set_name_outcome(d, slot, name)->Ok_0, slot),
{
    lemma_set_name_frame(d, slot, name);
    let spans = seq![(name_pos(d, slot), 32int), (sec_off(d, 10), 16int)];
    assert forall|k: int| 0 <= k < spans.len() implies slot_span(d, slot, #[trigger] spans[k]) by {
        if k == 0 {
            assert(spans[k] == (name_pos(d, slot), 32int));
        } else {
            assert(spans[k] == (sec_off(d, 10), 16int));
        }
    }
    lemma_local_edit(d, set_name_outcome(d, slot, name)->Ok_0, slot, spans);
}

/// Giving `slot` an item, by setting the quantity of an owned one or by
/// appending a new entry, keeps every other character, when for a new entry
/// the held common-items table lies inside the slot's body.
pub proof fn lemma_give_keeps_others(d: Seq<u8>, slot: int, base_id: u32, qty: u32)
    requires
        laid_out(d),
        0 <= slot < 10,
        give_outcome(d, slot, base_id, qty) is Ok,
        !owns(d, slot, base_id) ==> common_table(d, slot) + 0x9010 <= body_end(d, slot),
    ensures
        keeps_others(d, give_outcome(d, slot, base_id, qty)->Ok_0, slot),
{
    if owns(d, slot, base_id) {
        lemma_set_qty_keeps_others(d, slot, base_id, qty);
    } else {
        lemma_anchor_from(sec_body(d, slot), 0);
        lemma_append_frame(d, slot, base_id, qty);
        let spans = seq![(common_table(d, slot), 0x9010int), (sec_off(d, slot), 16int)];
        assert forall|k: int| 0 <= k < spans.len() implies slot_span(d, slot, #[trigger] spans[k]) by {
            if k == 0 {
                assert(spans[k] == (common_table(d, slot), 0x9010int));
            } else {
                assert(spans[k] == (sec_off(d, slot), 16int));
            }
        }
        lemma_local_edit(d, append_outcome(d, slot, base_id, qty)->Ok_0, slot, spans);
    }
}

/// Setting the quantity of an owned item of `slot` keeps every other
/// character.
pub proof fn lemma_set_qty_keeps_others(d: Seq<u8>, slot: int, base_id: u32, qty: u32)
    requires
        laid_out(d),
        0 <= slot < 10,
        set_qty_outcome(d, slot, base_id, qty) is Ok,
    ensures
        keeps_others(d, set_qty_outcome(d, slot, base_id, qty)->Ok_0, slot),
{
    let h = goods_handle(base_id);
    let p = qty_pos_from(d, body_start(d, slot), body_end(d, slot), h)->0;
    lemma_qty_pos(d, body_start(d, slot), body_end(d, slot), h);
    lemma_set_qty_frame(d, slot, base_id, qty);
    let spans = seq![(p, 4int), (sec_off(d, slot), 16int)];
    assert forall|k: int| 0 <= k < spans.len() implies slot_span(d, slot, #[trigger] spans[k]) by {
        if k == 0 {
            assert(spans[k] == (p, 4int));
        } else {
            assert(spans[k] == (sec_off(d, slot), 16int));
        }
    }
    lemma_local_edit(d, set_qty_outcome(d, slot, base_id, qty)->Ok_0, slot, spans);
}

} // verus!
