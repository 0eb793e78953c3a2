//! The goods that the library can name and give: base id (without the
//! category prefix) and official zh-Hans name.
//!
//! The table here is cut down: it holds only the 75 common goods (golden
//! runes, upgrade materials, consumables, key items). The full table of the
//! game's item names, over 1,700 entries taken from `item.msgbnd.dcx`, is not
//! part of this crate. So every function that goes through the table knows
//! only these 75 ids: `item_name` names no other id, `item_search` finds no
//! other item, `SaveFile::owned_items` leaves out owned goods of other ids,
//! and `SaveFile::give_item` takes an owned item of another id for a new one
//! and appends a second entry for it instead of setting its quantity. The
//! contracts are stated over `item_table`, so they hold of whichever table
//! stands here; putting the full table in `item_table` and `common_items`
//! (in the same order, as two copies) lifts the cut.
use crate::text::{contains_str, has_substring};
use vstd::prelude::*;

verus! {

/// The item table: (base id, name). Only the 75 common goods; see the
/// module's documentation.
pub open spec fn item_table() -> Seq<(u32, Seq<char>)> {
    seq![
        (2900u32, "黄金卢恩[1]"@),
        (2901u32, "黄金卢恩[2]"@),
        (2902u32, "黄金卢恩[3]"@),
        (2903u32, "黄金卢恩[4]"@),
        (2904u32, "黄金卢恩[5]"@),
        (2905u32, "黄金卢恩[6]"@),
        (2906u32, "黄金卢恩[7]"@),
        (2907u32, "黄金卢恩[8]"@),
        (2908u32, "黄金卢恩[9]"@),
        (2909u32, "黄金卢恩[10]"@),
        (2910u32, "黄金卢恩[11]"@),
        (2911u32, "黄金卢恩[12]"@),
        (2912u32, "黄金卢恩[13]"@),
        (2913u32, "稀人卢恩"@),
        (2914u32, "英雄卢恩[1]"@),
        (2915u32, "英雄卢恩[2]"@),
        (2916u32, "英雄卢恩[3]"@),
        (2917u32, "英雄卢恩[4]"@),
        (2918u32, "英雄卢恩[5]"@),
        (2919u32, "王之卢恩"@),
        (190u32, "卢恩弯弧"@),
        (10100u32, "锻造石[1]"@),
        (10101u32, "锻造石[2]"@),
        (10102u32, "锻造石[3]"@),
        (10103u32, "锻造石[4]"@),
        (10104u32, "锻造石[5]"@),
        (10105u32, "锻造石[6]"@),
        (10106u32, "锻造石[7]"@),
        (10107u32, "锻造石[8]"@),
        (10140u32, "古龙岩锻造石"@),
        (10160u32, "失色锻造石[1]"@),
        (10161u32, "失色锻造石[2]"@),
        (10162u32, "失色锻造石[3]"@),
        (10163u32, "失色锻造石[4]"@),
        (10164u32, "失色锻造石[5]"@),
        (10165u32, "失色锻造石[6]"@),
        (10166u32, "失色锻造石[7]"@),
        (10167u32, "失色锻造石[8]"@),
        (10200u32, "失色锻造石[9]"@),
        (10168u32, "古龙岩失色锻造石"@),
        (10900u32, "墓地铃兰[1]"@),
        (10901u32, "墓地铃兰[2]"@),
        (10902u32, "墓地铃兰[3]"@),
        (10903u32, "墓地铃兰[4]"@),
        (10904u32, "墓地铃兰[5]"@),
        (10905u32, "墓地铃兰[6]"@),
        (10906u32, "墓地铃兰[7]"@),
        (10907u32, "墓地铃兰[8]"@),
        (10908u32, "墓地铃兰[9]"@),
        (10909u32, "大朵墓地铃兰"@),
        (10910u32, "灵依墓地铃兰[1]"@),
        (10911u32, "灵依墓地铃兰[2]"@),
        (10912u32, "灵依墓地铃兰[3]"@),
        (10913u32, "灵依墓地铃兰[4]"@),
        (10914u32, "灵依墓地铃兰[5]"@),
        (10915u32, "灵依墓地铃兰[6]"@),
        (10916u32, "灵依墓地铃兰[7]"@),
        (10917u32, "灵依墓地铃兰[8]"@),
        (10918u32, "灵依墓地铃兰[9]"@),
        (10919u32, "大朵灵依墓地铃兰"@),
        (940u32, "腐败苔药"@),
        (150u32, "唤勾指药"@),
        (1190u32, "腌制白银鸟爪"@),
        (1200u32, "腌制黄金鸟爪"@),
        (1210u32, "勇者肉块"@),
        (2130u32, "星星泪滴"@),
        (8185u32, "泪滴幼体"@),
        (10010u32, "黄金种子"@),
        (10020u32, "圣杯露滴"@),
        (10030u32, "记忆石"@),
        (10040u32, "护符皮袋"@),
        (10060u32, "龙心脏"@),
        (2090u32, "死根"@),
        (8000u32, "石剑钥匙"@),
        (8186u32, "魔石剑钥匙"@),
    ]
}

/// The name that the table gives `base_id`: that of its first entry with it.
pub open spec fn name_in(t: Seq<(u32, Seq<char>)>, base_id: u32) -> Option<Seq<char>>
    decreases t.len(),
{
    if t.len() == 0 {
        None
    } else if t[0].0 == base_id {
        Some(t[0].1)
    } else {
        name_in(t.drop_first(), base_id)
    }
}

/// The zh-Hans name of an item, when the table knows it.
pub open spec fn item_name_of(base_id: u32) -> Option<Seq<char>> {
    name_in(item_table(), base_id)
}

/// The view of a table row: base id and the name's characters.
pub open spec fn row_view(e: (u32, &str)) -> (u32, Seq<char>) {
    (e.0, e.1@)
}

/// An editable item: display name + base id (the id WITHOUT the 0x40000000 /
/// 0xB0000000 category prefix). The inventory entry's ga_item_handle is
/// `base_id | 0xB0000000` for normal goods.
pub struct ItemDef {
    pub name: &'static str,
    pub base_id: u32,
}

/// The view of an item definition: base id and the name's characters.
pub open spec fn def_view(e: ItemDef) -> (u32, Seq<char>) {
    (e.base_id, e.name@)
}

/// Runes, upgrade materials, consumables and key items, in table order.
pub fn common_items() -> (items: Vec<ItemDef>)
    ensures
        items@.map_values(|e: ItemDef| def_view(e)) == item_table(),
{
    let mut db: Vec<ItemDef> = Vec::new();
    db.push(ItemDef { name: "黄金卢恩[1]", base_id: 2900 });
    db.push(ItemDef { name: "黄金卢恩[2]", base_id: 2901 });
    db.push(ItemDef { name: "黄金卢恩[3]", base_id: 2902 });
    db.push(ItemDef { name: "黄金卢恩[4]", base_id: 2903 });
    db.push(ItemDef { name: "黄金卢恩[5]", base_id: 2904 });
    db.push(ItemDef { name: "黄金卢恩[6]", base_id: 2905 });
    db.push(ItemDef { name: "黄金卢恩[7]", base_id: 2906 });
    db.push(ItemDef { name: "黄金卢恩[8]", base_id: 2907 });
    db.push(ItemDef { name: "黄金卢恩[9]", base_id: 2908 });
    db.push(ItemDef { name: "黄金卢恩[10]", base_id: 2909 });
    db.push(ItemDef { name: "黄金卢恩[11]", base_id: 2910 });
    db.push(ItemDef { name: "黄金卢恩[12]", base_id: 2911 });
    db.push(ItemDef { name: "黄金卢恩[13]", base_id: 2912 });
    db.push(ItemDef { name: "稀人卢恩", base_id: 2913 });
    db.push(ItemDef { name: "英雄卢恩[1]", base_id: 2914 });
    db.push(ItemDef { name: "英雄卢恩[2]", base_id: 2915 });
    db.push(ItemDef { name: "英雄卢恩[3]", base_id: 2916 });
    db.push(ItemDef { name: "英雄卢恩[4]", base_id: 2917 });
    db.push(ItemDef { name: "英雄卢恩[5]", base_id: 2918 });
    db.push(ItemDef { name: "王之卢恩", base_id: 2919 });
    db.push(ItemDef { name: "卢恩弯弧", base_id: 190 });
    db.push(ItemDef { name: "锻造石[1]", base_id: 10100 });
    db.push(ItemDef { name: "锻造石[2]", base_id: 10101 });
    db.push(ItemDef { name: "锻造石[3]", base_id: 10102 });
    db.push(ItemDef { name: "锻造石[4]", base_id: 10103 });
    db.push(ItemDef { name: "锻造石[5]", base_id: 10104 });
    db.push(ItemDef { name: "锻造石[6]", base_id: 10105 });
    db.push(ItemDef { name: "锻造石[7]", base_id: 10106 });
    db.push(ItemDef { name: "锻造石[8]", base_id: 10107 });
    db.push(ItemDef { name: "古龙岩锻造石", base_id: 10140 });
    db.push(ItemDef { name: "失色锻造石[1]", base_id: 10160 });
    db.push(ItemDef { name: "失色锻造石[2]", base_id: 10161 });
    db.push(ItemDef { name: "失色锻造石[3]", base_id: 10162 });
    db.push(ItemDef { name: "失色锻造石[4]", base_id: 10163 });
    db.push(ItemDef { name: "失色锻造石[5]", base_id: 10164 });
    db.push(ItemDef { name: "失色锻造石[6]", base_id: 10165 });
    db.push(ItemDef { name: "失色锻造石[7]", base_id: 10166 });
    db.push(ItemDef { name: "失色锻造石[8]", base_id: 10167 });
    db.push(ItemDef { name: "失色锻造石[9]", base_id: 10200 });
    db.push(ItemDef { name: "古龙岩失色锻造石", base_id: 10168 });
    db.push(ItemDef { name: "墓地铃兰[1]", base_id: 10900 });
    db.push(ItemDef { name: "墓地铃兰[2]", base_id: 10901 });
    db.push(ItemDef { name: "墓地铃兰[3]", base_id: 10902 });
    db.push(ItemDef { name: "墓地铃兰[4]", base_id: 10903 });
    db.push(ItemDef { name: "墓地铃兰[5]", base_id: 10904 });
    db.push(ItemDef { name: "墓地铃兰[6]", base_id: 10905 });
    db.push(ItemDef { name: "墓地铃兰[7]", base_id: 10906 });
    db.push(ItemDef { name: "墓地铃兰[8]", base_id: 10907 });
    db.push(ItemDef { name: "墓地铃兰[9]", base_id: 10908 });
    db.push(ItemDef { name: "大朵墓地铃兰", base_id: 10909 });
    db.push(ItemDef { name: "灵依墓地铃兰[1]", base_id: 10910 });
    db.push(ItemDef { name: "灵依墓地铃兰[2]", base_id: 10911 });
    db.push(ItemDef { name: "灵依墓地铃兰[3]", base_id: 10912 });
    db.push(ItemDef { name: "灵依墓地铃兰[4]", base_id: 10913 });
    db.push(ItemDef { name: "灵依墓地铃兰[5]", base_id: 10914 });
    db.push(ItemDef { name: "灵依墓地铃兰[6]", base_id: 10915 });
    db.push(ItemDef { name: "灵依墓地铃兰[7]", base_id: 10916 });
    db.push(ItemDef { name: "灵依墓地铃兰[8]", base_id: 10917 });
    db.push(ItemDef { name: "灵依墓地铃兰[9]", base_id: 10918 });
    db.push(ItemDef { name: "大朵灵依墓地铃兰", base_id: 10919 });
    db.push(ItemDef { name: "腐败苔药", base_id: 940 });
    db.push(ItemDef { name: "唤勾指药", base_id: 150 });
    db.push(ItemDef { name: "腌制白银鸟爪", base_id: 1190 });
    db.push(ItemDef { name: "腌制黄金鸟爪", base_id: 1200 });
    db.push(ItemDef { name: "勇者肉块", base_id: 1210 });
    db.push(ItemDef { name: "星星泪滴", base_id: 2130 });
    db.push(ItemDef { name: "泪滴幼体", base_id: 8185 });
    db.push(ItemDef { name: "黄金种子", base_id: 10010 });
    db.push(ItemDef { name: "圣杯露滴", base_id: 10020 });
    db.push(ItemDef { name: "记忆石", base_id: 10030 });
    db.push(ItemDef { name: "护符皮袋", base_id: 10040 });
    db.push(ItemDef { name: "龙心脏", base_id: 10060 });
    db.push(ItemDef { name: "死根", base_id: 2090 });
    db.push(ItemDef { name: "石剑钥匙", base_id: 8000 });
    db.push(ItemDef { name: "魔石剑钥匙", base_id: 8186 });
    assert(db@.map_values(|e: ItemDef| def_view(e)) =~= item_table());
    db
}

/// The item table as (base id, name) rows, in order.
pub fn item_db() -> (db: Vec<(u32, &'static str)>)
    ensures
        db@.map_values(|e: (u32, &str)| row_view(e)) == item_table(),
{
    let items = common_items();
    let ghost t = item_table();
    let mut db: Vec<(u32, &'static str)> = Vec::new();
    let mut i: usize = 0;
    while i < items.len()
        invariant
            i <= items@.len(),
            items@.map_values(|e: ItemDef| def_view(e)) == t,
            db@.map_values(|e: (u32, &str)| row_view(e)) == t.take(i as int),
            db@.len() == i,
            t.len() == items@.len(),
        decreases items@.len() - i,
    {
        let e = &items[i];
        let ghost before = db@;
        db.push((e.base_id, e.name));
        assert(items@.map_values(|e: ItemDef| def_view(e))[i as int] == def_view(items@[i as int]));
        assert(row_view(db@[i as int]) == def_view(items@[i as int]));
        assert(db@ == before.push((e.base_id, e.name)));
        assert(db@.map_values(|e: (u32, &str)| row_view(e)) =~= t.take(i + 1));
        i = i + 1;
    }
    assert(t.take(items@.len() as int) =~= t);
    db
}

/// The rows of the item table whose name holds `keyword`.
pub open spec fn search_result(keyword: Seq<char>) -> Seq<(u32, Seq<char>)> {
    item_table().filter(|e: (u32, Seq<char>)| has_substring(e.1, keyword))
}

/// Search the item table by name substring. Returns (base_id, zh-Hans name).
pub fn item_search(keyword: &str) -> (r: Vec<(u32, &'static str)>)
    ensures
        r@.map_values(|e: (u32, &str)| row_view(e)) == search_result(keyword@),
{
    let db = item_db();
    let ghost t = item_table();
    let ghost pred = |e: (u32, Seq<char>)| has_substring(e.1, keyword@);
    let mut r: Vec<(u32, &'static str)> = Vec::new();
    let mut i: usize = 0;
    while i < db.len()
        invariant
            i <= db@.len(),
            db@.map_values(|e: (u32, &str)| row_view(e)) == t,
            t == item_table(),
            pred == (|e: (u32, Seq<char>)| has_substring(e.1, keyword@)),
            r@.map_values(|e: (u32, &str)| row_view(e)) == t.take(i as int).filter(pred),
        decreases db@.len() - i,
    {
        let (id, name) = db[i];
        proof {
            assert(t.take(i + 1).drop_last() =~= t.take(i as int));
            reveal_with_fuel(Seq::<_>::filter, 1);
            assert(t[i as int] == row_view(db@[i as int]));
        }
        if contains_str(name, keyword) {
            r.push((id, name));
            assert(r@.map_values(|e: (u32, &str)| row_view(e)) =~= t.take(i as int).filter(
                pred,
            ).push(t[i as int]));
        }
        i = i + 1;
    }
    assert(t.take(db@.len() as int) =~= t);
    r
}

/// Looks up the name of `base_id` in the item table.
pub fn item_name(base_id: u32) -> (r: Option<&'static str>)
    ensures
        match r {
            Some(n) => item_name_of(base_id) == Some(n@),
            None => item_name_of(base_id) is None,
        },
{
    let db = item_db();
    let ghost t = item_table();
    let mut i: usize = 0;
    assert(t.skip(0) =~= t);
    while i < db.len()
        invariant
            i <= db@.len(),
            db@.map_values(|e: (u32, &str)| row_view(e)) == t,
            t == item_table(),
            name_in(t, base_id) == name_in(t.skip(i as int), base_id),
        decreases db@.len() - i,
    {
        let (id, name) = db[i];
        assert(t.skip(i as int)[0] == row_view(db@[i as int]));
        assert(t.skip(i as int).drop_first() =~= t.skip(i + 1));
        if id == base_id {
            return Some(name);
        }
        i = i + 1;
    }
    None
}

/// A filter whose predicate holds of every element keeps the sequence.
proof fn lemma_filter_all(s: Seq<(u32, Seq<char>)>, p: spec_fn((u32, Seq<char>)) -> bool)
    requires
        forall|i: int| 0 <= i < s.len() ==> p(#[trigger] s[i]),
    ensures
        s.filter(p) == s,
    decreases s.len(),
{
    reveal_with_fuel(Seq::<_>::filter, 1);
    if s.len() > 0 {
        lemma_filter_all(s.drop_last(), p);
        assert(s.drop_last().push(s.last()) =~= s);
    }
}

/// Searching with the empty keyword gives the whole table, and every row
/// that a search gives has the keyword in its name.
pub proof fn lemma_search(keyword: Seq<char>)
    ensures
        search_result(Seq::<char>::empty()) == item_table(),
        forall|j: int|
            0 <= j < search_result(keyword).len() ==> has_substring(
                #[trigger] search_result(keyword)[j].1,
                keyword,
            ),
{
    let t = item_table();
    let p0 = |e: (u32, Seq<char>)| has_substring(e.1, Seq::<char>::empty());
    assert forall|i: int| 0 <= i < t.len() implies p0(#[trigger] t[i]) by {
        assert(t[i].1.subrange(0, 0 + Seq::<char>::empty().len() as int) =~= Seq::<char>::empty());
    }
    lemma_filter_all(t, p0);
    let p = |e: (u32, Seq<char>)| has_substring(e.1, keyword);
    assert forall|j: int| 0 <= j < search_result(keyword).len() implies has_substring(
        #[trigger] search_result(keyword)[j].1,
        keyword,
    ) by {
        t.lemma_filter_pred(p, j);
    }
}

/// Every base id of `t` from index `i` on is below `n`.
pub open spec fn ids_below(t: Seq<(u32, Seq<char>)>, i: int, n: u32) -> bool
    decreases t.len() - i,
{
    i < 0 || i >= t.len() || (t[i].0 < n && ids_below(t, i + 1, n))
}

proof fn lemma_name_in_below(t: Seq<(u32, Seq<char>)>, base_id: u32, n: u32)
    requires
        ids_below(t, 0, n),
        name_in(t, base_id) is Some,
    ensures
        base_id < n,
    decreases t.len(),
{
    if t[0].0 != base_id {
        let r = t.drop_first();
        assert forall|i: int| 0 <= i <= r.len() implies #[trigger] ids_below(r, i, n) by {
            lemma_below_shift(t, r, i, n);
        }
        lemma_name_in_below(r, base_id, n);
    }
}

proof fn lemma_below_shift(t: Seq<(u32, Seq<char>)>, r: Seq<(u32, Seq<char>)>, i: int, n: u32)
    requires
        t.len() > 0,
        r == t.drop_first(),
        ids_below(t, 0, n),
        0 <= i <= r.len(),
    ensures
        ids_below(r, i, n),
    decreases r.len() - i,
{
    if i < r.len() {
        lemma_below_shift(t, r, i + 1, n);
        lemma_below_at(t, 0, i + 1, n);
    }
}

proof fn lemma_below_at(t: Seq<(u32, Seq<char>)>, i: int, k: int, n: u32)
    requires
        0 <= i <= k < t.len(),
        ids_below(t, i, n),
    ensures
        t[k].0 < n,
    decreases k - i,
{
    if i < k {
        lemma_below_at(t, i + 1, k, n);
    }
}

/// Every base id that the table names is below 0xB000, so it fits in two
/// bytes whose high one is below 0xB0.
pub proof fn lemma_named_ids_small(base_id: u32)
    requires
        item_name_of(base_id) is Some,
    ensures
        base_id < 0xB000,
{
    assert(ids_below(item_table(), 0, 0xB000)) by {
        reveal_with_fuel(ids_below, 80);
    }
    lemma_name_in_below(item_table(), base_id, 0xB000);
}

} // verus!
