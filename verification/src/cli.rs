//! The decisions of the command-line `give`: reading its arguments, picking
//! the item by keyword and the character slot it goes to.
use crate::item_db::{item_search, row_view, search_result};
use crate::text::{decimal, parse_u32, parse_usize, parsed_u32, parsed_usize, push_decimal};
use vstd::prelude::*;

verus! {

/// The usage line of `give`.
pub open spec fn give_usage() -> Seq<char> {
    "用法: er-qs give <物品名关键词> <数量> [槽位]"@
}

/// The quantity that `give` was asked for: the keyword and a quantity that
/// reads as a `u32` must both be there, else the usage line is the error.
pub fn give_quantity(keyword: Option<&str>, qty: Option<&str>) -> (r: Result<u32, String>)
    ensures
        match (keyword, qty) {
            (Some(_), Some(q)) if parsed_u32(q@) is Some => r == Ok::<u32, String>(parsed_u32(q@)->0),
            _ => r is Err && r->Err_0@ == give_usage(),
        },
{
    if keyword.is_none() {
        return Err(String::from_str("用法: er-qs give <物品名关键词> <数量> [槽位]"));
    }
    match qty {
        Some(q) => match parse_u32(q) {
            Some(v) => Ok(v),
            None => Err(String::from_str("用法: er-qs give <物品名关键词> <数量> [槽位]")),
        },
        None => Err(String::from_str("用法: er-qs give <物品名关键词> <数量> [槽位]")),
    }
}

/// The items that a keyword finds: exactly one, or several to choose from.
pub enum Pick {
    One(u32, &'static str),
    Many(Vec<(u32, &'static str)>),
}

/// The item that `give` gives: the one item whose name holds `keyword`; an
/// error when none does; the list when several do.
pub fn pick_item(keyword: &str) -> (r: Result<Pick, String>)
    ensures
        search_result(keyword@).len() == 0 <==> r is Err,
        r is Err ==> r->Err_0@ == "没找到匹配 '"@ + keyword@ + "' 的物品"@,
        search_result(keyword@).len() == 1 ==> (r matches Ok(Pick::One(id, name)) && (
        id,
        name@,
        ) == search_result(keyword@)[0]),
        search_result(keyword@).len() > 1 ==> (r matches Ok(Pick::Many(v)) && v@.map_values(
            |e: (u32, &str)| row_view(e),
        ) == search_result(keyword@)),
{
    let found = item_search(keyword);
    proof {
        assert(found@.map_values(|e: (u32, &str)| row_view(e)).len() == found@.len());
    }
    if found.len() == 0 {
        let mut e = String::from_str("没找到匹配 '");
        e.append(keyword);
        e.append("' 的物品");
        Err(e)
    } else if found.len() == 1 {
        let (id, name) = found[0];
        proof {
            assert(found@.map_values(|e: (u32, &str)| row_view(e))[0] == row_view(found@[0]));
        }
        Ok(Pick::One(id, name))
    } else {
        Ok(Pick::Many(found))
    }
}

/// The slot that `give` goes to, among the slots that hold a character: the
/// slot named, or slot 0 when none is named; it must read as a number and
/// hold a character.
pub fn give_slot(slots: &Vec<usize>, arg: Option<&str>) -> (r: Result<usize, String>)
    ensures
        match arg {
            Some(a) => match parsed_usize(a@) {
                None => r is Err && r->Err_0@ == "槽位要是数字(0-9)"@,
                Some(n) => if slots@.contains(n) {
                    r == Ok::<usize, String>(n)
                } else {
                    r is Err && r->Err_0@ == "槽"@ + decimal(n as nat) + " 没有角色"@
                },
            },
            None => if slots@.contains(0) {
                r == Ok::<usize, String>(0)
            } else {
                r is Err && r->Err_0@ == "槽0 没有角色"@
            },
        },
{
    let n = match arg {
        Some(a) => match parse_usize(a) {
            None => {
                return Err(String::from_str("槽位要是数字(0-9)"));
            },
            Some(n) => n,
        },
        None => 0,
    };
    let mut i: usize = 0;
    while i < slots.len()
        invariant
            match arg {
                Some(a) => parsed_usize(a@) == Some(n),
                None => n == 0,
            },
            i <= slots.len(),
            forall|k: int| 0 <= k < i ==> slots@[k] != n,
        decreases slots.len() - i,
    {
        if slots[i] == n {
            assert(slots@[i as int] == n);
            return Ok(n);
        }
        i = i + 1;
    }
    let mut e = String::from_str("槽");
    push_decimal(&mut e, n as u128);
    e.append(" 没有角色");
    proof {
        assert(!slots@.contains(n));
        if arg is None {
            // the message for slot 0 spelled out
            reveal_strlit("0");
            reveal_strlit("槽0 没有角色");
            reveal_strlit("槽");
            reveal_strlit(" 没有角色");
            assert(e@ =~= "槽0 没有角色"@);
        }
    }
    Err(e)
}

} // verus!
