//! What the terminal front-end shows: the title, rows and selection of the
//! main list, the snapshot panel's title and selection, and the footer's
//! prompt and help line. The front-end turns these texts into widgets.
use crate::bnd4::Character;
use crate::screen::{Cursor, Focus, Input, Mode, Screen};
use crate::text::{decimal, push_decimal};
use vstd::prelude::*;

verus! {

/// The name of stat `i`, in storage order (official zh-Hans; Arcane is
/// 感应).
pub open spec fn stat_label(i: int) -> Seq<char> {
    if i == 0 {
        "生命力"@
    } else if i == 1 {
        "集中力"@
    } else if i == 2 {
        "耐力"@
    } else if i == 3 {
        "力气"@
    } else if i == 4 {
        "灵巧"@
    } else if i == 5 {
        "智力"@
    } else if i == 6 {
        "信仰"@
    } else {
        "感应"@
    }
}

/// The name of stat `i`.
pub fn stat_name(i: usize) -> (r: &'static str)
    requires
        i < 8,
    ensures
        r@ == stat_label(i as int),
{
    if i == 0 {
        "生命力"
    } else if i == 1 {
        "集中力"
    } else if i == 2 {
        "耐力"
    } else if i == 3 {
        "力气"
    } else if i == 4 {
        "灵巧"
    } else if i == 5 {
        "智力"
    } else if i == 6 {
        "信仰"
    } else {
        "感应"
    }
}

/// `v` right-aligned in two columns.
pub open spec fn width2(v: u8) -> Seq<char> {
    if v < 10 {
        " "@ + decimal(v as nat)
    } else {
        decimal(v as nat)
    }
}

/// One stat: its name, padded to line up the short names, and its value.
pub open spec fn stat_part(i: int, v: u8) -> Seq<char> {
    stat_label(i) + (if stat_label(i).len() >= 3 {
        ""@
    } else {
        "  "@
    }) + width2(v)
}

/// Four stats from `k` on, indented.
pub open spec fn stats_line(st: Seq<u8>, k: int) -> Seq<char> {
    "  "@ + stat_part(k, st[k]) + "  "@ + stat_part(k + 1, st[k + 1]) + "  "@ + stat_part(
        k + 2,
        st[k + 2],
    ) + "  "@ + stat_part(k + 3, st[k + 3])
}

/// The first line of a character: slot, name, level, runes and play time.
pub open spec fn char_head(c: Character) -> Seq<char> {
    "[槽"@ + decimal(c.slot as nat) + "] "@ + c.name@ + "  Lv"@ + decimal(c.level as nat)
        + "  "@ + decimal(c.runes as nat) + "符文  "@ + decimal((c.playtime_secs / 3600) as nat)
        + "h"@ + decimal(((c.playtime_secs % 3600) / 60) as nat) + "m"@
}

/// The three lines of a character row.
pub open spec fn char_lines(c: Character) -> Seq<Seq<char>> {
    seq![char_head(c), stats_line(c.stats@, 0), stats_line(c.stats@, 4)]
}

/// An owned item row: name and quantity.
pub open spec fn item_line(e: (&str, u32, u32)) -> Seq<char> {
    e.0@ + "  ×"@ + decimal(e.2 as nat)
}

/// A search result row: name and base id.
pub open spec fn result_line(e: (u32, &str)) -> Seq<char> {
    e.1@ + "  (id "@ + decimal(e.0 as nat) + ")"@
}

/// How many entries the main list holds in `mode`.
pub open spec fn list_len(mode: Mode, chars: nat, items: nat, results: nat) -> nat {
    match mode {
        Mode::Normal => chars,
        Mode::Items => items,
        Mode::AddItem => results,
    }
}

/// How many rows the main list shows: its entries, or one line saying it is
/// empty.
pub open spec fn rows_len(mode: Mode, chars: nat, items: nat, results: nat) -> nat {
    if list_len(mode, chars, items, results) == 0 {
        1
    } else {
        list_len(mode, chars, items, results)
    }
}

/// The lines of row `i` of the main list.
pub open spec fn row_lines(
    mode: Mode,
    chars: Seq<Character>,
    items: Seq<(&str, u32, u32)>,
    results: Seq<(u32, &str)>,
    i: int,
) -> Seq<Seq<char>> {
    match mode {
        Mode::Normal => if chars.len() == 0 {
            seq!["(没有角色)"@]
        } else {
            char_lines(chars[i])
        },
        Mode::Items => if items.len() == 0 {
            seq!["(没有可识别的常用物品)"@]
        } else {
            seq![item_line(items[i])]
        },
        Mode::AddItem => if results.len() == 0 {
            seq!["(无匹配)"@]
        } else {
            seq![result_line(results[i])]
        },
    }
}

/// The name of the selected character, or `?`.
pub open spec fn owner_of(c: Cursor, chars: Seq<Character>) -> Seq<char> {
    if c.char_sel < chars.len() {
        chars[c.char_sel as int].name@
    } else {
        "?"@
    }
}

/// The title of the main list.
pub open spec fn title_of(c: Cursor, chars: Seq<Character>, query: Seq<char>, results: nat) -> Seq<
    char,
> {
    match c.mode {
        Mode::Normal => if c.focus == Focus::Chars {
            " 角色 ◀ "@
        } else {
            " 角色 "@
        },
        Mode::Items => " 物品 — "@ + owner_of(c, chars) + " "@,
        Mode::AddItem => " 加物品 → "@ + owner_of(c, chars) + "  搜索: "@ + query + "  ("@ + decimal(
            (c.add_sel + 1) as nat,
        ) + "/"@ + decimal(results) + ") "@,
    }
}

/// The title of the snapshot panel.
pub open spec fn snap_title_of(focus: Focus) -> Seq<char> {
    if focus == Focus::Snapshots {
        " 快照 ◀ "@
    } else {
        " 快照 "@
    }
}

/// The entry of the main list that is highlighted.
pub open spec fn selected_of(c: Cursor, chars: nat, items: nat, results: nat) -> Option<usize> {
    match c.mode {
        Mode::AddItem => if results > 0 {
            Some(c.add_sel)
        } else {
            None
        },
        Mode::Items => if items > 0 {
            Some(c.item_sel)
        } else {
            None
        },
        Mode::Normal => if c.focus == Focus::Chars && chars > 0 {
            Some(c.char_sel)
        } else {
            None
        },
    }
}

/// The snapshot that is highlighted.
pub open spec fn snap_selected_of(c: Cursor, snaps: nat) -> Option<usize> {
    if c.focus == Focus::Snapshots && snaps > 0 {
        Some(c.snap_sel)
    } else {
        None
    }
}

/// The help line of the footer.
pub open spec fn help_of(mode: Mode, focus: Focus, input: Input) -> Seq<char> {
    if input != Input::Idle {
        "[Enter] 确认    [Esc] 取消"@
    } else {
        match mode {
            Mode::AddItem => "打字过滤  [↑↓]选  [Enter]加  [Backspace]删字  [Esc]返回"@,
            Mode::Items => "[↑↓]选物品  [Enter]改数量  [a]加物品  [Esc/i]返回  [q]退出"@,
            Mode::Normal => if focus == Focus::Snapshots {
                "[Tab]→角色 [↑↓]选 [Enter]读 [d]删快照 │ [s]存 [l]读 [n]命名存 [r]刷新 [q]退"@
            } else {
                "[Tab]→快照 [↑↓]选角色 [g]改卢恩 [R]改名 [i]物品 │ [s]存 [l]读 [n]命名存 [q]退"@
            },
        }
    }
}

/// The prompt of the input line: what is asked, the typed text and a cursor;
/// nothing while no input is collected.
pub open spec fn prompt_of(
    c: Cursor,
    buffer: Seq<char>,
    chars: Seq<Character>,
    items: Seq<(&str, u32, u32)>,
    results: Seq<(u32, &str)>,
) -> Seq<char> {
    match c.input {
        Input::Idle => seq![],
        Input::ItemQty => "改 "@ + (if c.item_sel < items.len() {
            items[c.item_sel as int].0@ + " (当前×"@ + decimal(items[c.item_sel as int].2 as nat) + ")"@
        } else {
            seq![]
        }) + " 数量为: "@ + buffer + "_"@,
        Input::AddQty => "加 "@ + (if c.add_sel < results.len() {
            results[c.add_sel as int].1@
        } else {
            seq![]
        }) + " 数量: "@ + buffer + "_"@,
        Input::NewSnapshot => "新快照名: "@ + buffer + "_"@,
        Input::Rename => "改角色名为: "@ + buffer + "_"@,
        Input::Runes => "改卢恩 (当前 "@ + decimal(
            (if c.char_sel < chars.len() {
                chars[c.char_sel as int].runes
            } else {
                0u32
            }) as nat,
        ) + ",输入新值): "@ + buffer + "_"@,
    }
}

/// The lines of a row.
pub open spec fn lines_view(v: Vec<String>) -> Seq<Seq<char>> {
    v@.map_values(|l: String| l@)
}

/// What the front-end shows.
pub struct ScreenText {
    pub title: String,
    /// The rows of the main list, each as its lines.
    pub rows: Vec<Vec<String>>,
    /// The main list is empty and its one row says so.
    pub placeholder: bool,
    pub selected: Option<usize>,
    pub snap_title: String,
    pub snap_selected: Option<usize>,
    pub prompt: String,
    pub help: String,
}


fn push_width2(s: &mut String, v: u8)
    ensures
        final(s)@ == old(s)@ + width2(v),
{
    if v < 10 {
        s.append(" ");
    }
    push_decimal(s, v as u128);
    assert(final(s)@ =~= old(s)@ + width2(v));
}

fn push_stat(s: &mut String, i: usize, v: u8)
    requires
        i < 8,
    ensures
        final(s)@ == old(s)@ + stat_part(i as int, v),
{
    let name = stat_name(i);
    s.append(name);
    if name.unicode_len() < 3 {
        s.append("  ");
    } else {
        s.append("");
    }
    push_width2(s, v);
    assert(final(s)@ =~= old(s)@ + stat_part(i as int, v));
}

fn stats_text(st: &[u8; 8], k: usize) -> (r: String)
    requires
        k == 0 || k == 4,
    ensures
        r@ == stats_line(st@, k as int),
{
    let mut r = String::from_str("  ");
    push_stat(&mut r, k, st[k]);
    r.append("  ");
    push_stat(&mut r, k + 1, st[k + 1]);
    r.append("  ");
    push_stat(&mut r, k + 2, st[k + 2]);
    r.append("  ");
    push_stat(&mut r, k + 3, st[k + 3]);
    assert(r@ =~= stats_line(st@, k as int));
    r
}

fn char_text(c: &Character) -> (r: Vec<String>)
    ensures
        lines_view(r) == char_lines(*c),
{
    let mut h = String::from_str("[槽");
    push_decimal(&mut h, c.slot as u128);
    h.append("] ");
    h.append(c.name.as_str());
    h.append("  Lv");
    push_decimal(&mut h, c.level as u128);
    h.append("  ");
    push_decimal(&mut h, c.runes as u128);
    h.append("符文  ");
    let (hours, mins) = c.playtime_hm();
    push_decimal(&mut h, hours as u128);
    h.append("h");
    push_decimal(&mut h, mins as u128);
    h.append("m");
    assert(h@ =~= char_head(*c));
    let mut r: Vec<String> = Vec::new();
    r.push(h);
    r.push(stats_text(&c.stats, 0));
    r.push(stats_text(&c.stats, 4));
    assert(r@.map_values(|l: String| l@) =~= char_lines(*c));
    r
}

fn one_line(l: String) -> (r: Vec<String>)
    ensures
        lines_view(r) == seq![l@],
{
    let mut r: Vec<String> = Vec::new();
    r.push(l);
    assert(r@.map_values(|x: String| x@) =~= seq![r@[0]@]);
    r
}

fn item_text(e: (&str, u32, u32)) -> (r: String)
    ensures
        r@ == item_line(e),
{
    let mut r = String::from_str(e.0);
    r.append("  ×");
    push_decimal(&mut r, e.2 as u128);
    assert(r@ =~= item_line(e));
    r
}

fn result_text(e: (u32, &str)) -> (r: String)
    ensures
        r@ == result_line(e),
{
    let mut r = String::from_str(e.1);
    r.append("  (id ");
    push_decimal(&mut r, e.0 as u128);
    r.append(")");
    assert(r@ =~= result_line(e));
    r
}

fn help_text(mode: Mode, focus: Focus, input: Input) -> (r: String)
    ensures
        r@ == help_of(mode, focus, input),
{
    if input != Input::Idle {
        String::from_str("[Enter] 确认    [Esc] 取消")
    } else {
        match mode {
            Mode::AddItem => String::from_str("打字过滤  [↑↓]选  [Enter]加  [Backspace]删字  [Esc]返回"),
            Mode::Items => String::from_str("[↑↓]选物品  [Enter]改数量  [a]加物品  [Esc/i]返回  [q]退出"),
            Mode::Normal => if focus == Focus::Snapshots {
                String::from_str("[Tab]→角色 [↑↓]选 [Enter]读 [d]删快照 │ [s]存 [l]读 [n]命名存 [r]刷新 [q]退")
            } else {
                String::from_str("[Tab]→快照 [↑↓]选角色 [g]改卢恩 [R]改名 [i]物品 │ [s]存 [l]读 [n]命名存 [q]退")
            },
        }
    }
}

fn title_text(c: Cursor, chars: &Vec<Character>, query: &String, results: usize) -> (r: String)
    ensures
        r@ == title_of(c, chars@, query@, results as nat),
{
    match c.mode {
        Mode::Normal => if c.focus == Focus::Chars {
            String::from_str(" 角色 ◀ ")
        } else {
            String::from_str(" 角色 ")
        },
        Mode::Items => {
            let mut r = String::from_str(" 物品 — ");
            push_owner(&mut r, c, chars);
            r.append(" ");
            assert(r@ =~= title_of(c, chars@, query@, results as nat));
            r
        },
        Mode::AddItem => {
            let mut r = String::from_str(" 加物品 → ");
            push_owner(&mut r, c, chars);
            r.append("  搜索: ");
            r.append(query.as_str());
            r.append("  (");
            push_decimal(&mut r, c.add_sel as u128 + 1);
            r.append("/");
            push_decimal(&mut r, results as u128);
            r.append(") ");
            assert(r@ =~= title_of(c, chars@, query@, results as nat));
            r
        },
    }
}

fn push_owner(s: &mut String, c: Cursor, chars: &Vec<Character>)
    ensures
        final(s)@ == old(s)@ + owner_of(c, chars@),
{
    if c.char_sel < chars.len() {
        s.append(chars[c.char_sel].name.as_str());
    } else {
        s.append("?");
    }
}

fn prompt_text(
    c: Cursor,
    buffer: &String,
    chars: &Vec<Character>,
    items: &Vec<(&'static str, u32, u32)>,
    results: &Vec<(u32, &'static str)>,
) -> (r: String)
    ensures
        r@ == prompt_of(c, buffer@, chars@, items@, results@),
{
    let mut r = match c.input {
        Input::Idle => {
            return String::new();
        },
        Input::ItemQty => {
            let mut r = String::from_str("改 ");
            if c.item_sel < items.len() {
                let e = items[c.item_sel];
                r.append(e.0);
                r.append(" (当前×");
                push_decimal(&mut r, e.2 as u128);
                r.append(")");
            }
            r.append(" 数量为: ");
            r
        },
        Input::AddQty => {
            let mut r = String::from_str("加 ");
            if c.add_sel < results.len() {
                r.append(results[c.add_sel].1);
            }
            r.append(" 数量: ");
            r
        },
        Input::NewSnapshot => String::from_str("新快照名: "),
        Input::Rename => String::from_str("改角色名为: "),
        Input::Runes => {
            let mut r = String::from_str("改卢恩 (当前 ");
            let cur: u32 = if c.char_sel < chars.len() {
                chars[c.char_sel].runes
            } else {
                0
            };
            push_decimal(&mut r, cur as u128);
            r.append(",输入新值): ");
            r
        },
    };
    r.append(buffer.as_str());
    r.append("_");
    assert(r@ =~= prompt_of(c, buffer@, chars@, items@, results@));
    r
}

/// What the front-end shows for the screen `s`, the characters, the owned
/// items of the selected one and the number of snapshots.
pub fn screen_text(
    s: &Screen,
    chars: &Vec<Character>,
    items: &Vec<(&'static str, u32, u32)>,
    snap_count: usize,
) -> (t: ScreenText)
    ensures
        t.title@ == title_of(s.cur, chars@, s.query@, s.results@.len()),
        t.rows@.len() == rows_len(s.cur.mode, chars@.len(), items@.len(), s.results@.len()),
        forall|i: int|
            0 <= i < t.rows@.len() ==> lines_view(#[trigger] t.rows@[i])
                == row_lines(s.cur.mode, chars@, items@, s.results@, i),
        t.placeholder == (list_len(s.cur.mode, chars@.len(), items@.len(), s.results@.len()) == 0),
        t.selected == selected_of(s.cur, chars@.len(), items@.len(), s.results@.len()),
        t.snap_title@ == snap_title_of(s.cur.focus),
        t.snap_selected == snap_selected_of(s.cur, snap_count as nat),
        t.prompt@ == prompt_of(s.cur, s.buffer@, chars@, items@, s.results@),
        t.help@ == help_of(s.cur.mode, s.cur.focus, s.cur.input),
{
    let c = s.cur;
    let n: usize = match c.mode {
        Mode::Normal => chars.len(),
        Mode::Items => items.len(),
        Mode::AddItem => s.results.len(),
    };
    let mut rows: Vec<Vec<String>> = Vec::new();
    if n == 0 {
        let l = match c.mode {
            Mode::Normal => String::from_str("(没有角色)"),
            Mode::Items => String::from_str("(没有可识别的常用物品)"),
            Mode::AddItem => String::from_str("(无匹配)"),
        };
        rows.push(one_line(l));
    } else {
        let mut i: usize = 0;
        while i < n
            invariant
                n == list_len(c.mode, chars@.len(), items@.len(), s.results@.len()),
                c == s.cur,
                n > 0,
                i <= n,
                rows@.len() == i,
                forall|k: int|
                    0 <= k < i ==> lines_view(#[trigger] rows@[k]) == row_lines(
                        c.mode,
                        chars@,
                        items@,
                        s.results@,
                        k,
                    ),
            decreases n - i,
        {
            let row = match c.mode {
                Mode::Normal => char_text(&chars[i]),
                Mode::Items => one_line(item_text(items[i])),
                Mode::AddItem => one_line(result_text(s.results[i])),
            };
            rows.push(row);
            i = i + 1;
        }
    }
    let selected = match c.mode {
        Mode::AddItem => if s.results.len() > 0 {
            Some(c.add_sel)
        } else {
            None
        },
        Mode::Items => if items.len() > 0 {
            Some(c.item_sel)
        } else {
            None
        },
        Mode::Normal => if c.focus == Focus::Chars && chars.len() > 0 {
            Some(c.char_sel)
        } else {
            None
        },
    };
    ScreenText {
        title: title_text(c, chars, &s.query, s.results.len()),
        rows,
        placeholder: n == 0,
        selected,
        snap_title: if c.focus == Focus::Snapshots {
            String::from_str(" 快照 ◀ ")
        } else {
            String::from_str(" 快照 ")
        },
        snap_selected: if c.focus == Focus::Snapshots && snap_count > 0 {
            Some(c.snap_sel)
        } else {
            None
        },
        prompt: prompt_text(c, &s.buffer, chars, items, &s.results),
        help: help_text(c.mode, c.focus, c.input),
    }
}

} // verus!
