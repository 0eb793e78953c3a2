use er_qs::screen::{Focus, Input, Key, Mode, Screen, Todo};
use er_qs::text::{parse_u32, trim_text};
use er_qs::cli::{give_quantity, give_slot, pick_item, Pick};
use er_qs::item_search;

fn press_str(s: &mut Screen, text: &str) {
    for c in text.chars() {
        let a = s.press(Key::Char(c));
        assert_eq!(a.todo, Todo::Nothing);
    }
}

#[test]
fn parse_u32_follows_std() {
    for t in ["0", "7", "+7", "4294967295", "", "+", "-1", " 1", "1 ", "4294967296", "12a", "٣"] {
        assert_eq!(parse_u32(t), t.parse::<u32>().ok(), "input {t:?}");
    }
}

#[test]
fn trim_text_follows_std() {
    for t in ["", "  ", "\t a b \u{3000}", "x", " \u{85}name\u{2028}", "\u{a0}"] {
        assert_eq!(trim_text(t), t.trim(), "input {t:?}");
    }
}

#[test]
fn quit_and_focus_keys() {
    let mut s = Screen::new();
    assert_eq!(s.cur.focus, Focus::Snapshots);
    s.press(Key::Tab);
    assert_eq!(s.cur.focus, Focus::Chars);
    s.press(Key::Tab);
    assert_eq!(s.cur.focus, Focus::Snapshots);
    assert!(!s.cur.quit);
    s.press(Key::Char('q'));
    assert!(s.cur.quit);
}

#[test]
fn selection_stays_inside_the_list() {
    let mut s = Screen::new();
    s.reload(2, 3);
    s.press(Key::Down);
    s.press(Key::Char('j'));
    s.press(Key::Down);
    assert_eq!(s.cur.snap_sel, 2);
    s.press(Key::Up);
    assert_eq!(s.cur.snap_sel, 1);
    assert_eq!(s.press(Key::Enter).todo, Todo::LoadSnapshot(1));
    assert_eq!(s.press(Key::Char('d')).todo, Todo::DeleteSnapshot(1));
    s.reload(2, 1);
    assert_eq!(s.cur.snap_sel, 0);
    s.reload(2, 0);
    assert_eq!(s.press(Key::Enter).todo, Todo::Nothing);
    assert_eq!(s.press(Key::Char('r')).todo, Todo::Refresh);
    assert_eq!(s.press(Key::Char('s')).todo, Todo::SaveQuick);
    assert_eq!(s.press(Key::Char('l')).todo, Todo::LoadQuick);
}

#[test]
fn naming_a_snapshot() {
    let mut s = Screen::new();
    s.press(Key::Char('n'));
    assert_eq!(s.cur.input, Input::NewSnapshot);
    press_str(&mut s, "  boss ");
    s.press(Key::Backspace);
    press_str(&mut s, "1 ");
    let a = s.press(Key::Enter);
    assert_eq!(a.todo, Todo::SaveNamed);
    assert_eq!(a.text, "boss1");
    assert_eq!(s.cur.input, Input::Idle);
    assert_eq!(s.buffer, "");
    // an empty name is cancelled
    s.press(Key::Char('n'));
    press_str(&mut s, "   ");
    assert_eq!(s.press(Key::Enter).todo, Todo::Nothing);
    assert_eq!(s.status, "已取消(空名字)");
    // Esc cancels
    s.press(Key::Char('n'));
    press_str(&mut s, "x");
    s.press(Key::Esc);
    assert_eq!(s.status, "已取消");
    assert_eq!(s.cur.input, Input::Idle);
}

#[test]
fn editing_runes_and_names() {
    let mut s = Screen::new();
    s.reload(2, 0);
    s.press(Key::Tab);
    s.press(Key::Down);
    assert_eq!(s.selected_char(), Some(1));
    s.press(Key::Char('g'));
    assert_eq!(s.cur.input, Input::Runes);
    press_str(&mut s, " 123 ");
    assert_eq!(s.press(Key::Enter).todo, Todo::SetRunes(123));
    s.press(Key::Char('g'));
    press_str(&mut s, "abc");
    assert_eq!(s.press(Key::Enter).todo, Todo::Nothing);
    assert_eq!(s.status, "请输入一个数字(新卢恩数)");
    s.press(Key::Char('R'));
    press_str(&mut s, "Melina");
    let a = s.press(Key::Enter);
    assert_eq!(a.todo, Todo::Rename);
    assert_eq!(a.text, "Melina");
    // without characters, 'g' and 'R' do nothing
    let mut e = Screen::new();
    e.press(Key::Tab);
    e.press(Key::Char('g'));
    assert_eq!(e.cur.input, Input::Idle);
    assert_eq!(e.press(Key::Char('i')).todo, Todo::Nothing);
}

#[test]
fn item_list_and_search() {
    let mut s = Screen::new();
    s.reload(1, 0);
    s.press(Key::Tab);
    assert_eq!(s.press(Key::Char('i')).todo, Todo::OpenItems);
    s.items_opened(3);
    assert_eq!(s.cur.mode, Mode::Items);
    s.press(Key::Down);
    s.press(Key::Down);
    s.press(Key::Down);
    assert_eq!(s.cur.item_sel, 2);
    s.press(Key::Enter);
    assert_eq!(s.cur.input, Input::ItemQty);
    press_str(&mut s, "42");
    assert_eq!(s.press(Key::Enter).todo, Todo::SetItemQty(2, 42));
    // the item search
    s.press(Key::Char('a'));
    assert_eq!(s.cur.mode, Mode::AddItem);
    assert_eq!(s.results, item_search(""));
    assert_eq!(s.status, "打字过滤 · ↑↓ 选 · Enter 加 · Esc 返回");
    s.press(Key::Down);
    s.press(Key::Down);
    assert_eq!(s.cur.add_sel, 2);
    press_str(&mut s, "黄金卢恩[1");
    assert_eq!(s.results, item_search("黄金卢恩[1"));
    assert!(s.cur.add_sel < s.results.len());
    s.press(Key::Backspace);
    assert_eq!(s.query, "黄金卢恩[");
    s.press(Key::Up);
    s.press(Key::Up);
    s.press(Key::Up);
    assert_eq!(s.cur.add_sel, 0);
    s.press(Key::Enter);
    assert_eq!(s.cur.input, Input::AddQty);
    press_str(&mut s, "5");
    assert_eq!(s.press(Key::Enter).todo, Todo::GiveItem(0, 5));
    s.items_reloaded(4, true);
    assert_eq!(s.cur.mode, Mode::Items);
    assert_eq!(s.cur.item_count, 4);
    s.press(Key::Esc);
    assert_eq!(s.cur.mode, Mode::Normal);
}

#[test]
fn give_arguments() {
    let usage = "用法: er-qs give <物品名关键词> <数量> [槽位]";
    assert_eq!(give_quantity(Some("卢恩"), Some("12")), Ok(12));
    assert_eq!(give_quantity(None, Some("12")), Err(usage.to_string()));
    assert_eq!(give_quantity(Some("卢恩"), Some("x")), Err(usage.to_string()));
    assert_eq!(give_quantity(Some("卢恩"), None), Err(usage.to_string()));
    let slots = vec![1usize, 4];
    // no slot named means slot 0
    assert_eq!(give_slot(&slots, None), Err("槽0 没有角色".to_string()));
    assert_eq!(give_slot(&vec![3usize, 0], None), Ok(0));
    assert_eq!(give_slot(&slots, Some("4")), Ok(4));
    assert_eq!(give_slot(&slots, Some("7")), Err("槽7 没有角色".to_string()));
    assert_eq!(give_slot(&slots, Some("x")), Err("槽位要是数字(0-9)".to_string()));
    assert_eq!(give_slot(&vec![], None), Err("槽0 没有角色".to_string()));
    match pick_item("黄金卢恩[13]") {
        Ok(Pick::One(id, name)) => {
            assert_eq!(name, "黄金卢恩[13]");
            assert_eq!(er_qs::item_name(id), Some("黄金卢恩[13]"));
        }
        _ => panic!("one item expected"),
    }
    match pick_item("黄金卢恩") {
        Ok(Pick::Many(v)) => assert_eq!(v, item_search("黄金卢恩")),
        _ => panic!("several items expected"),
    }
    assert_eq!(pick_item("zzz").err(), Some("没找到匹配 'zzz' 的物品".to_string()));
}

#[test]
fn add_item_search_filters_by_typed_text() {
    let mut s = Screen::new();
    s.reload(2, 1);
    s.press(Key::Tab);
    s.press(Key::Down);
    s.items_opened(0);
    s.press(Key::Char('a'));
    press_str(&mut s, "锻造");
    assert_eq!(s.query, "锻造");
    assert!(!s.results.is_empty());
    assert!(s.results.iter().all(|&(_, n)| n.contains("锻造")));
    assert!(s.results.iter().any(|&(_, n)| n.contains("锻造石")));
    // Enter on an empty item list does not open the quantity prompt
    s.press(Key::Esc);
    assert_eq!(s.cur.mode, Mode::Items);
    s.press(Key::Enter);
    assert_eq!(s.cur.input, Input::Idle);
}
