use er_qs::screen::{Cursor, Focus, Input, Mode, Screen};
use er_qs::screen_text::{screen_text, stat_name};
use er_qs::text::snapshot_name;
use er_qs::{item_search, Character};

fn sample_chars() -> Vec<Character> {
    vec![
        Character { slot: 0, name: "Hankun".into(), level: 1, stats: [10; 8], runes: 5, playtime_secs: 1800 },
        Character {
            slot: 1,
            name: "Lilith".into(),
            level: 43,
            stats: [24, 11, 13, 12, 17, 9, 8, 28],
            runes: 1300,
            playtime_secs: 36060,
        },
    ]
}

fn sample_screen() -> Screen {
    Screen {
        cur: Cursor {
            focus: Focus::Chars,
            mode: Mode::Normal,
            input: Input::Idle,
            char_count: 2,
            char_sel: 1,
            snap_count: 1,
            snap_sel: 0,
            item_count: 0,
            item_sel: 0,
            add_sel: 0,
            quit: false,
        },
        buffer: String::new(),
        query: String::new(),
        results: Vec::new(),
        status: "就绪".into(),
    }
}

fn all_text(t: &er_qs::screen_text::ScreenText) -> String {
    let mut s = format!("{}\n{}\n{}\n{}\n", t.title, t.snap_title, t.prompt, t.help);
    for r in &t.rows {
        for l in r {
            s.push_str(l);
            s.push('\n');
        }
    }
    s
}

#[test]
fn renders_layout() {
    let t = screen_text(&sample_screen(), &sample_chars(), &Vec::new(), 1);
    let rendered = all_text(&t);
    assert!(rendered.contains("Lilith"), "character missing");
    assert!(rendered.contains("角色"), "char panel missing");
    assert!(rendered.contains("快照"), "snapshot panel missing");
    assert!(rendered.contains("改卢恩"), "edit help missing when focus=Chars");
    assert_eq!(t.selected, Some(1));
    assert_eq!(t.snap_selected, None);
    assert_eq!(
        t.rows[1],
        vec![
            "[槽1] Lilith  Lv43  1300符文  10h1m".to_string(),
            "  生命力24  集中力11  耐力  13  力气  12".to_string(),
            "  灵巧  17  智力   9  信仰   8  感应  28".to_string(),
        ]
    );
}

#[test]
fn renders_items_mode() {
    let mut s = sample_screen();
    s.cur.mode = Mode::Items;
    let items = vec![("Smithing Stone [2]", 10101, 19), ("Lord's Rune", 2919, 5), ("Larval Tear", 8185, 3)];
    s.cur.item_count = 3;
    let t = screen_text(&s, &sample_chars(), &items, 1);
    let r = all_text(&t);
    assert!(r.contains("Smithing Stone"), "item missing");
    assert!(r.contains("物品"), "item panel title missing");
    assert_eq!(t.rows[0], vec!["Smithing Stone [2]  ×19".to_string()]);
    assert_eq!(t.title, " 物品 — Lilith ");
    assert_eq!(t.selected, Some(0));
}

#[test]
fn renders_additem_mode() {
    let mut s = sample_screen();
    s.cur.mode = Mode::AddItem;
    s.query = "锻造".to_string();
    s.results = item_search("锻造");
    s.cur.add_sel = 0;
    let t = screen_text(&s, &sample_chars(), &Vec::new(), 1);
    let r = all_text(&t);
    assert!(r.contains("加物品"), "add-item title missing");
    assert!(r.contains("锻造石"), "filtered item missing");
    assert_eq!(t.rows.len(), s.results.len());
    assert!(t.title.starts_with(" 加物品 → Lilith  搜索: 锻造  (1/"));
}

#[test]
fn empty_lists_and_prompts() {
    let mut s = sample_screen();
    s.cur.focus = Focus::Snapshots;
    let t = screen_text(&s, &Vec::new(), &Vec::new(), 2);
    assert!(t.placeholder);
    assert_eq!(t.rows, vec![vec!["(没有角色)".to_string()]]);
    assert_eq!(t.title, " 角色 ");
    assert_eq!(t.snap_title, " 快照 ◀ ");
    assert_eq!(t.snap_selected, Some(0));
    assert_eq!(t.prompt, "");
    s.cur.input = Input::Runes;
    s.buffer = "12".into();
    let t = screen_text(&s, &sample_chars(), &Vec::new(), 2);
    assert_eq!(t.prompt, "改卢恩 (当前 1300,输入新值): 12_");
    assert_eq!(t.help, "[Enter] 确认    [Esc] 取消");
    s.cur.input = Input::NewSnapshot;
    let t = screen_text(&s, &sample_chars(), &Vec::new(), 2);
    assert_eq!(t.prompt, "新快照名: 12_");
}

#[test]
fn stat_names_and_snapshot_names() {
    assert_eq!(stat_name(0), "生命力");
    assert_eq!(stat_name(7), "感应");
    assert_eq!(snapshot_name("  boss 1 "), Some("boss 1".to_string()));
    assert_eq!(snapshot_name("   "), None);
}
