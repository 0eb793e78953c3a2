use er_qs::{item_db, SaveFile, Section};
use std::collections::HashSet;
use std::path::PathBuf;

const BODY: usize = 0xA000;
const HEADER_SIZE: usize = 0x4000;
const ANCHOR: usize = 0x100;
const NAME_BASE: usize = 0x195E;
const STRIDE: usize = 588;
const STEAM: u64 = 0x0110_0001_0BAD_F00D;

fn put_u16(d: &mut [u8], o: usize, v: u16) {
    d[o..o + 2].copy_from_slice(&v.to_le_bytes());
}

fn put_u32(d: &mut [u8], o: usize, v: u32) {
    d[o..o + 4].copy_from_slice(&v.to_le_bytes());
}

fn put_u64(d: &mut [u8], o: usize, v: u64) {
    d[o..o + 8].copy_from_slice(&v.to_le_bytes());
}

fn put_utf16(d: &mut [u8], o: usize, s: &str) {
    for (i, u) in s.encode_utf16().enumerate() {
        put_u16(d, o + 2 * i, u);
    }
}

fn fix_checksum(d: &mut [u8], off: usize, size: usize) {
    let digest = md5::compute(&d[off + 16..off + size]);
    d[off..off + 16].copy_from_slice(&digest.0);
}

/// A BND4 save with 11 sections: slot 0 holds "Hankun" (level 1) with one
/// Smithing Stone [2] ×19 in its held table, slot 1 holds "Lilith" (level 43),
/// the other slots are empty; section 10 is the header with the SteamID.
fn sample_save() -> Vec<u8> {
    let count = 11usize;
    let names_off = 0x40 + count * 0x20;
    let first = 0x400;
    let total = first + 10 * (16 + BODY) + 16 + HEADER_SIZE;
    let mut d = vec![0u8; total];
    d[0..4].copy_from_slice(b"BND4");
    put_u32(&mut d, 0x0C, count as u32);
    let mut offs = Vec::new();
    for i in 0..count {
        let off = first + i * (16 + BODY);
        let size = if i == 10 { 16 + HEADER_SIZE } else { 16 + BODY };
        let noff = names_off + i * 32;
        let base = 0x40 + i * 0x20;
        put_u64(&mut d, base + 8, size as u64);
        put_u32(&mut d, base + 0x10, off as u32);
        put_u32(&mut d, base + 0x14, noff as u32);
        put_utf16(&mut d, noff, &format!("USER_DATA{:03}", i));
        offs.push((off, size));
    }
    let header = offs[10].0;
    put_u64(&mut d, header + 20, STEAM);
    let chars: [(usize, &str, [u8; 8], u32, u32); 2] = [
        (0, "Hankun", [10; 8], 5, 1800),
        (1, "Lilith", [24, 11, 13, 12, 17, 9, 8, 28], 1300, 36060),
    ];
    for (slot, name, stats, runes, secs) in chars {
        let body = offs[slot].0 + 16;
        let a = body + ANCHOR;
        for (k, v) in stats.iter().enumerate() {
            d[a + 4 * k] = *v;
        }
        let level = stats.iter().map(|&x| x as u16).sum::<u16>() - 79;
        put_u16(&mut d, a + 44, level);
        put_u32(&mut d, a + 48, runes);
        let np = header + 16 + NAME_BASE + slot * STRIDE;
        put_utf16(&mut d, np, name);
        put_u16(&mut d, np + 34, level);
        put_u32(&mut d, np + 38, secs);
        // the held common-items table
        let cd = a + 0x370;
        put_u32(&mut d, cd, 1);
        put_u32(&mut d, cd + 4, 0xB000_0000 | 10101);
        put_u32(&mut d, cd + 8, 19);
        put_u32(&mut d, cd + 12, 7);
        put_u32(&mut d, cd + 0x9008, 3);
        put_u32(&mut d, cd + 0x900C, 8);
    }
    for (off, size) in offs {
        fix_checksum(&mut d, off, size);
    }
    d
}

fn load(data: Vec<u8>) -> SaveFile {
    SaveFile::from_bytes(PathBuf::from("ER0000.sl2"), data).expect("valid BND4")
}

fn checksum_matches(sf: &SaveFile, s: &Section) -> bool {
    let stored = &sf.data[s.offset..s.offset + 16];
    let calc = md5::compute(&sf.data[s.offset + 16..s.offset + s.size]);
    stored == &calc.0[..]
}

#[test]
fn edit_stats_roundtrip() {
    let mut sf = load(sample_save());
    let slot = sf.characters().first().expect("character").slot;

    let new_stats = [60u8, 30, 40, 25, 20, 9, 8, 45];
    sf.set_stats(slot, new_stats).expect("set_stats");

    let reloaded = load(sf.data.clone());
    let c = reloaded
        .characters()
        .into_iter()
        .find(|c| c.slot == slot)
        .expect("character still present");
    assert_eq!(c.stats, new_stats, "stats not persisted");
    let expect_level = new_stats.iter().map(|&x| x as u16).sum::<u16>() - 79;
    assert_eq!(c.level, expect_level, "level not recomputed");

    // Checksum self-consistency for the edited slot section.
    let secs = reloaded.sections();
    let s = &secs[slot];
    let stored = &reloaded.data[s.offset..s.offset + 16];
    let calc = md5::compute(&reloaded.data[s.offset + 16..s.offset + s.size]);
    assert_eq!(stored, &calc.0[..], "section checksum mismatch");
}

#[test]
fn edit_name_roundtrip() {
    let mut sf = load(sample_save());
    let slot = sf.characters().first().expect("character").slot;
    sf.set_name(slot, "Tarnished").expect("set_name");
    let reloaded = load(sf.data.clone());
    let c = reloaded
        .characters()
        .into_iter()
        .find(|c| c.slot == slot)
        .expect("char");
    assert_eq!(c.name, "Tarnished", "name not persisted");
}

#[test]
fn edit_steam_id_roundtrip() {
    let mut sf = load(sample_save());
    let old = sf.steam_id().expect("steam id");
    let new_id = old ^ 1; // flip a low bit; keeps the steam64 high dword valid
    let n = sf.set_steam_id(new_id).expect("set_steam_id");
    assert!(n > 0, "no SteamID occurrences replaced");
    let reloaded = load(sf.data.clone());
    assert_eq!(reloaded.steam_id(), Some(new_id), "SteamID not persisted");
}

#[test]
fn edit_runes_roundtrip() {
    let mut sf = load(sample_save());
    let slot = sf.characters().first().expect("character").slot;
    sf.set_runes(slot, 9_999_999).expect("set_runes");
    let reloaded = load(sf.data.clone());
    let c = reloaded
        .characters()
        .into_iter()
        .find(|c| c.slot == slot)
        .expect("char");
    assert_eq!(c.runes, 9_999_999, "runes not persisted");
}

#[test]
fn delete_character_roundtrip() {
    let mut sf = load(sample_save());
    let chars = sf.characters();
    let slot = chars.first().expect("character").slot;
    let before = chars.len();
    sf.delete_character(slot).expect("delete");
    let reloaded = load(sf.data.clone());
    let after = reloaded.characters();
    assert!(
        after.iter().all(|c| c.slot != slot),
        "slot still present after delete"
    );
    assert_eq!(after.len(), before - 1);
}

#[test]
fn edit_item_quantity_roundtrip() {
    let mut sf = load(sample_save());
    let slot = sf.characters().first().expect("character").slot;
    let owned = sf.owned_items(slot);
    assert!(!owned.is_empty());
    let base_id = owned[0].1;
    sf.set_item_quantity(slot, base_id, 777).expect("set qty");
    let reloaded = load(sf.data.clone());
    let q = reloaded
        .owned_items(slot)
        .into_iter()
        .find(|(_, b, _)| *b == base_id)
        .map(|(_, _, q)| q);
    assert_eq!(q, Some(777), "item quantity not persisted");
}

#[test]
fn give_item_roundtrip() {
    let mut sf = load(sample_save());
    let slot = sf.characters().first().expect("character").slot;
    // Pick an item the character does NOT already own.
    let owned: HashSet<u32> = sf.owned_items(slot).iter().map(|&(_, b, _)| b).collect();
    let new_id = item_db()
        .iter()
        .map(|&(id, _)| id)
        .find(|id| !owned.contains(id))
        .expect("an item not owned");
    let before = sf.owned_items(slot).len();
    sf.give_item(slot, new_id, 50).expect("give_item");
    let reloaded = load(sf.data.clone());
    let owned_after = reloaded.owned_items(slot);
    let q = owned_after
        .iter()
        .find(|&&(_, b, _)| b == new_id)
        .map(|&(_, _, q)| q);
    assert_eq!(q, Some(50), "new item not present after give");
    assert_eq!(owned_after.len(), before + 1, "owned count did not grow by 1");
}

// --- further cases ---------------------------------------------------------

#[test]
fn parses_sections_and_characters() {
    let sf = load(sample_save());
    let secs = sf.sections();
    assert_eq!(secs.len(), 11);
    assert_eq!(secs[3].name, "USER_DATA003");
    assert_eq!(secs[0].offset, 0x400);
    assert_eq!(secs[0].size, 16 + BODY);
    let chars = sf.characters();
    assert_eq!(chars.len(), 2);
    assert_eq!(chars[0].slot, 0);
    assert_eq!(chars[0].name, "Hankun");
    assert_eq!(chars[0].level, 1);
    assert_eq!(chars[0].runes, 5);
    assert_eq!(chars[1].name, "Lilith");
    assert_eq!(chars[1].level, 43);
    assert_eq!(chars[1].stats, [24, 11, 13, 12, 17, 9, 8, 28]);
    assert_eq!(chars[1].playtime_hm(), (10, 1));
    assert_eq!(chars[0].playtime_hm(), (0, 30));
    // every listed character is self-consistent
    for c in &chars {
        let sum: u32 = c.stats.iter().map(|&x| x as u32).sum();
        assert_eq!(sum, c.level as u32 + 79);
    }
    assert_eq!(sf.steam_id(), Some(STEAM));
}

#[test]
fn rejects_non_bnd4() {
    let mut d = sample_save();
    d[0] = b'X';
    let e = SaveFile::from_bytes(PathBuf::from("x"), d).err().expect("refused");
    assert_eq!(e, "not a valid BND4 .sl2 save");
    let short = b"BND4".to_vec();
    assert!(SaveFile::from_bytes(PathBuf::from("x"), short).is_err());
}

#[test]
fn set_stats_errors() {
    let mut sf = load(sample_save());
    assert_eq!(sf.set_stats(11, [10; 8]).unwrap_err(), "invalid slot");
    assert_eq!(sf.set_stats(4, [10; 8]).unwrap_err(), "no character in this slot");
    assert_eq!(
        sf.set_stats(0, [9; 8]).unwrap_err(),
        "resulting level out of range (stats sum must be 80..=792)"
    );
    assert_eq!(
        sf.set_stats(0, [100; 8]).unwrap_err(),
        "resulting level out of range (stats sum must be 80..=792)"
    );
    // the highest stats give level 713
    let mut top = load(sample_save());
    top.set_stats(0, [99; 8]).expect("sum 792 is accepted");
    assert_eq!(top.characters()[0].level, 713);
    let before = sf.data.clone();
    assert!(sf.set_stats(0, [0; 8]).is_err());
    assert_eq!(sf.data, before, "a refused edit changed the bytes");
    // a file whose table holds no header section
    let mut d = sample_save();
    put_u32(&mut d, 0x0C, 5);
    let mut few = load(d);
    assert_eq!(few.set_stats(0, [10; 8]).unwrap_err(), "no header section");
    assert_eq!(few.set_name(0, "x").unwrap_err(), "no header section");
    assert_eq!(few.delete_character(0).unwrap_err(), "no header section");
    assert_eq!(few.steam_id(), None);
    assert!(few.characters().is_empty());
}

#[test]
fn set_stats_updates_header_level_and_checksums() {
    let mut sf = load(sample_save());
    sf.set_stats(1, [60, 30, 40, 25, 20, 9, 8, 45]).expect("set_stats");
    let secs = sf.sections();
    let np = secs[10].offset + 16 + NAME_BASE + STRIDE + 34;
    assert_eq!(u16::from_le_bytes([sf.data[np], sf.data[np + 1]]), 158);
    assert!(checksum_matches(&sf, &secs[1]));
    assert!(checksum_matches(&sf, &secs[10]));
    // the other character is untouched
    let c0 = sf.characters().into_iter().find(|c| c.slot == 0).unwrap();
    assert_eq!(c0.stats, [10; 8]);
}

#[test]
fn set_name_errors_and_header_checksum() {
    let mut sf = load(sample_save());
    assert_eq!(
        sf.set_name(0, "ABCDEFGHIJKLMNOPQ").unwrap_err(),
        "name too long (max 16 characters)"
    );
    assert_eq!(sf.set_name(1000, "x").unwrap_err(), "name offset out of range");
    sf.set_name(1, "白狼🐺").expect("set_name");
    let c = sf.characters().into_iter().find(|c| c.slot == 1).unwrap();
    assert_eq!(c.name, "白狼🐺");
    let secs = sf.sections();
    assert!(checksum_matches(&sf, &secs[10]));
    // exactly 16 UTF-16 units fill the field without a terminator
    sf.set_name(0, "ABCDEFGHIJKLMNOP").expect("16 units");
    let c = sf.characters().into_iter().find(|c| c.slot == 0).unwrap();
    assert_eq!(c.name, "ABCDEFGHIJKLMNOP");
}

#[test]
fn lone_surrogate_in_name_reads_as_replacement() {
    let mut d = sample_save();
    let header = 0x400 + 10 * (16 + BODY);
    let np = header + 16 + NAME_BASE;
    put_u16(&mut d, np, 0xD800);
    put_u16(&mut d, np + 2, 0x0041);
    put_u16(&mut d, np + 4, 0);
    let sf = load(d);
    let c = sf.characters().into_iter().find(|c| c.slot == 0).unwrap();
    assert_eq!(c.name, "\u{FFFD}A");
}

#[test]
fn set_runes_checksum() {
    let mut sf = load(sample_save());
    assert_eq!(sf.set_runes(12, 1).unwrap_err(), "invalid slot");
    assert_eq!(sf.set_runes(2, 1).unwrap_err(), "no character in this slot");
    sf.set_runes(1, 42).expect("set_runes");
    let secs = sf.sections();
    assert!(checksum_matches(&sf, &secs[1]));
    let c = sf.characters().into_iter().find(|c| c.slot == 1).unwrap();
    assert_eq!(c.runes, 42);
    assert_eq!(c.level, 43);
}

#[test]
fn steam_id_unchanged_and_unreadable() {
    let mut sf = load(sample_save());
    let before = sf.data.clone();
    assert_eq!(sf.set_steam_id(STEAM), Ok(0));
    assert_eq!(sf.data, before);
    let mut d = sample_save();
    let header = 0x400 + 10 * (16 + BODY);
    put_u64(&mut d, header + 20, 0x1234);
    let mut bad = load(d);
    assert_eq!(bad.steam_id(), None);
    assert_eq!(
        bad.set_steam_id(5).unwrap_err(),
        "could not read current SteamID"
    );
}

#[test]
fn steam_id_replaced_everywhere() {
    let mut d = sample_save();
    // a second copy of the id inside slot 3
    let extra = 0x400 + 3 * (16 + BODY) + 16 + 0x40;
    put_u64(&mut d, extra, STEAM);
    let mut sf = load(d);
    let n = sf.set_steam_id(STEAM ^ 2).expect("set_steam_id");
    assert_eq!(n, 2);
    assert_eq!(sf.steam_id(), Some(STEAM ^ 2));
    let secs = sf.sections();
    for s in &secs {
        assert!(checksum_matches(&sf, s));
    }
}

#[test]
fn item_quantity_errors() {
    let mut sf = load(sample_save());
    assert_eq!(sf.set_item_quantity(11, 10101, 1).unwrap_err(), "invalid slot");
    assert_eq!(
        sf.set_item_quantity(0, 2919, 1).unwrap_err(),
        "角色没有这个物品(当前只能修改已拥有物品的数量)"
    );
}

#[test]
fn owned_items_lists_known_goods_once() {
    let mut d = sample_save();
    let body = 0x400 + 16;
    // a second entry of the same base id, and one of an unknown id
    put_u32(&mut d, body + 0x3000, 0xB000_0000 | 10101);
    put_u32(&mut d, body + 0x3004, 5);
    put_u32(&mut d, body + 0x3010, 0xB000_0000 | 99);
    put_u32(&mut d, body + 0x3014, 5);
    let sf = load(d);
    let owned = sf.owned_items(0);
    assert_eq!(owned.len(), 1);
    assert_eq!(owned[0].1, 10101);
    assert_eq!(owned[0].2, 19);
    assert_eq!(owned[0].0, "锻造石[2]");
    assert!(sf.owned_items(42).is_empty());
}

#[test]
fn give_item_updates_table_and_errors() {
    let mut sf = load(sample_save());
    // owned: sets the quantity
    sf.give_item(0, 10101, 3).expect("give owned");
    assert_eq!(sf.owned_items(0)[0].2, 3);
    // new: appended after the existing entry, counters advanced
    sf.give_item(0, 2919, 2).expect("give new");
    let cd = 0x400 + 16 + ANCHOR + 0x370;
    let rd = |o: usize| u32::from_le_bytes(sf.data[o..o + 4].try_into().unwrap());
    assert_eq!(rd(cd), 2);
    assert_eq!(rd(cd + 16), 0xB000_0000 | 2919);
    assert_eq!(rd(cd + 20), 2);
    assert_eq!(rd(cd + 24), 8);
    assert_eq!(rd(cd + 0x9008), 4);
    assert_eq!(rd(cd + 0x900C), 9);
    let secs = sf.sections();
    assert!(checksum_matches(&sf, &secs[0]));
    assert_eq!(sf.give_item(4, 2919, 1).unwrap_err(), "no character in this slot");
    assert_eq!(sf.give_item(20, 2919, 1).unwrap_err(), "invalid slot");
    // a full table
    let mut d = sample_save();
    put_u32(&mut d, cd, 0xA80);
    let mut full = load(d);
    assert_eq!(full.give_item(0, 2919, 1).unwrap_err(), "背包已满");
}

#[test]
fn delete_zeroes_slot_and_header_record() {
    let mut sf = load(sample_save());
    sf.delete_character(1).expect("delete");
    let secs = sf.sections();
    let s = &secs[1];
    assert!(sf.data[s.offset + 16..s.offset + s.size].iter().all(|&b| b == 0));
    let np = secs[10].offset + 16 + NAME_BASE + STRIDE;
    assert!(sf.data[np..np + 40].iter().all(|&b| b == 0));
    assert!(checksum_matches(&sf, &secs[1]));
    assert!(checksum_matches(&sf, &secs[10]));
    assert_eq!(sf.delete_character(30).unwrap_err(), "invalid slot");
}

#[test]
fn section_body_is_clamped() {
    let sf = load(sample_save());
    let secs = sf.sections();
    let b = er_qs::section_body(&sf.data, &secs[0]);
    assert_eq!(b.len(), BODY);
    let past = Section { name: String::new(), offset: sf.data.len() - 4, size: 100 };
    assert!(er_qs::section_body(&sf.data, &past).is_empty());
    let tiny = Section { name: String::new(), offset: 8, size: 10 };
    assert!(er_qs::section_body(&sf.data, &tiny).is_empty());
}

// --- what each edit leaves alone ---------------------------------------------

fn slot_off(slot: usize) -> usize {
    0x400 + slot * (16 + BODY)
}

/// The offsets outside `spans` (start, length) at which `a` and `b` differ.
fn changed_outside(a: &[u8], b: &[u8], spans: &[(usize, usize)]) -> Vec<usize> {
    assert_eq!(a.len(), b.len());
    (0..a.len())
        .filter(|&i| a[i] != b[i] && !spans.iter().any(|&(s, n)| s <= i && i < s + n))
        .collect()
}

#[test]
fn runes_edit_touches_only_rune_bytes_and_checksum() {
    let before = sample_save();
    let mut sf = load(before.clone());
    sf.set_runes(0, 123_456).expect("set_runes");
    let a = slot_off(0) + 16 + ANCHOR;
    let diff = changed_outside(&before, &sf.data, &[(a + 48, 4), (slot_off(0), 16)]);
    assert!(diff.is_empty(), "bytes changed outside the rune field: {:?}", diff);
    assert_ne!(before[a + 48..a + 52], sf.data[a + 48..a + 52]);
}

#[test]
fn stats_edit_touches_only_stats_levels_and_checksums() {
    let before = sample_save();
    let mut sf = load(before.clone());
    sf.set_stats(1, [30, 20, 20, 20, 20, 20, 20, 20]).expect("set_stats");
    let a = slot_off(1) + 16 + ANCHOR;
    let np = slot_off(10) + 16 + NAME_BASE + STRIDE;
    let spans = [(a, 32), (a + 44, 2), (np + 34, 2), (slot_off(1), 16), (slot_off(10), 16)];
    let diff = changed_outside(&before, &sf.data, &spans);
    assert!(diff.is_empty(), "bytes changed outside the stats: {:?}", diff);
}

#[test]
fn name_edit_touches_only_name_field_and_header_checksum() {
    let before = sample_save();
    let mut sf = load(before.clone());
    sf.set_name(1, "Melina").expect("set_name");
    let np = slot_off(10) + 16 + NAME_BASE + STRIDE;
    let diff = changed_outside(&before, &sf.data, &[(np, 32), (slot_off(10), 16)]);
    assert!(diff.is_empty(), "bytes changed outside the name field: {:?}", diff);
}

#[test]
fn quantity_edit_touches_only_quantity_and_checksum() {
    let before = sample_save();
    let mut sf = load(before.clone());
    sf.set_item_quantity(0, 10101, 42).expect("set qty");
    let cd = slot_off(0) + 16 + ANCHOR + 0x370;
    let diff = changed_outside(&before, &sf.data, &[(cd + 8, 4), (slot_off(0), 16)]);
    assert!(diff.is_empty(), "bytes changed outside the quantity: {:?}", diff);
    assert_eq!(u32::from_le_bytes(sf.data[cd + 8..cd + 12].try_into().unwrap()), 42);
}

#[test]
fn new_item_touches_only_held_table_and_checksum() {
    let before = sample_save();
    let mut sf = load(before.clone());
    sf.give_item(1, 2919, 5).expect("give new");
    let cd = slot_off(1) + 16 + ANCHOR + 0x370;
    let diff = changed_outside(&before, &sf.data, &[(cd, 0x9010), (slot_off(1), 16)]);
    assert!(diff.is_empty(), "bytes changed outside the held table: {:?}", diff);
}

#[test]
fn delete_touches_only_slot_name_entry_and_checksums() {
    let before = sample_save();
    let mut sf = load(before.clone());
    sf.delete_character(0).expect("delete");
    let np = slot_off(10) + 16 + NAME_BASE;
    let spans = [(slot_off(0), 16 + BODY), (np, 40), (slot_off(10), 16)];
    let diff = changed_outside(&before, &sf.data, &spans);
    assert!(diff.is_empty(), "bytes changed outside the slot: {:?}", diff);
    // the other character is still there, unchanged
    let c = sf.characters();
    assert_eq!(c.len(), 1);
    assert_eq!(c[0].slot, 1);
    assert_eq!(c[0].name, "Lilith");
}

fn character_fields(sf: &SaveFile, slot: usize) -> Option<(String, u16, [u8; 8], u32, u32)> {
    sf.characters()
        .into_iter()
        .find(|c| c.slot == slot)
        .map(|c| (c.name, c.level, c.stats, c.runes, c.playtime_secs))
}

#[test]
fn edits_of_one_slot_keep_the_other_character() {
    let base = load(sample_save());
    let other = character_fields(&base, 1).expect("slot 1 holds a character");
    let edits: Vec<Box<dyn Fn(&mut SaveFile)>> = vec![
        Box::new(|sf| sf.set_runes(0, 999).unwrap()),
        Box::new(|sf| sf.set_stats(0, [20, 20, 20, 20, 20, 20, 20, 20]).unwrap()),
        Box::new(|sf| sf.set_name(0, "Ranni").unwrap()),
        Box::new(|sf| sf.set_item_quantity(0, 10101, 5).unwrap()),
        Box::new(|sf| sf.give_item(0, 2919, 4).unwrap()),
        Box::new(|sf| sf.delete_character(0).unwrap()),
    ];
    for edit in edits {
        let mut sf = load(sample_save());
        edit(&mut sf);
        assert_eq!(character_fields(&sf, 1), Some(other.clone()));
        let secs = sf.sections();
        assert!(checksum_matches(&sf, &secs[1]));
    }
}

#[test]
fn second_runes_write_wins() {
    let mut twice = load(sample_save());
    twice.set_runes(0, 5555).expect("first");
    twice.set_runes(0, 42).expect("second");
    let mut once = load(sample_save());
    once.set_runes(0, 42).expect("once");
    assert_eq!(twice.data, once.data);
    let mut again = load(sample_save());
    again.set_runes(0, 42).expect("a");
    again.set_runes(0, 42).expect("b");
    assert_eq!(again.data, once.data);
    assert_eq!(character_fields(&once, 0).map(|c| c.3), Some(42));
}

fn bare_sections(n: usize) -> Vec<Section> {
    (0..n).map(|_| Section { name: String::new(), offset: 0, size: 0 }).collect()
}

#[test]
fn characters_for_any_section_list() {
    let mut data = vec![0u8; 80];
    for k in 0..8 {
        data[16 + 4 * k] = 10;
    }
    data[60] = 1;
    data[64] = 0xE8;
    data[65] = 0x03;
    let mut secs = bare_sections(11);
    secs[1] = Section { name: String::new(), offset: 0, size: 80 };
    let r = er_qs::parse_characters(&data, &secs);
    assert_eq!(r.len(), 1);
    let c = &r[0];
    assert_eq!((c.slot, c.name.as_str(), c.level, c.stats, c.runes, c.playtime_secs), (1, "", 1, [10; 8], 1000, 0));
    // without a header section there are none
    assert!(er_qs::parse_characters(&data, &bare_sections(10)).is_empty());
}

#[test]
fn steam_id_for_any_section_list() {
    let id: u64 = 76561198139999795;
    let mut data = vec![0u8; 20];
    data.extend_from_slice(&id.to_le_bytes());
    let secs = bare_sections(11);
    assert_eq!(er_qs::read_steam_id(&data, &secs), Some(id));
    let mut other = data.clone();
    other[27] = 0x02;
    assert_eq!(er_qs::read_steam_id(&other, &secs), None);
    assert_eq!(er_qs::read_steam_id(&data[..27], &secs), None);
    assert_eq!(er_qs::read_steam_id(&data, &bare_sections(10)), None);
}
