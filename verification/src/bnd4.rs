//! The BND4 container of an Elden Ring save: its section table, the SteamID in
//! the header section, and the characters found by their stat anchor.
use crate::bytes::{le16, le32, le64, le_u16, le_u32, le_u64};
use crate::utf16::{decode_utf16_lossy, utf16_decode};
use vstd::prelude::*;

verus! {

/// Index of the menu/header section (USER_DATA_010).
pub const HEADER_SECTION: usize = 10;

/// Offset of the first character name inside the header section body.
pub const NAME_BASE_IN_HEADER: usize = 0x195E;

/// Distance between two character name records in the header section.
pub const NAME_STRIDE: usize = 588;

/// Upper bound on the stat anchor's offset inside a slot body.
pub const ANCHOR_SCAN_LIMIT: usize = 300_000;

/// High dword that every steam64 id carries.
pub const STEAM64_HIGH: u32 = 0x0110_0001;

/// A BND4 section (USER_DATA_xxx).
#[derive(Clone, Debug)]
pub struct Section {
    pub name: String,
    pub offset: usize,
    pub size: usize,
}

/// One character (save slot) parsed from the file.
#[derive(Clone, Debug)]
pub struct Character {
    pub slot: usize,
    pub name: String,
    pub level: u16,
    /// vigor, mind, endurance, strength, dexterity, intelligence, faith, arcane
    pub stats: [u8; 8],
    /// current runes (souls)
    pub runes: u32,
    pub playtime_secs: u32,
}

impl Character {
    /// Playtime as (hours, minutes).
    pub fn playtime_hm(&self) -> (r: (u32, u32))
        ensures
            r.0 == self.playtime_secs / 3600,
            r.1 == (self.playtime_secs % 3600) / 60,
    {
        (self.playtime_secs / 3600, (self.playtime_secs % 3600) / 60)
    }
}

// ---------------------------------------------------------------------------
// The section table.
/// Offset of the `i`th entry of the section table.
pub open spec fn entry_base(i: int) -> int {
    0x40 + i * 0x20
}

/// Number of sections: the count in the file header, cut to the entries that
/// lie wholly inside the file.
pub open spec fn section_count(d: Seq<u8>) -> int {
    if d.len() < 0x60 {
        0
    } else {
        let fit = (d.len() - 0x40) / 0x20;
        let num = le32(d, 0x0C);
        if num < fit {
            num
        } else {
            fit
        }
    }
}

/// Offset of section `i` in the file.
pub open spec fn sec_off(d: Seq<u8>, i: int) -> int {
    le32(d, entry_base(i) + 0x10)
}

/// Size of section `i` (a 64-bit field, taken as `usize`).
pub open spec fn sec_size(d: Seq<u8>, i: int) -> int {
    ((le64(d, entry_base(i) + 8) as u64) as usize) as int
}

/// Offset of the name of section `i`.
pub open spec fn sec_name_off(d: Seq<u8>, i: int) -> int {
    le32(d, entry_base(i) + 0x14)
}

/// The zero-terminated UTF-16LE units from `off`, read while a whole unit
/// lies before `end`.
pub open spec fn zstr_units(d: Seq<u8>, off: int, end: int) -> Seq<u16>
    decreases end - off,
{
    if 0 <= off && off + 1 < end && end <= d.len() && le16(d, off) != 0 {
        seq![le16(d, off) as u16] + zstr_units(d, off + 2, end)
    } else {
        seq![]
    }
}

/// Name of section `i`.
pub open spec fn sec_name(d: Seq<u8>, i: int) -> Seq<char> {
    utf16_decode(zstr_units(d, sec_name_off(d, i), d.len() as int))
}

pub open spec fn min_int(a: int, b: int) -> int {
    if a < b {
        a
    } else {
        b
    }
}

/// Start of the body of section `i` (after its 16-byte checksum).
pub open spec fn body_start(d: Seq<u8>, i: int) -> int {
    sec_off(d, i) + 16
}

/// End of section `i`, cut at the end of the file.
pub open spec fn body_end(d: Seq<u8>, i: int) -> int {
    min_int(sec_off(d, i) + sec_size(d, i), d.len() as int)
}

/// The body of section `i`, bounds-checked as `section_body` does.
pub open spec fn sec_body(d: Seq<u8>, i: int) -> Seq<u8> {
    d.subrange(min_int(body_start(d, i), body_end(d, i)), body_end(d, i))
}

/// `secs` is the section table of `d`.
pub open spec fn sections_of(d: Seq<u8>, secs: Seq<Section>) -> bool {
    &&& secs.len() == section_count(d)
    &&& forall|i: int|
        0 <= i < secs.len() ==> {
            &&& #[trigger] secs[i].offset == sec_off(d, i)
            &&& secs[i].size == sec_size(d, i)
            &&& secs[i].name@ == sec_name(d, i)
        }
}

/// `min(off + size, len)`, computed without overflow.
pub(crate) fn clamp_end(off: usize, size: usize, len: usize) -> (r: usize)
    ensures
        r == min_int(off + size, len as int),
{
    if off >= len || size >= len - off {
        len
    } else {
        off + size
    }
}

fn read_bnd4_name(data: &[u8], off: usize) -> (s: String)
    ensures
        s@ == utf16_decode(zstr_units(data@, off as int, data@.len() as int)),
{
    let n = data.len();
    let units = read_units(data, off, n);
    decode_utf16_lossy(units.as_slice())
}

/// The zero-terminated UTF-16LE units from `off` before `end`.
fn read_units(data: &[u8], off: usize, end: usize) -> (units: Vec<u16>)
    requires
        end <= data@.len(),
    ensures
        units@ == zstr_units(data@, off as int, end as int),
{
    let mut units: Vec<u16> = Vec::new();
    let mut o = off;
    while o < end && end - o > 1
        invariant
            end <= data@.len(),
            off <= o,
            (o - off) % 2 == 0,
            units@ + zstr_units(data@, o as int, end as int) == zstr_units(
                data@,
                off as int,
                end as int,
            ),
        decreases end - o,
    {
        let c = le_u16(data, o);
        if c == 0 {
            assert(units@ =~= units@ + zstr_units(data@, o as int, end as int));
            return units;
        }
        let ghost before = units@;
        units.push(c);
        assert(zstr_units(data@, o as int, end as int) == seq![c] + zstr_units(
            data@,
            o + 2,
            end as int,
        ));
        assert(units@ + zstr_units(data@, o + 2, end as int) =~= before + zstr_units(
            data@,
            o as int,
            end as int,
        ));
        o = o + 2;
    }
    assert(units@ =~= units@ + zstr_units(data@, o as int, end as int));
    units
}

/// Reads a zero-terminated UTF-16LE string of at most `max_bytes` bytes.
fn read_utf16_fixed(data: &[u8], off: usize, max_bytes: usize) -> (s: String)
    ensures
        s@ == utf16_decode(
            zstr_units(data@, off as int, min_int(off + max_bytes, data@.len() as int)),
        ),
{
    let end = clamp_end(off, max_bytes, data.len());
    let units = read_units(data, off, end);
    decode_utf16_lossy(units.as_slice())
}

/// The section table of a BND4 file.
pub(crate) fn parse_sections(data: &[u8]) -> (secs: Vec<Section>)
    requires
        data@.len() >= 0x10,
    ensures
        sections_of(data@, secs@),
{
    let num = le_u32(data, 0x0C) as usize;
    let len = data.len();
    let mut secs: Vec<Section> = Vec::new();
    let mut i: usize = 0;
    while i < num
        invariant
            len == data@.len(),
            len >= 0x10,
            num == le32(data@, 0x0C),
            i <= num,
            len >= 0x60 ==> i <= (len - 0x40) / 0x20,
            len < 0x60 ==> i == 0,
            secs@.len() == i,
            forall|j: int|
                0 <= j < i ==> {
                    &&& #[trigger] secs@[j].offset == sec_off(data@, j)
                    &&& secs@[j].size == sec_size(data@, j)
                    &&& secs@[j].name@ == sec_name(data@, j)
                },
        ensures
            i == num || len < 0x60 || i > (len - 0x60) / 0x20,
        decreases num - i,
    {
        // the entry [0x40 + i*0x20, 0x60 + i*0x20) must lie inside the file
        if len < 0x60 || i > (len - 0x60) / 0x20 {
            break;
        }
        let base = 0x40 + i * 0x20;
        let size = #[verifier::truncate] (le_u64(data, base + 8) as usize);
        let offset = le_u32(data, base + 0x10) as usize;
        let noff = le_u32(data, base + 0x14) as usize;
        let name = read_bnd4_name(data, noff);
        secs.push(Section { name, offset, size });
        assert(secs@[i as int].size == sec_size(data@, i as int));
        assert(secs@[i as int].offset == sec_off(data@, i as int));
        i = i + 1;
    }
    if len >= 0x60 {
        assert((len - 0x60) / 0x20 + 1 == (len - 0x40) / 0x20);
    }
    assert(secs@.len() == section_count(data@));
    assert forall|j: int| 0 <= j < secs@.len() implies {
        &&& #[trigger] secs@[j].offset == sec_off(data@, j)
        &&& secs@[j].size == sec_size(data@, j)
        &&& secs@[j].name@ == sec_name(data@, j)
    } by {}
    assert(sections_of(data@, secs@));
    secs
}

/// Section body, skipping the 16-byte checksum header, bounds-checked.
pub fn section_body<'a>(data: &'a [u8], s: &Section) -> (b: &'a [u8])
    ensures
        b@ == data@.subrange(
            min_int(s.offset + 16, min_int(s.offset + s.size, data@.len() as int)),
            min_int(s.offset + s.size, data@.len() as int),
        ),
{
    let end = clamp_end(s.offset, s.size, data.len());
    let start = if s.offset >= end || end - s.offset < 16 {
        end
    } else {
        s.offset + 16
    };
    &data[start..end]
}

/// Position `hoff + 16 + NAME_BASE_IN_HEADER + slot * NAME_STRIDE + extra` of a
/// field of `need` bytes in a name record, when the field ends inside `len`.
pub(crate) fn name_field_pos(hoff: usize, slot: usize, extra: usize, need: usize, len: usize) -> (r:
    Option<usize>)
    requires
        extra <= 64,
        need <= 64,
    ensures
        match r {
            Some(p) => {
                &&& p == hoff + 16 + NAME_BASE_IN_HEADER + slot * NAME_STRIDE + extra
                &&& p + need <= len
            },
            None => hoff + 16 + NAME_BASE_IN_HEADER + slot * NAME_STRIDE + extra + need > len,
        },
{
    let fixed: usize = 16 + NAME_BASE_IN_HEADER + extra + need;
    if hoff > len || len - hoff < fixed {
        return None;
    }
    let room = len - hoff - fixed;
    if slot > room / NAME_STRIDE {
        proof {
            assert(slot * NAME_STRIDE > room) by (nonlinear_arith)
                requires
                    slot > room / 588,
                    NAME_STRIDE == 588,
            ;
        }
        return None;
    }
    proof {
        assert(slot * NAME_STRIDE <= room) by (nonlinear_arith)
            requires
                slot <= room / 588,
                NAME_STRIDE == 588,
        ;
    }
    Some(hoff + 16 + NAME_BASE_IN_HEADER + slot * NAME_STRIDE + extra)
}

// ---------------------------------------------------------------------------
// The SteamID.
/// The SteamID stored after the header section's checksum, when its high
/// dword is that of a steam64 id.
pub open spec fn steam_id_of(d: Seq<u8>) -> Option<u64> {
    if section_count(d) <= 10 {
        None
    } else {
        let base = sec_off(d, 10) + 20;
        if base + 8 > d.len() {
            None
        } else if le64(d, base) / 0x1_0000_0000 == STEAM64_HIGH {
            Some(le64(d, base) as u64)
        } else {
            None
        }
    }
}

/// The offsets and sizes of a list of sections.
pub open spec fn geometry(secs: Seq<Section>) -> Seq<(int, int)> {
    secs.map_values(|x: Section| (x.offset as int, x.size as int))
}

/// The offsets and sizes of the sections in the table of `d`.
pub open spec fn table_geometry(d: Seq<u8>) -> Seq<(int, int)> {
    Seq::new(section_count(d) as nat, |i: int| (sec_off(d, i), sec_size(d, i)))
}

/// The SteamID after the checksum of the header section placed at `g[10]`,
/// when its high dword is that of a steam64 id.
pub open spec fn steam_id_in(d: Seq<u8>, g: Seq<(int, int)>) -> Option<u64> {
    if g.len() <= 10 {
        None
    } else {
        let base = g[10].0 + 20;
        if base + 8 > d.len() {
            None
        } else if le64(d, base) / 0x1_0000_0000 == STEAM64_HIGH {
            Some(le64(d, base) as u64)
        } else {
            None
        }
    }
}

/// Read over the file's own table, the SteamID is the one of the header.
pub proof fn lemma_steam_id_table(d: Seq<u8>)
    ensures
        steam_id_in(d, table_geometry(d)) == steam_id_of(d),
{
}

/// The SteamID of the header section of `secs`, whatever list it is.
pub fn read_steam_id(data: &[u8], secs: &Vec<Section>) -> (r: Option<u64>)
    ensures
        r == steam_id_in(data@, geometry(secs@)),
{
    if secs.len() <= HEADER_SECTION {
        return None;
    }
    let off = secs[HEADER_SECTION].offset;
    assert(geometry(secs@)[10].0 == off);
    let len = data.len();
    if off > len || len - off < 28 {
        return None;
    }
    let base = off + 20;
    let id = le_u64(data, base);
    if id / 0x1_0000_0000 == STEAM64_HIGH as u64 {
        Some(id)
    } else {
        None
    }
}

// ---------------------------------------------------------------------------
// The stat anchor.
/// Number of offsets that the anchor scan tries in a body of `len` bytes.
pub open spec fn anchor_limit(len: int) -> int {
    min_int(if len > 46 { len - 46 } else { 0 }, ANCHOR_SCAN_LIMIT as int)
}

/// The eight stats of an anchor at `i`: the low bytes of eight u32 fields.
pub open spec fn stats_at(b: Seq<u8>, i: int) -> Seq<u8> {
    seq![b[i], b[i + 4], b[i + 8], b[i + 12], b[i + 16], b[i + 20], b[i + 24], b[i + 28]]
}

pub open spec fn stat_sum(s: Seq<u8>) -> int {
    s[0] + s[1] + s[2] + s[3] + s[4] + s[5] + s[6] + s[7]
}

/// `i` holds a self-consistent character record: a level in 1..=713 at
/// `i + 44` and eight stats summing to that level plus 79.
pub open spec fn is_anchor(b: Seq<u8>, i: int) -> bool {
    let level = le16(b, i + 44);
    &&& 1 <= level <= 713
    &&& stat_sum(stats_at(b, i)) == level + 79
}

/// The first anchor at an offset in `[i, anchor_limit)`.
pub open spec fn anchor_from(b: Seq<u8>, i: int) -> Option<int>
    decreases anchor_limit(b.len() as int) - i,
{
    if i < 0 || i >= anchor_limit(b.len() as int) {
        None
    } else if is_anchor(b, i) {
        Some(i)
    } else {
        anchor_from(b, i + 1)
    }
}

/// The stat anchor of a slot body: its first anchor.
pub open spec fn stat_anchor(b: Seq<u8>) -> Option<int> {
    anchor_from(b, 0)
}

/// The first anchor found from `i` is the least anchor at or after `i`.
pub proof fn lemma_anchor_from(b: Seq<u8>, i: int)
    requires
        0 <= i,
    ensures
        anchor_from(b, i) matches Some(a) ==> {
            &&& i <= a < anchor_limit(b.len() as int)
            &&& is_anchor(b, a)
            &&& forall|j: int| i <= j < a ==> !is_anchor(b, j)
        },
        anchor_from(b, i) is None ==> forall|j: int|
            i <= j < anchor_limit(b.len() as int) ==> !is_anchor(b, j),
    decreases anchor_limit(b.len() as int) - i,
{
    if i < anchor_limit(b.len() as int) && !is_anchor(b, i) {
        lemma_anchor_from(b, i + 1);
    }
}

/// The least offset that is an anchor is the stat anchor.
pub proof fn lemma_anchor_least(b: Seq<u8>, a: int)
    requires
        0 <= a < anchor_limit(b.len() as int),
        is_anchor(b, a),
        forall|j: int| 0 <= j < a ==> !is_anchor(b, j),
    ensures
        stat_anchor(b) == Some(a),
{
    lemma_anchor_from(b, 0);
    if let Some(x) = stat_anchor(b) {
        assert(!(x < a));
        assert(!(a < x));
    }
}

// Returns (anchor_offset_in_body, level, stats).
pub(crate) fn find_stat_anchor(body: &[u8]) -> (r: Option<(usize, u16, [u8; 8])>)
    ensures
        match r {
            Some((a, level, stats)) => {
                &&& stat_anchor(body@) == Some(a as int)
                &&& level == le16(body@, a + 44)
                &&& stats@ == stats_at(body@, a as int)
            },
            None => stat_anchor(body@) is None,
        },
{
    let len = body.len();
    let lim0 = if len > 46 {
        len - 46
    } else {
        0
    };
    let limit = if lim0 < ANCHOR_SCAN_LIMIT {
        lim0
    } else {
        ANCHOR_SCAN_LIMIT
    };
    let mut i: usize = 0;
    while i < limit
        invariant
            len == body@.len(),
            limit == anchor_limit(len as int),
            i <= limit,
            anchor_from(body@, 0) == anchor_from(body@, i as int),
        decreases limit - i,
    {
        let level = le_u16(body, i + 44);
        if 1 <= level && level <= 713 {
            let stats: [u8; 8] = [
                body[i],
                body[i + 4],
                body[i + 8],
                body[i + 12],
                body[i + 16],
                body[i + 20],
                body[i + 24],
                body[i + 28],
            ];
            let sum: u32 = stats[0] as u32 + stats[1] as u32 + stats[2] as u32 + stats[3] as u32
                + stats[4] as u32 + stats[5] as u32 + stats[6] as u32 + stats[7] as u32;
            assert(stats@ =~= stats_at(body@, i as int));
            if sum == level as u32 + 79 {
                return Some((i, level, stats));
            }
        }
        i = i + 1;
    }
    None
}

// ---------------------------------------------------------------------------
// Characters.
/// Offset of the name record of `slot` in the header section.
pub open spec fn name_pos(d: Seq<u8>, slot: int) -> int {
    sec_off(d, 10) + 16 + NAME_BASE_IN_HEADER + slot * NAME_STRIDE
}

/// A character occupies `slot` (0..=9): the header section exists and the
/// slot body holds a stat anchor.
pub open spec fn char_present(d: Seq<u8>, slot: int) -> bool {
    &&& section_count(d) > 10
    &&& 0 <= slot < 10
    &&& stat_anchor(sec_body(d, slot)) is Some
}

/// The slots that hold a character, in increasing order.
pub open spec fn present_slots(d: Seq<u8>) -> Seq<int> {
    Seq::new(10, |s: int| s).filter(|s: int| char_present(d, s))
}

/// Runes of the character in `slot`: u32 at anchor + 48 when in the body.
pub open spec fn char_runes(d: Seq<u8>, slot: int) -> int {
    let b = sec_body(d, slot);
    let a = stat_anchor(b)->0;
    if a + 52 <= b.len() {
        le32(b, a + 48)
    } else {
        0
    }
}

pub open spec fn char_level(d: Seq<u8>, slot: int) -> int {
    let b = sec_body(d, slot);
    le16(b, stat_anchor(b)->0 + 44)
}

pub open spec fn char_stats(d: Seq<u8>, slot: int) -> Seq<u8> {
    let b = sec_body(d, slot);
    stats_at(b, stat_anchor(b)->0)
}

/// Name of the character in `slot`: 32-byte UTF-16LE field in the header.
pub open spec fn char_name(d: Seq<u8>, slot: int) -> Seq<char> {
    let np = name_pos(d, slot);
    utf16_decode(zstr_units(d, np, min_int(np + 32, d.len() as int)))
}

pub open spec fn char_playtime(d: Seq<u8>, slot: int) -> int {
    let np = name_pos(d, slot);
    if np + 42 <= d.len() {
        le32(d, np + 38)
    } else {
        0
    }
}

/// `c` is the character that `d` holds in slot `slot`.
pub open spec fn character_of(d: Seq<u8>, slot: int, c: Character) -> bool {
    &&& c.slot == slot
    &&& c.level == char_level(d, slot)
    &&& c.stats@ == char_stats(d, slot)
    &&& c.runes == char_runes(d, slot)
    &&& c.name@ == char_name(d, slot)
    &&& c.playtime_secs == char_playtime(d, slot)
}

/// `chars` are the characters of `d`, one per occupied slot, in slot order.
pub open spec fn characters_of(d: Seq<u8>, chars: Seq<Character>) -> bool {
    &&& chars.len() == present_slots(d).len()
    &&& forall|j: int|
        0 <= j < chars.len() ==> character_of(d, present_slots(d)[j], #[trigger] chars[j])
}

/// The body of the section at `off` of `size` bytes, clamped as
/// `section_body` clamps it.
pub open spec fn span_body(d: Seq<u8>, off: int, size: int) -> Seq<u8> {
    let be = min_int(off + size, d.len() as int);
    d.subrange(min_int(off + 16, be), be)
}

/// With the sections placed as `g` says, a character occupies `slot`: the
/// list has the header section and the slot body holds a stat anchor.
pub open spec fn present_in(d: Seq<u8>, g: Seq<(int, int)>, slot: int) -> bool {
    &&& g.len() > 10
    &&& 0 <= slot < 10
    &&& stat_anchor(span_body(d, g[slot].0, g[slot].1)) is Some
}

/// The occupied slots, in increasing order, with the sections placed as `g`.
pub open spec fn slots_in(d: Seq<u8>, g: Seq<(int, int)>) -> Seq<int> {
    Seq::new(10, |s: int| s).filter(|s: int| present_in(d, g, s))
}

/// Offset of the name record of `slot`, with the header section at `g[10]`.
pub open spec fn name_pos_in(g: Seq<(int, int)>, slot: int) -> int {
    g[10].0 + 16 + NAME_BASE_IN_HEADER + slot * NAME_STRIDE
}

/// `c` is the character in `slot`, with the sections placed as `g`.
pub open spec fn character_in(d: Seq<u8>, g: Seq<(int, int)>, slot: int, c: Character) -> bool {
    let b = span_body(d, g[slot].0, g[slot].1);
    let a = stat_anchor(b)->0;
    let np = name_pos_in(g, slot);
    &&& c.slot == slot
    &&& c.level == le16(b, a + 44)
    &&& c.stats@ == stats_at(b, a)
    &&& c.runes == (if a + 52 <= b.len() {
        le32(b, a + 48)
    } else {
        0
    })
    &&& c.name@ == utf16_decode(zstr_units(d, np, min_int(np + 32, d.len() as int)))
    &&& c.playtime_secs == (if np + 42 <= d.len() {
        le32(d, np + 38)
    } else {
        0
    })
}

/// `chars` are the characters found with the sections placed as `g`, one per
/// occupied slot, in slot order.
pub open spec fn characters_in(d: Seq<u8>, g: Seq<(int, int)>, chars: Seq<Character>) -> bool {
    &&& chars.len() == slots_in(d, g).len()
    &&& forall|j: int|
        0 <= j < chars.len() ==> character_in(d, g, slots_in(d, g)[j], #[trigger] chars[j])
}

/// Read over the file's own section table, the characters found are the
/// characters of the file.
pub proof fn lemma_characters_table(d: Seq<u8>, chars: Seq<Character>)
    requires
        characters_in(d, table_geometry(d), chars),
    ensures
        characters_of(d, chars),
{
    let g = table_geometry(d);
    let p1 = |s: int| present_in(d, g, s);
    let p2 = |s: int| char_present(d, s);
    assert forall|s: int| #[trigger] p1(s) == p2(s) by {
        if 0 <= s < 10 && g.len() > 10 {
            assert(g[s] == (sec_off(d, s), sec_size(d, s)));
            assert(span_body(d, sec_off(d, s), sec_size(d, s)) == sec_body(d, s));
        }
    }
    assert(p1 =~= p2);
    assert(slots_in(d, g) == present_slots(d));
    assert forall|j: int| 0 <= j < chars.len() implies character_of(
        d,
        present_slots(d)[j],
        #[trigger] chars[j],
    ) by {
        let s = present_slots(d)[j];
        let all = Seq::new(10, |x: int| x);
        all.filter_lemma(p2);
        assert(p2(s));
        assert(character_in(d, g, s, chars[j]));
        assert(g[s] == (sec_off(d, s), sec_size(d, s)));
        assert(g[10] == (sec_off(d, 10), sec_size(d, 10)));
        assert(span_body(d, sec_off(d, s), sec_size(d, s)) == sec_body(d, s));
    }
}

/// The characters in the slots of `secs`, whatever list it is: none without
/// a header section, else one for each of the ten slots whose body holds a
/// stat anchor, by increasing slot.
pub fn parse_characters(data: &[u8], secs: &Vec<Section>) -> (chars: Vec<Character>)
    ensures
        characters_in(data@, geometry(secs@), chars@),
{
    let ghost d = data@;
    let ghost g = geometry(secs@);
    let ghost pred = |s: int| present_in(d, g, s);
    let ghost all = Seq::new(10, |s: int| s);
    let mut chars: Vec<Character> = Vec::new();
    if secs.len() <= HEADER_SECTION {
        proof {
            assert(all.all(|x: int| !pred(x)));
            all.lemma_all_neg_filter_empty(pred);
            assert(all.filter(pred) =~= Seq::<int>::empty());
        }
        return chars;
    }
    let len = data.len();
    let hoff = secs[HEADER_SECTION].offset;
    assert(g[10].0 == hoff);
    let mut slot: usize = 0;
    while slot < 10
        invariant
            d == data@,
            len == d.len(),
            secs@.len() > 10,
            g == geometry(secs@),
            hoff == g[10].0,
            slot <= 10,
            pred == (|s: int| present_in(d, g, s)),
            all == Seq::new(10, |s: int| s),
            chars@.len() == all.take(slot as int).filter(pred).len(),
            forall|j: int|
                0 <= j < chars@.len() ==> character_in(
                    d,
                    g,
                    all.take(slot as int).filter(pred)[j],
                    #[trigger] chars@[j],
                ),
        decreases 10 - slot,
    {
        let ghost prev = chars@;
        proof {
            assert(all.take(slot + 1).drop_last() =~= all.take(slot as int));
            reveal_with_fuel(Seq::<_>::filter, 1);
        }
        let body = section_body(data, &secs[slot]);
        assert(g[slot as int] == (secs@[slot as int].offset as int, secs@[slot as int].size as int));
        assert(body@ == span_body(d, g[slot as int].0, g[slot as int].1));
        match find_stat_anchor(body) {
            None => {
                assert(!pred(slot as int));
                assert(all.take(slot + 1).filter(pred) =~= all.take(slot as int).filter(pred));
            },
            Some((anchor, level, stats)) => {
                let blen = body.len();
                let runes = if anchor <= blen && blen - anchor >= 52 {
                    le_u32(body, anchor + 48)
                } else {
                    0
                };
                let ghost np = name_pos_in(g, slot as int);
                let far = hoff > len || len - hoff < 16 + NAME_BASE_IN_HEADER + slot * NAME_STRIDE;
                let name = if far {
                    // the record starts at or past the end of the file
                    let n = read_utf16_fixed(data, len, 32);
                    assert(zstr_units(d, len as int, min_int(len + 32, len as int))
                        =~= zstr_units(d, np, min_int(np + 32, len as int)));
                    n
                } else {
                    read_utf16_fixed(data, hoff + 16 + NAME_BASE_IN_HEADER + slot * NAME_STRIDE, 32)
                };
                let playtime_secs = if far {
                    0
                } else {
                    let npx = hoff + 16 + NAME_BASE_IN_HEADER + slot * NAME_STRIDE;
                    if len - npx >= 42 {
                        le_u32(data, npx + 38)
                    } else {
                        0
                    }
                };
                let c = Character { slot, name, level, stats, runes, playtime_secs };
                chars.push(c);
                assert(pred(slot as int));
                assert(all.take(slot + 1).filter(pred) =~= all.take(slot as int).filter(pred).push(
                    slot as int,
                ));
                assert(character_in(d, g, slot as int, c));
                assert forall|j: int| 0 <= j < chars@.len() implies character_in(
                    d,
                    g,
                    all.take(slot + 1).filter(pred)[j],
                    #[trigger] chars@[j],
                ) by {
                    if j < prev.len() {
                        assert(chars@[j] == prev[j]);
                    }
                }
            },
        }
        slot = slot + 1;
    }
    assert(all.take(10) =~= all);
    chars
}

} // verus!
