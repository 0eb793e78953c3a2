//! A loaded save file and the in-memory edits on it. Every edit recomputes
//! the MD5 checksum of each section whose bytes it touched.
use crate::bnd4::{
    body_end, body_start, char_present, characters_of, clamp_end, find_stat_anchor, min_int,
    geometry, lemma_characters_table, lemma_steam_id_table, name_field_pos, name_pos, parse_characters, table_geometry, section_body, parse_sections, read_steam_id, sec_body, sec_off,
    sec_size, section_count, sections_of, stat_anchor, stat_sum, steam_id_of, Character, Section,
    HEADER_SECTION, NAME_BASE_IN_HEADER, NAME_STRIDE,
};
use crate::bytes::{le32, le_u32, splice, u16_bytes, u32_bytes, u64_bytes, write_bytes, write_u16, write_u32, zero_range, zeroed};
use crate::item_db::{item_name, item_name_of};
use crate::utf16::{encode_utf16, utf16_encode};
use std::collections::HashSet;
use std::path::PathBuf;
use vstd::prelude::*;
use vstd::string::*;

verus! {

/// `std::path::PathBuf`, declared so that `SaveFile` can carry the path it
/// was read from; the library never looks inside it.
#[verifier::external_type_specification]
#[verifier::external_body]
pub struct ExPathBuf(std::path::PathBuf);

/// The MD5 digest of `data`.
pub uninterp spec fn md5_digest(data: Seq<u8>) -> [u8; 16];

/// `md5::compute`: the 16-byte MD5 digest of `data`, a function of the bytes
/// alone.
#[verifier::external_body]
fn md5_compute(data: &[u8]) -> (d: [u8; 16])
    ensures
        d == md5_digest(data@),
{
    md5::compute(data).0
}

/// A loaded save file plus its raw bytes.
pub struct SaveFile {
    pub path: PathBuf,
    pub data: Vec<u8>,
}

/// `d` with the checksum of the section at `off` of `size` bytes recomputed:
/// its first 16 bytes become the MD5 of the rest of the section.
pub open spec fn with_checksum(d: Seq<u8>, off: int, size: int) -> Seq<u8> {
    let start = off + 16;
    let end = min_int(off + size, d.len() as int);
    if start >= end {
        d
    } else {
        splice(d, off, md5_digest(d.subrange(start, end))@)
    }
}

/// Whether `d` is a BND4 file: at least 0x40 bytes, starting with `BND4`.
pub open spec fn is_bnd4(d: Seq<u8>) -> bool {
    &&& d.len() >= 0x40
    &&& d[0] == 0x42
    &&& d[1] == 0x4E
    &&& d[2] == 0x44
    &&& d[3] == 0x34
}

/// The body of section `slot` can be sliced: it does not start after its end.
pub open spec fn slot_body_ok(d: Seq<u8>, slot: int) -> bool {
    slot < section_count(d) ==> body_start(d, slot) <= body_end(d, slot)
}

/// Absolute position of the stat anchor of `slot`.
pub open spec fn anchor_pos(d: Seq<u8>, slot: int) -> int {
    body_start(d, slot) + stat_anchor(sec_body(d, slot))->0
}

/// `d` with the eight stats of the record at `a` set to `st`.
pub open spec fn put_stats(d: Seq<u8>, a: int, st: Seq<u8>, k: int) -> Seq<u8> {
    Seq::new(
        d.len(),
        |i: int|
            if a <= i < a + 4 * k && (i - a) % 4 == 0 {
                st[(i - a) / 4]
            } else {
                d[i]
            },
    )
}

/// The level that `st` gives: the sum of the stats minus 79.
pub open spec fn level_of(st: Seq<u8>) -> int {
    stat_sum(st) - 79
}

pub open spec fn stats_edited(d: Seq<u8>, slot: int, st: Seq<u8>) -> Seq<u8> {
    let a = anchor_pos(d, slot);
    let level = level_of(st) as u16;
    let d1 = put_stats(d, a, st, 8);
    let d2 = splice(d1, a + 44, u16_bytes(level));
    let lo = name_pos(d, slot) + 34;
    let d3 = if lo + 2 <= d.len() {
        splice(d2, lo, u16_bytes(level))
    } else {
        d2
    };
    let d4 = with_checksum(d3, sec_off(d, slot), sec_size(d, slot));
    with_checksum(d4, sec_off(d, 10), sec_size(d, 10))
}

/// What `set_stats` makes of `d`: the edited bytes, or the error message.
pub open spec fn set_stats_outcome(d: Seq<u8>, slot: int, st: Seq<u8>) -> Result<
    Seq<u8>,
    Seq<char>,
> {
    if slot >= section_count(d) {
        Err("invalid slot"@)
    } else if section_count(d) <= 10 {
        Err("no header section"@)
    } else if stat_anchor(sec_body(d, slot)) is None {
        Err("no character in this slot"@)
    } else if !(80 <= stat_sum(st) <= 792) {
        Err("resulting level out of range (stats sum must be 80..=792)"@)
    } else {
        Ok(stats_edited(d, slot, st))
    }
}

/// The 32-byte name field for `units`: the units in little-endian order,
/// padded with zeros.
pub open spec fn name_field(units: Seq<u16>) -> Seq<u8> {
    Seq::new(
        32,
        |i: int|
            if i < 2 * units.len() {
                if i % 2 == 0 {
                    (units[i / 2] % 256) as u8
                } else {
                    (units[i / 2] / 256) as u8
                }
            } else {
                0u8
            },
    )
}

pub open spec fn set_name_outcome(d: Seq<u8>, slot: int, name: Seq<char>) -> Result<
    Seq<u8>,
    Seq<char>,
> {
    if section_count(d) <= 10 {
        Err("no header section"@)
    } else if name_pos(d, slot) + 32 > d.len() {
        Err("name offset out of range"@)
    } else if utf16_encode(name).len() > 16 {
        Err("name too long (max 16 characters)"@)
    } else {
        Ok(
            with_checksum(
                splice(d, name_pos(d, slot), name_field(utf16_encode(name))),
                sec_off(d, 10),
                sec_size(d, 10),
            ),
        )
    }
}

pub open spec fn set_runes_outcome(d: Seq<u8>, slot: int, v: u32) -> Result<
    Seq<u8>,
    Seq<char>,
> {
    if slot >= section_count(d) {
        Err("invalid slot"@)
    } else if stat_anchor(sec_body(d, slot)) is None {
        Err("no character in this slot"@)
    } else if anchor_pos(d, slot) + 52 > d.len() {
        Err("souls offset out of range"@)
    } else {
        Ok(
            with_checksum(
                splice(d, anchor_pos(d, slot) + 48, u32_bytes(v)),
                sec_off(d, slot),
                sec_size(d, slot),
            ),
        )
    }
}

pub open spec fn delete_outcome(d: Seq<u8>, slot: int) -> Result<Seq<u8>, Seq<char>> {
    if slot >= section_count(d) {
        Err("invalid slot"@)
    } else if section_count(d) <= 10 {
        Err("no header section"@)
    } else {
        let d1 = zeroed(d, body_start(d, slot), body_end(d, slot));
        let np = name_pos(d, slot);
        let d2 = zeroed(d1, np, min_int(np + 40, d.len() as int));
        let d3 = with_checksum(d2, sec_off(d, slot), sec_size(d, slot));
        Ok(with_checksum(d3, sec_off(d, 10), sec_size(d, 10)))
    }
}

// ---------------------------------------------------------------------------
// SteamID replacement.
/// The 8 bytes at `i` are `pat`.
pub open spec fn bytes_at(d: Seq<u8>, i: int, pat: Seq<u8>) -> bool {
    d.subrange(i, i + 8) == pat
}

/// The bytes of `d` from `i` on after replacing, left to right and without
/// overlap, every 8-byte occurrence of `pat` by `rep`.
pub open spec fn replaced_tail(d: Seq<u8>, i: int, pat: Seq<u8>, rep: Seq<u8>) -> Seq<u8>
    decreases d.len() - i,
{
    if i < 0 || i + 8 > d.len() {
        d.subrange(if i < 0 { 0 } else if i > d.len() { d.len() as int } else { i }, d.len() as int)
    } else if bytes_at(d, i, pat) {
        rep + replaced_tail(d, i + 8, pat, rep)
    } else {
        seq![d[i]] + replaced_tail(d, i + 1, pat, rep)
    }
}

/// How many occurrences that replacement finds from `i` on.
pub open spec fn occurrences(d: Seq<u8>, i: int, pat: Seq<u8>) -> int
    decreases d.len() - i,
{
    if i < 0 || i + 8 > d.len() {
        0
    } else if bytes_at(d, i, pat) {
        1 + occurrences(d, i + 8, pat)
    } else {
        occurrences(d, i + 1, pat)
    }
}

/// `d` with the checksums of sections `0..k` of `orig`'s table recomputed in
/// order.
pub open spec fn checksums_upto(d: Seq<u8>, orig: Seq<u8>, k: int) -> Seq<u8>
    decreases k,
{
    if k <= 0 {
        d
    } else {
        with_checksum(checksums_upto(d, orig, k - 1), sec_off(orig, k - 1), sec_size(orig, k - 1))
    }
}

pub open spec fn set_steam_id_outcome(d: Seq<u8>, new_id: u64) -> Result<
    (Seq<u8>, int),
    Seq<char>,
> {
    match steam_id_of(d) {
        None => Err("could not read current SteamID"@),
        Some(old_id) => if old_id == new_id {
            Ok((d, 0))
        } else {
            let r = replaced_tail(d, 0, u64_bytes(old_id), u64_bytes(new_id));
            Ok((checksums_upto(r, d, section_count(d)), occurrences(d, 0, u64_bytes(old_id))))
        },
    }
}

// ---------------------------------------------------------------------------
// Inventory.
/// An ITEM-category inventory entry at `i`: a handle whose high nibble is 0xB,
/// followed by a quantity in 1..=99_999.
pub open spec fn is_goods_entry(b: Seq<u8>, i: int) -> bool {
    &&& 0 <= i
    &&& i + 8 <= b.len()
    &&& le32(b, i) / 0x1000_0000 == 0xB
    &&& 1 <= le32(b, i + 4) <= 99_999
}

/// The base id of the entry at `i`: its handle without the category nibble.
pub open spec fn goods_base(b: Seq<u8>, i: int) -> u32 {
    (le32(b, i) % 0x1000_0000) as u32
}

/// The (base id, quantity) of each item owned, scanning the body from `i`:
/// the first entry of each base id counts, and only base ids that the item
/// table names.
pub open spec fn owned_from(b: Seq<u8>, i: int, seen: Set<u32>) -> Seq<(u32, u32)>
    decreases b.len() - i,
{
    if i < 0 || i + 8 > b.len() {
        seq![]
    } else if is_goods_entry(b, i) && !seen.contains(goods_base(b, i)) {
        let rest = owned_from(b, i + 1, seen.insert(goods_base(b, i)));
        if item_name_of(goods_base(b, i)) is Some {
            seq![(goods_base(b, i), le32(b, i + 4) as u32)] + rest
        } else {
            rest
        }
    } else {
        owned_from(b, i + 1, seen)
    }
}

/// The items that the character in `slot` owns, in the order they are found.
pub open spec fn owned_list(d: Seq<u8>, slot: int) -> Seq<(u32, u32)> {
    if 0 <= slot < section_count(d) {
        owned_from(sec_body(d, slot), 0, Set::empty())
    } else {
        seq![]
    }
}

/// The character in `slot` owns an item of `base_id`.
pub open spec fn owns(d: Seq<u8>, slot: int, base_id: u32) -> bool {
    exists|j: int| 0 <= j < owned_list(d, slot).len() && #[trigger] owned_list(d, slot)[j].0 == base_id
}

/// The inventory handle of a goods item.
pub open spec fn goods_handle(base_id: u32) -> u32 {
    0xB000_0000u32 | base_id
}

/// Position of the quantity of the first inventory entry of handle `h` at or
/// after `i` (and before `end`): the handle followed by a value below
/// 0x4000_0000, which a ga_items entry (holding an item id there) is not.
pub open spec fn qty_pos_from(d: Seq<u8>, i: int, end: int, h: u32) -> Option<int>
    decreases end - i,
{
    if i < 0 || i + 8 > end || end > d.len() {
        None
    } else if le32(d, i) == h && le32(d, i + 4) < 0x4000_0000 {
        Some(i + 4)
    } else {
        qty_pos_from(d, i + 1, end, h)
    }
}

pub open spec fn set_qty_outcome(d: Seq<u8>, slot: int, base_id: u32, qty: u32) -> Result<
    Seq<u8>,
    Seq<char>,
> {
    if slot >= section_count(d) {
        Err("invalid slot"@)
    } else {
        match qty_pos_from(d, body_start(d, slot), body_end(d, slot), goods_handle(base_id)) {
            None => Err("角色没有这个物品(当前只能修改已拥有物品的数量)"@),
            Some(p) => Ok(
                with_checksum(splice(d, p, u32_bytes(qty)), sec_off(d, slot), sec_size(d, slot)),
            ),
        }
    }
}

/// Offset of the held common-items table (its count of distinct entries):
/// 0x370 bytes past the stat anchor.
pub open spec fn common_table(d: Seq<u8>, slot: int) -> int {
    anchor_pos(d, slot) + 48 - 0x64 + 0x3A4
}

/// `d` with a new entry (handle, quantity, sort id) appended to the held
/// common-items table at `cd`, and its three counters advanced.
pub open spec fn appended(d: Seq<u8>, cd: int, base_id: u32, qty: u32) -> Seq<u8> {
    let distinct = le32(d, cd);
    let nei = le32(d, cd + 0x9008) as u32;
    let nas = le32(d, cd + 0x900C) as u32;
    let entry = cd + 4 + distinct * 12;
    let d1 = splice(d, entry, u32_bytes(goods_handle(base_id)));
    let d2 = splice(d1, entry + 4, u32_bytes(qty));
    let d3 = splice(d2, entry + 8, u32_bytes(nas));
    let d4 = splice(d3, cd, u32_bytes((distinct + 1) as u32));
    let d5 = splice(d4, cd + 0x9008, u32_bytes(nei.wrapping_add(1)));
    splice(d5, cd + 0x900C, u32_bytes(nas.wrapping_add(1)))
}

pub open spec fn give_outcome(d: Seq<u8>, slot: int, base_id: u32, qty: u32) -> Result<
    Seq<u8>,
    Seq<char>,
> {
    if owns(d, slot, base_id) {
        set_qty_outcome(d, slot, base_id, qty)
    } else {
        append_outcome(d, slot, base_id, qty)
    }
}

/// What appending a new entry of `base_id` makes of `d`.
pub open spec fn append_outcome(d: Seq<u8>, slot: int, base_id: u32, qty: u32) -> Result<
    Seq<u8>,
    Seq<char>,
> {
    if slot >= section_count(d) {
        Err("invalid slot"@)
    } else if stat_anchor(sec_body(d, slot)) is None {
        Err("no character in this slot"@)
    } else if common_table(d, slot) + 0x9010 > d.len() {
        Err("inventory table out of range"@)
    } else if le32(d, common_table(d, slot)) >= 0xA80 {
        Err("背包已满"@)
    } else {
        Ok(
            with_checksum(
                appended(d, common_table(d, slot), base_id, qty),
                sec_off(d, slot),
                sec_size(d, slot),
            ),
        )
    }
}

fn err(msg: &str) -> (s: String)
    ensures
        s@ == msg@,
{
    String::from_str(msg)
}

impl SaveFile {
    /// The bytes hold the section count (at 0x0C), which every reader needs.
    pub open spec fn wf(&self) -> bool {
        self.data@.len() >= 0x10
    }

    /// Validates the bytes read from `path` as a BND4 `.sl2` save.
    pub fn from_bytes(path: PathBuf, data: Vec<u8>) -> (r: Result<SaveFile, String>)
        ensures
            match r {
                Ok(sf) => is_bnd4(data@) && sf.data@ == data@ && sf.path == path && sf.wf(),
                Err(e) => !is_bnd4(data@) && e@ == "not a valid BND4 .sl2 save"@,
            },
    {
        if data.len() < 0x40 || data[0] != 0x42 || data[1] != 0x4E || data[2] != 0x44 || data[3]
            != 0x34 {
            return Err(err("not a valid BND4 .sl2 save"));
        }
        Ok(SaveFile { path, data })
    }

    pub fn sections(&self) -> (secs: Vec<Section>)
        requires
            self.wf(),
        ensures
            sections_of(self.data@, secs@),
    {
        parse_sections(self.data.as_slice())
    }

    pub fn steam_id(&self) -> (r: Option<u64>)
        requires
            self.wf(),
        ensures
            r == steam_id_of(self.data@),
    {
        let secs = self.sections();
        proof {
            assert(geometry(secs@) =~= table_geometry(self.data@));
            lemma_steam_id_table(self.data@);
        }
        read_steam_id(self.data.as_slice(), &secs)
    }

    pub fn characters(&self) -> (chars: Vec<Character>)
        requires
            self.wf(),
        ensures
            characters_of(self.data@, chars@),
    {
        let secs = self.sections();
        proof {
            assert(geometry(secs@) =~= table_geometry(self.data@));
        }
        let chars = parse_characters(self.data.as_slice(), &secs);
        proof {
            lemma_characters_table(self.data@, chars@);
        }
        chars
    }

    /// Recompute one section's checksum: the leading 16 bytes are MD5 of the
    /// section's data body. Must be called after editing any bytes in a section.
    fn recalc_checksum(&mut self, offset: usize, size: usize)
        ensures
            final(self).data@ == with_checksum(old(self).data@, offset as int, size as int),
            final(self).data@.len() == old(self).data@.len(),
            final(self).path == old(self).path,
    {
        let len = self.data.len();
        let end = clamp_end(offset, size, len);
        if offset >= end || end - offset <= 16 {
            return ;
        }
        let start = offset + 16;
        let digest = md5_compute(&self.data.as_slice()[start..end]);
        write_bytes(&mut self.data, offset, &digest);
    }

    /// Edit a character's 8 stats. Recomputes the derived level (both the in-slot
    /// copy and the menu-header copy) and the affected section checksums.
    /// In-memory only: the caller persists `data`.
    pub fn set_stats(&mut self, slot: usize, new_stats: [u8; 8]) -> (r: Result<(), String>)
        requires
            old(self).wf(),
            section_count(old(self).data@) > 10 ==> slot_body_ok(old(self).data@, slot as int),
        ensures
            final(self).path == old(self).path,
            final(self).wf(),
            final(self).data@.len() == old(self).data@.len(),
            match r {
                Ok(_) => set_stats_outcome(old(self).data@, slot as int, new_stats@) == Ok::<
                    Seq<u8>,
                    Seq<char>,
                >(final(self).data@),
                Err(e) => set_stats_outcome(old(self).data@, slot as int, new_stats@) == Err::<
                    Seq<u8>,
                    Seq<char>,
                >(e@) && final(self).data@ == old(self).data@,
            },
    {
        let ghost d = self.data@;
        let secs = self.sections();
        if slot >= secs.len() {
            return Err(err("invalid slot"));
        }
        if secs.len() <= HEADER_SECTION {
            return Err(err("no header section"));
        }
        let off = secs[slot].offset;
        let size = secs[slot].size;
        let hoff = secs[HEADER_SECTION].offset;
        let hsize = secs[HEADER_SECTION].size;
        let len = self.data.len();
        let body_end = clamp_end(off, size, len);
        let body_off = off + 16;
        let body = &self.data.as_slice()[body_off..body_end];
        assert(body@ == sec_body(d, slot as int));
        let anchor = match find_stat_anchor(body) {
            Some((a, _, _)) => a,
            None => {
                return Err(err("no character in this slot"));
            },
        };
        proof {
            crate::bnd4::lemma_anchor_from(body@, 0);
        }
        let sum: u32 = new_stats[0] as u32 + new_stats[1] as u32 + new_stats[2] as u32
            + new_stats[3] as u32 + new_stats[4] as u32 + new_stats[5] as u32 + new_stats[6] as u32
            + new_stats[7] as u32;
        assert(sum == stat_sum(new_stats@));
        if sum < 80 || sum > 792 {
            return Err(err("resulting level out of range (stats sum must be 80..=792)"));
        }
        let new_level = (sum - 79) as u16;
        let abs = body_off + anchor;
        assert(abs == anchor_pos(d, slot as int));
        // 8 stats: value in the low byte at anchor + k*4
        let mut k: usize = 0;
        while k < 8
            invariant
                k <= 8,
                abs + 46 <= len,
                len == d.len(),
                self.data@ == put_stats(d, abs as int, new_stats@, k as int),
                self.path == old(self).path,
            decreases 8 - k,
        {
            self.data[abs + k * 4] = new_stats[k];
            k = k + 1;
            assert(self.data@ =~= put_stats(d, abs as int, new_stats@, k as int));
        }
        // in-slot level copy (u16 at anchor + 44)
        write_u16(&mut self.data, abs + 44, new_level);
        // menu-header level copy (u16 at name_base + slot*stride + 34)
        match name_field_pos(hoff, slot, 34, 2, len) {
            Some(lvl_off) => write_u16(&mut self.data, lvl_off, new_level),
            None => {},
        }
        // Checksums for the two sections we touched.
        self.recalc_checksum(off, size);
        self.recalc_checksum(hoff, hsize);
        Ok(())
    }

    /// Edit a character's name (max 16 UTF-16 units). Recomputes the header
    /// checksum. In-memory only: the caller persists `data`.
    pub fn set_name(&mut self, slot: usize, new_name: &str) -> (r: Result<(), String>)
        requires
            old(self).wf(),
        ensures
            final(self).path == old(self).path,
            final(self).wf(),
            final(self).data@.len() == old(self).data@.len(),
            match r {
                Ok(_) => set_name_outcome(old(self).data@, slot as int, new_name@) == Ok::<
                    Seq<u8>,
                    Seq<char>,
                >(final(self).data@),
                Err(e) => set_name_outcome(old(self).data@, slot as int, new_name@) == Err::<
                    Seq<u8>,
                    Seq<char>,
                >(e@) && final(self).data@ == old(self).data@,
            },
    {
        let ghost d = self.data@;
        let secs = self.sections();
        if secs.len() <= HEADER_SECTION {
            return Err(err("no header section"));
        }
        let hoff = secs[HEADER_SECTION].offset;
        let hsize = secs[HEADER_SECTION].size;
        let len = self.data.len();
        let name_off = match name_field_pos(hoff, slot, 0, 32, len) {
            Some(p) => p,
            None => {
                return Err(err("name offset out of range"));
            },
        };
        let utf16 = encode_utf16(new_name);
        if utf16.len() > 16 {
            return Err(err("name too long (max 16 characters)"));
        }
        // 32-byte fixed field, UTF-16LE, zero-padded (zeros act as terminator).
        let mut bytes: [u8; 32] = [0u8; 32];
        let mut i: usize = 0;
        while i < utf16.len()
            invariant
                i <= utf16@.len() <= 16,
                forall|j: int|
                    0 <= j < 32 ==> #[trigger] bytes@[j] == if j < 2 * i {
                        name_field(utf16@)[j]
                    } else {
                        0u8
                    },
            decreases utf16@.len() - i,
        {
            let u = utf16[i];
            bytes[i * 2] = (u % 256) as u8;
            bytes[i * 2 + 1] = (u / 256) as u8;
            i = i + 1;
        }
        assert(bytes@ =~= name_field(utf16@));
        write_bytes(&mut self.data, name_off, &bytes);
        self.recalc_checksum(hoff, hsize);
        Ok(())
    }

    /// Set the rune count. Located via the stat anchor (souls = anchor + 48,
    /// u32 LE). In-memory only: the caller persists `data`.
    pub fn set_runes(&mut self, slot: usize, new_value: u32) -> (r: Result<(), String>)
        requires
            old(self).wf(),
            slot_body_ok(old(self).data@, slot as int),
        ensures
            final(self).path == old(self).path,
            final(self).wf(),
            final(self).data@.len() == old(self).data@.len(),
            match r {
                Ok(_) => set_runes_outcome(old(self).data@, slot as int, new_value) == Ok::<
                    Seq<u8>,
                    Seq<char>,
                >(final(self).data@),
                Err(e) => set_runes_outcome(old(self).data@, slot as int, new_value) == Err::<
                    Seq<u8>,
                    Seq<char>,
                >(e@) && final(self).data@ == old(self).data@,
            },
    {
        let ghost d = self.data@;
        let secs = self.sections();
        if slot >= secs.len() {
            return Err(err("invalid slot"));
        }
        let off = secs[slot].offset;
        let size = secs[slot].size;
        let len = self.data.len();
        let body_end = clamp_end(off, size, len);
        let body_off = off + 16;
        let body = &self.data.as_slice()[body_off..body_end];
        assert(body@ == sec_body(d, slot as int));
        let anchor = match find_stat_anchor(body) {
            Some((a, _, _)) => a,
            None => {
                return Err(err("no character in this slot"));
            },
        };
        proof {
            crate::bnd4::lemma_anchor_from(body@, 0);
        }
        if len - body_off - anchor < 52 {
            return Err(err("souls offset out of range"));
        }
        let souls = body_off + anchor + 48;
        write_u32(&mut self.data, souls, new_value);
        self.recalc_checksum(off, size);
        Ok(())
    }

    /// Delete a character: zero its slot data and its header name/level fields,
    /// then recompute checksums. In-memory only: the caller persists `data`.
    pub fn delete_character(&mut self, slot: usize) -> (r: Result<(), String>)
        requires
            old(self).wf(),
            section_count(old(self).data@) > 10 ==> slot_body_ok(old(self).data@, slot as int),
        ensures
            final(self).path == old(self).path,
            final(self).wf(),
            final(self).data@.len() == old(self).data@.len(),
            match r {
                Ok(_) => delete_outcome(old(self).data@, slot as int) == Ok::<Seq<u8>, Seq<char>>(
                    final(self).data@,
                ),
                Err(e) => delete_outcome(old(self).data@, slot as int) == Err::<
                    Seq<u8>,
                    Seq<char>,
                >(e@) && final(self).data@ == old(self).data@,
            },
    {
        let ghost d = self.data@;
        let secs = self.sections();
        if slot >= secs.len() {
            return Err(err("invalid slot"));
        }
        if secs.len() <= HEADER_SECTION {
            return Err(err("no header section"));
        }
        let off = secs[slot].offset;
        let size = secs[slot].size;
        let hoff = secs[HEADER_SECTION].offset;
        let hsize = secs[HEADER_SECTION].size;
        let len = self.data.len();
        let end = clamp_end(off, size, len);
        let start = off + 16;
        zero_range(&mut self.data, start, end);
        let ghost d1 = self.data@;
        match name_field_pos(hoff, slot, 0, 0, len) {
            Some(name_off) => {
                let clear_end = clamp_end(name_off, 40, len);
                if name_off < clear_end {
                    zero_range(&mut self.data, name_off, clear_end);
                } else {
                    assert(zeroed(d1, name_off as int, clear_end as int) =~= d1);
                }
            },
            None => {
                assert(zeroed(d1, name_pos(d, slot as int), min_int(name_pos(d, slot as int) + 40, len as int)) =~= d1);
            },
        }
        self.recalc_checksum(off, size);
        self.recalc_checksum(hoff, hsize);
        Ok(())
    }

    /// List every goods item this character owns: (zh-Hans name, base_id, quantity).
    /// Scans the slot once for ITEM-category inventory entries and resolves names
    /// via the item table.
    pub fn owned_items(&self, slot: usize) -> (r: Vec<(&'static str, u32, u32)>)
        requires
            self.wf(),
        ensures
            r@.len() == owned_list(self.data@, slot as int).len(),
            forall|j: int|
                0 <= j < r@.len() ==> {
                    &&& #[trigger] r@[j].1 == owned_list(self.data@, slot as int)[j].0
                    &&& r@[j].2 == owned_list(self.data@, slot as int)[j].1
                    &&& item_name_of(r@[j].1) == Some(r@[j].0@)
                },
    {
        let ghost d = self.data@;
        let secs = self.sections();
        if slot >= secs.len() {
            return Vec::new();
        }
        let body = section_body(self.data.as_slice(), &secs[slot]);
        let ghost b = body@;
        assert(b == sec_body(d, slot as int));
        let len = body.len();
        let mut seen: HashSet<u32> = HashSet::new();
        let mut result: Vec<(&'static str, u32, u32)> = Vec::new();
        let ghost mut acc: Seq<(u32, u32)> = seq![];
        let mut i: usize = 0;
        while i <= len && len - i >= 8
            invariant
                len == b.len(),
                b == body@,
                i <= len,
                acc + owned_from(b, i as int, seen@) == owned_from(b, 0, Set::empty()),
                result@.len() == acc.len(),
                forall|j: int|
                    0 <= j < result@.len() ==> {
                        &&& #[trigger] result@[j].1 == acc[j].0
                        &&& result@[j].2 == acc[j].1
                        &&& item_name_of(result@[j].1) == Some(result@[j].0@)
                    },
            decreases len - i,
        {
            let handle = le_u32(body, i);
            // An ITEM-category ga_item_handle has high nibble 0xB.
            assert(handle >> 28 == handle / 0x1000_0000) by (bit_vector);
            if handle >> 28 == 0xB {
                let qty = le_u32(body, i + 4);
                // A real inventory quantity, not a ga_items item_id (0x4000_xxxx).
                if 1 <= qty && qty <= 99_999 {
                    let base_id = handle & 0x0FFF_FFFF;
                    assert(handle & 0x0FFF_FFFF == handle % 0x1000_0000) by (bit_vector);
                    assert(is_goods_entry(b, i as int));
                    assert(base_id == goods_base(b, i as int));
                    let ghost old_seen = seen@;
                    if seen.insert(base_id) {
                        match item_name(base_id) {
                            Some(name) => {
                                result.push((name, base_id, qty));
                                proof {
                                    let e = (base_id, qty);
                                    assert(owned_from(b, i as int, old_seen) == seq![e]
                                        + owned_from(b, i + 1, seen@));
                                    assert(acc.push(e) + owned_from(b, i + 1, seen@) =~= acc
                                        + owned_from(b, i as int, old_seen));
                                    acc = acc.push(e);
                                }
                            },
                            None => {
                                assert(owned_from(b, i as int, old_seen) == owned_from(
                                    b,
                                    i + 1,
                                    seen@,
                                ));
                            },
                        }
                        i = i + 1;
                        continue;
                    }
                    assert(seen@ =~= old_seen);
                }
            }
            assert(owned_from(b, i as int, seen@) == owned_from(b, i + 1, seen@));
            i = i + 1;
        }
        assert(owned_from(b, i as int, seen@) =~= Seq::<(u32, u32)>::empty());
        assert(acc =~= owned_from(b, 0, Set::empty()));
        result
    }

    /// Set the quantity of an item the character already owns. Locates the
    /// inventory entry by its ga_item_handle and writes the quantity (u32 at +4).
    /// In-memory only: the caller persists `data`.
    pub fn set_item_quantity(&mut self, slot: usize, base_id: u32, qty: u32) -> (r: Result<
        (),
        String,
    >)
        requires
            old(self).wf(),
        ensures
            final(self).path == old(self).path,
            final(self).wf(),
            final(self).data@.len() == old(self).data@.len(),
            match r {
                Ok(_) => set_qty_outcome(old(self).data@, slot as int, base_id, qty) == Ok::<
                    Seq<u8>,
                    Seq<char>,
                >(final(self).data@),
                Err(e) => set_qty_outcome(old(self).data@, slot as int, base_id, qty) == Err::<
                    Seq<u8>,
                    Seq<char>,
                >(e@) && final(self).data@ == old(self).data@,
            },
    {
        let ghost d = self.data@;
        let secs = self.sections();
        if slot >= secs.len() {
            return Err(err("invalid slot"));
        }
        let off = secs[slot].offset;
        let size = secs[slot].size;
        let len = self.data.len();
        let body_end = clamp_end(off, size, len);
        if off >= body_end || body_end - off < 24 {
            // no whole entry after the checksum
            return Err(err("角色没有这个物品(当前只能修改已拥有物品的数量)"));
        }
        let body_off = off + 16;
        let needle = 0xB000_0000u32 | base_id;
        let mut i = body_off;
        let mut target: Option<usize> = None;
        while i <= body_end && body_end - i >= 8
            invariant_except_break
                target is None,
            invariant
                len == d.len(),
                self.data@ == d,
                body_end <= len,
                body_end == crate::bnd4::body_end(d, slot as int),
                body_off <= i,
                qty_pos_from(d, body_off as int, body_end as int, needle) == qty_pos_from(
                    d,
                    i as int,
                    body_end as int,
                    needle,
                ),
            ensures
                match target {
                    Some(p) => qty_pos_from(d, body_off as int, body_end as int, needle) == Some(
                        p as int,
                    ) && p + 4 <= len,
                    None => qty_pos_from(d, body_off as int, body_end as int, needle) is None,
                },
            decreases body_end - i,
        {
            if le_u32(self.data.as_slice(), i) == needle {
                // Inventory entry has a small quantity at +4; a ga_items entry has
                // the item_id (0x4000_xxxx) there; skip those.
                if le_u32(self.data.as_slice(), i + 4) < 0x4000_0000 {
                    target = Some(i + 4);
                    break;
                }
            }
            i = i + 1;
        }
        let pos = match target {
            Some(p) => p,
            None => {
                return Err(err("角色没有这个物品(当前只能修改已拥有物品的数量)"));
            },
        };
        write_u32(&mut self.data, pos, qty);
        self.recalc_checksum(off, size);
        Ok(())
    }

    /// Give a character an item: if already owned, set its quantity; otherwise
    /// append a new entry to the held common_items table. Goods carry their id in
    /// the ga_item_handle, so no ga_items registration is needed.
    /// In-memory only: the caller persists `data`.
    pub fn give_item(&mut self, slot: usize, base_id: u32, qty: u32) -> (r: Result<(), String>)
        requires
            old(self).wf(),
            !owns(old(self).data@, slot as int, base_id) ==> slot_body_ok(
                old(self).data@,
                slot as int,
            ),
        ensures
            final(self).path == old(self).path,
            final(self).wf(),
            final(self).data@.len() == old(self).data@.len(),
            match r {
                Ok(_) => give_outcome(old(self).data@, slot as int, base_id, qty) == Ok::<
                    Seq<u8>,
                    Seq<char>,
                >(final(self).data@),
                Err(e) => give_outcome(old(self).data@, slot as int, base_id, qty) == Err::<
                    Seq<u8>,
                    Seq<char>,
                >(e@) && final(self).data@ == old(self).data@,
            },
    {
        let ghost d = self.data@;
        let owned = self.owned_items(slot);
        let mut found = false;
        let mut j: usize = 0;
        while j < owned.len()
            invariant
                j <= owned@.len(),
                owned@.len() == owned_list(d, slot as int).len(),
                forall|k: int|
                    0 <= k < owned@.len() ==> #[trigger] owned@[k].1 == owned_list(
                        d,
                        slot as int,
                    )[k].0,
                !found ==> forall|k: int| 0 <= k < j ==> owned_list(d, slot as int)[k].0 != base_id,
                found ==> owns(d, slot as int, base_id),
            decreases owned@.len() - j,
        {
            if owned[j].1 == base_id {
                assert(owned_list(d, slot as int)[j as int].0 == base_id);
                found = true;
            }
            j = j + 1;
        }
        if found {
            return self.set_item_quantity(slot, base_id, qty);
        }
        assert(!owns(d, slot as int, base_id));
        self.append_item(slot, base_id, qty)
    }

    /// Appends a new entry of `base_id` to the held common-items table.
    fn append_item(&mut self, slot: usize, base_id: u32, qty: u32) -> (r: Result<(), String>)
        requires
            old(self).wf(),
            slot_body_ok(old(self).data@, slot as int),
        ensures
            final(self).path == old(self).path,
            final(self).wf(),
            final(self).data@.len() == old(self).data@.len(),
            match r {
                Ok(_) => append_outcome(old(self).data@, slot as int, base_id, qty) == Ok::<
                    Seq<u8>,
                    Seq<char>,
                >(final(self).data@),
                Err(e) => append_outcome(old(self).data@, slot as int, base_id, qty) == Err::<
                    Seq<u8>,
                    Seq<char>,
                >(e@) && final(self).data@ == old(self).data@,
            },
    {
        let ghost d = self.data@;
        let secs = self.sections();
        if slot >= secs.len() {
            return Err(err("invalid slot"));
        }
        let off = secs[slot].offset;
        let size = secs[slot].size;
        let len = self.data.len();
        let body_end = clamp_end(off, size, len);
        let body_off = off + 16;
        let body = &self.data.as_slice()[body_off..body_end];
        assert(body@ == sec_body(d, slot as int));
        let anchor = match find_stat_anchor(body) {
            Some((a, _, _)) => a,
            None => {
                return Err(err("no character in this slot"));
            },
        };
        proof {
            crate::bnd4::lemma_anchor_from(body@, 0);
        }
        // common_distinct = PGD_start + 0x3A4; PGD_start = souls_abs - 0x64; souls = anchor + 48.
        if len - body_off - anchor < 0x370 + 0x9010 {
            return Err(err("inventory table out of range"));
        }
        let cd_off = body_off + anchor + 0x370;
        assert(cd_off == common_table(d, slot as int));
        let distinct = le_u32(self.data.as_slice(), cd_off);
        if distinct >= 0xA80 {
            return Err(err("背包已满"));
        }
        append_entry(&mut self.data, cd_off, distinct, base_id, qty);
        self.recalc_checksum(off, size);
        Ok(())
    }

    /// Replace the SteamID everywhere it appears (it is embedded in several
    /// sections) and recompute all section checksums. For importing a save from
    /// another account. Returns the number of occurrences replaced.
    /// In-memory only: the caller persists `data`.
    pub fn set_steam_id(&mut self, new_id: u64) -> (r: Result<usize, String>)
        requires
            old(self).wf(),
        ensures
            final(self).path == old(self).path,
            final(self).wf(),
            final(self).data@.len() == old(self).data@.len(),
            match r {
                Ok(n) => set_steam_id_outcome(old(self).data@, new_id) == Ok::<
                    (Seq<u8>, int),
                    Seq<char>,
                >((final(self).data@, n as int)),
                Err(e) => set_steam_id_outcome(old(self).data@, new_id) == Err::<
                    (Seq<u8>, int),
                    Seq<char>,
                >(e@) && final(self).data@ == old(self).data@,
            },
    {
        let ghost d = self.data@;
        let secs = self.sections();
        proof {
            assert(geometry(secs@) =~= table_geometry(self.data@));
            lemma_steam_id_table(self.data@);
        }
        let old_id = match read_steam_id(self.data.as_slice(), &secs) {
            Some(id) => id,
            None => {
                return Err(err("could not read current SteamID"));
            },
        };
        if old_id == new_id {
            return Ok(0);
        }
        let old_le = u64_le_array(old_id);
        let new_le = u64_le_array(new_id);
        let count = replace_all(&mut self.data, &old_le, &new_le);
        assert(old_le@ == u64_bytes(old_id));
        assert(new_le@ == u64_bytes(new_id));
        let ghost r = self.data@;
        proof {
            lemma_replaced_len(d, 0, old_le@, new_le@);
        }
        let mut k: usize = 0;
        while k < secs.len()
            invariant
                k <= secs@.len(),
                sections_of(d, secs@),
                self.data@ == checksums_upto(r, d, k as int),
                self.data@.len() == d.len(),
                self.path == old(self).path,
            decreases secs@.len() - k,
        {
            self.recalc_checksum(secs[k].offset, secs[k].size);
            k = k + 1;
        }
        Ok(count)
    }
}

/// Replaces, left to right and without overlap, every 8-byte occurrence of
/// `pat` in `data` by `rep`; returns how many were replaced.
fn replace_all(data: &mut Vec<u8>, pat: &[u8; 8], rep: &[u8; 8]) -> (count: usize)
    ensures
        final(data)@ == replaced_tail(old(data)@, 0, pat@, rep@),
        count == occurrences(old(data)@, 0, pat@),
{
    let ghost d = data@;
    let len = data.len();
    let mut count: usize = 0;
    let mut i: usize = 0;
    while i <= len && len - i >= 8
        invariant
            len == d.len(),
            data@.len() == len,
            i <= len,
            data@.subrange(i as int, len as int) == d.subrange(i as int, len as int),
            data@.subrange(0, i as int) + replaced_tail(d, i as int, pat@, rep@)
                == replaced_tail(d, 0, pat@, rep@),
            count + occurrences(d, i as int, pat@) == occurrences(d, 0, pat@),
            count <= i,
        decreases len - i,
    {
        let ghost before = data@;
        proof {
            lemma_window(before, d, i as int, len as int, 8);
        }
        if same8(data.as_slice(), i, pat) {
            write_bytes(data, i, rep);
            proof {
                lemma_tail_after_write(before, d, data@, i as int, len as int, rep@);
            }
            count = count + 1;
            i = i + 8;
        } else {
            proof {
                lemma_window(before, d, i as int, len as int, 1);
                assert(data@[i as int] == d[i as int]) by {
                    assert(data@[i as int] == data@.subrange(i as int, len as int)[0]);
                }
                assert(data@.subrange(0, i + 1) =~= before.subrange(0, i as int).push(d[i as int]));
                assert(data@.subrange(0, i + 1) + replaced_tail(d, i + 1, pat@, rep@) =~= before.subrange(0, i as int) + replaced_tail(d, i as int, pat@, rep@));
            }
            i = i + 1;
        }
    }
    proof {
        assert(replaced_tail(d, i as int, pat@, rep@) == d.subrange(i as int, len as int));
        assert(data@ =~= data@.subrange(0, i as int) + data@.subrange(i as int, len as int));
    }
    count
}

pub(crate) proof fn lemma_replaced_len(d: Seq<u8>, i: int, pat: Seq<u8>, rep: Seq<u8>)
    requires
        0 <= i <= d.len(),
        rep.len() == 8,
    ensures
        replaced_tail(d, i, pat, rep).len() == d.len() - i,
    decreases d.len() - i,
{
    if i + 8 <= d.len() {
        if bytes_at(d, i, pat) {
            lemma_replaced_len(d, i + 8, pat, rep);
        } else {
            lemma_replaced_len(d, i + 1, pat, rep);
        }
    }
}

/// Two buffers that agree from `i` on agree on every window from `i` and on
/// the suffix after it.
proof fn lemma_window(a: Seq<u8>, b: Seq<u8>, i: int, len: int, w: int)
    requires
        a.len() == len,
        b.len() == len,
        0 <= i,
        0 <= w,
        i + w <= len,
        a.subrange(i, len) == b.subrange(i, len),
    ensures
        a.subrange(i, i + w) == b.subrange(i, i + w),
        a.subrange(i + w, len) == b.subrange(i + w, len),
{
    assert(a.subrange(i, i + w) =~= a.subrange(i, len).subrange(0, w));
    assert(b.subrange(i, i + w) =~= b.subrange(i, len).subrange(0, w));
    assert(a.subrange(i + w, len) =~= a.subrange(i, len).subrange(w, len - i));
    assert(b.subrange(i + w, len) =~= b.subrange(i, len).subrange(w, len - i));
}

proof fn lemma_tail_after_write(before: Seq<u8>, d: Seq<u8>, after: Seq<u8>, i: int, len: int, rep: Seq<u8>)
    requires
        before.len() == len,
        d.len() == len,
        rep.len() == 8,
        0 <= i,
        i + 8 <= len,
        before.subrange(i + 8, len) == d.subrange(i + 8, len),
        after == splice(before, i, rep),
    ensures
        after.subrange(i + 8, len) == d.subrange(i + 8, len),
        after.subrange(0, i + 8) == before.subrange(0, i) + rep,
        after.len() == len,
{
    assert(after.subrange(i + 8, len) =~= before.subrange(i + 8, len));
    assert(after.subrange(0, i + 8) =~= before.subrange(0, i) + rep);
}

/// Writes a new entry (handle, quantity, sort id) at the end of the held
/// common-items table at `cd_off`, and advances the table's three counters.
fn append_entry(data: &mut Vec<u8>, cd_off: usize, distinct: u32, base_id: u32, qty: u32)
    requires
        cd_off + 0x9010 <= old(data)@.len(),
        distinct == le32(old(data)@, cd_off as int),
        distinct < 0xA80,
    ensures
        final(data)@ == appended(old(data)@, cd_off as int, base_id, qty),
        final(data)@.len() == old(data)@.len(),
{
    let len = data.len();
    let nei_off = cd_off + 0x9008;  // next_equip_index
    let nas_off = cd_off + 0x900C;  // next_acquisition_sort_id
    let nei = le_u32(data.as_slice(), nei_off);
    let nas = le_u32(data.as_slice(), nas_off);
    let entry = cd_off + 4 + distinct as usize * 12;  // common_items[distinct]
    let handle = 0xB000_0000u32 | base_id;
    write_u32(data, entry, handle);
    write_u32(data, entry + 4, qty);
    write_u32(data, entry + 8, nas);
    write_u32(data, cd_off, distinct + 1);
    write_u32(data, nei_off, nei.wrapping_add(1));
    write_u32(data, nas_off, nas.wrapping_add(1));
}

/// The 8 little-endian bytes of `v`.
fn u64_le_array(v: u64) -> (b: [u8; 8])
    ensures
        b@ == u64_bytes(v),
{
    let lo = (v % 0x1_0000_0000) as u32;
    let hi = (v / 0x1_0000_0000) as u32;
    let b: [u8; 8] = [
        (lo % 0x100) as u8,
        ((lo / 0x100) % 0x100) as u8,
        ((lo / 0x1_0000) % 0x100) as u8,
        (lo / 0x100_0000) as u8,
        (hi % 0x100) as u8,
        ((hi / 0x100) % 0x100) as u8,
        ((hi / 0x1_0000) % 0x100) as u8,
        (hi / 0x100_0000) as u8,
    ];
    assert(b@ =~= u64_bytes(v));
    b
}

/// The 8 bytes of `d` at `i` are `pat`.
fn same8(d: &[u8], i: usize, pat: &[u8; 8]) -> (r: bool)
    requires
        i + 8 <= d@.len(),
    ensures
        r == (d@.subrange(i as int, i + 8) == pat@),
{
    let n = d.len();
    let mut k: usize = 0;
    while k < 8
        invariant
            k <= 8,
            n == d@.len(),
            i + 8 <= d@.len(),
            forall|j: int| 0 <= j < k ==> d@[i + j] == pat@[j],
        decreases 8 - k,
    {
        if d[i + k] != pat[k] {
            assert(d@.subrange(i as int, i + 8)[k as int] != pat@[k as int]);
            return false;
        }
        k = k + 1;
    }
    assert(d@.subrange(i as int, i + 8) =~= pat@);
    true
}

} // verus!
