//! What replacing the SteamID promises when read back.
use crate::bnd4::{sec_off, sec_size, section_count, steam_id_of, STEAM64_HIGH};
use crate::bytes::{le32, le64, u32_bytes, u64_bytes};
use crate::bnd4::body_end;
use crate::laws::{
    apart, checksum_ok, lemma_checksum_frame, lemma_checksum_kept, lemma_checksum_written,
    lemma_same_table, lemma_table_end, table_end,
};
use crate::save::{
    bytes_at, checksums_upto, occurrences, replaced_tail, set_steam_id_outcome, with_checksum,
};
use vstd::prelude::*;

verus! {

/// The 4 bytes at `o` are the little-endian bytes of the value they encode.
proof fn lemma_bytes_of_le32(d: Seq<u8>, o: int)
    requires
        0 <= o,
        o + 4 <= d.len(),
    ensures
        u32_bytes(le32(d, o) as u32) == d.subrange(o, o + 4),
{
    let b0 = d[o];
    let b1 = d[o + 1];
    let b2 = d[o + 2];
    let b3 = d[o + 3];
    let v: u32 = le32(d, o) as u32;
    assert(v == b0 as u32 + b1 as u32 * 0x100 + b2 as u32 * 0x1_0000 + b3 as u32 * 0x100_0000);
    assert(v % 0x100 == b0 && (v / 0x100) % 0x100 == b1 && (v / 0x1_0000) % 0x100 == b2 && v
        / 0x100_0000 == b3) by (bit_vector)
        requires
            v == b0 as u32 + b1 as u32 * 0x100 + b2 as u32 * 0x1_0000 + b3 as u32 * 0x100_0000,
    ;
    assert(u32_bytes(v) =~= d.subrange(o, o + 4));
}

/// The 8 bytes at `o` are the little-endian bytes of the value they encode.
proof fn lemma_bytes_of_le64(d: Seq<u8>, o: int)
    requires
        0 <= o,
        o + 8 <= d.len(),
    ensures
        u64_bytes(le64(d, o) as u64) == d.subrange(o, o + 8),
{
    let lo = le32(d, o);
    let hi = le32(d, o + 4);
    let v = le64(d, o) as u64;
    assert(v % 0x1_0000_0000 == lo && v / 0x1_0000_0000 == hi) by (nonlinear_arith)
        requires
            v == lo + hi * 0x1_0000_0000,
            0 <= lo < 0x1_0000_0000,
            0 <= hi < 0x1_0000_0000,
    ;
    lemma_bytes_of_le32(d, o);
    lemma_bytes_of_le32(d, o + 4);
    assert(u64_bytes(v) =~= d.subrange(o, o + 4) + d.subrange(o + 4, o + 8));
    assert(d.subrange(o, o + 8) =~= d.subrange(o, o + 4) + d.subrange(o + 4, o + 8));
}

/// The scan finds an occurrence when the pattern occurs at or after where it
/// starts.
proof fn lemma_occurrence_found(d: Seq<u8>, i: int, pat: Seq<u8>, k: int)
    requires
        0 <= i <= k,
        k + 8 <= d.len(),
        bytes_at(d, k, pat),
    ensures
        occurrences(d, i, pat) >= 1,
    decreases k - i,
{
    if !bytes_at(d, i, pat) {
        lemma_occurrence_found(d, i + 1, pat, k);
    } else {
        lemma_occurrences_nonneg(d, i + 8, pat);
    }
}

proof fn lemma_occurrences_nonneg(d: Seq<u8>, i: int, pat: Seq<u8>)
    ensures
        occurrences(d, i, pat) >= 0,
    decreases d.len() - i,
{
    if !(i < 0 || i + 8 > d.len()) {
        if bytes_at(d, i, pat) {
            lemma_occurrences_nonneg(d, i + 8, pat);
        } else {
            lemma_occurrences_nonneg(d, i + 1, pat);
        }
    }
}

/// Changing the SteamID replaces at least one occurrence of the old one: the
/// one in the header.
pub proof fn lemma_set_steam_id_count(d: Seq<u8>, new_id: u64)
    requires
        d.len() >= 0x40,
        set_steam_id_outcome(d, new_id) is Ok,
        steam_id_of(d) != Some(new_id),
    ensures
        set_steam_id_outcome(d, new_id)->Ok_0.1 >= 1,
{
    let old_id = steam_id_of(d)->0;
    let base = sec_off(d, 10) + 20;
    lemma_bytes_of_le64(d, base);
    assert(le64(d, base) as u64 == old_id);
    assert(bytes_at(d, base, u64_bytes(old_id)));
    lemma_occurrence_found(d, 0, u64_bytes(old_id), base);
}

/// Before the first occurrence at or after `i` that lies below `t`, the
/// replacement keeps the bytes.
proof fn lemma_replaced_keeps(d: Seq<u8>, i: int, pat: Seq<u8>, rep: Seq<u8>, t: int, k: int)
    requires
        0 <= i <= k < t,
        t <= d.len(),
        rep.len() == 8,
        forall|j: int| i <= j < t ==> !bytes_at(d, j, pat),
    ensures
        replaced_tail(d, i, pat, rep)[k - i] == d[k],
    decreases k - i,
{
    crate::save::lemma_replaced_len(d, i, pat, rep);
    if i + 8 > d.len() {
        assert(replaced_tail(d, i, pat, rep) == d.subrange(i, d.len() as int));
    } else {
        assert(!bytes_at(d, i, pat));
        crate::save::lemma_replaced_len(d, i + 1, pat, rep);
        if i < k {
            lemma_replaced_keeps(d, i + 1, pat, rep, t, k);
        }
    }
}

/// The replacement reaches `base` and replaces the occurrence there, when no
/// occurrence starts in the 7 bytes before it.
proof fn lemma_replaced_at(d: Seq<u8>, i: int, pat: Seq<u8>, rep: Seq<u8>, base: int, k: int)
    requires
        0 <= i <= base,
        base + 8 <= d.len(),
        rep.len() == 8,
        0 <= k < 8,
        bytes_at(d, base, pat),
        forall|j: int| base - 7 <= j < base ==> !bytes_at(d, j, pat),
    ensures
        replaced_tail(d, i, pat, rep)[base - i + k] == rep[k],
    decreases base - i,
{
    if i < base {
        if bytes_at(d, i, pat) {
            lemma_replaced_at(d, i + 8, pat, rep, base, k);
            crate::save::lemma_replaced_len(d, i + 8, pat, rep);
        } else {
            lemma_replaced_at(d, i + 1, pat, rep, base, k);
            crate::save::lemma_replaced_len(d, i + 1, pat, rep);
        }
    } else {
        crate::save::lemma_replaced_len(d, base + 8, pat, rep);
    }
}

/// Recomputing the checksums of sections `0..k` changes only their first 16
/// bytes.
proof fn lemma_checksums_frame(x: Seq<u8>, orig: Seq<u8>, k: int, i: int)
    requires
        0 <= k <= section_count(orig),
        0 <= i < x.len(),
        forall|j: int|
            0 <= j < k ==> !(sec_off(orig, j) <= i < sec_off(orig, j) + 16) && sec_off(orig, j)
                >= 0,
    ensures
        checksums_upto(x, orig, k).len() == x.len(),
        checksums_upto(x, orig, k)[i] == x[i],
    decreases k,
{
    if k > 0 {
        lemma_checksums_frame(x, orig, k - 1, i);
        lemma_checksum_frame(
            checksums_upto(x, orig, k - 1),
            sec_off(orig, k - 1),
            sec_size(orig, k - 1),
        );
    }
}

proof fn lemma_checksums_len(x: Seq<u8>, orig: Seq<u8>, k: int)
    requires
        0 <= k,
        forall|j: int| 0 <= j < k ==> sec_off(orig, j) >= 0,
    ensures
        checksums_upto(x, orig, k).len() == x.len(),
    decreases k,
{
    if k > 0 {
        lemma_checksums_len(x, orig, k - 1);
        lemma_checksum_frame(
            checksums_upto(x, orig, k - 1),
            sec_off(orig, k - 1),
            sec_size(orig, k - 1),
        );
    }
}

/// The pieces of the replacement that the read-back law needs: the table is
/// kept and the header's copy holds the new id.
proof fn lemma_steam_pieces(d: Seq<u8>, pat: Seq<u8>, rep: Seq<u8>, base: int)
    requires
        d.len() >= 0x40,
        rep.len() == 8,
        0 <= base,
        base + 8 <= d.len(),
        bytes_at(d, base, pat),
        forall|j: int| 0 <= j < table_end(d) ==> !bytes_at(d, j, pat),
        forall|j: int| base - 7 <= j < base ==> !bytes_at(d, j, pat),
        forall|j: int|
            0 <= j < section_count(d) ==> #[trigger] sec_off(d, j) >= table_end(d) && (sec_off(
                d,
                j,
            ) + 16 <= base || sec_off(d, j) >= base + 8),
    ensures
        ({
            let e = checksums_upto(replaced_tail(d, 0, pat, rep), d, section_count(d));
            &&& e.len() == d.len()
            &&& forall|i: int| 0 <= i < table_end(d) ==> #[trigger] e[i] == d[i]
            &&& e.subrange(base, base + 8) == rep
        }),
{
    lemma_table_end(d);
    let r = replaced_tail(d, 0, pat, rep);
    crate::save::lemma_replaced_len(d, 0, pat, rep);
    let n = section_count(d);
    let e = checksums_upto(r, d, n);
    lemma_checksums_len(r, d, n);
    assert forall|i: int| 0 <= i < table_end(d) implies #[trigger] e[i] == d[i] by {
        lemma_replaced_keeps(d, 0, pat, rep, table_end(d), i);
        lemma_checksums_frame(r, d, n, i);
    }
    assert forall|k: int| 0 <= k < 8 implies #[trigger] e[base + k] == rep[k] by {
        lemma_replaced_at(d, 0, pat, rep, base, k);
        lemma_checksums_frame(r, d, n, base + k);
    }
    assert forall|k: int| 0 <= k < 8 implies #[trigger] e.subrange(base, base + 8)[k] == rep[k] by {
        assert(e[base + k] == rep[k]);
    }
    assert(e.subrange(base, base + 8) =~= rep);
}

/// A file that keeps `d`'s table and holds `new_id` at the header's copy
/// reads `new_id` as its SteamID.
proof fn lemma_reads_id(d: Seq<u8>, e: Seq<u8>, new_id: u64)
    requires
        d.len() >= 0x40,
        e.len() == d.len(),
        section_count(d) > 10,
        sec_off(d, 10) + 28 <= d.len(),
        forall|i: int| 0 <= i < table_end(d) ==> #[trigger] e[i] == d[i],
        e.subrange(sec_off(d, 10) + 20, sec_off(d, 10) + 28) == u64_bytes(new_id),
        new_id / 0x1_0000_0000 == STEAM64_HIGH,
    ensures
        steam_id_of(e) == Some(new_id),
{
    let base = sec_off(d, 10) + 20;
    let rep = u64_bytes(new_id);
    lemma_same_table(d, e);
    crate::bytes::lemma_u64_roundtrip(new_id);
    let w = e.subrange(base, base + 8);
    assert(e[base] == w[0] && e[base + 1] == w[1] && e[base + 2] == w[2] && e[base + 3] == w[3]
        && e[base + 4] == w[4] && e[base + 5] == w[5] && e[base + 6] == w[6] && e[base + 7]
        == w[7]);
    assert(le64(e, base) == le64(rep, 0));
}

/// A SteamID set by `set_steam_id` is read back, when it is a steam64 id,
/// when no occurrence of the old id starts inside the section table or in
/// the 7 bytes before the header's copy, and when no section's checksum
/// overlaps the table or that copy.
pub proof fn lemma_set_steam_id_read_back(d: Seq<u8>, new_id: u64)
    requires
        d.len() >= 0x40,
        set_steam_id_outcome(d, new_id) is Ok,
        new_id / 0x1_0000_0000 == STEAM64_HIGH,
        forall|j: int|
            0 <= j < table_end(d) ==> !bytes_at(d, j, u64_bytes(steam_id_of(d)->0)),
        forall|j: int|
            sec_off(d, 10) + 13 <= j < sec_off(d, 10) + 20 ==> !bytes_at(
                d,
                j,
                u64_bytes(steam_id_of(d)->0),
            ),
        forall|j: int|
            0 <= j < section_count(d) ==> #[trigger] sec_off(d, j) >= table_end(d) && (sec_off(
                d,
                j,
            ) + 16 <= sec_off(d, 10) + 20 || sec_off(d, j) >= sec_off(d, 10) + 28),
    ensures
        steam_id_of(set_steam_id_outcome(d, new_id)->Ok_0.0) == Some(new_id),
{
    lemma_table_end(d);
    let old_id = steam_id_of(d)->0;
    let base = sec_off(d, 10) + 20;
    let e = set_steam_id_outcome(d, new_id)->Ok_0.0;
    if old_id != new_id {
        let pat = u64_bytes(old_id);
        let rep = u64_bytes(new_id);
        lemma_bytes_of_le64(d, base);
        assert(bytes_at(d, base, pat));
        assert(e == checksums_upto(replaced_tail(d, 0, pat, rep), d, section_count(d)));
        lemma_steam_pieces(d, pat, rep, base);
        lemma_reads_id(d, e, new_id);
    }
}

/// Recomputing the checksums of sections `0..k` in order leaves each of them
/// consistent, when the sections lie after the table and apart from each
/// other.
proof fn lemma_checksums_upto_ok(x: Seq<u8>, d: Seq<u8>, k: int)
    requires
        d.len() >= 0x40,
        x.len() == d.len(),
        0 <= k <= section_count(d),
        forall|i: int| 0 <= i < table_end(d) ==> #[trigger] x[i] == d[i],
        forall|j: int| 0 <= j < section_count(d) ==> #[trigger] sec_off(d, j) >= table_end(d),
        forall|j: int, l: int|
            0 <= j < l < section_count(d) ==> apart(
                sec_off(d, j),
                #[trigger] body_end(d, j),
                sec_off(d, l),
                #[trigger] body_end(d, l),
            ),
    ensures
        checksums_upto(x, d, k).len() == d.len(),
        forall|i: int| 0 <= i < table_end(d) ==> #[trigger] checksums_upto(x, d, k)[i] == d[i],
        forall|j: int| 0 <= j < k ==> #[trigger] checksum_ok(checksums_upto(x, d, k), j),
    decreases k,
{
    if k > 0 {
        lemma_checksums_upto_ok(x, d, k - 1);
        let c = checksums_upto(x, d, k - 1);
        let e = checksums_upto(x, d, k);
        let off = sec_off(d, k - 1);
        assert(e == with_checksum(c, off, sec_size(d, k - 1)));
        lemma_table_end(d);
        lemma_checksum_frame(c, off, sec_size(d, k - 1));
        lemma_checksum_written(c, d, k - 1);
        assert forall|j: int| 0 <= j < k implies #[trigger] checksum_ok(e, j) by {
            if j < k - 1 {
                assert(checksum_ok(c, j));
                assert(apart(sec_off(d, j), body_end(d, j), off, body_end(d, k - 1)));
                if off + 16 >= body_end(d, k - 1) {
                    assert(e == c);
                } else {
                    lemma_checksum_kept(c, e, d, j, off, off + 16);
                }
            }
        }
        assert forall|i: int| 0 <= i < table_end(d) implies #[trigger] e[i] == d[i] by {
            assert(e[i] == c[i]);
        }
    }
}

/// After `set_steam_id`, every section's stored checksum is the MD5 of its
/// body, when no occurrence of the old id starts inside the section table
/// and the sections lie after the table and apart from each other.
pub proof fn lemma_set_steam_id_checksums(d: Seq<u8>, new_id: u64)
    requires
        d.len() >= 0x40,
        set_steam_id_outcome(d, new_id) is Ok,
        steam_id_of(d) != Some(new_id),
        forall|j: int|
            0 <= j < table_end(d) ==> !bytes_at(d, j, u64_bytes(steam_id_of(d)->0)),
        forall|j: int| 0 <= j < section_count(d) ==> #[trigger] sec_off(d, j) >= table_end(d),
        forall|j: int, l: int|
            0 <= j < l < section_count(d) ==> apart(
                sec_off(d, j),
                #[trigger] body_end(d, j),
                sec_off(d, l),
                #[trigger] body_end(d, l),
            ),
    ensures
        forall|j: int|
            0 <= j < section_count(d) ==> #[trigger] checksum_ok(
                set_steam_id_outcome(d, new_id)->Ok_0.0,
                j,
            ),
{
    lemma_table_end(d);
    let old_id = steam_id_of(d)->0;
    let pat = u64_bytes(old_id);
    let rep = u64_bytes(new_id);
    let r = replaced_tail(d, 0, pat, rep);
    crate::save::lemma_replaced_len(d, 0, pat, rep);
    assert(r.subrange(0, d.len() as int) == r);
    assert forall|i: int| 0 <= i < table_end(d) implies #[trigger] r[i] == d[i] by {
        lemma_replaced_keeps(d, 0, pat, rep, table_end(d), i);
    }
    lemma_checksums_upto_ok(r, d, section_count(d));
}

} // verus!
