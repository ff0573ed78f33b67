//! Structural scan of a font's naming table.  The font library decodes the
//! face name through an unchecked UTF-16 reader that walks off the end of a
//! name record whose string has an odd length or ends in an unpaired
//! surrogate.  `font_names_ok` pins down, over the raw bytes, the fonts on
//! which that reader is safe; `font_names_safe` checks it at run time.  The
//! scan mirrors how the name strings are located — offset table, table
//! directory, naming-table header and records — and errs toward rejection:
//! font collections are rejected outright, and whatever fails to resolve
//! exactly as the library would resolve it is treated as never decoded.

use vstd::prelude::*;

verus! {

/// The big-endian 16-bit value at `i`.
pub open spec fn be16(d: Seq<u8>, i: int) -> int {
    256 * d[i] + d[i + 1]
}

/// The big-endian 32-bit value at `i`.
pub open spec fn be32(d: Seq<u8>, i: int) -> int {
    0x1000000 * d[i] + 0x10000 * d[i + 1] + 0x100 * d[i + 2] + d[i + 3]
}

/// Tag of directory entry `t`.
pub open spec fn table_tag(d: Seq<u8>, t: int) -> int {
    be32(d, 12 + 16 * t)
}

/// Byte offset of the table of directory entry `t`.
pub open spec fn table_off(d: Seq<u8>, t: int) -> int {
    be32(d, 20 + 16 * t)
}

/// Byte length of the table of directory entry `t`.
pub open spec fn table_len(d: Seq<u8>, t: int) -> int {
    be32(d, 24 + 16 * t)
}

/// Well-formed UTF-16BE over `d[pos..end)`: an even number of bytes where
/// every surrogate unit is a high surrogate followed by a low one.  This is
/// exactly what the name reader consumes without reading out of bounds,
/// without wrapping, and without building an invalid character.
pub open spec fn utf16_ok(d: Seq<u8>, pos: int, end: int) -> bool
    decreases end - pos,
{
    if pos >= end {
        true
    } else if pos + 2 > end {
        false
    } else {
        let a = be16(d, pos);
        if a < 0xD800 || a > 0xDFFF {
            utf16_ok(d, pos + 2, end)
        } else if a > 0xDBFF {
            false
        } else if pos + 4 > end {
            false
        } else {
            let b = be16(d, pos + 2);
            if b < 0xDC00 || b > 0xDFFF {
                false
            } else {
                utf16_ok(d, pos + 4, end)
            }
        }
    }
}

/// Name record `i` of a naming table at `toff` is harmless: it is not a
/// Unicode full-name record, its string leaves the storage area and is
/// never handed out, or its string is well-formed UTF-16BE.
pub open spec fn name_record_ok(
    d: Seq<u8>,
    toff: int,
    tlen: int,
    rec_start: int,
    storage_start: int,
    i: int,
) -> bool {
    let r = toff + rec_start + 12 * i;
    let plat = be16(d, r);
    let enc = be16(d, r + 2);
    let nid = be16(d, r + 6);
    let slen = be16(d, r + 8);
    let soff = be16(d, r + 10);
    if !(plat == 0 || (plat == 3 && (enc == 0 || enc == 1))) {
        true
    } else if nid != 4 {
        true
    } else if soff + slen > tlen - storage_start {
        true
    } else {
        utf16_ok(d, toff + storage_start + soff, toff + storage_start + soff + slen)
    }
}

/// All records of a naming table whose header declared `count` records
/// starting `rec_start` bytes in, with the string storage at
/// `storage_off`, are harmless.
/// Where a naming table's string storage starts: right after the records,
/// or at the declared storage offset when that lies further in.
pub open spec fn storage_start_of(rec_start: int, count: int, storage_off: int) -> int {
    if rec_start + 12 * count < storage_off {
        storage_off
    } else {
        rec_start + 12 * count
    }
}

pub open spec fn name_records_ok(
    d: Seq<u8>,
    toff: int,
    tlen: int,
    rec_start: int,
    count: int,
    storage_off: int,
) -> bool {
    if rec_start + 12 * count > tlen {
        true
    } else if storage_start_of(rec_start, count, storage_off) > tlen {
        true
    } else {
        forall|i: int|
            0 <= i < count ==> #[trigger] name_record_ok(
                d,
                toff,
                tlen,
                rec_start,
                storage_start_of(rec_start, count, storage_off),
                i,
            )
    }
}

/// A naming table at `[toff, toff + tlen)` is harmless: out of bounds,
/// unparseable — in either case its names are never read — or all its
/// records are harmless.
pub open spec fn name_table_ok(d: Seq<u8>, toff: int, tlen: int) -> bool {
    if toff + tlen > d.len() {
        true
    } else if tlen < 6 {
        true
    } else {
        let version = be16(d, toff);
        let count = be16(d, toff + 2);
        let storage_off = be16(d, toff + 4);
        if version == 0 {
            name_records_ok(d, toff, tlen, 6, count, storage_off)
        } else if version == 1 {
            if tlen < 8 {
                true
            } else {
                let ltc = be16(d, toff + 6);
                if 4 * ltc > 0xFFFF {
                    true
                } else {
                    name_records_ok(d, toff, tlen, 8 + 4 * ltc, count, storage_off)
                }
            }
        } else {
            true
        }
    }
}

/// The name reader is safe on these font bytes: bytes that are no font at
/// all never reach it, font collections are rejected conservatively, and
/// in a single font every naming table the directory declares is harmless.
pub open spec fn font_names_ok(d: Seq<u8>) -> bool {
    if d.len() < 4 {
        true
    } else {
        let magic = be32(d, 0);
        if magic == 0x74746366 {
            false
        } else if magic != 0x00010000 && magic != 0x74727565 && magic != 0x4F54544F {
            true
        } else if d.len() < 6 {
            true
        } else {
            let nt = be16(d, 4);
            if 12 + 16 * nt > d.len() {
                true
            } else {
                forall|t: int|
                    0 <= t < nt && #[trigger] table_tag(d, t) == 0x6E616D65 ==> name_table_ok(
                        d,
                        table_off(d, t),
                        table_len(d, t),
                    )
            }
        }
    }
}

/// The big-endian 16-bit value at `pos`.
fn rd16(d: &[u8], pos: u64) -> (r: u64)
    requires
        pos + 2 <= d@.len(),
    ensures
        r as int == be16(d@, pos as int),
        r <= 0xFFFF,
{
    // the length call bounds the slice by the machine word, so the cast
    // below cannot truncate
    let dl: usize = d.len();
    let i: usize = pos as usize;
    256u64 * (d[i] as u64) + (d[i + 1] as u64)
}

/// The big-endian 32-bit value at `pos`.
fn rd32(d: &[u8], pos: u64) -> (r: u64)
    requires
        pos + 4 <= d@.len(),
    ensures
        r as int == be32(d@, pos as int),
        r <= 0xFFFF_FFFF,
{
    // the length call bounds the slice by the machine word, so the cast
    // below cannot truncate
    let dl: usize = d.len();
    let i: usize = pos as usize;
    0x1000000u64 * (d[i] as u64) + 0x10000u64 * (d[i + 1] as u64) + 0x100u64 * (d[i + 2] as u64) + (
    d[i + 3] as u64)
}

/// Check `utf16_ok` over `d[pos..end)`.
fn check_utf16(d: &[u8], start: u64, end: u64) -> (r: bool)
    requires
        start <= end <= d@.len(),
        end <= 0xF_FFFF_FFFF,
    ensures
        r == utf16_ok(d@, start as int, end as int),
{
    let mut pos: u64 = start;
    while pos < end
        invariant
            start <= pos <= end <= d@.len(),
            end <= 0xF_FFFF_FFFF,
            utf16_ok(d@, start as int, end as int) == utf16_ok(d@, pos as int, end as int),
        decreases end - pos,
    {
        if pos + 2 > end {
            return false;
        }
        let a = rd16(d, pos);
        if a < 0xD800 || a > 0xDFFF {
            pos = pos + 2;
        } else if a > 0xDBFF {
            return false;
        } else if pos + 4 > end {
            return false;
        } else {
            let b = rd16(d, pos + 2);
            if b < 0xDC00 || b > 0xDFFF {
                return false;
            }
            pos = pos + 4;
        }
    }
    true
}

/// Check `name_table_ok` for the naming table at `[toff, toff + tlen)`.
fn check_name_table(d: &[u8], toff: u64, tlen: u64) -> (r: bool)
    requires
        toff <= 0xFFFF_FFFF,
        tlen <= 0xFFFF_FFFF,
    ensures
        r == name_table_ok(d@, toff as int, tlen as int),
{
    let dl: usize = d.len();
    if toff + tlen > dl as u64 {
        return true;
    }
    if tlen < 6 {
        return true;
    }
    let version = rd16(d, toff);
    let count = rd16(d, toff + 2);
    let storage_off = rd16(d, toff + 4);
    let rec_start: u64 = if version == 0 {
        6
    } else if version == 1 {
        if tlen < 8 {
            return true;
        }
        let ltc = rd16(d, toff + 6);
        if 4 * ltc > 0xFFFF {
            return true;
        }
        8 + 4 * ltc
    } else {
        return true;
    };
    let rec_end: u64 = rec_start + 12 * count;
    if rec_end > tlen {
        return true;
    }
    let storage_start: u64 = if rec_end < storage_off {
        storage_off
    } else {
        rec_end
    };
    if storage_start > tlen {
        return true;
    }
    let ghost toffi = toff as int;
    let ghost tleni = tlen as int;
    let ghost rsi = rec_start as int;
    let ghost ssi = storage_start as int;
    let mut i: u64 = 0;
    while i < count
        invariant
            toff + tlen <= d@.len(),
            toff <= 0xFFFF_FFFF && tlen <= 0xFFFF_FFFF,
            6 <= tlen,
            toffi == toff as int && tleni == tlen as int,
            rsi == rec_start as int && ssi == storage_start as int,
            count <= 0xFFFF && storage_off <= 0xFFFF && rec_start <= 0xFFFF_FFFF,
            rec_start + 12 * count <= tlen,
            storage_start <= tlen,
            version as int == be16(d@, toffi),
            count as int == be16(d@, toffi + 2),
            storage_off as int == be16(d@, toffi + 4),
            (version == 0 && rsi == 6) || (version == 1 && tlen >= 8 && 4 * be16(d@, toffi + 6)
                <= 0xFFFF && rsi == 8 + 4 * be16(d@, toffi + 6)),
            ssi == storage_start_of(rsi, count as int, storage_off as int),
            0 <= i <= count,
            forall|i2: int|
                0 <= i2 < i ==> #[trigger] name_record_ok(d@, toffi, tleni, rsi, ssi, i2),
        decreases count - i,
    {
        let r: u64 = toff + rec_start + 12 * i;
        let plat = rd16(d, r);
        let enc = rd16(d, r + 2);
        let nid = rd16(d, r + 6);
        let slen = rd16(d, r + 8);
        let soff = rd16(d, r + 10);
        let unicode = plat == 0 || (plat == 3 && (enc == 0 || enc == 1));
        if unicode && nid == 4 && soff + slen <= tlen - storage_start {
            let s0: u64 = toff + storage_start + soff;
            if !check_utf16(d, s0, s0 + slen) {
                proof {
                    assert(!name_record_ok(d@, toffi, tleni, rsi, ssi, i as int));
                    assert(!name_record_ok(
                        d@,
                        toffi,
                        tleni,
                        rsi,
                        storage_start_of(rsi, count as int, storage_off as int),
                        i as int,
                    ));
                    assert(!name_records_ok(
                        d@,
                        toffi,
                        tleni,
                        rsi,
                        count as int,
                        storage_off as int,
                    ));
                    assert(!name_table_ok(d@, toffi, tleni));
                }
                return false;
            }
        }
        proof {
            assert(name_record_ok(d@, toffi, tleni, rsi, ssi, i as int));
        }
        i = i + 1;
    }
    proof {
        assert(name_records_ok(d@, toffi, tleni, rsi, count as int, storage_off as int));
        assert(name_table_ok(d@, toffi, tleni));
    }
    true
}

/// Check `font_names_ok` over raw font bytes, so a caller can establish at
/// run time that font parsing is safe rather than assume it.
pub fn font_names_safe(d: &[u8]) -> (r: bool)
    ensures
        r == font_names_ok(d@),
{
    let dl: usize = d.len();
    if dl < 4 {
        return true;
    }
    let magic = rd32(d, 0);
    if magic == 0x74746366 {
        return false;
    }
    if magic != 0x00010000 && magic != 0x74727565 && magic != 0x4F54544F {
        return true;
    }
    if dl < 6 {
        return true;
    }
    let nt = rd16(d, 4);
    if 12 + 16 * nt > dl as u64 {
        return true;
    }
    let mut t: u64 = 0;
    while t < nt
        invariant
            d@.len() == dl,
            6 <= dl,
            nt <= 0xFFFF,
            12 + 16 * nt <= dl,
            be32(d@, 0) != 0x74746366,
            be32(d@, 0) == 0x00010000 || be32(d@, 0) == 0x74727565 || be32(d@, 0) == 0x4F54544F,
            nt as int == be16(d@, 4),
            0 <= t <= nt,
            forall|t2: int|
                0 <= t2 < t && #[trigger] table_tag(d@, t2) == 0x6E616D65 ==> name_table_ok(
                    d@,
                    table_off(d@, t2),
                    table_len(d@, t2),
                ),
        decreases nt - t,
    {
        let tag = rd32(d, 12 + 16 * t);
        if tag == 0x6E616D65 {
            let toff = rd32(d, 20 + 16 * t);
            let tlen = rd32(d, 24 + 16 * t);
            if !check_name_table(d, toff, tlen) {
                proof {
                    assert(table_tag(d@, t as int) == 0x6E616D65);
                    assert(!name_table_ok(d@, table_off(d@, t as int), table_len(d@, t as int)));
                    assert(!font_names_ok(d@));
                }
                return false;
            }
        }
        t = t + 1;
    }
    true
}

} // verus!
