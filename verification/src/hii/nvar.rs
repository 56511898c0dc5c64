//! AMI NVAR variable-store records: `NVAR` signature, u16 size, 3-byte next
//! link, attribute byte, then an optional GUID reference, an optional name
//! (ASCII or UCS-2, NUL-terminated) and the variable data.

use vstd::prelude::*;
use crate::bytes::{le16, read_u16};
use crate::text::{utf8_text, utf16_text, utf8_lossy, utf16_lossy, string_eq_str};

verus! {

pub const ATTR_VALID: u8 = 0x80;
pub const ATTR_DATA_ONLY: u8 = 0x08;
pub const ATTR_LOCAL_GUID: u8 = 0x04;
pub const ATTR_ASCII_NAME: u8 = 0x02;

/// One parsed NVAR entry; offsets are relative to the buffer it was read from.
#[derive(Debug, Clone, PartialEq, Eq)]
pub struct NvarRecord {
    pub offset: usize,
    pub size: usize,
    pub attributes: u8,
    pub guid_index: Option<u8>,
    pub name: Option<String>,
    pub data_offset: usize,
    pub data_len: usize,
}

/// The mathematical content of a record.
pub struct SpecNvar {
    pub offset: int,
    pub size: int,
    pub attributes: u8,
    pub guid_index: Option<u8>,
    pub name: Option<Seq<char>>,
    pub data_offset: int,
    pub data_len: int,
}

impl NvarRecord {
    pub open spec fn spec(&self) -> SpecNvar {
        SpecNvar {
            offset: self.offset as int,
            size: self.size as int,
            attributes: self.attributes,
            guid_index: self.guid_index,
            name: match self.name {
                Some(n) => Some(n@),
                None => None,
            },
            data_offset: self.data_offset as int,
            data_len: self.data_len as int,
        }
    }
}

pub open spec fn has_signature(buf: Seq<u8>, off: int) -> bool {
    off + 4 <= buf.len() && buf[off] == 0x4E && buf[off + 1] == 0x56 && buf[off + 2] == 0x41
        && buf[off + 3] == 0x52
}

/// An entry that is valid and not data-only carries a GUID reference and a name.
pub open spec fn carries_name(attributes: u8) -> bool {
    attributes & ATTR_VALID != 0 && attributes & ATTR_DATA_ONLY == 0
}

/// First position `q >= p` (below `e`) holding a zero byte.
pub open spec fn first_zero(buf: Seq<u8>, p: int, e: int) -> Option<int>
    decreases e - p,
{
    if p >= e {
        None
    } else if buf[p] == 0 {
        Some(p)
    } else {
        first_zero(buf, p + 1, e)
    }
}

/// Position of the UCS-2 NUL that ends a name starting at `p`, stepping two
/// bytes at a time; a position `q` with `q + 1 >= e` means none was found.
pub open spec fn ucs2_end(buf: Seq<u8>, p: int, e: int) -> int
    decreases e - p,
{
    if p + 1 >= e || (buf[p] == 0 && buf[p + 1] == 0) {
        p
    } else {
        ucs2_end(buf, p + 2, e)
    }
}

/// The little-endian 16-bit units of `buf[p..q]` (`q - p` even).
pub open spec fn ucs2_units(buf: Seq<u8>, p: int, q: int) -> Seq<u16> {
    Seq::new(((q - p) / 2) as nat, |k: int| le16(buf, p + 2 * k) as u16)
}

/// Where the name starts and the GUID index, once the header is accepted.
pub open spec fn name_start(buf: Seq<u8>, off: int, attributes: u8) -> (int, Option<u8>) {
    if carries_name(attributes) {
        if attributes & ATTR_LOCAL_GUID != 0 {
            (off + 26, None)
        } else {
            (off + 11, Some(buf[off + 10]))
        }
    } else {
        (off + 10, None)
    }
}

/// The record that starts at `off`, if one does.
pub open spec fn spec_parse_entry(buf: Seq<u8>, off: int) -> Option<SpecNvar> {
    if !(0 <= off && has_signature(buf, off) && off + 6 <= buf.len()) {
        None
    } else {
        let size = le16(buf, off + 4);
        let e = off + size;
        if size < 10 || e > buf.len() {
            None
        } else {
            let attributes = buf[off + 9];
            let (p, guid_index) = name_start(buf, off, attributes);
            if carries_name(attributes) && attributes & ATTR_LOCAL_GUID == 0 && off + 10 >= buf.len() {
                None
            } else if carries_name(attributes) && p > e {
                None
            } else if !carries_name(attributes) {
                Some(
                    SpecNvar {
                        offset: off,
                        size,
                        attributes,
                        guid_index,
                        name: None,
                        data_offset: p,
                        data_len: e - p,
                    },
                )
            } else if attributes & ATTR_ASCII_NAME != 0 {
                match first_zero(buf, p, e) {
                    None => None,
                    Some(z) => Some(
                        SpecNvar {
                            offset: off,
                            size,
                            attributes,
                            guid_index,
                            name: Some(utf8_text(buf.subrange(p, z))),
                            data_offset: z + 1,
                            data_len: e - (z + 1),
                        },
                    ),
                }
            } else {
                let q = ucs2_end(buf, p, e);
                if q + 1 >= e || q + 2 > e {
                    None
                } else {
                    Some(
                        SpecNvar {
                            offset: off,
                            size,
                            attributes,
                            guid_index,
                            name: Some(utf16_text(ucs2_units(buf, p, q))),
                            data_offset: q + 2,
                            data_len: e - (q + 2),
                        },
                    )
                }
            }
        }
    }
}

proof fn lemma_first_zero(buf: Seq<u8>, p: int, e: int)
    requires
        0 <= p,
        e <= buf.len(),
    ensures
        match first_zero(buf, p, e) {
            Some(z) => p <= z < e && buf[z] == 0 && forall|j: int| p <= j < z ==> buf[j] != 0,
            None => forall|j: int| p <= j < e ==> buf[j] != 0,
        },
    decreases e - p,
{
    if p < e && buf[p] != 0 {
        lemma_first_zero(buf, p + 1, e);
    }
}

proof fn lemma_ucs2_end(buf: Seq<u8>, p: int, e: int)
    ensures
        ucs2_end(buf, p, e) >= p,
        (ucs2_end(buf, p, e) - p) % 2 == 0,
    decreases e - p,
{
    if !(p + 1 >= e || (buf[p] == 0 && buf[p + 1] == 0)) {
        lemma_ucs2_end(buf, p + 2, e);
    }
}

fn read_units(buf: &[u8], p: usize, q: usize) -> (r: Vec<u16>)
    requires
        p <= q <= buf@.len(),
        (q - p) % 2 == 0,
    ensures
        r@ == ucs2_units(buf@, p as int, q as int),
{
    let mut r: Vec<u16> = Vec::new();
    let mut k = p;
    while k < q
        invariant
            p <= k <= q <= buf@.len(),
            (k - p) % 2 == 0,
            (q - p) % 2 == 0,
            r@ == ucs2_units(buf@, p as int, k as int),
        decreases q - k,
    {
        r.push(read_u16(buf, k));
        k = k + 2;
        assert(r@ =~= ucs2_units(buf@, p as int, k as int));
    }
    r
}

/// Parses the entry that starts at `off`; `None` when the signature, the
/// declared size or the name does not fit the buffer.
pub fn parse_entry(buf: &[u8], off: usize) -> (r: Option<NvarRecord>)
    ensures
        match r {
            Some(rec) => spec_parse_entry(buf@, off as int) == Some(rec.spec()),
            None => spec_parse_entry(buf@, off as int).is_none(),
        },
        r matches Some(rec) ==> {
            &&& rec.attributes == buf@[off + 9]
            &&& (rec.attributes & 0x80 != 0 && rec.attributes & 0x08 == 0 && rec.attributes & 0x04 == 0)
                ==> rec.guid_index == Some(buf@[off + 10])
        },
{
    proof {
        law_entry_header_fields(buf@, off as int);
    }
    let n = buf.len();
    if off > n || n - off < 6 {
        return None;
    }
    if !(buf[off] == 0x4E && buf[off + 1] == 0x56 && buf[off + 2] == 0x41 && buf[off + 3] == 0x52) {
        return None;
    }
    let size = read_u16(buf, off + 4) as usize;
    if size < 10 || size > n - off {
        return None;
    }
    let attributes = buf[off + 9];
    let entry_end = off + size;
    let named = attributes & ATTR_VALID != 0 && attributes & ATTR_DATA_ONLY == 0;
    let mut p = off + 10;
    let mut guid_index: Option<u8> = None;
    if named {
        if attributes & ATTR_LOCAL_GUID != 0 {
            if entry_end - p < 16 {
                return None;
            }
            p = p + 16;
        } else {
            if p >= n {
                return None;
            }
            guid_index = Some(buf[p]);
            p = p + 1;
            if p > entry_end {
                return None;
            }
        }
    }
    assert((p as int, guid_index) == name_start(buf@, off as int, attributes));
    if !named {
        let rec = NvarRecord {
            offset: off,
            size,
            attributes,
            guid_index,
            name: None,
            data_offset: p,
            data_len: entry_end - p,
        };
        return Some(rec);
    }
    if attributes & ATTR_ASCII_NAME != 0 {
        let mut z = p;
        while z < entry_end && buf[z] != 0
            invariant
                p <= z <= entry_end <= buf@.len(),
                forall|j: int| p <= j < z ==> buf@[j] != 0,
            decreases entry_end - z,
        {
            z = z + 1;
        }
        proof {
            lemma_first_zero(buf@, p as int, entry_end as int);
        }
        if z == entry_end {
            return None;
        }
        let name_bytes = &buf[p..z];
        assert(name_bytes@ == buf@.subrange(p as int, z as int));
        let text = utf8_lossy(name_bytes);
        let rec = NvarRecord {
            offset: off,
            size,
            attributes,
            guid_index,
            name: Some(text),
            data_offset: z + 1,
            data_len: entry_end - (z + 1),
        };
        Some(rec)
    } else {
        let mut q = p;
        while entry_end - q > 1 && !(buf[q] == 0 && buf[q + 1] == 0)
            invariant
                p <= q,
                q <= entry_end,
                entry_end <= n,
                n == buf@.len(),
                (q - p) % 2 == 0,
                ucs2_end(buf@, p as int, entry_end as int) == ucs2_end(
                    buf@,
                    q as int,
                    entry_end as int,
                ),
            decreases entry_end + 2 - q,
        {
            q = q + 2;
        }
        if entry_end - q <= 1 {
            return None;
        }
        let units = read_units(buf, p, q);
        let text = utf16_lossy(units.as_slice());
        let rec = NvarRecord {
            offset: off,
            size,
            attributes,
            guid_index,
            name: Some(text),
            data_offset: q + 2,
            data_len: entry_end - (q + 2),
        };
        Some(rec)
    }
}

/// The records laid end to end from `off`, up to the first offset that does
/// not hold one.
pub open spec fn spec_walk(buf: Seq<u8>, off: int) -> Seq<SpecNvar>
    decreases buf.len() - off,
{
    match spec_parse_entry(buf, off) {
        Some(r) => if r.size >= 10 && off < buf.len() {
            seq![r] + spec_walk(buf, off + r.size)
        } else {
            seq![]
        },
        None => seq![],
    }
}

/// Every record of the store, read sequentially from offset 0.
pub fn walk(buf: &[u8]) -> (out: Vec<NvarRecord>)
    ensures
        out@.map_values(|r: NvarRecord| r.spec()) == spec_walk(buf@, 0),
{
    let mut out: Vec<NvarRecord> = Vec::new();
    let mut off: usize = 0;
    let n = buf.len();
    loop
        invariant
            n == buf@.len(),
            off <= buf@.len(),
            out@.map_values(|r: NvarRecord| r.spec()) + spec_walk(buf@, off as int) == spec_walk(
                buf@,
                0,
            ),
        decreases buf@.len() - off,
    {
        match parse_entry(buf, off) {
            Some(r) => {
                assert(r.size >= 10 && off + r.size <= buf@.len());
                assert(spec_walk(buf@, off as int) == seq![r.spec()] + spec_walk(
                    buf@,
                    off + r.size,
                ));
                let ghost before = out@;
                off = off + r.size;
                out.push(r);
                assert(out@.map_values(|r: NvarRecord| r.spec()) =~= before.map_values(
                    |r: NvarRecord| r.spec(),
                ) + seq![r.spec()]);
            },
            None => {
                assert(out@.map_values(|r: NvarRecord| r.spec()) =~= out@.map_values(
                    |r: NvarRecord| r.spec(),
                ) + spec_walk(buf@, off as int));
                return out;
            },
        }
    }
}

/// The geometry every parsed record satisfies: it lies inside the buffer
/// and its data ends where the entry ends.
pub open spec fn record_in_bounds(buf: Seq<u8>, r: SpecNvar) -> bool {
    &&& 0 <= r.offset
    &&& r.size >= 10
    &&& r.offset + r.size <= buf.len()
    &&& r.offset + 10 <= r.data_offset
    &&& r.data_offset + r.data_len == r.offset + r.size
    &&& r.data_len >= 0
}

pub proof fn lemma_parse_entry_bounds(buf: Seq<u8>, off: int)
    ensures
        spec_parse_entry(buf, off) matches Some(r) ==> record_in_bounds(buf, r) && r.offset == off,
{
    if let Some(r) = spec_parse_entry(buf, off) {
        let e = off + le16(buf, off + 4);
        let attributes = buf[off + 9];
        let (p, g) = name_start(buf, off, attributes);
        if carries_name(attributes) && attributes & ATTR_ASCII_NAME != 0 {
            lemma_first_zero(buf, p, e);
        } else if carries_name(attributes) {
            lemma_ucs2_end(buf, p, e);
        }
    }
}

/// What a parsed entry reports of its header bytes: it starts at `off`, its
/// size is the little-endian word at `off + 4` and its attributes the byte at
/// `off + 9`. A valid, named entry (attribute bit 0x80 set, 0x08 clear)
/// without a GUID of its own (0x04 clear) names its GUID by the index stored
/// in the byte right after the attributes, `off + 10`; an entry with its own
/// GUID, or one that is data-only, carries no index.
pub proof fn law_entry_header_fields(buf: Seq<u8>, off: int)
    ensures
        spec_parse_entry(buf, off) matches Some(r) ==> {
            &&& r.offset == off
            &&& r.size == buf[off + 4] as int + 256 * (buf[off + 5] as int)
            &&& r.attributes == buf[off + 9]
            &&& off + r.size <= buf.len()
            &&& off + 10 <= r.data_offset
            &&& r.data_offset + r.data_len == off + r.size
            &&& (buf[off + 9] & 0x80 != 0 && buf[off + 9] & 0x08 == 0 && buf[off + 9] & 0x04 == 0) ==> r.guid_index
                == Some(buf[off + 10])
            &&& !(buf[off + 9] & 0x80 != 0 && buf[off + 9] & 0x08 == 0 && buf[off + 9] & 0x04 == 0) ==> r.guid_index
                is None
        },
{
    lemma_parse_entry_bounds(buf, off);
}

/// Where a walk from `off` stops: the end of its last record, or `off` when
/// it found none.
pub open spec fn walk_end(buf: Seq<u8>, off: int) -> int {
    let w = spec_walk(buf, off);
    if w.len() == 0 {
        off
    } else {
        w.last().offset + w.last().size
    }
}

/// The records of a walk are chained: the first starts where the walk
/// starts, each is the record read at its own offset, each next one starts
/// where the previous one ends, and no record can be read where the last
/// one ends.
pub proof fn law_walk_is_sequential_by_size(buf: Seq<u8>, off: int)
    requires
        0 <= off,
    ensures
        spec_walk(buf, off).len() > 0 ==> spec_walk(buf, off)[0].offset == off,
        forall|i: int|
            0 <= i < spec_walk(buf, off).len() ==> spec_parse_entry(
                buf,
                (#[trigger] spec_walk(buf, off)[i]).offset,
            ) == Some(spec_walk(buf, off)[i]),
        forall|i: int|
            0 <= i < spec_walk(buf, off).len() - 1 ==> (#[trigger] spec_walk(buf, off)[i + 1]).offset
                == spec_walk(buf, off)[i].offset + spec_walk(buf, off)[i].size,
        spec_parse_entry(buf, walk_end(buf, off)) is None,
    decreases buf.len() - off,
{
    lemma_parse_entry_bounds(buf, off);
    if let Some(r) = spec_parse_entry(buf, off) {
        let n = off + r.size;
        law_walk_is_sequential_by_size(buf, n);
        let w = spec_walk(buf, off);
        let t = spec_walk(buf, n);
        assert(w == seq![r] + t);
        assert forall|i: int| 0 <= i < w.len() implies spec_parse_entry(buf, (#[trigger] w[i]).offset)
            == Some(w[i]) by {
            if i > 0 {
                assert(w[i] == t[i - 1]);
            }
        }
        assert forall|i: int| 0 <= i < w.len() - 1 implies (#[trigger] w[i + 1]).offset == w[i].offset
            + w[i].size by {
            assert(w[i + 1] == t[i]);
            if i > 0 {
                assert(w[i] == t[i - 1]);
                let j = i - 1;
                assert(t[j + 1].offset == t[j].offset + t[j].size);
            } else {
                if t.len() > 0 {
                    assert(t[0].offset == n);
                }
            }
        }
        if t.len() > 0 {
            assert(w.last() == t.last());
        }
        assert(walk_end(buf, off) == walk_end(buf, n));
    }
}

pub proof fn lemma_walk_bounds(buf: Seq<u8>, off: int)
    requires
        0 <= off,
    ensures
        forall|i: int|
            0 <= i < spec_walk(buf, off).len() ==> record_in_bounds(
                buf,
                #[trigger] spec_walk(buf, off)[i],
            ),
    decreases buf.len() - off,
{
    lemma_parse_entry_bounds(buf, off);
    if let Some(r) = spec_parse_entry(buf, off) {
        if r.size >= 10 && off < buf.len() {
            lemma_walk_bounds(buf, off + r.size);
            let w = spec_walk(buf, off);
            assert forall|i: int| 0 <= i < w.len() implies record_in_bounds(buf, #[trigger] w[i]) by {
                if i > 0 {
                    assert(w[i] == spec_walk(buf, off + r.size)[i - 1]);
                }
            }
        }
    }
}

pub open spec fn is_std_defaults(r: SpecNvar) -> bool {
    r.name == Some("StdDefaults"@)
}

/// The data of the first entry when that entry is named `StdDefaults`, with
/// the offset at which the data starts.
pub open spec fn spec_std_defaults_data(buf: Seq<u8>) -> Option<(int, Seq<u8>)> {
    match spec_parse_entry(buf, 0) {
        Some(r) => if is_std_defaults(r) {
            Some((r.data_offset, buf.subrange(r.data_offset, r.data_offset + r.data_len)))
        } else {
            None
        },
        None => None,
    }
}

/// The inner store of an AMI `StdDefaults` container.
pub fn std_defaults_data(buf: &[u8]) -> (r: Option<(usize, &[u8])>)
    ensures
        match r {
            Some((off, data)) => spec_std_defaults_data(buf@) == Some((off as int, data@)),
            None => spec_std_defaults_data(buf@).is_none(),
        },
{
    let first = match parse_entry(buf, 0) {
        Some(f) => f,
        None => return None,
    };
    proof {
        lemma_parse_entry_bounds(buf@, 0);
    }
    let is_std = match &first.name {
        Some(n) => string_eq_str(n, "StdDefaults"),
        None => false,
    };
    if !is_std {
        return None;
    }
    let data = &buf[first.data_offset..first.data_offset + first.data_len];
    Some((first.data_offset, data))
}

/// Index of the first record named `name` whose data is `len` bytes long.
pub open spec fn first_varstore(recs: Seq<SpecNvar>, name: Seq<char>, len: int) -> Option<int>
    decreases recs.len(),
{
    if recs.len() == 0 {
        None
    } else if recs[0].name == Some(name) && recs[0].data_len == len {
        Some(0)
    } else {
        match first_varstore(recs.drop_first(), name, len) {
            Some(i) => Some(i + 1),
            None => None,
        }
    }
}

/// Where the data of the variable `name` (exactly `len` bytes) lives in a
/// `StdDefaults` store: offset in `body` and the data itself.
pub open spec fn spec_find_varstore_record(body: Seq<u8>, name: Seq<char>, len: int) -> Option<
    (int, Seq<u8>),
> {
    match spec_std_defaults_data(body) {
        Some((inner_off, inner)) => match first_varstore(spec_walk(inner, 0), name, len) {
            Some(i) => {
                let r = spec_walk(inner, 0)[i];
                Some(
                    (
                        inner_off + r.data_offset,
                        inner.subrange(r.data_offset, r.data_offset + r.data_len),
                    ),
                )
            },
            None => None,
        },
        None => None,
    }
}

proof fn lemma_first_varstore(recs: Seq<SpecNvar>, name: Seq<char>, len: int, k: int)
    requires
        0 <= k <= recs.len(),
        forall|j: int| 0 <= j < k ==> !(recs[j].name == Some(name) && recs[j].data_len == len),
    ensures
        first_varstore(recs, name, len) == (match first_varstore(recs.subrange(k, recs.len() as int), name, len) {
            Some(i) => Some(i + k),
            None => None::<int>,
        }),
    decreases k,
{
    if k > 0 {
        assert(recs.drop_first().subrange(k - 1, recs.drop_first().len() as int) =~= recs.subrange(
            k,
            recs.len() as int,
        ));
        lemma_first_varstore(recs.drop_first(), name, len, k - 1);
    } else {
        assert(recs.subrange(0, recs.len() as int) =~= recs);
    }
}

/// Finds the stored default data of the variable `name` whose data is
/// `data_len` bytes long.
pub fn find_varstore_record<'a>(body: &'a [u8], name: &str, data_len: usize) -> (r: Option<
    (usize, &'a [u8]),
>)
    ensures
        match r {
            Some((off, data)) => spec_find_varstore_record(body@, name@, data_len as int) == Some(
                (off as int, data@),
            ),
            None => spec_find_varstore_record(body@, name@, data_len as int).is_none(),
        },
{
    let (inner_off, inner) = match std_defaults_data(body) {
        Some(x) => x,
        None => return None,
    };
    proof {
        lemma_parse_entry_bounds(body@, 0);
    }
    let recs = walk(inner);
    let ghost specs = recs@.map_values(|r: NvarRecord| r.spec());
    proof {
        lemma_walk_bounds(inner@, 0);
    }
    let m = inner.len();
    let nb = body.len();
    let mut k: usize = 0;
    while k < recs.len()
        invariant
            m == inner@.len(),
            nb == body@.len(),
            spec_std_defaults_data(body@) == Some((inner_off as int, inner@)),
            specs == spec_walk(inner@, 0),
            specs.len() == recs@.len(),
            forall|j: int| 0 <= j < recs@.len() ==> #[trigger] specs[j] == recs@[j].spec(),
            forall|j: int| 0 <= j < specs.len() ==> record_in_bounds(inner@, #[trigger] specs[j]),
            k <= recs@.len(),
            forall|j: int|
                0 <= j < k ==> !(specs[j].name == Some(name@) && specs[j].data_len == data_len),
            inner_off + inner@.len() <= body@.len(),
        decreases recs@.len() - k,
    {
        let r = &recs[k];
        assert(specs[k as int] == r.spec());
        let matches = match &r.name {
            Some(n) => string_eq_str(n, name) && r.data_len == data_len,
            None => false,
        };
        if matches {
            proof {
                lemma_first_varstore(specs, name@, data_len as int, k as int);
                let rest = specs.subrange(k as int, specs.len() as int);
                assert(rest[0] == specs[k as int]);
                assert(specs[k as int].name == Some(name@));
                assert(first_varstore(rest, name@, data_len as int) == Some(0int));
            }
            let data = &inner[r.data_offset..r.data_offset + r.data_len];
            assert(data@ == inner@.subrange(
                r.data_offset as int,
                r.data_offset + r.data_len,
            ));
            assert(first_varstore(spec_walk(inner@, 0), name@, data_len as int) == Some(k as int));
            assert(spec_std_defaults_data(body@) == Some((inner_off as int, inner@)));
            return Some((inner_off + r.data_offset, data));
        }
        k = k + 1;
    }
    proof {
        lemma_first_varstore(specs, name@, data_len as int, k as int);
    }
    None
}

} // verus!
