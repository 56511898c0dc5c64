//! HII package lists: a GUID, a total length (a hint only), then packages
//! (24-bit length, type byte) up to an END package.

use vstd::prelude::*;
use crate::bytes::{le24, read_u24};
use crate::guid::Guid;
use crate::hii::opcodes::PACKAGE_END;

verus! {

/// One package of a list: its type and its bytes (header included).
pub struct HiiPackage<'a> {
    pub kind: u8,
    pub bytes: &'a [u8],
}

/// A parsed package list.
pub struct HiiPackageList<'a> {
    pub guid: Guid,
    pub packages: Vec<HiiPackage<'a>>,
}

/// Packages from `pos` on, as (type, start, length), up to the END package;
/// `None` when a package is shorter than its header, overruns the list, or
/// the END package is missing.
pub open spec fn packages_from(b: Seq<u8>, pos: int) -> Option<Seq<(u8, int, int)>>
    decreases b.len() - pos,
{
    if pos < 0 || pos + 4 > b.len() {
        None
    } else if b[pos + 3] == PACKAGE_END {
        Some(Seq::empty())
    } else if le24(b, pos) < 4 || pos + le24(b, pos) > b.len() {
        None
    } else {
        match packages_from(b, pos + le24(b, pos)) {
            Some(rest) => Some(seq![(b[pos + 3], pos, le24(b, pos))] + rest),
            None => None,
        }
    }
}

/// The packages of a list, or `None` for a list shorter than its 20-byte
/// header or malformed.
pub open spec fn spec_parse_package_list(b: Seq<u8>) -> Option<Seq<(u8, int, int)>> {
    if b.len() < 20 {
        None
    } else {
        packages_from(b, 20)
    }
}

/// Packages found from `pos` lie back to back: the first starts at `pos`,
/// each next one where the previous ends.
pub proof fn lemma_packages_consecutive(b: Seq<u8>, pos: int)
    requires
        packages_from(b, pos) is Some,
    ensures
        ({
            let ps = packages_from(b, pos)->0;
            &&& ps.len() > 0 ==> ps[0].1 == pos
            &&& forall|i: int| 0 <= i < ps.len() ==> 4 <= #[trigger] ps[i].2 && pos <= ps[i].1 && ps[i].1 + ps[i].2 <= b.len()
            &&& forall|i: int| 0 <= i < ps.len() - 1 ==> #[trigger] ps[i + 1].1 == ps[i].1 + ps[i].2
        }),
    decreases b.len() - pos,
{
    if !(pos < 0 || pos + 4 > b.len()) && b[pos + 3] != PACKAGE_END {
        let next = pos + le24(b, pos);
        lemma_packages_consecutive(b, next);
        let rest = packages_from(b, next)->0;
        let ps = packages_from(b, pos)->0;
        assert(ps == seq![(b[pos + 3], pos, le24(b, pos))] + rest);
        assert forall|i: int| 0 <= i < ps.len() implies 4 <= #[trigger] ps[i].2 && pos <= ps[i].1 && ps[i].1
            + ps[i].2 <= b.len() by {
            if i > 0 {
                assert(ps[i] == rest[i - 1]);
            }
        }
        assert forall|i: int| 0 <= i < ps.len() - 1 implies #[trigger] ps[i + 1].1 == ps[i].1 + ps[i].2 by {
            assert(ps[i + 1] == rest[i]);
            if i > 0 {
                assert(ps[i] == rest[i - 1]);
                let k = i - 1;
                assert(rest[k + 1].1 == rest[k].1 + rest[k].2);
            } else {
                assert(ps[0] == (b[pos + 3], pos, le24(b, pos)));
                assert(rest[0].1 == next);
            }
        }
    }
}

/// The packages of `l` seen as (type, bytes).
pub open spec fn package_view(l: HiiPackageList) -> Seq<(u8, Seq<u8>)> {
    l.packages@.map_values(|p: HiiPackage| (p.kind, p.bytes@))
}

/// The packages located in `b`, as (type, bytes).
pub open spec fn located(b: Seq<u8>, ps: Seq<(u8, int, int)>) -> Seq<(u8, Seq<u8>)> {
    ps.map_values(|p: (u8, int, int)| (p.0, b.subrange(p.1, p.1 + p.2)))
}

pub fn parse_package_list<'a>(bytes: &'a [u8]) -> (r: Option<HiiPackageList<'a>>)
    ensures
        match r {
            Some(l) => spec_parse_package_list(bytes@) matches Some(ps) && l.guid@
                == bytes@.subrange(0, 16) && package_view(l) == located(bytes@, ps),
            None => spec_parse_package_list(bytes@) is None,
        },
{
    let n = bytes.len();
    if n < 20 {
        return None;
    }
    let mut arr = [0u8; 16];
    let mut k: usize = 0;
    while k < 16
        invariant
            n == bytes@.len(),
            n >= 20,
            k <= 16,
            arr@.len() == 16,
            forall|j: int| 0 <= j < k ==> arr@[j] == bytes@[j],
        decreases 16 - k,
    {
        arr[k] = bytes[k];
        k = k + 1;
    }
    assert(arr@ =~= bytes@.subrange(0, 16));
    let guid = Guid::from_bytes(arr);
    let mut packages: Vec<HiiPackage<'a>> = Vec::new();
    let ghost mut acc: Seq<(u8, int, int)> = Seq::empty();
    let mut pos: usize = 20;
    while pos <= n && n - pos >= 4
        invariant
            n == bytes@.len(),
            n >= 20,
            guid@ == bytes@.subrange(0, 16),
            packages@.len() == acc.len(),
            packages@.map_values(|p: HiiPackage| (p.kind, p.bytes@)) == located(bytes@, acc),
            spec_parse_package_list(bytes@) == match packages_from(bytes@, pos as int) {
                Some(rest) => Some(acc + rest),
                None => None,
            },
        decreases n - pos,
    {
        let plen = read_u24(bytes, pos) as usize;
        let kind = bytes[pos + 3];
        if kind == PACKAGE_END {
            assert(acc + Seq::<(u8, int, int)>::empty() =~= acc);
            return Some(HiiPackageList { guid, packages });
        }
        if plen < 4 || plen > n - pos {
            return None;
        }
        let ghost before = packages@;
        let ghost old_acc = acc;
        packages.push(HiiPackage { kind, bytes: vstd::slice::slice_subrange(bytes, pos, pos + plen) });
        proof {
            let item = (kind, pos as int, plen as int);
            match packages_from(bytes@, pos + plen) {
                Some(rest) => {
                    assert(acc + (seq![item] + rest) =~= acc.push(item) + rest);
                },
                None => {},
            }
            acc = acc.push(item);
            let m = packages@.map_values(|p: HiiPackage| (p.kind, p.bytes@));
            let l = located(bytes@, acc);
            assert forall|j: int| 0 <= j < acc.len() implies m[j] == l[j] by {
                if j < old_acc.len() {
                    assert(before.map_values(|p: HiiPackage| (p.kind, p.bytes@))[j] == located(
                        bytes@,
                        old_acc,
                    )[j]);
                    assert(packages@[j] == before[j]);
                    assert(acc[j] == old_acc[j]);
                }
            }
            assert(m =~= l);
        }
        pos = pos + plen;
    }
    None
}

} // verus!
