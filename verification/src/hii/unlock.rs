//! Unlocking the gates of a setup section: every form package of the section
//! is searched for the gates of a form or question, a flip is planned for
//! each gate that is not already unlocked, and the flips are written in place
//! all together or not at all.

use vstd::prelude::*;
use vstd::string::StringSliceAdditionalSpecFns;
use crate::bytes::copy_range;
use crate::hii::gates::{
    apply_flips, apply_seq, considered, find_gates, flip_applies, law_found_gates_well_formed,
    lemma_apply_seq_len, lemma_plans_bounded, plan_gates_skip_unlocked, plan_result_ok,
    planned_before, plans_of, spec_find_gates, spec_is_unlocked, spec_plan_flip, stale_flip_text, Gate, GateTarget,
    PlannedFlip,
};
use crate::hii::{section_form_package_ranges, spec_form_package_ranges, HiiError};
use crate::render::{ascii_string, hex_run_text, hex_text, push_hex, push_hex_run, push_str};
use crate::text::utf8_text;

verus! {

/// How a package-relative offset is printed: `pkg+0x…`.
pub open spec fn pkg_off_text(off: nat) -> Seq<u8> {
    "pkg+0x".spec_bytes() + hex_text(off)
}

/// How a flip is reported: its package-relative offset, the bytes it
/// expects and the bytes it writes.
pub open spec fn flip_text_bytes(f: (int, Seq<u8>, Seq<u8>)) -> Seq<u8> {
    pkg_off_text(f.0 as nat) + ": ".spec_bytes() + hex_run_text(f.1) + " -> ".spec_bytes()
        + hex_run_text(f.2)
}

/// A package-relative offset as text.
pub fn pkg_off(off: usize) -> (s: String)
    ensures
        s@ == utf8_text(pkg_off_text(off as nat)),
{
    let mut out: Vec<u8> = Vec::new();
    push_str(&mut out, "pkg+0x");
    push_hex(&mut out, off);
    assert(out@ =~= pkg_off_text(off as nat));
    ascii_string(&out)
}

/// Bytes as two-digit hexadecimal numbers separated by spaces.
pub fn hex(bytes: &[u8]) -> (s: String)
    ensures
        s@ == utf8_text(hex_run_text(bytes@)),
{
    let mut out: Vec<u8> = Vec::new();
    push_hex_run(&mut out, bytes);
    assert(out@ =~= hex_run_text(bytes@));
    ascii_string(&out)
}

/// A planned flip as text.
pub fn flip_text(flip: &PlannedFlip) -> (s: String)
    ensures
        s@ == utf8_text(flip_text_bytes(flip@)),
{
    let mut out: Vec<u8> = Vec::new();
    push_str(&mut out, "pkg+0x");
    push_hex(&mut out, flip.offset);
    push_str(&mut out, ": ");
    push_hex_run(&mut out, flip.from.as_slice());
    push_str(&mut out, " -> ");
    push_hex_run(&mut out, flip.to.as_slice());
    assert(out@ =~= flip_text_bytes(flip@));
    ascii_string(&out)
}

/// The package a range of a section body holds.
pub open spec fn range_pkg(body: Seq<u8>, r: (usize, usize)) -> Seq<u8> {
    body.subrange(r.0 as int, r.0 + r.1)
}

/// The gates of `t` in the package of range `r`.
pub open spec fn range_gates(body: Seq<u8>, r: (usize, usize), t: GateTarget) -> Seq<Gate> {
    spec_find_gates(range_pkg(body, r), t)
}

/// The flips planned for the gates of range `r` that are not unlocked yet,
/// package-relative.
pub open spec fn range_flips(body: Seq<u8>, r: (usize, usize), t: GateTarget) -> Seq<
    (int, Seq<u8>, Seq<u8>),
> {
    let gs = range_gates(body, r, t);
    plans_of(range_pkg(body, r), gs, gs.len() as int, true)
}

/// Every gate of range `r` that is not unlocked yet has a flip.
pub open spec fn range_planned(body: Seq<u8>, r: (usize, usize), t: GateTarget) -> bool {
    let gs = range_gates(body, r, t);
    planned_before(range_pkg(body, r), gs, gs.len() as int, true)
}

/// The gates of the first `n` ranges, in order.
pub open spec fn section_gates(body: Seq<u8>, rs: Seq<(usize, usize)>, t: GateTarget, n: int) -> Seq<
    Gate,
>
    decreases n,
{
    if n <= 0 {
        seq![]
    } else {
        section_gates(body, rs, t, n - 1) + range_gates(body, rs[n - 1], t)
    }
}

/// The flips of the first `n` ranges, package-relative.
pub open spec fn section_rel_flips(body: Seq<u8>, rs: Seq<(usize, usize)>, t: GateTarget, n: int) -> Seq<
    (int, Seq<u8>, Seq<u8>),
>
    decreases n,
{
    if n <= 0 {
        seq![]
    } else {
        section_rel_flips(body, rs, t, n - 1) + range_flips(body, rs[n - 1], t)
    }
}

/// Flips moved by `d` bytes.
pub open spec fn shifted(fs: Seq<(int, Seq<u8>, Seq<u8>)>, d: int) -> Seq<(int, Seq<u8>, Seq<u8>)> {
    fs.map_values(|f: (int, Seq<u8>, Seq<u8>)| (f.0 + d, f.1, f.2))
}

/// The flips of the first `n` ranges, as offsets of the section body.
pub open spec fn section_abs_flips(body: Seq<u8>, rs: Seq<(usize, usize)>, t: GateTarget, n: int) -> Seq<
    (int, Seq<u8>, Seq<u8>),
>
    decreases n,
{
    if n <= 0 {
        seq![]
    } else {
        section_abs_flips(body, rs, t, n - 1) + shifted(range_flips(body, rs[n - 1], t), rs[n - 1].0 as int)
    }
}

/// The first `n` ranges are planned.
pub open spec fn sections_planned(body: Seq<u8>, rs: Seq<(usize, usize)>, t: GateTarget, n: int) -> bool {
    forall|i: int| 0 <= i < n ==> #[trigger] range_planned(body, rs[i], t)
}

/// What unlocking a section found and did.
#[derive(Debug)]
pub struct SectionUnlock {
    /// The gates of every form package, in order.
    pub gates: Vec<Gate>,
    /// The flips written, as text with package-relative offsets.
    pub applied: Vec<String>,
}

/// The outcome of unlocking the gates of `t` in a section body `b` (now
/// `b2`) whose form packages lie at `rs`.
pub open spec fn unlock_outcome(
    b: Seq<u8>,
    b2: Seq<u8>,
    rs: Seq<(usize, usize)>,
    t: GateTarget,
    r: Result<SectionUnlock, HiiError>,
) -> bool {
    let n = rs.len() as int;
    match r {
        Ok(u) => {
            &&& sections_planned(b, rs, t, n)
            &&& u.gates@ == section_gates(b, rs, t, n)
            &&& u.applied@.len() == section_rel_flips(b, rs, t, n).len()
            &&& forall|k: int|
                0 <= k < u.applied@.len() ==> #[trigger] u.applied@[k]@ == utf8_text(
                    flip_text_bytes(section_rel_flips(b, rs, t, n)[k]),
                )
            &&& forall|k: int|
                0 <= k < section_abs_flips(b, rs, t, n).len() ==> #[trigger] flip_applies(
                    b,
                    section_abs_flips(b, rs, t, n)[k],
                )
            &&& b2 == apply_seq(b, section_abs_flips(b, rs, t, n), section_abs_flips(b, rs, t, n).len() as int)
            &&& b2.len() == b.len()
        },
        Err(HiiError::GateExpressionUnsupported(m)) => {
            &&& b2 == b
            &&& {
                ||| exists|i: int|
                    0 <= i < n && sections_planned(b, rs, t, i) && #[trigger] plan_result_ok(
                        range_pkg(b, rs[i]),
                        range_gates(b, rs[i], t),
                        true,
                        Err::<Vec<PlannedFlip>, String>(m),
                    )
                ||| sections_planned(b, rs, t, n) && exists|k: int|
                    0 <= k < section_abs_flips(b, rs, t, n).len() && !#[trigger] flip_applies(
                        b,
                        section_abs_flips(b, rs, t, n)[k],
                    ) && m@ == utf8_text(
                        stale_flip_text(section_abs_flips(b, rs, t, n)[k].0 as usize),
                    )
            }
        },
        Err(_) => false,
    }
}

/// Unlocks the gates of `target` in a section with subtype `subtype`: in
/// each of its form packages the gates are found and a flip is planned for
/// every gate not yet unlocked; then all flips are written at once. A gate
/// without a flip, or a flip that no longer applies, refuses the whole
/// request and leaves the body as it was. The body keeps its length.
pub fn unlock_section(subtype: u8, body: &mut Vec<u8>, target: &GateTarget) -> (r: Result<
    SectionUnlock,
    HiiError,
>)
    requires
        old(body)@.len() + 8 <= usize::MAX,
    ensures
        unlock_outcome(
            old(body)@,
            final(body)@,
            spec_form_package_ranges(subtype, old(body)@),
            *target,
            r,
        ),
{
    let ranges = section_form_package_ranges(subtype, body.as_slice());
    let ghost b = body@;
    let ghost rs = ranges@;
    let n = body.len();
    let mut gates_all: Vec<Gate> = Vec::new();
    let mut applied: Vec<String> = Vec::new();
    let mut abs: Vec<PlannedFlip> = Vec::new();
    let mut i: usize = 0;
    while i < ranges.len()
        invariant
            body@ == b,
            n == b.len(),
            n + 8 <= usize::MAX,
            rs == ranges@,
            rs == spec_form_package_ranges(subtype, b),
            forall|j: int| 0 <= j < rs.len() ==> #[trigger] rs[j].0 + rs[j].1 <= b.len(),
            i <= rs.len(),
            sections_planned(b, rs, *target, i as int),
            gates_all@ == section_gates(b, rs, *target, i as int),
            abs@.map_values(|f: PlannedFlip| f@) == section_abs_flips(b, rs, *target, i as int),
            applied@.len() == section_rel_flips(b, rs, *target, i as int).len(),
            forall|k: int|
                0 <= k < applied@.len() ==> #[trigger] applied@[k]@ == utf8_text(
                    flip_text_bytes(section_rel_flips(b, rs, *target, i as int)[k]),
                ),
            forall|k: int|
                0 <= k < abs@.len() ==> #[trigger] abs@[k].offset + abs@[k].from@.len() <= n + 6
                    && abs@[k].offset + abs@[k].to@.len() <= n + 6,
        decreases rs.len() - i,
    {
        let (start, len) = ranges[i];
        let pkg = vstd::slice::slice_subrange(body.as_slice(), start, start + len);
        assert(pkg@ == range_pkg(b, rs[i as int]));
        let found = find_gates(pkg, target);
        proof {
            law_found_gates_well_formed(pkg@, *target);
        }
        let ghost prev_abs = abs@.map_values(|f: PlannedFlip| f@);
        let ghost prev_rel = section_rel_flips(b, rs, *target, i as int);
        match plan_gates_skip_unlocked(pkg, found.as_slice()) {
            Ok(flips) => {
                proof {
                    lemma_plans_bounded(pkg@, found@, found@.len() as int, true);
                    let pv = flips@.map_values(|f: PlannedFlip| f@);
                    assert forall|m: int| 0 <= m < flips@.len() implies {
                        let f = #[trigger] flips@[m];
                        &&& 0 <= f.offset <= pkg@.len() + 4
                        &&& f.from@.len() <= 2
                        &&& f.to@.len() <= 2
                    } by {
                        assert(pv[m] == flips@[m]@);
                        assert(pv[m] == plans_of(pkg@, found@, found@.len() as int, true)[m]);
                    }
                }
                let mut k: usize = 0;
                while k < flips.len()
                    invariant
                        body@ == b,
                        n == b.len(),
                        n + 8 <= usize::MAX,
                        start + len <= n,
                        pkg@.len() == len,
                        pkg@ == range_pkg(b, rs[i as int]),
                        found@ == range_gates(b, rs[i as int], *target),
                        flips@.map_values(|f: PlannedFlip| f@) == range_flips(b, rs[i as int], *target),
                        forall|m: int|
                            0 <= m < flips@.len() ==> {
                                let f = #[trigger] flips@[m];
                                &&& 0 <= f.offset <= pkg@.len() + 4
                                &&& f.from@.len() <= 2
                                &&& f.to@.len() <= 2
                            },
                        k <= flips@.len(),
                        abs@.map_values(|f: PlannedFlip| f@) == prev_abs + shifted(
                            range_flips(b, rs[i as int], *target),
                            start as int,
                        ).subrange(0, k as int),
                        applied@.len() == prev_rel.len() + k,
                        forall|m: int|
                            0 <= m < applied@.len() ==> #[trigger] applied@[m]@ == utf8_text(
                                flip_text_bytes((prev_rel + range_flips(b, rs[i as int], *target))[m]),
                            ),
                        forall|m: int|
                            0 <= m < abs@.len() ==> #[trigger] abs@[m].offset + abs@[m].from@.len()
                                <= n + 6 && abs@[m].offset + abs@[m].to@.len() <= n + 6,
                    decreases flips@.len() - k,
                {
                    let f = &flips[k];
                    assert(flips@.map_values(|f: PlannedFlip| f@)[k as int] == f@);
                    assert(0 <= f.offset <= pkg@.len() + 4 && f.from@.len() <= 2 && f.to@.len() <= 2);
                    let ghost before_abs = abs@.map_values(|f: PlannedFlip| f@);
                    applied.push(flip_text(f));
                    let moved = PlannedFlip {
                        offset: start + f.offset,
                        from: copy_range(f.from.as_slice(), 0, f.from.len()),
                        to: copy_range(f.to.as_slice(), 0, f.to.len()),
                    };
                    abs.push(moved);
                    proof {
                        assert(f.from@.subrange(0, f.from@.len() as int) =~= f.from@);
                        assert(f.to@.subrange(0, f.to@.len() as int) =~= f.to@);
                        let sh = shifted(range_flips(b, rs[i as int], *target), start as int);
                        assert(sh[k as int] == moved@);
                        assert(abs@.map_values(|f: PlannedFlip| f@) =~= before_abs.push(moved@));
                        assert(sh.subrange(0, k + 1) =~= sh.subrange(0, k as int).push(sh[k as int]));
                        assert(abs@.map_values(|f: PlannedFlip| f@) =~= prev_abs + sh.subrange(0, k + 1));
                        assert((prev_rel + range_flips(b, rs[i as int], *target))[prev_rel.len() + k]
                            == range_flips(b, rs[i as int], *target)[k as int]);
                    }
                    k = k + 1;
                }
                let ghost sh = shifted(range_flips(b, rs[i as int], *target), start as int);
                assert(sh.subrange(0, k as int) =~= sh);
                let mut m: usize = 0;
                while m < found.len()
                    invariant
                        m <= found@.len(),
                        gates_all@ == section_gates(b, rs, *target, i as int) + found@.subrange(0, m as int),
                    decreases found@.len() - m,
                {
                    gates_all.push(found[m]);
                    assert(found@.subrange(0, m + 1) =~= found@.subrange(0, m as int).push(found@[m as int]));
                    m = m + 1;
                }
                assert(found@.subrange(0, m as int) =~= found@);
                proof {
                    assert(section_rel_flips(b, rs, *target, i + 1) == prev_rel + range_flips(
                        b,
                        rs[i as int],
                        *target,
                    ));
                    assert(section_abs_flips(b, rs, *target, i + 1) == prev_abs + sh);
                    assert forall|j: int| 0 <= j < i + 1 implies #[trigger] range_planned(b, rs[j], *target) by {
                        if j == i {
                        }
                    }
                }
            },
            Err(e) => {
                let r: Result<SectionUnlock, HiiError> = Err(HiiError::GateExpressionUnsupported(e));
                proof {
                    let m = e;
                    let n = rs.len() as int;
                    assert(body@ == b);
                    assert(0 <= i < n && sections_planned(b, rs, *target, i as int) && plan_result_ok(
                        range_pkg(b, rs[i as int]),
                        range_gates(b, rs[i as int], *target),
                        true,
                        Err::<Vec<PlannedFlip>, String>(m),
                    ));
                    assert(exists|j: int|
                        0 <= j < n && sections_planned(b, rs, *target, j) && #[trigger] plan_result_ok(
                            range_pkg(b, rs[j]),
                            range_gates(b, rs[j], *target),
                            true,
                            Err::<Vec<PlannedFlip>, String>(m),
                        ));
                    assert(r matches Err(HiiError::GateExpressionUnsupported(mm)) && mm == m);
                }
                assert(unlock_outcome(b, body@, rs, *target, r));
                return r;
            },
        }
        i = i + 1;
    }
    let ghost fs = section_abs_flips(b, rs, *target, rs.len() as int);
    match apply_flips(body.as_mut_slice(), abs.as_slice()) {
        Ok(()) => {
            proof {
                lemma_apply_seq_len(b, fs, fs.len() as int);
            }
            Ok(SectionUnlock { gates: gates_all, applied })
        },
        Err(e) => {
            proof {
                let fs2 = abs@.map_values(|f: PlannedFlip| f@);
                assert(fs2 == fs);
                let k = choose|k: int|
                    0 <= k < fs2.len() && !#[trigger] flip_applies(b, fs2[k]) && (forall|j: int|
                        0 <= j < k ==> flip_applies(b, fs2[j])) && e@ == utf8_text(
                        stale_flip_text(abs@[k].offset),
                    );
                assert(fs2[k] == abs@[k]@);
                assert(fs[k].0 as usize == abs@[k].offset);
                assert(!flip_applies(b, fs[k]));
            }
            Err(HiiError::GateExpressionUnsupported(e))
        },
    }
}

/// Every gate of `t` in the form packages at `rs` is unlocked already.
pub open spec fn all_unlocked(b: Seq<u8>, rs: Seq<(usize, usize)>, t: GateTarget) -> bool {
    forall|i: int, j: int|
        0 <= i < rs.len() && 0 <= j < range_gates(b, rs[i], t).len() ==> spec_is_unlocked(
            #[trigger] range_gates(b, rs[i], t)[j].expr,
        )
}

proof fn lemma_no_plans_for_unlocked(pkg: Seq<u8>, gs: Seq<Gate>, n: int)
    requires
        0 <= n <= gs.len(),
        forall|j: int| 0 <= j < n ==> spec_is_unlocked(#[trigger] gs[j].expr),
    ensures
        plans_of(pkg, gs, n, true).len() == 0,
    decreases n,
{
    if n > 0 {
        assert(spec_is_unlocked(gs[n - 1].expr));
        lemma_no_plans_for_unlocked(pkg, gs, n - 1);
    }
}

proof fn lemma_no_section_flips(b: Seq<u8>, rs: Seq<(usize, usize)>, t: GateTarget, n: int)
    requires
        0 <= n <= rs.len(),
        all_unlocked(b, rs, t),
    ensures
        section_rel_flips(b, rs, t, n).len() == 0,
        section_abs_flips(b, rs, t, n).len() == 0,
        sections_planned(b, rs, t, n),
    decreases n,
{
    if n > 0 {
        lemma_no_section_flips(b, rs, t, n - 1);
        let gs = range_gates(b, rs[n - 1], t);
        assert forall|j: int| 0 <= j < gs.len() implies spec_is_unlocked(#[trigger] gs[j].expr) by {
            assert(spec_is_unlocked(range_gates(b, rs[n - 1], t)[j].expr));
        }
        lemma_no_plans_for_unlocked(range_pkg(b, rs[n - 1]), gs, gs.len() as int);
        assert forall|i: int| 0 <= i < n implies #[trigger] range_planned(b, rs[i], t) by {
            let gi = range_gates(b, rs[i], t);
            assert forall|j: int|
                0 <= j < gi.len() as int && considered(gi[j], true) implies (
            #[trigger] spec_plan_flip(range_pkg(b, rs[i]), gi[j])) is Some by {
                assert(spec_is_unlocked(range_gates(b, rs[i], t)[j].expr));
            }
        }
    }
}

/// Unlocking a section whose gates are all unlocked already succeeds,
/// writes no flip and leaves the body as it was.
pub proof fn law_unlocked_gates_are_left_alone(
    b: Seq<u8>,
    b2: Seq<u8>,
    rs: Seq<(usize, usize)>,
    t: GateTarget,
    r: Result<SectionUnlock, HiiError>,
)
    requires
        unlock_outcome(b, b2, rs, t, r),
        all_unlocked(b, rs, t),
    ensures
        r matches Ok(u) && u.applied@.len() == 0,
        b2 == b,
{
    let n = rs.len() as int;
    lemma_no_section_flips(b, rs, t, n);
    match r {
        Ok(u) => {},
        Err(e) => {
            if let HiiError::GateExpressionUnsupported(m) = e {
                assert forall|i: int|
                    0 <= i < n && sections_planned(b, rs, t, i) implies !#[trigger] plan_result_ok(
                    range_pkg(b, rs[i]),
                    range_gates(b, rs[i], t),
                    true,
                    Err::<Vec<PlannedFlip>, String>(m),
                ) by {
                    let gi = range_gates(b, rs[i], t);
                    assert forall|k: int| 0 <= k < gi.len() implies !considered(
                        #[trigger] gi[k],
                        true,
                    ) by {
                        assert(spec_is_unlocked(range_gates(b, rs[i], t)[k].expr));
                    }
                }
            }
        },
    }
}

} // verus!
