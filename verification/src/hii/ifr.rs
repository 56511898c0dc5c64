//! Walkers over IFR form packages. An opcode is `op, len|scope, payload`;
//! the length counts the two header bytes, bit 0x80 opens a scope that the
//! matching END opcode closes. Every walker advances opcode by opcode and
//! stops on a length below 2 or one that overruns the package.

use vstd::prelude::*;
use crate::bytes::{le16, le24, read_u16, read_u24, splice_at, copy_range, push_all, write_at};
use crate::guid::Guid;
use crate::hii::HiiError;
use crate::hii::opcodes::{
    IFR_ACTION_OP, IFR_CHECKBOX_OP, IFR_DATE_OP, IFR_END_OP, IFR_FORM_OP, IFR_FORM_SET_OP,
    IFR_NUMERIC_OP, IFR_ONE_OF_OP, IFR_ONE_OF_OPTION_OP, IFR_ORDERED_LIST_OP, IFR_PASSWORD_OP,
    IFR_REF_OP, IFR_STRING_OP, IFR_SUBTITLE_OP, IFR_SUPPRESS_IF_OP, IFR_TEXT_OP, IFR_TIME_OP,
    PACKAGE_FORMS,
};

verus! {

/// The content of a SUPPRESS_IF: `[start, end)` lies between the SUPPRESS_IF
/// header and its END opcode.
#[derive(Debug, Clone, Copy, PartialEq, Eq)]
pub struct SuppressScope {
    pub start: usize,
    pub end: usize,
}

/// Length of the opcode at `i` (header included).
pub open spec fn op_len(b: Seq<u8>, i: int) -> int {
    (b[i + 1] % 128) as int
}

/// The opcode at `i` opens a scope.
pub open spec fn op_scoped(b: Seq<u8>, i: int) -> bool {
    b[i + 1] >= 128
}

/// The opcode at `i` has a usable length and fits before `end`.
pub open spec fn op_ok(b: Seq<u8>, end: int, i: int) -> bool {
    op_len(b, i) >= 2 && i + op_len(b, i) <= end
}

pub open spec fn spec_is_form_package(b: Seq<u8>) -> bool {
    b.len() >= 5 && b[3] == PACKAGE_FORMS && b[4] == IFR_FORM_SET_OP
}

/// Opcode range of a body: after the 4-byte header of a form package (up to
/// its declared length), or the whole body otherwise.
pub open spec fn spec_package_bounds(b: Seq<u8>) -> (int, int) {
    if spec_is_form_package(b) {
        (4, if le24(b, 0) < b.len() {
            le24(b, 0)
        } else {
            b.len() as int
        })
    } else {
        (0, b.len() as int)
    }
}

/// A form package starts with a FORM_SET opcode right after its header.
pub fn is_form_package(body: &[u8]) -> (r: bool)
    ensures
        r == spec_is_form_package(body@),
{
    body.len() >= 5 && body[3] == PACKAGE_FORMS && body[4] == IFR_FORM_SET_OP
}

pub fn package_bounds(body: &[u8]) -> (r: (usize, usize))
    ensures
        r.0 == spec_package_bounds(body@).0,
        r.1 == spec_package_bounds(body@).1,
        r.1 <= body@.len(),
{
    if is_form_package(body) {
        let plen = read_u24(body, 0) as usize;
        (4, if plen < body.len() {
            plen
        } else {
            body.len()
        })
    } else {
        (0, body.len())
    }
}

/// Header of the opcode at `i`: its code, length and scope bit.
pub fn op_header(b: &[u8], i: usize) -> (r: (u8, usize, bool))
    requires
        i + 2 <= b@.len(),
    ensures
        r.0 == b@[i as int],
        r.1 == op_len(b@, i as int),
        r.2 == op_scoped(b@, i as int),
{
    let n = b.len();
    let x = b[i + 1];
    assert(x & 0x7F == x % 128 && ((x & 0x80 != 0) == (x >= 128))) by (bit_vector);
    (b[i], (x & 0x7F) as usize, x & 0x80 != 0)
}

/// Position of the END that closes a scope entered at depth `depth`, when
/// scanning opcodes from `j`; `None` when the walk breaks or runs out first.
pub open spec fn scope_close(b: Seq<u8>, end: int, j: int, depth: int) -> Option<int>
    decreases end - j,
{
    if j + 2 > end || !op_ok(b, end, j) {
        None
    } else if b[j] == IFR_END_OP {
        if depth <= 1 {
            Some(j)
        } else {
            scope_close(b, end, j + op_len(b, j), depth - 1)
        }
    } else if op_scoped(b, j) {
        scope_close(b, end, j + op_len(b, j), depth + 1)
    } else {
        scope_close(b, end, j + op_len(b, j), depth)
    }
}

pub proof fn lemma_scope_close(b: Seq<u8>, end: int, j: int, depth: int)
    requires
        0 <= j,
        end <= b.len(),
    ensures
        scope_close(b, end, j, depth) matches Some(k) ==> j <= k && k + 2 <= end && b[k]
            == IFR_END_OP,
    decreases end - j,
{
    if j + 2 <= end && op_ok(b, end, j) {
        if !(b[j] == IFR_END_OP && depth <= 1) {
            lemma_scope_close(b, end, j + op_len(b, j), if b[j] == IFR_END_OP {
                depth - 1
            } else if op_scoped(b, j) {
                depth + 1
            } else {
                depth
            });
        }
    }
}

/// Scans for the END closing the scope entered at `depth` from `j`.
fn find_scope_close(b: &[u8], end: usize, from: usize, start_depth: usize) -> (r: Option<usize>)
    requires
        end <= b@.len(),
        start_depth >= 1,
    ensures
        r == (match scope_close(b@, end as int, from as int, start_depth as int) {
            Some(k) => Some(k as usize),
            None => None::<usize>,
        }),
        scope_close(b@, end as int, from as int, start_depth as int) matches Some(k) ==> from <= k
            && k + 2 <= end,
{
    proof {
        lemma_scope_close(b@, end as int, from as int, start_depth as int);
    }
    let mut j = from;
    let mut depth = start_depth;
    let ghost j0 = j;
    let ghost d0 = depth;
    while j <= end && end - j >= 2
        invariant
            end <= b@.len(),
            depth >= 1,
            j0 == from,
            d0 == start_depth,
            scope_close(b@, end as int, from as int, start_depth as int) matches Some(k) ==> from
                <= k && k + 2 <= end,
            scope_close(b@, end as int, j0 as int, d0 as int) == scope_close(
                b@,
                end as int,
                j as int,
                depth as int,
            ),
        decreases end - j,
    {
        let (op, len, scoped) = op_header(b, j);
        if len < 2 || len > end - j {
            assert(scope_close(b@, end as int, j as int, depth as int).is_none());
            return None;
        }
        if op == IFR_END_OP {
            if depth == 1 {
                assert(scope_close(b@, end as int, j as int, depth as int) == Some(j as int));
                return Some(j);
            }
            depth = depth - 1;
        } else if scoped {
            if depth == usize::MAX {
                // more open scopes than bytes: the walk cannot close them
                proof {
                    lemma_scope_close_depth(b@, end as int, j + len, depth + 1);
                }
                assert(scope_close(b@, end as int, j as int, depth as int).is_none());
                return None;
            }
            depth = depth + 1;
        }
        j = j + len;
    }
    assert(scope_close(b@, end as int, j as int, depth as int).is_none());
    None
}

/// From depth `d`, closing needs at least `d - 1` more END opcodes, each two
/// bytes or more: a depth above the remaining bytes never closes.
proof fn lemma_scope_close_depth(b: Seq<u8>, end: int, j: int, d: int)
    requires
        d > end - j + 1,
        d >= 1,
    ensures
        scope_close(b, end, j, d).is_none(),
    decreases end - j,
{
    if j + 2 <= end && op_ok(b, end, j) {
        lemma_scope_close_depth(b, end, j + op_len(b, j), if b[j] == IFR_END_OP {
            d - 1
        } else if op_scoped(b, j) {
            d + 1
        } else {
            d
        });
    }
}

/// The SUPPRESS_IF scopes found walking opcodes from `i`: each scope's
/// content, then the walk resumes two bytes after its END.
pub open spec fn suppress_scopes_from(b: Seq<u8>, end: int, i: int) -> Seq<SuppressScope>
    decreases end - i,
{
    if i < 0 || i + 2 > end || !op_ok(b, end, i) {
        seq![]
    } else if b[i] == IFR_SUPPRESS_IF_OP && op_scoped(b, i) {
        match scope_close(b, end, i + 2, 1) {
            Some(j) => if j >= i + 2 && j + 2 <= end {
                seq![SuppressScope { start: (i + 2) as usize, end: j as usize }]
                    + suppress_scopes_from(b, end, j + 2)
            } else {
                seq![]
            },
            None => seq![],
        }
    } else {
        suppress_scopes_from(b, end, i + op_len(b, i))
    }
}

pub open spec fn spec_find_suppress_if_scopes(b: Seq<u8>) -> Seq<SuppressScope> {
    suppress_scopes_from(b, spec_package_bounds(b).1, spec_package_bounds(b).0)
}

/// Every SUPPRESS_IF scope of the package, in walk order.
pub fn find_suppress_if_scopes(body: &[u8]) -> (scopes: Vec<SuppressScope>)
    ensures
        scopes@ == spec_find_suppress_if_scopes(body@),
{
    let (start, end) = package_bounds(body);
    let mut scopes: Vec<SuppressScope> = Vec::new();
    let mut i = start;
    while i <= end && end - i >= 2
        invariant
            end <= body@.len(),
            start == spec_package_bounds(body@).0,
            end == spec_package_bounds(body@).1,
            scopes@ + suppress_scopes_from(body@, end as int, i as int) == suppress_scopes_from(
                body@,
                end as int,
                start as int,
            ),
        decreases end - i,
    {
        let (op, length, scoped) = op_header(body, i);
        if length < 2 || length > end - i {
            assert(scopes@ =~= scopes@ + suppress_scopes_from(body@, end as int, i as int));
            return scopes;
        }
        if op == IFR_SUPPRESS_IF_OP && scoped {
            let scope_start = i + 2;
            match find_scope_close(body, end, scope_start, 1) {
                Some(j) => {
                    proof {
                        lemma_scope_close(body@, end as int, scope_start as int, 1);
                    }
                    let ghost before = scopes@;
                    scopes.push(SuppressScope { start: scope_start, end: j });
                    assert(scopes@ + suppress_scopes_from(body@, end as int, j + 2) =~= before
                        + suppress_scopes_from(body@, end as int, i as int));
                    i = j + 2;
                },
                None => {
                    assert(scopes@ =~= scopes@ + suppress_scopes_from(body@, end as int, i as int));
                    return scopes;
                },
            }
        } else {
            i = i + length;
        }
    }
    assert(scopes@ =~= scopes@ + suppress_scopes_from(body@, end as int, i as int));
    scopes
}

/// Empties a SUPPRESS_IF: its END moves to right after the SUPPRESS_IF
/// header and the condition bytes shift two places up. Nothing changes
/// unless a two-byte END sits at `scope.end`.
pub open spec fn spec_unsuppress(b: Seq<u8>, start: int, end: int) -> Seq<u8> {
    if end + 2 > b.len() || b[end] != 0x29 || b[end + 1] != 0x02 {
        b
    } else {
        b.subrange(0, start) + seq![0x29u8, 0x02u8] + b.subrange(start, end) + b.subrange(
            end + 2,
            b.len() as int,
        )
    }
}

pub fn unsuppress(ifr: &mut [u8], scope: &SuppressScope)
    requires
        scope.start <= scope.end,
    ensures
        final(ifr)@ == spec_unsuppress(old(ifr)@, scope.start as int, scope.end as int),
{
    let n = ifr.len();
    if scope.end > n || n - scope.end < 2 || ifr[scope.end] != 0x29 || ifr[scope.end + 1] != 0x02 {
        return;
    }
    let s = scope.start;
    let e = scope.end;
    let mut k = e;
    while k > s
        invariant
            n == ifr@.len(),
            n == old(ifr)@.len(),
            s <= k <= e,
            e + 2 <= n,
            forall|j: int|
                0 <= j < n ==> #[trigger] ifr@[j] == if k + 2 <= j < e + 2 {
                    old(ifr)@[j - 2]
                } else {
                    old(ifr)@[j]
                },
        decreases k - s,
    {
        k = k - 1;
        let v = ifr[k];
        ifr[k + 2] = v;
    }
    ifr[s] = 0x29;
    ifr[s + 1] = 0x02;
    assert(ifr@ =~= spec_unsuppress(old(ifr)@, s as int, e as int));
}

/// Unsuppressing keeps the package's length and every byte outside the
/// scope; where it applies, the scope is closed right after the SUPPRESS_IF
/// header and the condition bytes follow that END unchanged.
pub proof fn law_unsuppress_keeps_length(b: Seq<u8>, start: int, end: int)
    requires
        0 <= start <= end,
    ensures
        spec_unsuppress(b, start, end).len() == b.len(),
        forall|i: int|
            0 <= i < b.len() && !(start <= i < end + 2) ==> #[trigger] spec_unsuppress(b, start, end)[i]
                == b[i],
        end + 2 <= b.len() && b[end] == 0x29 && b[end + 1] == 0x02 ==> {
            &&& spec_unsuppress(b, start, end).subrange(start, start + 2) == seq![0x29u8, 0x02u8]
            &&& spec_unsuppress(b, start, end).subrange(start + 2, end + 2) == b.subrange(start, end)
        },
{
    if end + 2 <= b.len() && b[end] == 0x29 && b[end + 1] == 0x02 {
        let u = spec_unsuppress(b, start, end);
        assert(u.subrange(start, start + 2) =~= seq![0x29u8, 0x02u8]);
        assert(u.subrange(start + 2, end + 2) =~= b.subrange(start, end));
    }
}

/// The scope stack entries a walk keeps: the opcode that opened a scope and
/// the position right after its header.
pub open spec fn pop_open(open: Seq<(u8, int)>) -> Seq<(u8, int)> {
    if open.len() == 0 {
        open
    } else {
        open.drop_last()
    }
}

/// Index of the outermost open SUPPRESS_IF.
pub open spec fn first_suppress(open: Seq<(u8, int)>) -> Option<int>
    decreases open.len(),
{
    if open.len() == 0 {
        None
    } else {
        match first_suppress(open.drop_last()) {
            Some(k) => Some(k),
            None => if open.last().0 == IFR_SUPPRESS_IF_OP {
                Some(open.len() - 1)
            } else {
                None
            },
        }
    }
}

/// The form `form_id`'s own suppression: the outermost SUPPRESS_IF open at
/// the FORM opcode, closed where the scope depth around the form falls back
/// to that SUPPRESS_IF's level.
pub open spec fn form_suppress_from(
    b: Seq<u8>,
    end: int,
    i: int,
    open: Seq<(u8, int)>,
    form_id: u16,
) -> Option<SuppressScope>
    decreases end - i,
{
    if i < 0 || i + 2 > end || !op_ok(b, end, i) {
        None
    } else {
        let len = op_len(b, i);
        if b[i] == IFR_FORM_OP && len >= 6 && le16(b, i + 2) == form_id && first_suppress(
            open,
        ).is_some() {
            let k = first_suppress(open).unwrap();
            match scope_close(b, end, i + len, open.len() - k) {
                Some(j) => Some(SuppressScope { start: open[k].1 as usize, end: j as usize }),
                None => None,
            }
        } else if b[i] == IFR_END_OP {
            form_suppress_from(b, end, i + len, pop_open(open), form_id)
        } else if op_scoped(b, i) {
            form_suppress_from(b, end, i + len, open.push((b[i], i + 2)), form_id)
        } else {
            form_suppress_from(b, end, i + len, open, form_id)
        }
    }
}

pub open spec fn spec_find_form_suppress_scope(b: Seq<u8>, form_id: u16) -> Option<SuppressScope> {
    form_suppress_from(b, spec_package_bounds(b).1, spec_package_bounds(b).0, seq![], form_id)
}

proof fn lemma_first_suppress(open: Seq<(u8, int)>)
    ensures
        first_suppress(open) matches Some(k) ==> 0 <= k < open.len() && open[k].0
            == IFR_SUPPRESS_IF_OP && forall|m: int| 0 <= m < k ==> open[m].0 != IFR_SUPPRESS_IF_OP,
        first_suppress(open).is_none() ==> forall|m: int|
            0 <= m < open.len() ==> open[m].0 != IFR_SUPPRESS_IF_OP,
    decreases open.len(),
{
    if open.len() > 0 {
        let prev = open.drop_last();
        lemma_first_suppress(prev);
        assert forall|m: int| 0 <= m < prev.len() implies prev[m] == open[m] by {}
    }
}

proof fn lemma_form_suppress_ordered(b: Seq<u8>, end: int, i: int, open: Seq<(u8, int)>, form_id: u16)
    requires
        0 <= i,
        end <= b.len() <= usize::MAX,
        forall|m: int| 0 <= m < open.len() ==> 0 <= #[trigger] open[m].1 <= i,
    ensures
        form_suppress_from(b, end, i, open, form_id) matches Some(s) ==> s.start <= s.end,
    decreases end - i,
{
    if !(i < 0 || i + 2 > end || !op_ok(b, end, i)) {
        let len = op_len(b, i);
        if b[i] == IFR_FORM_OP && len >= 6 && le16(b, i + 2) == form_id && first_suppress(
            open,
        ).is_some() {
            lemma_first_suppress(open);
            let k = first_suppress(open).unwrap();
            lemma_scope_close(b, end, i + len, open.len() - k);
            assert(open[k].1 <= i);
        } else if b[i] == IFR_END_OP {
            let p = pop_open(open);
            assert forall|m: int| 0 <= m < p.len() implies 0 <= #[trigger] p[m].1 <= i + len by {
                assert(p[m] == open[m]);
            }
            lemma_form_suppress_ordered(b, end, i + len, p, form_id);
        } else if op_scoped(b, i) {
            let p = open.push((b[i], i + 2));
            assert forall|m: int| 0 <= m < p.len() implies 0 <= #[trigger] p[m].1 <= i + len by {
                if m < open.len() {
                    assert(p[m] == open[m]);
                }
            }
            lemma_form_suppress_ordered(b, end, i + len, p, form_id);
        } else {
            assert forall|m: int| 0 <= m < open.len() implies 0 <= #[trigger] open[m].1 <= i + len by {}
            lemma_form_suppress_ordered(b, end, i + len, open, form_id);
        }
    }
}

proof fn lemma_suppress_scopes_ordered(b: Seq<u8>, end: int, i: int)
    requires
        end <= b.len() <= usize::MAX,
    ensures
        forall|k: int|
            0 <= k < suppress_scopes_from(b, end, i).len() ==> #[trigger] suppress_scopes_from(
                b,
                end,
                i,
            )[k].start <= suppress_scopes_from(b, end, i)[k].end,
    decreases end - i,
{
    let all = suppress_scopes_from(b, end, i);
    if i < 0 || i + 2 > end || !op_ok(b, end, i) {
        assert(all.len() == 0);
    } else if b[i] == IFR_SUPPRESS_IF_OP && op_scoped(b, i) {
        match scope_close(b, end, i + 2, 1) {
            Some(j) => {
                if j >= i + 2 && j + 2 <= end {
                    lemma_suppress_scopes_ordered(b, end, j + 2);
                    let rest = suppress_scopes_from(b, end, j + 2);
                    let first = SuppressScope { start: (i + 2) as usize, end: j as usize };
                    assert(all == seq![first] + rest);
                    assert forall|k: int| 0 <= k < all.len() implies #[trigger] all[k].start
                        <= all[k].end by {
                        if k > 0 {
                            assert(all[k] == rest[k - 1]);
                        } else {
                            assert(all[0] == first);
                        }
                    }
                } else {
                    assert(all.len() == 0);
                }
            },
            None => {
                assert(all.len() == 0);
            },
        }
    } else {
        lemma_suppress_scopes_ordered(b, end, i + op_len(b, i));
        assert(all == suppress_scopes_from(b, end, i + op_len(b, i)));
    }
}

/// The scopes the walkers report open before they close.
pub proof fn lemma_found_scopes_ordered(b: Seq<u8>, form_id: u16)
    requires
        b.len() <= usize::MAX,
    ensures
        spec_find_form_suppress_scope(b, form_id) matches Some(s) ==> s.start <= s.end,
        forall|k: int|
            0 <= k < spec_find_suppress_if_scopes(b).len() ==> #[trigger] spec_find_suppress_if_scopes(
                b,
            )[k].start <= spec_find_suppress_if_scopes(b)[k].end,
{
    let (start, end) = spec_package_bounds(b);
    assert(0 <= start && end <= b.len());
    lemma_form_suppress_ordered(b, end, start, seq![], form_id);
    lemma_suppress_scopes_ordered(b, end, start);
}

/// The SUPPRESS_IF scope that hides form `form_id`, if the form sits in one.
pub fn find_form_suppress_scope(body: &[u8], form_id: u16) -> (r: Option<SuppressScope>)
    ensures
        r == spec_find_form_suppress_scope(body@, form_id),
{
    let (start, end) = package_bounds(body);
    let mut open_ops: Vec<u8> = Vec::new();
    let mut open_pos: Vec<usize> = Vec::new();
    let ghost mut open: Seq<(u8, int)> = seq![];
    let mut i = start;
    while i <= end && end - i >= 2
        invariant
            end <= body@.len(),
            start == spec_package_bounds(body@).0,
            end == spec_package_bounds(body@).1,
            open_ops@.len() == open.len(),
            open_pos@.len() == open.len(),
            forall|m: int|
                0 <= m < open.len() ==> open[m] == (#[trigger] open_ops@[m], open_pos@[m] as int),
            form_suppress_from(body@, end as int, i as int, open, form_id) == form_suppress_from(
                body@,
                end as int,
                start as int,
                seq![],
                form_id,
            ),
        decreases end - i,
    {
        let (op_code, length, scoped) = op_header(body, i);
        if length < 2 || length > end - i {
            return None;
        }
        if op_code == IFR_FORM_OP && length >= 6 && read_u16(body, i + 2) == form_id {
            let mut k: usize = 0;
            while k < open_ops.len() && open_ops[k] != IFR_SUPPRESS_IF_OP
                invariant
                    k <= open_ops@.len(),
                    forall|m: int| 0 <= m < k ==> open_ops@[m] != IFR_SUPPRESS_IF_OP,
                decreases open_ops@.len() - k,
            {
                k = k + 1;
            }
            proof {
                lemma_first_suppress(open);
            }
            if k < open_ops.len() {
                proof {
                    assert(open[k as int].0 == open_ops@[k as int]);
                    if let Some(k2) = first_suppress(open) {
                        assert(open[k2].0 == open_ops@[k2]);
                    }
                }
                assert(first_suppress(open) == Some(k as int));
                let depth = open_ops.len() - k;
                match find_scope_close(body, end, i + length, depth) {
                    Some(j) => {
                        return Some(SuppressScope { start: open_pos[k], end: j });
                    },
                    None => {
                        return None;
                    },
                }
            }
            proof {
                if let Some(k2) = first_suppress(open) {
                    assert(open[k2].0 == open_ops@[k2]);
                }
            }
            assert(first_suppress(open).is_none());
        }
        if op_code == IFR_END_OP {
            if open_ops.len() > 0 {
                open_ops.pop();
                open_pos.pop();
                proof {
                    open = open.drop_last();
                }
            }
        } else if scoped {
            open_ops.push(op_code);
            open_pos.push(i + 2);
            proof {
                open = open.push((op_code, i + 2));
            }
        }
        i = i + length;
    }
    None
}

/// Statements whose prompt and help string ids sit at +2 and +4.
pub open spec fn is_prompt_help_op(op: u8) -> bool {
    op == IFR_SUBTITLE_OP || op == IFR_ONE_OF_OP || op == IFR_CHECKBOX_OP || op == IFR_NUMERIC_OP
        || op == IFR_PASSWORD_OP || op == IFR_ACTION_OP || op == IFR_REF_OP || op == IFR_DATE_OP
        || op == IFR_TIME_OP || op == IFR_STRING_OP || op == IFR_ORDERED_LIST_OP
}

/// The string ids one opcode names, in field order.
pub open spec fn op_string_ids(b: Seq<u8>, j: int, len: int) -> Seq<u16> {
    let op = b[j];
    if is_prompt_help_op(op) {
        if len >= 6 {
            seq![le16(b, j + 2) as u16, le16(b, j + 4) as u16]
        } else {
            seq![]
        }
    } else if op == IFR_TEXT_OP {
        if len >= 8 {
            seq![le16(b, j + 2) as u16, le16(b, j + 4) as u16, le16(b, j + 6) as u16]
        } else {
            seq![]
        }
    } else if op == IFR_ONE_OF_OPTION_OP && len >= 4 {
        seq![le16(b, j + 2) as u16]
    } else {
        seq![]
    }
}

/// The string ids named inside a form body scanned from `j` at nesting
/// `depth`, up to the END that closes the form.
pub open spec fn form_body_ids(b: Seq<u8>, end: int, j: int, depth: int) -> Seq<u16>
    decreases end - j,
{
    if j < 0 || j + 2 > end || !op_ok(b, end, j) {
        seq![]
    } else if b[j] == IFR_END_OP {
        if depth <= 0 {
            seq![]
        } else {
            form_body_ids(b, end, j + op_len(b, j), depth - 1)
        }
    } else {
        op_string_ids(b, j, op_len(b, j)) + form_body_ids(
            b,
            end,
            j + op_len(b, j),
            if op_scoped(b, j) {
                depth + 1
            } else {
                depth
            },
        )
    }
}

/// The ids named by form `form_id` (its title first), before filtering.
pub open spec fn form_ids_from(b: Seq<u8>, end: int, i: int, form_id: u16) -> Seq<u16>
    decreases end - i,
{
    if i < 0 || i + 2 > end || !op_ok(b, end, i) {
        seq![]
    } else if b[i] == IFR_FORM_OP && op_len(b, i) >= 6 && le16(b, i + 2) == form_id {
        seq![le16(b, i + 4) as u16] + form_body_ids(b, end, i + op_len(b, i), 0)
    } else {
        form_ids_from(b, end, i + op_len(b, i), form_id)
    }
}

/// `s` without zeros and without repeats, first occurrences kept in order.
pub open spec fn dedup_nonzero(s: Seq<u16>) -> Seq<u16>
    decreases s.len(),
{
    if s.len() == 0 {
        seq![]
    } else {
        let d = dedup_nonzero(s.drop_last());
        if s.last() != 0 && !d.contains(s.last()) {
            d.push(s.last())
        } else {
            d
        }
    }
}

pub open spec fn spec_collect_form_string_ids(b: Seq<u8>, form_id: u16) -> Seq<u16> {
    dedup_nonzero(
        form_ids_from(b, spec_package_bounds(b).1, spec_package_bounds(b).0, form_id),
    )
}

fn push_id(out: &mut Vec<u16>, id: u16, ghost_all: Ghost<Seq<u16>>)
    requires
        old(out)@ == dedup_nonzero(ghost_all@),
    ensures
        final(out)@ == dedup_nonzero(ghost_all@.push(id)),
{
    let ghost all = ghost_all@;
    assert(all.push(id).drop_last() =~= all);
    if id == 0 {
        return;
    }
    let mut k: usize = 0;
    while k < out.len()
        invariant
            out@ == old(out)@,
            all == ghost_all@,
            old(out)@ == dedup_nonzero(all),
            all.push(id).drop_last() == all,
            k <= out@.len(),
            forall|m: int| 0 <= m < k ==> out@[m] != id,
        decreases out@.len() - k,
    {
        if out[k] == id {
            assert(out@[k as int] == id);
            assert(out@.contains(id));
            assert(all.push(id).last() == id);
            assert(dedup_nonzero(all.push(id)) == dedup_nonzero(all));
            return;
        }
        k = k + 1;
    }
    out.push(id);
}

fn push_op_ids(out: &mut Vec<u16>, b: &[u8], j: usize, len: usize, ghost_all: Ghost<Seq<u16>>)
    requires
        old(out)@ == dedup_nonzero(ghost_all@),
        j + len <= b@.len(),
        j + 2 <= b@.len(),
        len >= 2,
    ensures
        final(out)@ == dedup_nonzero(ghost_all@ + op_string_ids(b@, j as int, len as int)),
{
    let ghost all = ghost_all@;
    let op = b[j];
    let is_ph = op == IFR_SUBTITLE_OP || op == IFR_ONE_OF_OP || op == IFR_CHECKBOX_OP || op
        == IFR_NUMERIC_OP || op == IFR_PASSWORD_OP || op == IFR_ACTION_OP || op == IFR_REF_OP
        || op == IFR_DATE_OP || op == IFR_TIME_OP || op == IFR_STRING_OP || op
        == IFR_ORDERED_LIST_OP;
    if is_ph {
        if len >= 6 {
            let p = read_u16(b, j + 2);
            let h = read_u16(b, j + 4);
            push_id(out, p, Ghost(all));
            push_id(out, h, Ghost(all.push(p)));
            assert(all + op_string_ids(b@, j as int, len as int) =~= all.push(p).push(h));
        } else {
            assert(all + op_string_ids(b@, j as int, len as int) =~= all);
        }
    } else if op == IFR_TEXT_OP {
        if len >= 8 {
            let p = read_u16(b, j + 2);
            let h = read_u16(b, j + 4);
            let t = read_u16(b, j + 6);
            push_id(out, p, Ghost(all));
            push_id(out, h, Ghost(all.push(p)));
            push_id(out, t, Ghost(all.push(p).push(h)));
            assert(all + op_string_ids(b@, j as int, len as int) =~= all.push(p).push(h).push(t));
        } else {
            assert(all + op_string_ids(b@, j as int, len as int) =~= all);
        }
    } else if op == IFR_ONE_OF_OPTION_OP && len >= 4 {
        let p = read_u16(b, j + 2);
        push_id(out, p, Ghost(all));
        assert(all + op_string_ids(b@, j as int, len as int) =~= all.push(p));
    } else {
        assert(all + op_string_ids(b@, j as int, len as int) =~= all);
    }
}

/// The string ids form `form_id` names (title, prompts, helps, texts,
/// option labels), zeros and repeats dropped, in order of appearance.
pub fn collect_form_string_ids(body: &[u8], form_id: u16) -> (out: Vec<u16>)
    ensures
        out@ == spec_collect_form_string_ids(body@, form_id),
{
    let (start, end) = package_bounds(body);
    let mut out: Vec<u16> = Vec::new();
    let mut i = start;
    while i <= end && end - i >= 2
        invariant
            end <= body@.len(),
            start == spec_package_bounds(body@).0,
            end == spec_package_bounds(body@).1,
            out@ == Seq::<u16>::empty(),
            form_ids_from(body@, end as int, i as int, form_id) == form_ids_from(
                body@,
                end as int,
                start as int,
                form_id,
            ),
        decreases end - i,
    {
        let (op_code, length, scoped) = op_header(body, i);
        if length < 2 || length > end - i {
            return out;
        }
        if op_code == IFR_FORM_OP && length >= 6 && read_u16(body, i + 2) == form_id {
            let title = read_u16(body, i + 4);
            assert(form_ids_from(body@, end as int, i as int, form_id) == seq![title]
                + form_body_ids(body@, end as int, i + length, 0));
            push_id(&mut out, title, Ghost(Seq::<u16>::empty()));
            let ghost mut all: Seq<u16> = seq![title];
            assert(seq![title] =~= Seq::<u16>::empty().push(title));
            let mut depth: usize = 0;
            let mut j = i + length;
            while j <= end && end - j >= 2
                invariant
                    end <= body@.len(),
                    out@ == dedup_nonzero(all),
                    spec_collect_form_string_ids(body@, form_id) == dedup_nonzero(
                        seq![title] + form_body_ids(body@, end as int, i + length, 0),
                    ),
                    all + form_body_ids(body@, end as int, j as int, depth as int) == seq![title]
                        + form_body_ids(body@, end as int, i + length, 0),
                    depth <= j,
                decreases end - j,
            {
                let (inner_op, inner_len, inner_scoped) = op_header(body, j);
                if inner_len < 2 || inner_len > end - j {
                    assert(all =~= all + form_body_ids(body@, end as int, j as int, depth as int));
                    return out;
                }
                if inner_op == IFR_END_OP {
                    if depth == 0 {
                        assert(all =~= all + form_body_ids(
                            body@,
                            end as int,
                            j as int,
                            depth as int,
                        ));
                        return out;
                    }
                    depth = depth - 1;
                } else {
                    push_op_ids(&mut out, body, j, inner_len, Ghost(all));
                    proof {
                        all = all + op_string_ids(body@, j as int, inner_len as int);
                    }
                    assert(all + form_body_ids(
                        body@,
                        end as int,
                        j + inner_len,
                        if inner_scoped {
                            depth + 1
                        } else {
                            depth as int
                        },
                    ) =~= seq![title] + form_body_ids(body@, end as int, i + length, 0));
                    if inner_scoped {
                        depth = depth + 1;
                    }
                }
                j = j + inner_len;
            }
            assert(all =~= all + form_body_ids(body@, end as int, j as int, depth as int));
            return out;
        }
        i = i + length;
    }
    out
}

/// Net scope depth of a form package: +1 per scoped opcode, -1 per END,
/// walking from offset 4 until a length below 2 or the end.
pub open spec fn balance_from(b: Seq<u8>, i: int) -> int
    decreases b.len() + 256 - i,
{
    if i < 0 || i + 2 > b.len() || op_len(b, i) < 2 {
        0
    } else if b[i] == IFR_END_OP {
        balance_from(b, i + op_len(b, i)) - 1
    } else if op_scoped(b, i) {
        balance_from(b, i + op_len(b, i)) + 1
    } else {
        balance_from(b, i + op_len(b, i))
    }
}

proof fn lemma_balance_bound(b: Seq<u8>, i: int)
    requires
        0 <= i,
    ensures
        i >= b.len() ==> balance_from(b, i) == 0,
        i < b.len() ==> -(b.len() - i) <= 2 * balance_from(b, i) <= b.len() - i,
    decreases b.len() + 256 - i,
{
    if !(i + 2 > b.len() || op_len(b, i) < 2) {
        lemma_balance_bound(b, i + op_len(b, i));
    }
}

/// Scope balance of a package (0 for a well-formed one). Every opcode takes
/// at least two bytes, so the balance of a package shorter than 2^32 + 4
/// bytes fits an `i32`.
pub fn scope_balance(pkg: &[u8]) -> (bal: i32)
    requires
        pkg@.len() <= 0x1_0000_0003,
        pkg@.len() + 125 <= usize::MAX,
    ensures
        bal == balance_from(pkg@, 4),
{
    let n = pkg.len();
    let mut bal: i32 = 0;
    let mut i: usize = 4;
    proof {
        lemma_balance_bound(pkg@, 4);
    }
    while i <= n && n - i >= 2
        invariant
            n == pkg@.len(),
            n <= 0x1_0000_0003,
            n + 125 <= usize::MAX,
            4 <= i,
            bal + balance_from(pkg@, i as int) == balance_from(pkg@, 4),
            -(i - 4) <= 2 * bal <= i - 4,
            i <= n + 125,
        ensures
            bal == balance_from(pkg@, 4),
        decreases n + 256 - i,
    {
        proof {
            lemma_balance_bound(pkg@, i as int);
        }
        let (op, len, scoped) = op_header(pkg, i);
        if len < 2 {
            break;
        }
        if op == IFR_END_OP {
            bal = bal - 1;
        } else if scoped {
            bal = bal + 1;
        }
        i = i + len;
    }
    bal
}

/// The FORM_SET number `idx` (counting from 0 as `seen` FORM_SETs were
/// passed): the offset right after its header and the offset of its END.
pub open spec fn formset_points_from(b: Seq<u8>, end: int, i: int, seen: int, idx: int) -> Option<
    (int, int),
>
    decreases end - i,
{
    if i < 0 || i + 2 > end || !op_ok(b, end, i) {
        None
    } else if b[i] == IFR_FORM_SET_OP {
        if seen == idx {
            match scope_close(b, end, i + op_len(b, i), 1) {
                Some(j) => Some((i + op_len(b, i), j)),
                None => None,
            }
        } else {
            formset_points_from(b, end, i + op_len(b, i), seen + 1, idx)
        }
    } else {
        formset_points_from(b, end, i + op_len(b, i), seen, idx)
    }
}

pub open spec fn spec_formset_insert_points(b: Seq<u8>, idx: int) -> Option<(int, int)> {
    if !spec_is_form_package(b) {
        None
    } else {
        formset_points_from(b, spec_package_bounds(b).1, 4, 0, idx)
    }
}

proof fn lemma_formset_points(b: Seq<u8>, end: int, i: int, seen: int, idx: int)
    requires
        0 <= i,
        end <= b.len(),
    ensures
        formset_points_from(b, end, i, seen, idx) matches Some((a, e)) ==> i < a <= e && e + 2
            <= end && b[e] == IFR_END_OP,
    decreases end - i,
{
    if i + 2 <= end && op_ok(b, end, i) {
        if b[i] == IFR_FORM_SET_OP && seen == idx {
            lemma_scope_close(b, end, i + op_len(b, i), 1);
        } else if b[i] == IFR_FORM_SET_OP {
            lemma_formset_points(b, end, i + op_len(b, i), seen + 1, idx);
        } else {
            lemma_formset_points(b, end, i + op_len(b, i), seen, idx);
        }
    }
}

fn locate_formset_insert_points(body: &[u8], formset_idx: usize) -> (r: Option<(usize, usize)>)
    ensures
        r matches Some((a, e)) ==> spec_formset_insert_points(body@, formset_idx as int) == Some(
            (a as int, e as int),
        ),
        r.is_none() ==> spec_formset_insert_points(body@, formset_idx as int).is_none(),
{
    if !is_form_package(body) {
        return None;
    }
    let (_, end) = package_bounds(body);
    proof {
        lemma_formset_points(body@, end as int, 4, 0, formset_idx as int);
    }
    let mut seen: usize = 0;
    let mut i: usize = 4;
    while i <= end && end - i >= 2
        invariant
            end <= body@.len(),
            end == spec_package_bounds(body@).1,
            spec_is_form_package(body@),
            seen <= i,
            formset_points_from(body@, end as int, i as int, seen as int, formset_idx as int)
                == spec_formset_insert_points(body@, formset_idx as int),
        decreases end - i,
    {
        let (op_code, length, _scoped) = op_header(body, i);
        if length < 2 || length > end - i {
            return None;
        }
        if op_code == IFR_FORM_SET_OP {
            if seen == formset_idx {
                match find_scope_close(body, end, i + length, 1) {
                    Some(j) => {
                        return Some((i + length, j));
                    },
                    None => {
                        return None;
                    },
                }
            }
            seen = seen + 1;
        }
        i = i + length;
    }
    None
}

/// Offset right after the header of FORM_SET number `formset_idx` and offset
/// of its END, in a form package.
pub fn formset_insert_points(pkg: &[u8], formset_idx: usize) -> (r: Option<(usize, usize)>)
    ensures
        r matches Some((a, e)) ==> spec_formset_insert_points(pkg@, formset_idx as int) == Some(
            (a as int, e as int),
        ),
        r.is_none() ==> spec_formset_insert_points(pkg@, formset_idx as int).is_none(),
{
    locate_formset_insert_points(pkg, formset_idx)
}

/// The package holds a FORM_SET number `formset_idx` closed by an END.
pub fn formset_at(pkg: &[u8], formset_idx: usize) -> (r: bool)
    ensures
        r == spec_formset_insert_points(pkg@, formset_idx as int).is_some(),
{
    locate_formset_insert_points(pkg, formset_idx).is_some()
}

/// The three little-endian bytes of `v` modulo 2^24 (a package length field).
pub open spec fn len24_bytes(v: int) -> Seq<u8> {
    seq![(v % 256) as u8, ((v / 256) % 256) as u8, ((v / 65536) % 256) as u8]
}

fn len24_vec(v: usize) -> (r: Vec<u8>)
    ensures
        r@ == len24_bytes(v as int),
{
    let mut r: Vec<u8> = Vec::new();
    r.push((v & 0xFF) as u8);
    r.push(((v >> 8usize) & 0xFF) as u8);
    r.push(((v >> 16usize) & 0xFF) as u8);
    assert((v & 0xFF) == v % 256 && ((v >> 8usize) & 0xFF) == (v / 256) % 256 && ((v >> 16usize)
        & 0xFF) == (v / 65536) % 256) by (bit_vector);
    assert(r@ =~= len24_bytes(v as int));
    r
}

/// A package with `grow` bytes added: its 24-bit length field raised by
/// `grow` (wrapping at 2^24).
pub open spec fn with_length_grown(b: Seq<u8>, old_pkg: Seq<u8>, grow: int) -> Seq<u8> {
    splice_at(b, 0, len24_bytes(le24(old_pkg, 0) + grow))
}

/// `pkg` with the form `form_ifr` placed before the END of FORM_SET number
/// `formset_idx` and `varstores` right after its header.
pub open spec fn spec_insert_form(pkg: Seq<u8>, a: int, e: int, form_ifr: Seq<u8>, varstores: Seq<
    u8,
>) -> Seq<u8> {
    with_length_grown(
        pkg.subrange(0, a) + varstores + pkg.subrange(a, e) + form_ifr + pkg.subrange(
            e,
            pkg.len() as int,
        ),
        pkg,
        (varstores.len() + form_ifr.len()) as int,
    )
}

/// Inserts a form into FORM_SET number `formset_idx`; `false` (and no
/// change) when the package has no such FORM_SET.
pub fn insert_form_into_package(
    pkg: &mut Vec<u8>,
    formset_idx: usize,
    form_ifr: &[u8],
    varstores: &[u8],
) -> (r: bool)
    requires
        old(pkg)@.len() + form_ifr@.len() + varstores@.len() + 0x100_0000 <= usize::MAX,
    ensures
        r == spec_formset_insert_points(old(pkg)@, formset_idx as int).is_some(),
        match spec_formset_insert_points(old(pkg)@, formset_idx as int) {
            Some((a, e)) => final(pkg)@ == spec_insert_form(old(pkg)@, a, e, form_ifr@, varstores@),
            None => final(pkg)@ == old(pkg)@,
        },
{
    let (after_header, before_end) = match locate_formset_insert_points(pkg.as_slice(), formset_idx) {
        Some(p) => p,
        None => return false,
    };
    proof {
        lemma_formset_points(
            pkg@,
            spec_package_bounds(pkg@).1,
            4,
            0,
            formset_idx as int,
        );
    }
    let n = pkg.len();
    let plen = read_u24(pkg.as_slice(), 0) as usize;
    let mut out = copy_range(pkg.as_slice(), 0, after_header);
    push_all(&mut out, varstores);
    let mid = copy_range(pkg.as_slice(), after_header, before_end);
    push_all(&mut out, mid.as_slice());
    push_all(&mut out, form_ifr);
    let rest = copy_range(pkg.as_slice(), before_end, n);
    push_all(&mut out, rest.as_slice());
    let grow = varstores.len() + form_ifr.len();
    let hdr = len24_vec(plen + grow);
    write_at(out.as_mut_slice(), 0, hdr.as_slice());
    *pkg = out;
    true
}

/// Where the END of form `form_id` sits, scanning the body of a FORM_SET
/// from `j` at nesting `depth` (1 inside the FORM_SET itself).
pub open spec fn form_end_in_set(b: Seq<u8>, end: int, j: int, depth: int, form_id: u16) -> Option<
    int,
>
    decreases end - j,
{
    if j < 0 || j + 2 > end || !op_ok(b, end, j) {
        None
    } else if b[j] == IFR_FORM_OP && op_len(b, j) >= 6 && le16(b, j + 2) == form_id {
        scope_close(b, end, j + op_len(b, j), 1)
    } else if b[j] == IFR_END_OP {
        if depth <= 1 {
            None
        } else {
            form_end_in_set(b, end, j + op_len(b, j), depth - 1, form_id)
        }
    } else if op_scoped(b, j) {
        form_end_in_set(b, end, j + op_len(b, j), depth + 1, form_id)
    } else {
        form_end_in_set(b, end, j + op_len(b, j), depth, form_id)
    }
}

pub open spec fn form_end_from(b: Seq<u8>, end: int, i: int, seen: int, idx: int, form_id: u16) -> Option<
    int,
>
    decreases end - i,
{
    if i < 0 || i + 2 > end || !op_ok(b, end, i) {
        None
    } else if b[i] == IFR_FORM_SET_OP {
        if seen == idx {
            form_end_in_set(b, end, i + op_len(b, i), 1, form_id)
        } else {
            form_end_from(b, end, i + op_len(b, i), seen + 1, idx, form_id)
        }
    } else {
        form_end_from(b, end, i + op_len(b, i), seen, idx, form_id)
    }
}

/// Offset of the END of form `form_id` inside FORM_SET number `formset_idx`.
pub open spec fn spec_locate_form_end(b: Seq<u8>, idx: int, form_id: u16) -> Option<int> {
    if !spec_is_form_package(b) {
        None
    } else {
        form_end_from(b, spec_package_bounds(b).1, 4, 0, idx, form_id)
    }
}

proof fn lemma_form_end_in_set(b: Seq<u8>, end: int, j: int, depth: int, form_id: u16)
    requires
        0 <= j,
        end <= b.len(),
    ensures
        form_end_in_set(b, end, j, depth, form_id) matches Some(k) ==> j <= k && k + 2 <= end,
    decreases end - j,
{
    if j + 2 <= end && op_ok(b, end, j) {
        if b[j] == IFR_FORM_OP && op_len(b, j) >= 6 && le16(b, j + 2) == form_id {
            lemma_scope_close(b, end, j + op_len(b, j), 1);
        } else {
            lemma_form_end_in_set(b, end, j + op_len(b, j), if b[j] == IFR_END_OP {
                depth - 1
            } else if op_scoped(b, j) {
                depth + 1
            } else {
                depth
            }, form_id);
        }
    }
}

proof fn lemma_form_end_from(b: Seq<u8>, end: int, i: int, seen: int, idx: int, form_id: u16)
    requires
        0 <= i,
        end <= b.len(),
    ensures
        form_end_from(b, end, i, seen, idx, form_id) matches Some(k) ==> i < k && k + 2 <= end,
    decreases end - i,
{
    if i + 2 <= end && op_ok(b, end, i) {
        if b[i] == IFR_FORM_SET_OP && seen == idx {
            lemma_form_end_in_set(b, end, i + op_len(b, i), 1, form_id);
        } else if b[i] == IFR_FORM_SET_OP {
            lemma_form_end_from(b, end, i + op_len(b, i), seen + 1, idx, form_id);
        } else {
            lemma_form_end_from(b, end, i + op_len(b, i), seen, idx, form_id);
        }
    }
}

fn find_form_end_in_set(b: &[u8], end: usize, from: usize, form_id: u16) -> (r: Option<usize>)
    requires
        end <= b@.len(),
    ensures
        r == (match form_end_in_set(b@, end as int, from as int, 1, form_id) {
            Some(k) => Some(k as usize),
            None => None::<usize>,
        }),
        form_end_in_set(b@, end as int, from as int, 1, form_id) matches Some(k) ==> from <= k && k
            + 2 <= end,
{
    proof {
        lemma_form_end_in_set(b@, end as int, from as int, 1, form_id);
    }
    let mut depth: usize = 1;
    let mut j = from;
    while j <= end && end - j >= 2
        invariant
            end <= b@.len(),
            1 <= depth <= j + 1,
            form_end_in_set(b@, end as int, from as int, 1, form_id) matches Some(k) ==> from <= k
                && k + 2 <= end,
            form_end_in_set(b@, end as int, j as int, depth as int, form_id) == form_end_in_set(
                b@,
                end as int,
                from as int,
                1,
                form_id,
            ),
        decreases end - j,
    {
        let (op, len, scoped) = op_header(b, j);
        if len < 2 || len > end - j {
            return None;
        }
        if op == IFR_FORM_OP && len >= 6 && read_u16(b, j + 2) == form_id {
            return find_scope_close(b, end, j + len, 1);
        }
        if op == IFR_END_OP {
            if depth == 1 {
                return None;
            }
            depth = depth - 1;
        } else if scoped {
            depth = depth + 1;
        }
        j = j + len;
    }
    None
}

/// Offset of the END of form `form_id` inside FORM_SET number `formset_idx`.
pub fn locate_form_end(body: &[u8], formset_idx: usize, form_id: u16) -> (r: Option<usize>)
    ensures
        r == (match spec_locate_form_end(body@, formset_idx as int, form_id) {
            Some(k) => Some(k as usize),
            None => None::<usize>,
        }),
        r matches Some(k) ==> 4 < k && k + 2 <= body@.len(),
        spec_locate_form_end(body@, formset_idx as int, form_id) matches Some(k) ==> 4 < k && k + 2
            <= body@.len(),
{
    proof {
        if spec_is_form_package(body@) {
            lemma_form_end_from(
                body@,
                spec_package_bounds(body@).1,
                4,
                0,
                formset_idx as int,
                form_id,
            );
        }
    }
    if !is_form_package(body) {
        return None;
    }
    let (_, end) = package_bounds(body);
    proof {
        lemma_form_end_from(body@, end as int, 4, 0, formset_idx as int, form_id);
    }
    let mut seen: usize = 0;
    let mut i: usize = 4;
    while i <= end && end - i >= 2
        invariant
            end <= body@.len(),
            end == spec_package_bounds(body@).1,
            spec_is_form_package(body@),
            seen <= i,
            4 <= i,
            spec_locate_form_end(body@, formset_idx as int, form_id) matches Some(k) ==> 4 < k && k
                + 2 <= body@.len(),
            form_end_from(body@, end as int, i as int, seen as int, formset_idx as int, form_id)
                == spec_locate_form_end(body@, formset_idx as int, form_id),
        decreases end - i,
    {
        let (op_code, length, _scoped) = op_header(body, i);
        if length < 2 || length > end - i {
            return None;
        }
        if op_code == IFR_FORM_SET_OP {
            if seen == formset_idx {
                return find_form_end_in_set(body, end, i + length, form_id);
            }
            seen = seen + 1;
        }
        i = i + length;
    }
    None
}

/// `package` with `ops` inserted at `at` and its length field grown.
pub open spec fn spec_splice_ops(package: Seq<u8>, at: int, ops: Seq<u8>) -> Seq<u8> {
    with_length_grown(
        package.subrange(0, at) + ops + package.subrange(at, package.len() as int),
        package,
        ops.len() as int,
    )
}

/// Inserts question opcodes right before the END of form `form_id` in
/// FORM_SET number `formset_idx`; returns the insertion offset and the
/// number of bytes inserted.
pub fn splice_question_ops(package: &mut Vec<u8>, formset_idx: usize, form_id: u16, ops: &[u8]) -> (r:
    Result<(usize, usize), HiiError>)
    requires
        old(package)@.len() + ops@.len() + 0x100_0000 <= usize::MAX,
    ensures
        ops@.len() == 0 ==> final(package)@ == old(package)@,
        ops@.len() == 0 ==> (r matches Err(HiiError::InvalidSchema(m)) && m@ == "empty ops"@),
        ops@.len() > 0 ==> match spec_locate_form_end(old(package)@, formset_idx as int, form_id) {
            None => (r matches Err(HiiError::NotFound)) && final(package)@ == old(package)@,
            Some(at) => r == Ok::<(usize, usize), HiiError>((at as usize, ops@.len() as usize))
                && final(package)@ == spec_splice_ops(old(package)@, at, ops@),
        },
{
    if ops.len() == 0 {
        return Err(HiiError::InvalidSchema("empty ops".to_owned()));
    }
    let insert_at = match locate_form_end(package.as_slice(), formset_idx, form_id) {
        Some(k) => k,
        None => return Err(HiiError::NotFound),
    };
    let n = package.len();
    let plen = read_u24(package.as_slice(), 0) as usize;
    let mut out = copy_range(package.as_slice(), 0, insert_at);
    push_all(&mut out, ops);
    let rest = copy_range(package.as_slice(), insert_at, n);
    push_all(&mut out, rest.as_slice());
    let hdr = len24_vec(plen + ops.len());
    write_at(out.as_mut_slice(), 0, hdr.as_slice());
    *package = out;
    Ok((insert_at, ops.len()))
}

/// A form as the package declares it.
#[derive(Debug, Clone, Copy, PartialEq, Eq)]
pub struct RawForm {
    pub form_id: u16,
    pub title: u16,
    pub suppressed: bool,
}

/// The FORM_SET a package declares: GUID, title and its forms in order.
#[derive(Debug, Clone)]
pub struct FormSetInfo {
    pub guid: Guid,
    pub title: u16,
    pub forms: Vec<RawForm>,
}

/// The state the package walk carries: open scopes, last FORM_SET GUID and
/// title, forms seen so far.
pub open spec fn parse_forms_from(
    b: Seq<u8>,
    end: int,
    i: int,
    stack: Seq<u8>,
    guid: Option<Seq<u8>>,
    title: u16,
    forms: Seq<RawForm>,
) -> Option<(Option<Seq<u8>>, u16, Seq<RawForm>)>
    decreases end - i,
{
    if i < 0 || i + 2 > end {
        Some((guid, title, forms))
    } else if !op_ok(b, end, i) {
        None
    } else {
        let op = b[i];
        let len = op_len(b, i);
        if op == IFR_FORM_SET_OP && len < 23 {
            None
        } else if op == IFR_FORM_OP && len < 6 {
            None
        } else {
            let g2 = if op == IFR_FORM_SET_OP {
                Some(b.subrange(i + 2, i + 18))
            } else {
                guid
            };
            let t2 = if op == IFR_FORM_SET_OP {
                le16(b, i + 18) as u16
            } else {
                title
            };
            let f2 = if op == IFR_FORM_OP {
                forms.push(
                    RawForm {
                        form_id: le16(b, i + 2) as u16,
                        title: le16(b, i + 4) as u16,
                        suppressed: stack.contains(IFR_SUPPRESS_IF_OP),
                    },
                )
            } else {
                forms
            };
            let s1 = if op == IFR_END_OP {
                if stack.len() == 0 {
                    stack
                } else {
                    stack.drop_last()
                }
            } else {
                stack
            };
            let s2 = if op_scoped(b, i) {
                s1.push(op)
            } else {
                s1
            };
            parse_forms_from(b, end, i + len, s2, g2, t2, f2)
        }
    }
}

/// GUID, title and forms of a form package; `None` for a body that is not a
/// form package, is malformed, or declares no FORM_SET.
pub open spec fn spec_parse_form_package(b: Seq<u8>) -> Option<(Seq<u8>, u16, Seq<RawForm>)> {
    if !spec_is_form_package(b) {
        None
    } else {
        match parse_forms_from(
            b,
            spec_package_bounds(b).1,
            4,
            seq![],
            None,
            0,
            seq![],
        ) {
            Some((Some(g), t, f)) => Some((g, t, f)),
            _ => None,
        }
    }
}

fn stack_has_suppress(stack: &Vec<u8>) -> (r: bool)
    ensures
        r == stack@.contains(IFR_SUPPRESS_IF_OP),
{
    let mut k: usize = 0;
    while k < stack.len()
        invariant
            k <= stack@.len(),
            forall|m: int| 0 <= m < k ==> stack@[m] != IFR_SUPPRESS_IF_OP,
        decreases stack@.len() - k,
    {
        if stack[k] == IFR_SUPPRESS_IF_OP {
            assert(stack@[k as int] == IFR_SUPPRESS_IF_OP);
            return true;
        }
        k = k + 1;
    }
    false
}

fn guid_at(b: &[u8], at: usize) -> (g: Guid)
    requires
        at + 16 <= b@.len(),
    ensures
        g@ == b@.subrange(at as int, at + 16),
{
    let n = b.len();
    let mut arr = [0u8; 16];
    let mut k: usize = 0;
    while k < 16
        invariant
            n == b@.len(),
            at + 16 <= b@.len(),
            k <= 16,
            arr@.len() == 16,
            forall|m: int| 0 <= m < k ==> arr@[m] == b@[at + m],
        decreases 16 - k,
    {
        arr[k] = b[at + k];
        k = k + 1;
    }
    assert(arr@ =~= b@.subrange(at as int, at + 16));
    Guid::from_bytes(arr)
}

/// The FORM_SET GUID, its title and every form of a form package, each form
/// marked suppressed when a SUPPRESS_IF scope is open around it.
pub fn parse_form_package(body: &[u8]) -> (r: Option<FormSetInfo>)
    ensures
        match r {
            Some(info) => spec_parse_form_package(body@) == Some(
                (info.guid@, info.title, info.forms@),
            ),
            None => spec_parse_form_package(body@).is_none(),
        },
{
    if !is_form_package(body) {
        return None;
    }
    let (start, end) = package_bounds(body);
    let mut guid: Option<Guid> = None;
    let mut title: u16 = 0;
    let mut forms: Vec<RawForm> = Vec::new();
    let mut stack: Vec<u8> = Vec::new();
    let mut i = start;
    while i <= end && end - i >= 2
        invariant
            end <= body@.len(),
            start == 4,
            end == spec_package_bounds(body@).1,
            spec_is_form_package(body@),
            parse_forms_from(
                body@,
                end as int,
                i as int,
                stack@,
                match guid {
                    Some(g) => Some(g@),
                    None => None,
                },
                title,
                forms@,
            ) == parse_forms_from(body@, end as int, 4, seq![], None, 0, seq![]),
        decreases end - i,
    {
        let (op_code, length, scoped) = op_header(body, i);
        if length < 2 || length > end - i {
            return None;
        }
        if op_code == IFR_FORM_SET_OP {
            if length < 23 {
                return None;
            }
            guid = Some(guid_at(body, i + 2));
            title = read_u16(body, i + 18);
        } else if op_code == IFR_FORM_OP {
            if length < 6 {
                return None;
            }
            let suppressed = stack_has_suppress(&stack);
            forms.push(
                RawForm {
                    form_id: read_u16(body, i + 2),
                    title: read_u16(body, i + 4),
                    suppressed,
                },
            );
        } else if op_code == IFR_END_OP {
            stack.pop();
        }
        if scoped {
            stack.push(op_code);
        }
        i = i + length;
    }
    match guid {
        Some(g) => Some(FormSetInfo { guid: g, title, forms }),
        None => None,
    }
}

} // verus!
