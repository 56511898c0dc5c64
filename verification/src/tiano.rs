//! The EFI 1.1 / Tiano decompressor (compression algorithm 1 of a PI
//! compression section): an LZ77 window coded with per-block Huffman tables.
//! The two variants differ only in the width of the position-code count:
//! four bits for EFI, five for Tiano.

use vstd::prelude::*;
use crate::bytes::{le32, read_u32};
use crate::decompress::DecompressError;

verus! {

/// Literal/length codes: 256 literals and match lengths 3..=256.
pub const NC: usize = 510;
/// Pre-tree codes (code lengths of the literal/length tree).
pub const NT: usize = 19;
/// Position codes, at most.
pub const NP: usize = 31;
/// Slots for the code-length arrays of the pre-tree and the position tree.
pub const NPT: usize = 31;
/// Tree nodes: the leaves of the largest alphabet and its inner nodes.
pub const NNODE: usize = 1019;

/// The state of one decoding run.
struct Scratch {
    bit_buf: u32,
    sub_bit_buf: u32,
    bit_count: u32,
    in_buf: usize,
    comp_size: u32,
    block_size: u16,
    bad: bool,
    pbit: u32,
    left: Vec<u16>,
    right: Vec<u16>,
    c_len: Vec<u8>,
    pt_len: Vec<u8>,
    c_table: Vec<u16>,
    pt_table: Vec<u16>,
}

/// Every entry of `v` names a leaf or a tree node.
pub open spec fn nodes_ok(v: Seq<u16>) -> bool {
    forall|i: int| 0 <= i < v.len() ==> (#[trigger] v[i]) < NNODE
}

impl Scratch {
    /// The bit reader holds no set bit and has no compressed data left, so
    /// every bit it reads from here on is zero.
    spec fn quiet(&self) -> bool {
        &&& self.bit_buf == 0
        &&& self.sub_bit_buf == 0
        &&& self.comp_size == 0
    }

    /// The literal/length table and code lengths are all zero: every code
    /// is the zero byte, read with no bits.
    spec fn blank(&self) -> bool {
        &&& forall|i: int| 0 <= i < self.c_table@.len() ==> #[trigger] self.c_table@[i] == 0
        &&& forall|i: int| 0 <= i < self.c_len@.len() ==> #[trigger] self.c_len@[i] == 0
    }

    /// The arrays have their fixed sizes, every table entry names a leaf or
    /// a node, and the bit reader stays inside the compressed data.
    spec fn wf(&self, src_len: int) -> bool {
        &&& self.left@.len() == NNODE
        &&& self.right@.len() == NNODE
        &&& self.c_len@.len() == NC
        &&& self.pt_len@.len() == NPT
        &&& self.c_table@.len() == 4096
        &&& self.pt_table@.len() == 256
        &&& nodes_ok(self.left@)
        &&& nodes_ok(self.right@)
        &&& nodes_ok(self.c_table@)
        &&& nodes_ok(self.pt_table@)
        &&& self.bit_count <= 8
        &&& self.sub_bit_buf < 256
        &&& self.in_buf + self.comp_size <= src_len
        &&& self.pbit <= 5
    }

    /// Shifts `n` bits out of the bit buffer and refills it from the input;
    /// past the end of the compressed data zero bits are read.
    fn fill_buf(&mut self, src: &[u8], n: u32)
        requires
            old(self).wf(src@.len() as int),
            n <= 40,
        ensures
            final(self).wf(src@.len() as int),
            final(self).block_size == old(self).block_size,
            final(self).bad == old(self).bad,
            final(self).pbit == old(self).pbit,
            final(self).left@ == old(self).left@,
            final(self).right@ == old(self).right@,
            final(self).c_len@ == old(self).c_len@,
            final(self).pt_len@ == old(self).pt_len@,
            final(self).c_table@ == old(self).c_table@,
            final(self).pt_table@ == old(self).pt_table@,
            old(self).quiet() ==> final(self).quiet(),
    {
        self.bit_buf = shl32(self.bit_buf, n);
        let mut n = n;
        while self.bit_count < n
            invariant
                self.wf(src@.len() as int),
                n <= 40,
                self.block_size == old(self).block_size,
                self.bad == old(self).bad,
                self.pbit == old(self).pbit,
                self.left@ == old(self).left@,
                self.right@ == old(self).right@,
                self.c_len@ == old(self).c_len@,
                self.pt_len@ == old(self).pt_len@,
                self.c_table@ == old(self).c_table@,
                self.pt_table@ == old(self).pt_table@,
                old(self).quiet() ==> self.quiet(),
            decreases n + 8 - self.bit_count,
        {
            n = n - self.bit_count;
            let bb = self.bit_buf;
            let sh = shl32(self.sub_bit_buf, n);
            assert(sh == 0 ==> bb | sh == bb) by (bit_vector);
            self.bit_buf = bb | sh;
            if self.comp_size > 0 {
                self.comp_size = self.comp_size - 1;
                self.sub_bit_buf = src[self.in_buf] as u32;
                self.in_buf = self.in_buf + 1;
            } else {
                self.sub_bit_buf = 0;
            }
            self.bit_count = 8;
        }
        self.bit_count = self.bit_count - n;
        let bb = self.bit_buf;
        let sub = self.sub_bit_buf;
        let bc = self.bit_count;
        assert(bb == 0 && sub == 0 ==> bb | (sub >> bc) == 0) by (bit_vector);
        self.bit_buf = bb | (sub >> bc);
    }

    /// The next `n` bits of the input, most significant first.
    fn get_bits(&mut self, src: &[u8], n: u32) -> (r: u32)
        requires
            old(self).wf(src@.len() as int),
            n <= 32,
        ensures
            final(self).wf(src@.len() as int),
            (r as u64) < (1u64 << (n as u64)),
            final(self).block_size == old(self).block_size,
            final(self).bad == old(self).bad,
            final(self).pbit == old(self).pbit,
            final(self).left@ == old(self).left@,
            final(self).right@ == old(self).right@,
            final(self).c_len@ == old(self).c_len@,
            final(self).pt_len@ == old(self).pt_len@,
            final(self).c_table@ == old(self).c_table@,
            final(self).pt_table@ == old(self).pt_table@,
            old(self).quiet() ==> final(self).quiet() && r == 0,
    {
        let out = top_bits(self.bit_buf, n);
        self.fill_buf(src, n);
        out
    }
}

/// `x` shifted left by `n` in 32 bits; everything is shifted out from 32 on.
fn shl32(x: u32, n: u32) -> (r: u32)
    requires
        n <= 40,
    ensures
        x == 0 ==> r == 0,
{
    if n >= 32 {
        0
    } else {
        let nn = n as u64;
        let w = (x as u64) << nn;
        assert(x == 0 ==> w == 0) by (bit_vector)
            requires
                w == (x as u64) << nn,
        ;
        w as u32
    }
}

/// The top `n` bits of `x`.
fn top_bits(x: u32, n: u32) -> (r: u32)
    requires
        n <= 32,
    ensures
        (r as u64) < (1u64 << (n as u64)),
        x == 0 ==> r == 0,
{
    let s: u64 = (32 - n) as u64;
    let w: u64 = (x as u64) >> s;
    let nn: u64 = n as u64;
    assert(w < (1u64 << nn) && (x == 0 ==> w == 0)) by (bit_vector)
        requires
            w == (x as u64) >> s,
            s == 32 - nn,
            nn <= 32,
    ;
    w as u32
}


/// The number of entries of a decoding table indexed by `bits` bits.
pub open spec fn table_len(bits: u32) -> int {
    if bits == 8 {
        256
    } else {
        4096
    }
}

proof fn lemma_table_index(x: u32, table_bits: u32)
    requires
        table_bits == 8 || table_bits == 12,
        x <= 0xFFFF,
    ensures
        x >> (16 - table_bits) < table_len(table_bits),
{
    if table_bits == 8 {
        assert(x <= 0xFFFF ==> x >> 8u32 < 256) by (bit_vector);
    } else {
        assert(x <= 0xFFFF ==> x >> 4u32 < 4096) by (bit_vector);
    }
}

/// Reads the slot a tree walk points at: an entry of the table, or the left
/// or right child of a node.
fn slot_get(kind: u8, at: usize, table: &Vec<u16>, left: &Vec<u16>, right: &Vec<u16>) -> (r: u16)
    requires
        kind == 0 ==> at < table@.len(),
        kind != 0 ==> at < NNODE,
        left@.len() == NNODE,
        right@.len() == NNODE,
        nodes_ok(table@),
        nodes_ok(left@),
        nodes_ok(right@),
    ensures
        r < NNODE,
{
    if kind == 0 {
        table[at]
    } else if kind == 1 {
        left[at]
    } else {
        right[at]
    }
}

/// Writes the slot a tree walk points at.
fn slot_set(kind: u8, at: usize, v: u16, table: &mut Vec<u16>, left: &mut Vec<u16>, right: &mut Vec<u16>)
    requires
        kind == 0 ==> at < old(table)@.len(),
        kind != 0 ==> at < NNODE,
        old(left)@.len() == NNODE,
        old(right)@.len() == NNODE,
        nodes_ok(old(table)@),
        nodes_ok(old(left)@),
        nodes_ok(old(right)@),
        v < NNODE,
    ensures
        final(table)@.len() == old(table)@.len(),
        final(left)@.len() == NNODE,
        final(right)@.len() == NNODE,
        nodes_ok(final(table)@),
        nodes_ok(final(left)@),
        nodes_ok(final(right)@),
{
    if kind == 0 {
        table.set(at, v);
    } else if kind == 1 {
        left.set(at, v);
    } else {
        right.set(at, v);
    }
}

/// Builds the decoding table of the canonical Huffman code with the code
/// lengths `bit_len[..num_of_char]`: codes of at most `table_bits` bits are
/// looked up directly, longer ones continue in a tree of `left`/`right`
/// nodes. Gives `false` for lengths that do not form a complete code.
#[verifier::loop_isolation(false)]
fn make_table(
    num_of_char: usize,
    bit_len: &Vec<u8>,
    table_bits: u32,
    table: &mut Vec<u16>,
    left: &mut Vec<u16>,
    right: &mut Vec<u16>,
) -> (ok: bool)
    requires
        num_of_char <= bit_len@.len(),
        num_of_char <= NC,
        table_bits == 8 || table_bits == 12,
        old(table)@.len() == table_len(table_bits),
        old(left)@.len() == NNODE,
        old(right)@.len() == NNODE,
        nodes_ok(old(table)@),
        nodes_ok(old(left)@),
        nodes_ok(old(right)@),
    ensures
        final(table)@.len() == table_len(table_bits),
        final(left)@.len() == NNODE,
        final(right)@.len() == NNODE,
        nodes_ok(final(table)@),
        nodes_ok(final(left)@),
        nodes_ok(final(right)@),
{
    let tlen: usize = if table_bits == 8 {
        256
    } else {
        4096
    };
    let mut count: Vec<u32> = Vec::new();
    let mut j: usize = 0;
    while j < 17
        invariant
            j <= 17,
            count@.len() == j,
            forall|q: int| 0 <= q < j ==> count@[q] == 0,
        decreases 17 - j,
    {
        count.push(0);
        j = j + 1;
    }
    let mut i: usize = 0;
    while i < num_of_char
        invariant
            i <= num_of_char <= bit_len@.len(),
            num_of_char <= NC,
            count@.len() == 17,
            forall|q: int| 0 <= q < 17 ==> #[trigger] count@[q] <= i,
            forall|q: int| 0 <= q < i ==> #[trigger] bit_len@[q] <= 16,
        decreases num_of_char - i,
    {
        let l = bit_len[i] as usize;
        if l > 16 {
            return false;
        }
        let c = count[l];
        count.set(l, c + 1);
        i = i + 1;
    }
    let mut start: Vec<u32> = Vec::new();
    start.push(0);
    start.push(0);
    let mut k: usize = 1;
    while k <= 16
        invariant
            1 <= k <= 17,
            start@.len() == k + 1,
            count@.len() == 17,
            forall|q: int| 0 <= q < 17 ==> #[trigger] count@[q] <= NC,
            forall|q: int| 0 <= q < start@.len() ==> #[trigger] start@[q] <= 0xFFFF,
        decreases 17 - k,
    {
        let sh0: u64 = (count[k] as u64) << ((16 - k) as u64);
        let sh: u64 = sh0 & 0xFFFF;
        assert(sh <= 0xFFFF) by (bit_vector)
            requires
                sh == sh0 & 0xFFFF,
        ;
        let t: u64 = (start[k] as u64) + sh;
        let sum: u64 = t & 0xFFFF;
        assert(sum <= 0xFFFF) by (bit_vector)
            requires
                sum == t & 0xFFFF,
        ;
        start.push(sum as u32);
        k = k + 1;
    }
    if start[17] != 0 {
        return false;
    }
    let jubits: u32 = 16 - table_bits;
    let mut weight: Vec<u32> = Vec::new();
    weight.push(0);
    let mut k: usize = 1;
    while k <= 16
        invariant
            1 <= k <= 17,
            weight@.len() == k,
            table_bits == 8 || table_bits == 12,
            jubits == 16 - table_bits,
            start@.len() == 18,
            forall|q: int| 0 <= q < start@.len() ==> #[trigger] start@[q] <= 0xFFFF,
            forall|q: int| 0 <= q < weight@.len() ==> #[trigger] weight@[q] <= 0x8000,
        decreases 17 - k,
    {
        if k <= table_bits as usize {
            let s0 = start[k];
            let st = s0 >> jubits;
            assert(st <= s0) by (bit_vector)
                requires
                    st == s0 >> jubits,
            ;
            start.set(k, st);
            let w: u32 = 1u32 << ((table_bits as usize - k) as u32);
            assert(w <= 0x8000) by (bit_vector)
                requires
                    w == 1u32 << ((table_bits - k) as u32),
                    1 <= k <= table_bits,
                    table_bits <= 12,
            ;
            weight.push(w);
        } else {
            let w: u32 = 1u32 << ((16 - k) as u32);
            assert(w <= 0x8000) by (bit_vector)
                requires
                    w == 1u32 << ((16 - k) as u32),
                    1 <= k <= 16,
            ;
            weight.push(w);
        }
        k = k + 1;
    }
    let first_free = start[table_bits as usize + 1];
    proof {
        lemma_table_index(first_free, table_bits);
    }
    let mut z: usize = (first_free >> jubits) as usize;
    if z != 0 {
        while z < tlen
            invariant
                tlen == table@.len(),
                nodes_ok(table@),
            decreases tlen - z,
        {
            table.set(z, 0);
            z = z + 1;
        }
    }
    let mut avail: usize = num_of_char;
    let mask: u32 = 1u32 << (15 - table_bits);
    let mut ch: usize = 0;
    while ch < num_of_char
        invariant
            ch <= num_of_char <= bit_len@.len(),
            num_of_char <= NC,
            avail <= NNODE,
            table_bits == 8 || table_bits == 12,
            jubits == 16 - table_bits,
            tlen == table_len(table_bits),
            table@.len() == tlen,
            left@.len() == NNODE,
            right@.len() == NNODE,
            nodes_ok(table@),
            nodes_ok(left@),
            nodes_ok(right@),
            start@.len() == 18,
            weight@.len() == 17,
            forall|q: int| 0 <= q < start@.len() ==> #[trigger] start@[q] <= 0xFFFF,
            forall|q: int| 0 <= q < weight@.len() ==> #[trigger] weight@[q] <= 0x8000,
        decreases num_of_char - ch,
    {
        let len = bit_len[ch] as usize;
        if len == 0 || len >= 17 {
            ch = ch + 1;
            continue;
        }
        let t: u32 = start[len] + weight[len];
        let next: u32 = t & 0xFFFF;
        assert(next <= 0xFFFF) by (bit_vector)
            requires
                next == t & 0xFFFF,
        ;
        if len <= table_bits as usize {
            let s0 = start[len];
            if s0 >= next || next as usize > tlen {
                return false;
            }
            let mut t: usize = s0 as usize;
            while t < next as usize
                invariant
                    next <= tlen,
                    table@.len() == tlen,
                    nodes_ok(table@),
                    ch < NC,
                decreases next - t,
            {
                table.set(t, ch as u16);
                t = t + 1;
            }
        } else {
            let mut index3: u32 = start[len];
            proof {
                lemma_table_index(index3, table_bits);
            }
            let mut kind: u8 = 0;
            let mut at: usize = (index3 >> jubits) as usize;
            let mut steps: usize = len - table_bits as usize;
            while steps != 0
                invariant
                    kind == 0 ==> at < table@.len(),
                    kind != 0 ==> at < NNODE,
                    avail <= NNODE,
                    index3 <= 0xFFFF,
                    table@.len() == tlen,
                    left@.len() == NNODE,
                    right@.len() == NNODE,
                    nodes_ok(table@),
                    nodes_ok(left@),
                    nodes_ok(right@),
                decreases steps,
            {
                if slot_get(kind, at, table, left, right) == 0 && avail < NNODE {
                    right.set(avail, 0);
                    left.set(avail, 0);
                    slot_set(kind, at, avail as u16, table, left, right);
                    avail = avail + 1;
                }
                let cur = slot_get(kind, at, table, left, right);
                if (cur as usize) < NNODE {
                    if index3 & mask != 0 {
                        kind = 2;
                    } else {
                        kind = 1;
                    }
                    at = cur as usize;
                }
                let shifted: u32 = (index3 << 1u32) & 0xFFFF;
                assert(shifted <= 0xFFFF) by (bit_vector)
                    requires
                        shifted == (index3 << 1u32) & 0xFFFF,
                ;
                index3 = shifted;
                steps = steps - 1;
            }
            slot_set(kind, at, ch as u16, table, left, right);
        }
        start.set(len, next);
        ch = ch + 1;
    }
    true
}


fn zeros16(n: usize) -> (v: Vec<u16>)
    ensures
        v@.len() == n,
        nodes_ok(v@),
        forall|i: int| 0 <= i < n ==> #[trigger] v@[i] == 0,
{
    let mut v: Vec<u16> = Vec::new();
    let mut i: usize = 0;
    while i < n
        invariant
            i <= n,
            v@.len() == i,
            nodes_ok(v@),
            forall|j: int| 0 <= j < i ==> #[trigger] v@[j] == 0,
        decreases n - i,
    {
        v.push(0);
        i = i + 1;
    }
    v
}

fn zeros8(n: usize) -> (v: Vec<u8>)
    ensures
        v@.len() == n,
        forall|i: int| 0 <= i < n ==> #[trigger] v@[i] == 0,
{
    let mut v: Vec<u8> = Vec::new();
    let mut i: usize = 0;
    while i < n
        invariant
            i <= n,
            v@.len() == i,
            forall|j: int| 0 <= j < i ==> #[trigger] v@[j] == 0,
        decreases n - i,
    {
        v.push(0);
        i = i + 1;
    }
    v
}

impl Scratch {
    /// Reads the code lengths of the pre-tree (`nn` = `NT`, with a run of
    /// zeros after the third length) or of the position tree (`nn` = `NP`)
    /// and builds its table; `false` for an impossible code.
    fn read_pt_len(&mut self, src: &[u8], nn: usize, nbit: u32, special: usize) -> (ok: bool)
        requires
            old(self).wf(src@.len() as int),
            nn <= NPT,
            nbit <= 5,
        ensures
            final(self).wf(src@.len() as int),
            final(self).pbit == old(self).pbit,
            old(self).quiet() ==> ok && final(self).quiet() && final(self).c_table@ == old(
                self,
            ).c_table@ && final(self).c_len@ == old(self).c_len@,
    {
        let number = self.get_bits(src, nbit) as usize;
        if number == 0 {
            let c = self.get_bits(src, nbit);
            assert((c as u64) < (1u64 << (nbit as u64)) ==> c < 32) by (bit_vector)
                requires
                    nbit <= 5,
            ;
            let mut i: usize = 0;
            let ghost q = self.quiet();
            let ghost ct = self.c_table@;
            let ghost cl = self.c_len@;
            while i < 256
                invariant
                    self.wf(src@.len() as int),
                    self.pbit == old(self).pbit,
                    c < 32,
                    q ==> self.quiet(),
                    self.c_table@ == ct,
                    self.c_len@ == cl,
                decreases 256 - i,
            {
                self.pt_table.set(i, c as u16);
                i = i + 1;
            }
            let mut i: usize = 0;
            while i < nn
                invariant
                    self.wf(src@.len() as int),
                    self.pbit == old(self).pbit,
                    nn <= NPT,
                    q ==> self.quiet(),
                    self.c_table@ == ct,
                    self.c_len@ == cl,
                decreases nn - i,
            {
                self.pt_len.set(i, 0);
                i = i + 1;
            }
            return true;
        }
        let mut index: usize = 0;
        while index < number && index < NPT
            invariant
                self.wf(src@.len() as int),
                self.pbit == old(self).pbit,
                index <= NPT,
            decreases NPT - index,
        {
            let bb: u32 = self.bit_buf;
            let mut c: u32 = bb >> 29u32;
            assert(c <= 7) by (bit_vector)
                requires
                    c == bb >> 29u32,
            ;
            if c == 7 {
                let mut mask: u32 = 1u32 << 28u32;
                let mut steps: u32 = 0;
                while mask & self.bit_buf != 0 && steps < 29
                    invariant
                        c == 7 + steps,
                        steps <= 29,
                    decreases 29 - steps,
                {
                    mask = mask >> 1u32;
                    c = c + 1;
                    steps = steps + 1;
                }
            }
            let n: u32 = if c < 7 {
                3
            } else {
                c - 3
            };
            self.fill_buf(src, n);
            self.pt_len.set(index, c as u8);
            index = index + 1;
            if index == special {
                let mut k = self.get_bits(src, 2);
                let ghost i0 = index;
                while k > 0 && index < NPT
                    invariant
                        self.wf(src@.len() as int),
                        self.pbit == old(self).pbit,
                        i0 <= index <= NPT,
                    decreases k,
                {
                    self.pt_len.set(index, 0);
                    index = index + 1;
                    k = k - 1;
                }
            }
        }
        while index < nn
            invariant
                self.wf(src@.len() as int),
                self.pbit == old(self).pbit,
                nn <= NPT,
            decreases nn - index,
        {
            self.pt_len.set(index, 0);
            index = index + 1;
        }
        make_table(nn, &self.pt_len, 8, &mut self.pt_table, &mut self.left, &mut self.right)
    }
}


impl Scratch {
    /// Follows the tree below `start` along the bits of the bit buffer from
    /// `mask` down, until a code below `limit` is reached; `None` when the
    /// bits run out first.
    fn descend(&self, start: u16, mask: u32, limit: usize) -> (r: Option<u16>)
        requires
            start < NNODE,
            self.left@.len() == NNODE,
            self.right@.len() == NNODE,
            nodes_ok(self.left@),
            nodes_ok(self.right@),
        ensures
            r matches Some(c) ==> (c as usize) < limit,
            (start as usize) < limit ==> r == Some(start),
    {
        let mut c = start;
        let mut mask = mask;
        while (c as usize) >= limit && mask != 0
            invariant
                c < NNODE,
                (start as usize) < limit ==> c == start,
                self.left@.len() == NNODE,
                self.right@.len() == NNODE,
                nodes_ok(self.left@),
                nodes_ok(self.right@),
            decreases mask,
        {
            if self.bit_buf & mask != 0 {
                c = self.right[c as usize];
            } else {
                c = self.left[c as usize];
            }
            assert(mask >> 1u32 < mask) by (bit_vector)
                requires
                    mask != 0,
            ;
            mask = mask >> 1u32;
        }
        if (c as usize) < limit {
            Some(c)
        } else {
            None
        }
    }

    /// Reads the code lengths of the literal/length tree, coded with the
    /// pre-tree, and builds its table; `false` when the pre-tree leads
    /// nowhere.
    fn read_c_len(&mut self, src: &[u8]) -> (ok: bool)
        requires
            old(self).wf(src@.len() as int),
        ensures
            final(self).wf(src@.len() as int),
            final(self).pbit == old(self).pbit,
            old(self).quiet() ==> ok && final(self).quiet() && final(self).blank(),
    {
        let ghost q = self.quiet();
        let number = self.get_bits(src, 9) as usize;
        if number == 0 {
            let c = self.get_bits(src, 9);
            assert((c as u64) < (1u64 << 9u64) ==> c < 512) by (bit_vector);
            let mut i: usize = 0;
            while i < NC
                invariant
                    self.wf(src@.len() as int),
                    self.pbit == old(self).pbit,
                    q ==> self.quiet() && c == 0,
                    forall|j: int| 0 <= j < i ==> #[trigger] self.c_len@[j] == 0,
                decreases NC - i,
            {
                self.c_len.set(i, 0);
                i = i + 1;
            }
            let mut i: usize = 0;
            while i < 4096
                invariant
                    self.wf(src@.len() as int),
                    self.pbit == old(self).pbit,
                    c < 512,
                    q ==> self.quiet() && c == 0,
                    forall|j: int| 0 <= j < NC ==> #[trigger] self.c_len@[j] == 0,
                    forall|j: int| 0 <= j < i ==> #[trigger] self.c_table@[j] == c,
                decreases 4096 - i,
            {
                self.c_table.set(i, c as u16);
                i = i + 1;
            }
            return true;
        }
        let mut index: usize = 0;
        while index < number && index < NC
            invariant
                !q,
                q == old(self).quiet(),
                self.wf(src@.len() as int),
                self.pbit == old(self).pbit,
                index <= NC,
            decreases NC - index,
        {
            let bb: u32 = self.bit_buf;
            let top: u32 = bb >> 24u32;
            assert(top < 256) by (bit_vector)
                requires
                    top == bb >> 24u32,
            ;
            let c0 = self.pt_table[top as usize];
            let c = match self.descend(c0, 1u32 << 23u32, NT) {
                Some(c) => c,
                None => return false,
            };
            let n = self.pt_len[c as usize] as u32;
            self.fill_buf(src, if n <= 40 {
                n
            } else {
                40
            });
            if c <= 2 {
                let mut k: u32 = if c == 0 {
                    1
                } else if c == 1 {
                    let b = self.get_bits(src, 4);
                    assert((b as u64) < (1u64 << 4u64) ==> b < 16) by (bit_vector);
                    b + 3
                } else {
                    let b = self.get_bits(src, 9);
                    assert((b as u64) < (1u64 << 9u64) ==> b < 512) by (bit_vector);
                    b + 20
                };
                let ghost i0 = index;
                while k > 0 && index < NC
                    invariant
                        self.wf(src@.len() as int),
                        self.pbit == old(self).pbit,
                        i0 <= index <= NC,
                        index == i0 ==> k > 0,
                    decreases k,
                {
                    self.c_len.set(index, 0);
                    index = index + 1;
                    k = k - 1;
                }
            } else {
                self.c_len.set(index, (c - 2) as u8);
                index = index + 1;
            }
        }
        while index < NC
            invariant
                !q,
                q == old(self).quiet(),
                self.wf(src@.len() as int),
                self.pbit == old(self).pbit,
            decreases NC - index,
        {
            self.c_len.set(index, 0);
            index = index + 1;
        }
        make_table(NC, &self.c_len, 12, &mut self.c_table, &mut self.left, &mut self.right);
        true
    }

    /// The next literal/length code, reading a new block's tables first when
    /// the block is used up; `None` for tables that cannot be built or a
    /// code the tree does not reach.
    fn decode_c(&mut self, src: &[u8]) -> (r: Option<u16>)
        requires
            old(self).wf(src@.len() as int),
        ensures
            final(self).wf(src@.len() as int),
            final(self).pbit == old(self).pbit,
            r matches Some(c) ==> (c as usize) < NC,
            old(self).quiet() && old(self).blank() ==> r == Some(0u16) && final(self).quiet()
                && final(self).blank(),
    {
        if self.block_size == 0 {
            let b = self.get_bits(src, 16);
            assert((b as u64) < (1u64 << 16u64) ==> b < 0x1_0000) by (bit_vector);
            self.block_size = b as u16;
            if !self.read_pt_len(src, NT, 5, 3) {
                return None;
            }
            if !self.read_c_len(src) {
                return None;
            }
            let pbit = self.pbit;
            if !self.read_pt_len(src, NP, pbit, 0xFFFF) {
                return None;
            }
        }
        self.block_size = if self.block_size == 0 {
            0xFFFF
        } else {
            self.block_size - 1
        };
        let bb: u32 = self.bit_buf;
        let top: u32 = bb >> 20u32;
        assert(top < 4096 && (bb == 0 ==> top == 0)) by (bit_vector)
            requires
                top == bb >> 20u32,
        ;
        let c0 = self.c_table[top as usize];
        let c = match self.descend(c0, 1u32 << 19u32, NC) {
            Some(c) => c,
            None => return None,
        };
        let n = self.c_len[c as usize] as u32;
        self.fill_buf(src, if n <= 40 {
            n
        } else {
            40
        });
        Some(c)
    }

    /// The next match distance less one; `None` for a code the tree does
    /// not reach.
    fn decode_p(&mut self, src: &[u8]) -> (r: Option<u32>)
        requires
            old(self).wf(src@.len() as int),
        ensures
            final(self).wf(src@.len() as int),
            final(self).pbit == old(self).pbit,
    {
        let bb: u32 = self.bit_buf;
        let top: u32 = bb >> 24u32;
        assert(top < 256) by (bit_vector)
            requires
                top == bb >> 24u32,
        ;
        let v0 = self.pt_table[top as usize];
        let v = match self.descend(v0, 1u32 << 23u32, NP) {
            Some(v) => v as u32,
            None => return None,
        };
        let n = self.pt_len[v as usize] as u32;
        self.fill_buf(src, if n <= 40 {
            n
        } else {
            40
        });
        if v > 1 {
            let sh: u32 = v - 1;
            let b = self.get_bits(src, sh);
            let hi: u32 = 1u32 << sh;
            assert(hi <= 0x2000_0000 && ((b as u64) < (1u64 << (sh as u64)) ==> b < 0x2000_0000))
                by (bit_vector)
                requires
                    hi == 1u32 << sh,
                    1 <= sh <= 29,
            ;
            Some(hi + b)
        } else {
            Some(v)
        }
    }
}

/// `s` followed by `n` bytes each copied from `d` bytes before it: the
/// window copy of an LZ77 match of length `n` at distance `d`, where the
/// copy may read bytes it has itself just written.
pub open spec fn lz_copy(s: Seq<u8>, d: int, n: nat) -> Seq<u8>
    decreases n,
{
    if n == 0 {
        s
    } else {
        let t = lz_copy(s, d, (n - 1) as nat);
        t.push(t[t.len() - d])
    }
}

proof fn lemma_lz_copy_len(s: Seq<u8>, d: int, n: nat)
    ensures
        lz_copy(s, d, n).len() == s.len() + n,
    decreases n,
{
    if n > 0 {
        lemma_lz_copy_len(s, d, (n - 1) as nat);
    }
}

/// A match of length `n` at distance `d` (`1 <= d <= s.len()`) keeps what
/// was written and appends `n` bytes, each equal to the byte `d` positions
/// before it: byte `k` of the match is the `k`-th byte of the window starting
/// `d` bytes back, so a match longer than its distance repeats the window.
pub proof fn law_match_copies_the_window(s: Seq<u8>, d: int, n: nat)
    requires
        1 <= d <= s.len(),
    ensures
        lz_copy(s, d, n).len() == s.len() + n,
        lz_copy(s, d, n).subrange(0, s.len() as int) == s,
        forall|k: int|
            0 <= k < n ==> #[trigger] lz_copy(s, d, n)[s.len() + k] == lz_copy(s, d, n)[s.len() - d + k],
    decreases n,
{
    lemma_lz_copy_len(s, d, n);
    if n > 0 {
        law_match_copies_the_window(s, d, (n - 1) as nat);
        let t = lz_copy(s, d, (n - 1) as nat);
        let r = lz_copy(s, d, n);
        assert(r == t.push(t[t.len() - d]));
        assert(r.subrange(0, s.len() as int) =~= t.subrange(0, s.len() as int));
        assert forall|k: int| 0 <= k < n implies #[trigger] r[s.len() + k] == r[s.len() - d + k] by {
            if k < n - 1 {
                assert(r[s.len() + k] == t[s.len() + k]);
                assert(r[s.len() - d + k] == t[s.len() - d + k]);
            } else {
                assert(r[s.len() + k] == t[t.len() - d]);
                assert(r[s.len() - d + k] == t[s.len() - d + k]);
            }
        }
    }
}

/// Decodes an EFI (`pbit` 4) or Tiano (`pbit` 5) compressed buffer: a
/// header of the compressed and the original size, then the coded data.
/// A buffer shorter than its header or its declared compressed size, and
/// coded data that does not decode, are refused; what decodes has exactly
/// the declared original size. Coded data is refused as well where a code
/// runs past the bits of its tree walk, or a match reaches back before the
/// start of the output.
pub fn tiano_decompress(data: &[u8], pbit: u32) -> (r: Result<Vec<u8>, DecompressError>)
    requires
        pbit == 4 || pbit == 5,
    ensures
        data@.len() < 8 ==> r == Err::<Vec<u8>, DecompressError>(DecompressError::Corrupted),
        data@.len() >= 8 && le32(data@, 0) + 8 > data@.len() ==> r == Err::<Vec<u8>, DecompressError>(
            DecompressError::Corrupted,
        ),
        r matches Err(e) ==> e == DecompressError::Corrupted,
        r matches Ok(v) ==> data@.len() >= 8 && v@.len() == le32(data@, 4),
        data@.len() >= 8 && le32(data@, 0) == 0 ==> r == Ok::<Vec<u8>, DecompressError>(r->Ok_0)
            && r->Ok_0@ == Seq::new(le32(data@, 4) as nat, |i: int| 0u8),
{
    if data.len() < 8 {
        return Err(DecompressError::Corrupted);
    }
    let comp = read_u32(data, 0);
    let orig = read_u32(data, 4);
    if comp as usize > data.len() - 8 {
        return Err(DecompressError::Corrupted);
    }
    let mut sd = Scratch {
        bit_buf: 0,
        sub_bit_buf: 0,
        bit_count: 0,
        in_buf: 8,
        comp_size: comp,
        block_size: 0,
        bad: false,
        pbit,
        left: zeros16(NNODE),
        right: zeros16(NNODE),
        c_len: zeros8(NC),
        pt_len: zeros8(NPT),
        c_table: zeros16(4096),
        pt_table: zeros16(256),
    };
    assert(sd.blank());
    sd.fill_buf(data, 32);
    let mut out: Vec<u8> = Vec::new();
    loop
        invariant
            sd.wf(data@.len() as int),
            sd.pbit <= 5,
            out@.len() <= orig,
            orig == le32(data@, 4),
            data@.len() >= 8,
            le32(data@, 0) + 8 <= data@.len(),
            le32(data@, 0) == 0 ==> sd.quiet() && sd.blank() && forall|i: int|
                0 <= i < out@.len() ==> #[trigger] out@[i] == 0,
        decreases orig - out@.len(),
    {
        let c = match sd.decode_c(data) {
            Some(c) => c,
            None => return Err(DecompressError::Corrupted),
        };
        if c < 256 {
            if out.len() >= orig as usize {
                assert(le32(data@, 0) == 0 ==> out@ =~= Seq::new(orig as nat, |i: int| 0u8));
                return Ok(out);
            }
            out.push(c as u8);
        } else {
            let len: u32 = c as u32 - 253;
            let p = match sd.decode_p(data) {
                Some(p) => p as usize,
                None => return Err(DecompressError::Corrupted),
            };
            if out.len() >= orig as usize {
                return Ok(out);
            }
            if p >= out.len() {
                return Err(DecompressError::Corrupted);
            }
            let mut from: usize = out.len() - p - 1;
            let mut k: u32 = 0;
            let ghost l0 = out@.len();
            let ghost o0 = out@;
            while k < len
                invariant
                    out@ == lz_copy(o0, p + 1, k as nat),
                    o0.len() == l0,
                    p < l0,
                    from == l0 - p - 1 + k,
                    from < out@.len(),
                    l0 < out@.len() || k == 0,
                    l0 <= out@.len() <= orig,
                    k <= len,
                    le32(data@, 0) != 0,
                    orig == le32(data@, 4),
                    data@.len() >= 8,
                    le32(data@, 0) + 8 <= data@.len(),
                decreases len - k,
            {
                if out.len() >= orig as usize {
                    return Ok(out);
                }
                proof {
                    lemma_lz_copy_len(o0, p + 1, k as nat);
                }
                let b = out[from];
                out.push(b);
                from = from + 1;
                k = k + 1;
            }
        }
    }
}

} // verus!
