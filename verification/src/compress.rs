//! LZMA "alone" streams for GUID-defined sections: a 13-byte header (props
//! byte, dictionary size, uncompressed size) followed by raw LZMA1 data from
//! liblzma, always checked by decoding it back.

use vstd::prelude::*;
use crate::bytes::{le32_bytes, le64_bytes, push_all, u32_bytes, u64_bytes};
use crate::decompress::{decompress, lzma_alone_decode, DecompressError};
use liblzma::bufread::XzEncoder;
use liblzma::stream::{Filters, LzmaOptions, MatchFinder, Mode, Stream};
use std::io::Read;

verus! {

#[derive(Debug, Clone, Copy, PartialEq, Eq)]
pub enum CompressError {
    EmptyInput,
    CompressFailed,
    RoundTripFailed,
}

#[derive(Debug, Clone, Copy, PartialEq, Eq)]
pub enum LzmaMatchFinder {
    Bt2,
    Bt3,
    Bt4,
    Hc4,
}

/// LZMA1 encoder settings.
#[derive(Debug, Clone, Copy, PartialEq, Eq)]
pub struct LzmaEncodeParams {
    pub lc: u32,
    pub lp: u32,
    pub pb: u32,
    pub dict_size: u32,
    pub nice_len: u32,
    pub mf: LzmaMatchFinder,
}

/// The settings firmware decoders are known to accept: no literal context or
/// position bits, no position bits, a 16 MiB dictionary, the longest nice
/// length, binary-tree match finder.
pub open spec fn default_params() -> LzmaEncodeParams {
    LzmaEncodeParams {
        lc: 0,
        lp: 0,
        pb: 0,
        dict_size: 0x0100_0000,
        nice_len: 273,
        mf: LzmaMatchFinder::Bt4,
    }
}

impl Default for LzmaEncodeParams {
    fn default() -> (p: Self)
        ensures
            p == default_params(),
    {
        LzmaEncodeParams {
            lc: 0,
            lp: 0,
            pb: 0,
            dict_size: 0x0100_0000,
            nice_len: 273,
            mf: LzmaMatchFinder::Bt4,
        }
    }
}

/// The LZMA properties byte: `(pb * 5 + lp) * 9 + lc`.
pub open spec fn props_byte(lc: u32, lp: u32, pb: u32) -> u8 {
    (((pb * 5 + lp) * 9 + lc) % 256) as u8
}

pub fn lzma_props_byte(lc: u32, lp: u32, pb: u32) -> (r: u8)
    requires
        (pb * 5 + lp) * 9 + lc <= u32::MAX,
    ensures
        r == props_byte(lc, lp, pb),
{
    (((pb * 5 + lp) * 9 + lc) % 256) as u8
}

/// The raw LZMA1 data liblzma's raw encoder makes of `input` under the
/// settings `p` (preset 6 with `p`'s dictionary size, literal context and
/// position bits, position bits, nice length and match finder, normal mode).
pub uninterp spec fn lzma1_raw(input: Seq<u8>, p: LzmaEncodeParams) -> Seq<u8>;

/// Settings liblzma's LZMA1 encoder accepts (`is_lclppb_valid`,
/// `is_options_valid` and `IS_ENC_DICT_SIZE_VALID` in its source): at most
/// four literal context plus literal position bits, at most four position
/// bits, a nice length of 2..=273 and a dictionary of 4 KiB..=1.5 GiB.
pub open spec fn lzma_params_valid(p: LzmaEncodeParams) -> bool {
    &&& p.lc + p.lp <= 4
    &&& p.pb <= 4
    &&& 2 <= p.nice_len <= 273
    &&& 4096 <= p.dict_size <= 0x6000_0000
}

/// Encodes `input` with liblzma's raw LZMA1 encoder: `p` is converted into
/// liblzma's options (`LzmaOptions::new_preset(6)` and its setters) and its
/// one-filter chain (`Filters::lzma1`), the encoder
/// (`Stream::new_raw_encoder`) is driven to the end of its stream through
/// `bufread::XzEncoder::new_stream` and `Read::read_to_end`. The encoder is
/// deterministic, so what it produces is named by the input and the
/// settings. As liblzma's source shows, the encoder refuses only settings it
/// does not accept, and otherwise fails only when memory runs out; memory
/// exhaustion is left aside here as it is everywhere in this library, so
/// the encoding is stated to succeed for accepted settings.
#[verifier::external_body]
fn lzma1_raw_encode(input: &[u8], p: &LzmaEncodeParams) -> (r: Option<Vec<u8>>)
    ensures
        r matches Some(v) ==> v@ == lzma1_raw(input@, *p),
        lzma_params_valid(*p) ==> r is Some,
{
    let mut o = LzmaOptions::new_preset(6).ok()?;
    o.dict_size(p.dict_size).literal_context_bits(p.lc).literal_position_bits(p.lp);
    o.position_bits(p.pb).nice_len(p.nice_len).mode(Mode::Normal);
    o.match_finder(match p.mf {
        LzmaMatchFinder::Bt2 => MatchFinder::BinaryTree2,
        LzmaMatchFinder::Bt3 => MatchFinder::BinaryTree3,
        LzmaMatchFinder::Bt4 => MatchFinder::BinaryTree4,
        LzmaMatchFinder::Hc4 => MatchFinder::HashChain4,
    });
    let mut f = Filters::new();
    f.lzma1(&o);
    let mut out = Vec::new();
    XzEncoder::new_stream(input, Stream::new_raw_encoder(&f).ok()?).read_to_end(&mut out).ok()?;
    Some(out)
}

/// Raw LZMA1 data of `input` under `p`: liblzma's encoding, which settings
/// liblzma accepts always get.
pub fn encode_raw_lzma1(input: &[u8], p: &LzmaEncodeParams) -> (r: Result<Vec<u8>, CompressError>)
    ensures
        match r {
            Ok(v) => v@ == lzma1_raw(input@, *p),
            Err(e) => e == CompressError::CompressFailed,
        },
        lzma_params_valid(*p) ==> r is Ok,
{
    match lzma1_raw_encode(input, p) {
        Some(v) => Ok(v),
        None => Err(CompressError::CompressFailed),
    }
}

/// The 13-byte "alone" header for `n` input bytes under `p`.
pub open spec fn alone_header(p: LzmaEncodeParams, n: nat) -> Seq<u8> {
    seq![props_byte(p.lc, p.lp, p.pb)] + le32_bytes(p.dict_size) + le64_bytes(n as u64)
}

/// Encoder settings whose properties byte is computed without overflow.
pub open spec fn params_ok(p: LzmaEncodeParams) -> bool {
    (p.pb * 5 + p.lp) * 9 + p.lc <= u32::MAX
}

/// The "alone" stream of `input` under `p`: the header, then liblzma's raw
/// data.
pub open spec fn alone_of(input: Seq<u8>, p: LzmaEncodeParams) -> Seq<u8> {
    alone_header(p, input.len()) + lzma1_raw(input, p)
}

/// An "alone" stream: the header for `input` under `p`, then the raw data.
pub fn alone_stream(input: &[u8], p: &LzmaEncodeParams) -> (r: Result<Vec<u8>, CompressError>)
    requires
        params_ok(*p),
    ensures
        match r {
            Ok(out) => out@ == alone_of(input@, *p) && out@.len() >= 13 && out@.subrange(0, 13)
                == alone_header(*p, input@.len()),
            Err(e) => e == CompressError::CompressFailed,
        },
        lzma_params_valid(*p) ==> r is Ok,
{
    let mut out: Vec<u8> = Vec::new();
    out.push(lzma_props_byte(p.lc, p.lp, p.pb));
    let d = u32_bytes(p.dict_size);
    push_all(&mut out, d.as_slice());
    let s = u64_bytes(input.len() as u64);
    push_all(&mut out, s.as_slice());
    assert(out@ =~= alone_header(*p, input@.len()));
    let raw = encode_raw_lzma1(input, p)?;
    let ghost head = out@;
    push_all(&mut out, raw.as_slice());
    assert(out@.subrange(0, 13) =~= head);
    assert(out@ =~= alone_of(input@, *p));
    Ok(out)
}

/// Decodes `stream` and compares it with `input`.
pub fn round_trip_check(input: &[u8], stream: &[u8]) -> (r: Result<(), CompressError>)
    ensures
        r is Ok <==> (stream@.len() >= 13 && lzma_alone_decode(stream@) == Some(input@)),
        r is Ok ==> stream@.len() >= 18,
        r matches Err(e) ==> e == CompressError::RoundTripFailed,
{
    match decompress(stream, 2) {
        Ok(decoded) => {
            if bytes_equal(decoded.as_slice(), input) {
                Ok(())
            } else {
                Err(CompressError::RoundTripFailed)
            }
        },
        Err(_) => Err(CompressError::RoundTripFailed),
    }
}

fn bytes_equal(a: &[u8], b: &[u8]) -> (r: bool)
    ensures
        r == (a@ == b@),
{
    if a.len() != b.len() {
        return false;
    }
    let n = a.len();
    let mut k: usize = 0;
    while k < n
        invariant
            n == a@.len(),
            n == b@.len(),
            k <= n,
            forall|j: int| 0 <= j < k ==> a@[j] == b@[j],
        decreases n - k,
    {
        if a[k] != b[k] {
            return false;
        }
        k = k + 1;
    }
    assert(a@ =~= b@);
    true
}

/// What compressing `input` with the default settings gives: no input is
/// refused, and the default stream is handed out when it decodes back to
/// `input`, else refused as failing the round trip.
pub open spec fn spec_compress_lzma(input: Seq<u8>) -> Result<Seq<u8>, CompressError> {
    if input.len() == 0 {
        Err(CompressError::EmptyInput)
    } else if lzma_alone_decode(alone_of(input, default_params())) == Some(input) {
        Ok(alone_of(input, default_params()))
    } else {
        Err(CompressError::RoundTripFailed)
    }
}

/// Compresses `input` with the default settings; the stream is checked to
/// decode back to `input` (`spec_compress_lzma`).
pub fn compress_lzma(input: &[u8]) -> (r: Result<Vec<u8>, CompressError>)
    ensures
        match spec_compress_lzma(input@) {
            Ok(s) => r matches Ok(out) && out@ == s,
            Err(e) => r == Err::<Vec<u8>, CompressError>(e),
        },
        r matches Ok(out) ==> {
            &&& out@.subrange(0, 13) == alone_header(default_params(), input@.len())
            &&& lzma_alone_decode(out@) == Some(input@)
            &&& out@.len() > 13
        },
{
    if input.len() == 0 {
        return Err(CompressError::EmptyInput);
    }
    let p = LzmaEncodeParams::default();
    let out = match alone_stream(input, &p) {
        Ok(out) => out,
        Err(e) => return Err(e),
    };
    match round_trip_check(input, out.as_slice()) {
        Ok(()) => Ok(out),
        Err(e) => Err(e),
    }
}

/// The settings of the `k`-th candidate of the sweep: position bits 0..=2,
/// and for each, literal context bits 0..=4; the rest as the defaults.
pub open spec fn sweep_params(k: int) -> LzmaEncodeParams {
    LzmaEncodeParams {
        lc: (k % 5) as u32,
        lp: 0,
        pb: (k / 5) as u32,
        dict_size: 0x0100_0000,
        nice_len: 273,
        mf: LzmaMatchFinder::Bt4,
    }
}

/// `s` followed by zero bytes up to length `n`.
pub open spec fn zero_padded(s: Seq<u8>, n: int) -> Seq<u8> {
    s + Seq::new((n - s.len()) as nat, |i: int| 0u8)
}

pub(crate) fn pad_zeros(v: &mut Vec<u8>, n: usize)
    requires
        old(v)@.len() <= n,
    ensures
        final(v)@ == zero_padded(old(v)@, n as int),
{
    while v.len() < n
        invariant
            old(v)@.len() <= v@.len() <= n,
            v@ == zero_padded(old(v)@, v@.len() as int),
        decreases n - v@.len(),
    {
        let ghost before = v@;
        v.push(0u8);
        assert(v@ =~= zero_padded(old(v)@, v@.len() as int));
    }
}

/// The fifteen candidate streams of the sweep for `input`, in order.
pub open spec fn sweep_streams(input: Seq<u8>) -> Seq<Seq<u8>> {
    Seq::new(15, |k: int| alone_of(input, sweep_params(k)))
}

/// `s` fits the budget.
pub open spec fn fits_budget(s: Seq<u8>, budget: Option<usize>) -> bool {
    budget matches Some(b) && s.len() <= b
}

/// The index of the first of the first `k` candidates that fits the budget.
pub open spec fn first_fit(cands: Seq<Seq<u8>>, budget: Option<usize>, k: int) -> Option<int>
    decreases k,
{
    if k <= 0 {
        None
    } else {
        match first_fit(cands, budget, k - 1) {
            Some(j) => Some(j),
            None => if fits_budget(cands[k - 1], budget) {
                Some(k - 1)
            } else {
                None
            },
        }
    }
}

/// The index of the first shortest of the first `k` candidates.
pub open spec fn shortest_index(cands: Seq<Seq<u8>>, k: int) -> int
    decreases k,
{
    if k <= 1 {
        0
    } else {
        let j = shortest_index(cands, k - 1);
        if cands[k - 1].len() < cands[j].len() {
            k - 1
        } else {
            j
        }
    }
}

/// What the sweep gives for `input`: the first candidate that fits the
/// budget, padded with zeros to exactly the budget; otherwise the first
/// shortest candidate.
pub open spec fn fit_result(input: Seq<u8>, budget: Option<usize>) -> Seq<u8> {
    let all = sweep_streams(input);
    match first_fit(all, budget, 15) {
        Some(j) => zero_padded(all[j], budget->0 as int),
        None => all[shortest_index(all, 15)],
    }
}

proof fn lemma_shortest_index(cands: Seq<Seq<u8>>, k: int)
    requires
        1 <= k <= cands.len(),
    ensures
        0 <= shortest_index(cands, k) < k,
        forall|j: int| 0 <= j < k ==> cands[shortest_index(cands, k)].len() <= (#[trigger] cands[j]).len(),
    decreases k,
{
    if k > 1 {
        lemma_shortest_index(cands, k - 1);
    }
}

proof fn lemma_first_fit_after(cands: Seq<Seq<u8>>, budget: Option<usize>, k: int, m: int)
    requires
        0 <= k <= m,
        first_fit(cands, budget, k) matches Some(j),
    ensures
        first_fit(cands, budget, m) == first_fit(cands, budget, k),
    decreases m - k,
{
    if m > k {
        lemma_first_fit_after(cands, budget, k, m - 1);
    }
}

/// Sweeps fifteen candidate settings (position bits 0..=2, then literal
/// context bits 0..=4) for the smallest stream. With a budget, the first
/// candidate that fits is padded with zeros to exactly the budget; without
/// one, or when none fits, the smallest candidate (the first of equal
/// length) is returned (`fit_result`). Either way the stream is checked to
/// decode back to `input`, and refused as failing the round trip when it
/// does not.
pub fn compress_lzma_fit(input: &[u8], budget: Option<usize>) -> (r: Result<Vec<u8>, CompressError>)
    ensures
        (r matches Err(e) && e == CompressError::EmptyInput) <==> input@.len() == 0,
        r matches Ok(out) ==> {
            &&& out@ == fit_result(input@, budget)
            &&& lzma_alone_decode(out@) == Some(input@)
            &&& out@.len() > 13
        },
        input@.len() > 0 ==> (if lzma_alone_decode(fit_result(input@, budget)) == Some(input@) {
            r matches Ok(out) && out@ == fit_result(input@, budget)
        } else {
            r == Err::<Vec<u8>, CompressError>(CompressError::RoundTripFailed)
        }),
{
    if input.len() == 0 {
        return Err(CompressError::EmptyInput);
    }
    let ghost all = sweep_streams(input@);
    let mut best: Option<Vec<u8>> = None;
    let mut pb: u32 = 0;
    while pb <= 2
        invariant
            pb <= 3,
            input@.len() > 0,
            all == sweep_streams(input@),
            first_fit(all, budget, pb * 5) is None,
            pb == 0 ==> best is None,
            pb > 0 ==> (best matches Some(s) && s@ == all[shortest_index(all, pb * 5)]),
        decreases 3 - pb,
    {
        let mut lc: u32 = 0;
        while lc <= 4
            invariant
                pb <= 2,
                lc <= 5,
                input@.len() > 0,
                all == sweep_streams(input@),
                first_fit(all, budget, pb * 5 + lc) is None,
                pb * 5 + lc == 0 ==> best is None,
                pb * 5 + lc > 0 ==> (best matches Some(s) && s@ == all[shortest_index(
                    all,
                    pb * 5 + lc,
                )]),
            decreases 5 - lc,
        {
            let params = LzmaEncodeParams {
                lc,
                lp: 0,
                pb,
                dict_size: 0x0100_0000,
                nice_len: 273,
                mf: LzmaMatchFinder::Bt4,
            };
            let ghost k: int = pb * 5 + lc;
            assert(params == sweep_params(k));
            let stream = match alone_stream(input, &params) {
                Ok(s) => s,
                Err(e) => return Err(e),
            };
            assert(stream@ == all[k]);
            let fits = match budget {
                Some(b) => stream.len() <= b,
                None => false,
            };
            if fits {
                let b = budget.unwrap();
                let mut padded = stream;
                pad_zeros(&mut padded, b);
                proof {
                    assert(first_fit(all, budget, k + 1) == Some(k));
                    lemma_first_fit_after(all, budget, k + 1, 15);
                }
                assert(padded@.len() >= 13);
                return match round_trip_check(input, padded.as_slice()) {
                    Ok(()) => Ok(padded),
                    Err(e) => Err(e),
                };
            }
            let smaller = match &best {
                Some(s) => stream.len() < s.len(),
                None => true,
            };
            if smaller {
                best = Some(stream);
            }
            lc = lc + 1;
        }
        pb = pb + 1;
    }
    let stream = best.unwrap();
    proof {
        assert(pb == 3);
        assert(first_fit(all, budget, 15) is None);
        assert(stream@ == fit_result(input@, budget));
        lemma_shortest_index(all, 15);
        let j = shortest_index(all, 15);
        assert(all[j] == alone_of(input@, sweep_params(j)));
        assert(alone_header(sweep_params(j), input@.len()).len() == 13);
    }
    assert(stream@.len() >= 13);
    match round_trip_check(input, stream.as_slice()) {
        Ok(()) => Ok(stream),
        Err(e) => Err(e),
    }
}

} // verus!
