//! EFI GUIDs: sixteen bytes in the mixed-endian layout of the EFI spec, and
//! their textual `xxxxxxxx-xxxx-xxxx-xxxx-xxxxxxxxxxxx` form.

use vstd::prelude::*;
use vstd::string::StringSliceAdditionalSpecFns;

verus! {

/// An EFI GUID, held as its sixteen on-disk bytes.
#[derive(Clone, Copy, Debug, Eq, Hash)]
pub struct Guid {
    bytes: [u8; 16],
}

impl View for Guid {
    type V = Seq<u8>;

    closed spec fn view(&self) -> Seq<u8> {
        self.bytes@
    }
}

pub open spec fn is_hex_digit(c: u8) -> bool {
    (0x30 <= c <= 0x39) || (0x41 <= c <= 0x46) || (0x61 <= c <= 0x66)
}

pub open spec fn hex_value(c: u8) -> int {
    if c <= 0x39 {
        c - 0x30
    } else if c <= 0x46 {
        c - 0x41 + 10
    } else {
        c - 0x61 + 10
    }
}

/// Positions of the four dashes of the textual form.
pub open spec fn is_dash_position(i: int) -> bool {
    i == 8 || i == 13 || i == 18 || i == 23
}

/// `t` is the 36-character textual form of a GUID (hex digits of either case).
pub open spec fn is_guid_text(t: Seq<u8>) -> bool {
    &&& t.len() == 36
    &&& forall|i: int|
        0 <= i < 36 ==> if is_dash_position(i) {
            t[i] == 0x2D
        } else {
            is_hex_digit(#[trigger] t[i])
        }
}

/// Text position of the first hex digit of the `k`-th byte as written.
pub open spec fn text_position(k: int) -> int {
    2 * k + (if k >= 4 {
        1int
    } else {
        0
    }) + (if k >= 6 {
        1int
    } else {
        0
    }) + (if k >= 8 {
        1int
    } else {
        0
    }) + (if k >= 10 {
        1int
    } else {
        0
    })
}

/// Which written byte lands at stored position `k`: the first three fields
/// are stored little-endian, the last eight bytes in written order.
pub open spec fn written_index(k: int) -> int {
    if k < 4 {
        3 - k
    } else if k < 6 {
        9 - k
    } else if k < 8 {
        13 - k
    } else {
        k
    }
}

pub open spec fn written_byte(t: Seq<u8>, w: int) -> int {
    16 * hex_value(t[text_position(w)]) + hex_value(t[text_position(w) + 1])
}

/// The stored bytes denoted by a textual GUID.
pub open spec fn guid_text_bytes(t: Seq<u8>) -> Seq<u8> {
    Seq::new(16, |k: int| written_byte(t, written_index(k)) as u8)
}

fn hex_digit_value(c: u8) -> (r: Option<u8>)
    ensures
        r.is_some() == is_hex_digit(c),
        r.is_some() ==> r.unwrap() as int == hex_value(c) && r.unwrap() < 16,
{
    if 0x30 <= c && c <= 0x39 {
        Some(c - 0x30)
    } else if 0x41 <= c && c <= 0x46 {
        Some(c - 0x41 + 10)
    } else if 0x61 <= c && c <= 0x66 {
        Some(c - 0x61 + 10)
    } else {
        None
    }
}

fn text_position_exec(k: usize) -> (r: usize)
    requires
        k < 16,
    ensures
        r == text_position(k as int),
{
    let mut p = 2 * k;
    if k >= 4 {
        p = p + 1;
    }
    if k >= 6 {
        p = p + 1;
    }
    if k >= 8 {
        p = p + 1;
    }
    if k >= 10 {
        p = p + 1;
    }
    p
}

fn written_index_exec(k: usize) -> (r: usize)
    requires
        k < 16,
    ensures
        r == written_index(k as int),
{
    if k < 4 {
        3 - k
    } else if k < 6 {
        9 - k
    } else if k < 8 {
        13 - k
    } else {
        k
    }
}

/// Every GUID has sixteen bytes.
pub broadcast proof fn lemma_guid_len(g: Guid)
    ensures
        #[trigger] g@.len() == 16,
{
}

impl Guid {
    /// The GUID whose stored bytes are `bytes`.
    pub fn from_bytes(bytes: [u8; 16]) -> (g: Guid)
        ensures
            g@ == bytes@,
    {
        Guid { bytes }
    }

    /// The stored bytes of the GUID.
    pub fn to_bytes(&self) -> (b: [u8; 16])
        ensures
            b@ == self@,
    {
        self.bytes
    }

    /// Parses the textual form; `None` unless `text` is exactly 36 characters
    /// of hex digit groups 8-4-4-4-12 separated by dashes.
    pub fn try_parse(text: &str) -> (r: Option<Guid>)
        ensures
            r.is_some() == is_guid_text(text.spec_bytes()),
            r.is_some() ==> r.unwrap()@ == guid_text_bytes(text.spec_bytes()),
    {
        let t = text.as_bytes();
        if t.len() != 36 {
            return None;
        }
        let mut i: usize = 0;
        while i < 36
            invariant
                t@ == text.spec_bytes(),
                t@.len() == 36,
                i <= 36,
                forall|j: int|
                    0 <= j < i ==> if is_dash_position(j) {
                        t@[j] == 0x2D
                    } else {
                        is_hex_digit(#[trigger] t@[j])
                    },
            decreases 36 - i,
        {
            if i == 8 || i == 13 || i == 18 || i == 23 {
                if t[i] != 0x2D {
                    return None;
                }
            } else {
                if hex_digit_value(t[i]).is_none() {
                    return None;
                }
            }
            i = i + 1;
        }
        let mut bytes = [0u8; 16];
        let mut k: usize = 0;
        while k < 16
            invariant
                t@ == text.spec_bytes(),
                is_guid_text(t@),
                k <= 16,
                bytes@.len() == 16,
                forall|j: int|
                    0 <= j < k ==> #[trigger] bytes@[j] == written_byte(t@, written_index(j)) as u8,
            decreases 16 - k,
        {
            let w = written_index_exec(k);
            let p = text_position_exec(w);
            assert(0 <= p < 35 && !is_dash_position(p as int) && !is_dash_position(p + 1));
            let hi = hex_digit_value(t[p]).unwrap();
            let lo = hex_digit_value(t[p + 1]).unwrap();
            bytes[k] = hi * 16 + lo;
            k = k + 1;
        }
        assert(bytes@ =~= guid_text_bytes(t@));
        Some(Guid { bytes })
    }
}

impl PartialEq for Guid {
    fn eq(&self, other: &Guid) -> (r: bool) {
        let mut k: usize = 0;
        while k < 16
            invariant
                k <= 16,
                self@.len() == 16,
                other@.len() == 16,
                forall|j: int| 0 <= j < k ==> self@[j] == other@[j],
            decreases 16 - k,
        {
            if self.bytes[k] != other.bytes[k] {
                return false;
            }
            k = k + 1;
        }
        assert(self@ =~= other@);
        true
    }
}

impl vstd::std_specs::cmp::PartialEqSpecImpl for Guid {
    open spec fn obeys_eq_spec() -> bool {
        true
    }

    open spec fn eq_spec(&self, other: &Guid) -> bool {
        self@ == other@
    }
}

impl core::str::FromStr for Guid {
    type Err = ();

    fn from_str(s: &str) -> (r: Result<Guid, ()>)
        ensures
            r is Ok == is_guid_text(s.spec_bytes()),
            r matches Ok(g) ==> g@ == guid_text_bytes(s.spec_bytes()),
    {
        match Guid::try_parse(s) {
            Some(g) => Ok(g),
            None => Err(()),
        }
    }
}

} // verus!
