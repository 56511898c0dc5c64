//! Emits IFR opcodes into a byte buffer, one opcode per call, in the layouts
//! of the UEFI HII specification (EDK2 structure order).

use vstd::prelude::*;
use vstd::string::StringSliceAdditionalSpecFns;
use crate::bytes::{le16_bytes, le32_bytes, le64_bytes, push_all, u16_bytes, u32_bytes, u64_bytes};
use crate::guid::Guid;
use crate::text::{encode_utf16, utf16_encode};

pub use crate::hii::opcodes::IFR_ACTION_OP as OP_ACTION;
pub use crate::hii::opcodes::IFR_CHECKBOX_OP as OP_CHECKBOX;
pub use crate::hii::opcodes::IFR_DEFAULT_OP as OP_DEFAULT;
pub use crate::hii::opcodes::IFR_DEFAULTSTORE_OP as OP_DEFAULT_STORE;
pub use crate::hii::opcodes::IFR_END_OP as OP_END;
pub use crate::hii::opcodes::IFR_FORM_OP as OP_FORM;
pub use crate::hii::opcodes::IFR_FORM_SET_OP as OP_FORM_SET;
pub use crate::hii::opcodes::IFR_NUMERIC_OP as OP_NUMERIC;
pub use crate::hii::opcodes::IFR_ONE_OF_OP as OP_ONE_OF;
pub use crate::hii::opcodes::IFR_ONE_OF_OPTION_OP as OP_ONE_OF_OPTION;
pub use crate::hii::opcodes::IFR_ORDERED_LIST_OP as OP_ORDERED_LIST;
pub use crate::hii::opcodes::IFR_REF_OP as OP_REF;
pub use crate::hii::opcodes::IFR_STRING_OP as OP_STRING;
pub use crate::hii::opcodes::IFR_TEXT_OP as OP_TEXT;
pub use crate::hii::opcodes::IFR_VARSTORE_EFI_OP as OP_VARSTORE_EFI;
pub use crate::hii::opcodes::IFR_VARSTORE_OP as OP_VARSTORE;
pub use crate::hii::opcodes::IFR_TYPE_BOOLEAN as TYPE_BOOLEAN;
pub use crate::hii::opcodes::IFR_TYPE_NUM_SIZE_8 as TYPE_NUM_SIZE_8;
pub use crate::hii::opcodes::IFR_TYPE_NUM_SIZE_16 as TYPE_NUM_SIZE_16;
pub use crate::hii::opcodes::IFR_TYPE_NUM_SIZE_32 as TYPE_NUM_SIZE_32;
pub use crate::hii::opcodes::IFR_TYPE_NUM_SIZE_64 as TYPE_NUM_SIZE_64;
pub use crate::hii::opcodes::IFR_TYPE_STRING as TYPE_STRING;
pub use crate::hii::opcodes::{
    IFR_CHECKBOX_DEFAULT, IFR_CHECKBOX_DEFAULT_MFG, IFR_DISPLAY_INT_DEC, IFR_DISPLAY_UINT_DEC,
    IFR_DISPLAY_UINT_HEX, IFR_OPTION_DEFAULT, IFR_OPTION_DEFAULT_MFG,
};
use crate::hii::opcodes::{
    IFR_CHECKBOX_OP, IFR_DEFAULTSTORE_OP, IFR_DEFAULT_OP, IFR_END_OP, IFR_FORM_OP,
    IFR_FORM_SET_OP, IFR_NUMERIC_OP, IFR_ONE_OF_OPTION_OP, IFR_ONE_OF_OP, IFR_REF_OP,
    IFR_TEXT_OP, IFR_VARSTORE_EFI_OP, IFR_VARSTORE_OP,
};

verus! {

pub const DEFAULT_ID_STANDARD: u16 = 0x0000;
pub const DEFAULT_ID_MANUFACTURING: u16 = 0x0001;

/// The two header bytes of an opcode whose payload is `data_len` bytes: the
/// opcode, then the total length (7 bits) with the scope bit on top.
pub open spec fn header_bytes(op: u8, scope: bool, data_len: int) -> Seq<u8> {
    seq![
        op,
        (((data_len + 2) % 128) + if scope {
            128int
        } else {
            0int
        }) as u8,
    ]
}

/// A value stored in `size` bytes (1, 2, 4 or 8; any other size stores one byte).
pub open spec fn value_bytes(v: u64, size: u8) -> Seq<u8> {
    if size == 2 {
        le16_bytes((v % 0x10000) as u16)
    } else if size == 4 {
        le32_bytes((v % 0x1_0000_0000) as u32)
    } else if size == 8 {
        le64_bytes(v)
    } else {
        seq![(v % 256) as u8]
    }
}

/// The largest value of a `size`-byte field (8 bytes for any size other than 1, 2, 4).
pub open spec fn size_max(size: u8) -> u64 {
    if size == 1 {
        0xFF
    } else if size == 2 {
        0xFFFF
    } else if size == 4 {
        0xFFFF_FFFF
    } else {
        0xFFFF_FFFF_FFFF_FFFF
    }
}

/// The question header shared by ONE_OF, CHECKBOX, NUMERIC and REF: prompt,
/// help, question id, varstore id, varstore offset, then a zero flags byte.
pub open spec fn question_header(prompt: u16, help: u16, qid: u16, vsid: u16, voff: u16) -> Seq<
    u8,
> {
    le16_bytes(prompt) + le16_bytes(help) + le16_bytes(qid) + le16_bytes(vsid) + le16_bytes(voff)
        + seq![0u8]
}

/// The NUMERIC / ONE_OF flags byte: storage size code in the low two bits.
pub open spec fn sized_flags(size: u8, flags: u8) -> u8 {
    (((size - 1) % 4) as u8) | flags
}

/// The GUIDs in order, sixteen bytes each.
pub open spec fn guids_bytes(gs: Seq<Seq<u8>>) -> Seq<u8>
    decreases gs.len(),
{
    if gs.len() == 0 {
        Seq::empty()
    } else {
        guids_bytes(gs.drop_last()) + gs.last()
    }
}

/// The stored bytes of each GUID.
pub open spec fn guid_views(gs: Seq<Guid>) -> Seq<Seq<u8>> {
    gs.map_values(|g: Guid| g@)
}

/// UTF-16 code units as little-endian byte pairs.
pub open spec fn units_bytes(us: Seq<u16>) -> Seq<u8>
    decreases us.len(),
{
    if us.len() == 0 {
        Seq::empty()
    } else {
        units_bytes(us.drop_last()) + le16_bytes(us.last())
    }
}

/// A varstore name as IFR_VARSTORE_EFI stores it: UCS-2 little-endian with a NUL unit.
pub open spec fn ucs2_name_bytes(name: Seq<char>) -> Seq<u8> {
    units_bytes(utf16_encode(name)) + seq![0u8, 0u8]
}

/// FORM_SET (scoped): GUID, title, help, class-GUID count in the low two flag
/// bits, then the class GUIDs.
pub open spec fn form_set_op(guid: Seq<u8>, title_id: u16, help_id: u16, class_guids: Seq<Seq<u8>>) -> Seq<u8> {
    header_bytes(
                IFR_FORM_SET_OP,
                true,
                (21 + 16 * class_guids.len()) as int,
            ) + guid + le16_bytes(title_id) + le16_bytes(help_id) + seq![
                (class_guids.len() % 4) as u8,
            ] + guids_bytes(class_guids)
}

/// VARSTORE (buffer storage): GUID, id, size, ASCII name and a NUL.
pub open spec fn var_store_op(id: u16, guid: Seq<u8>, size: u16, name: Seq<u8>) -> Seq<u8> {
    header_bytes(
                IFR_VARSTORE_OP,
                false,
                (21 + name.len()) as int,
            ) + guid + le16_bytes(id) + le16_bytes(size) + name + seq![0u8]
}

/// VARSTORE_EFI: id at +2, GUID at +4, attributes at +20, size at +24, then the
/// name in UCS-2 with a NUL unit.
pub open spec fn var_store_efi_op(id: u16, guid: Seq<u8>, size: u16, name: Seq<char>, attributes: u32) -> Seq<u8> {
    header_bytes(
                IFR_VARSTORE_EFI_OP,
                false,
                (24 + ucs2_name_bytes(name).len()) as int,
            ) + le16_bytes(id) + guid + le32_bytes(attributes) + le16_bytes(size)
                + ucs2_name_bytes(name)
}

/// DEFAULTSTORE: name string id and default id.
pub open spec fn default_store_op(name_id: u16, default_id: u16) -> Seq<u8> {
    header_bytes(IFR_DEFAULTSTORE_OP, false, 4) + le16_bytes(
                name_id,
            ) + le16_bytes(default_id)
}

/// FORM (scoped): form id and title.
pub open spec fn form_op(id: u16, title_id: u16) -> Seq<u8> {
    header_bytes(IFR_FORM_OP, true, 4) + le16_bytes(id)
                + le16_bytes(title_id)
}

/// ONE_OF (scoped): question header, size-coded flags, then the default range
/// (zero, the largest value, zero) in `size`-byte fields.
pub open spec fn one_of_op(prompt_id: u16, help_id: u16, qid: u16, vsid: u16, voff: u16, flags: u8, size: u8) -> Seq<u8> {
    header_bytes(IFR_ONE_OF_OP, true, 12 + 3 * size)
                + question_header(prompt_id, help_id, qid, vsid, voff) + seq![
                sized_flags(size, flags),
            ] + value_bytes(0, size) + value_bytes(size_max(size), size) + value_bytes(0, size)
}

/// ONE_OF_OPTION: text id, flags with the value type, value type, value.
pub open spec fn one_of_option_op(text_id: u16, flags: u8, value_type: u8, value: u64, size: u8) -> Seq<u8> {
    header_bytes(
                IFR_ONE_OF_OPTION_OP,
                false,
                (4 + value_bytes(value, size).len()) as int,
            ) + le16_bytes(text_id) + seq![flags | value_type, value_type] + value_bytes(
                value,
                size,
            )
}

/// CHECKBOX (scoped): question header and flags.
pub open spec fn check_box_op(prompt_id: u16, help_id: u16, qid: u16, vsid: u16, voff: u16, flags: u8) -> Seq<u8> {
    header_bytes(IFR_CHECKBOX_OP, true, 12) + question_header(
                prompt_id,
                help_id,
                qid,
                vsid,
                voff,
            ) + seq![flags]
}

/// NUMERIC (scoped): question header, size-coded flags, then minimum, maximum
/// and step in `size`-byte fields.
pub open spec fn numeric_op(prompt_id: u16, help_id: u16, qid: u16, vsid: u16, voff: u16, flags: u8, size: u8, min: u64, max: u64, step: u64) -> Seq<u8> {
    header_bytes(IFR_NUMERIC_OP, true, 12 + 3 * size)
                + question_header(prompt_id, help_id, qid, vsid, voff) + seq![
                sized_flags(size, flags),
            ] + value_bytes(min, size) + value_bytes(max, size) + value_bytes(step, size)
}

/// REF (15 bytes): question header and the target form id.
pub open spec fn ref_op(prompt_id: u16, help_id: u16, qid: u16, vsid: u16, voff: u16, form_id: u16) -> Seq<u8> {
    header_bytes(IFR_REF_OP, false, 13) + question_header(
                prompt_id,
                help_id,
                qid,
                vsid,
                voff,
            ) + le16_bytes(form_id)
}

/// REF3 (33 bytes): a cross-formset link; no varstore (0xFFFF), the target
/// form, question id 0xFFFF, and the target formset GUID.
pub open spec fn ref3_op(prompt_id: u16, help_id: u16, qid: u16, form_id: u16, formset: Seq<u8>) -> Seq<u8> {
    header_bytes(IFR_REF_OP, false, 31) + question_header(
                prompt_id,
                help_id,
                qid,
                0xFFFF,
                0xFFFF,
            ) + le16_bytes(form_id) + le16_bytes(0xFFFF) + formset
}

/// TEXT: prompt, help and second text.
pub open spec fn text_op(prompt_id: u16, help_id: u16, text_two_id: u16) -> Seq<u8> {
    header_bytes(IFR_TEXT_OP, false, 6) + le16_bytes(prompt_id)
                + le16_bytes(help_id) + le16_bytes(text_two_id)
}

/// DEFAULT: default id, value type and value.
pub open spec fn default_op(default_id: u16, value_type: u8, value: u64, size: u8) -> Seq<u8> {
    header_bytes(
                IFR_DEFAULT_OP,
                false,
                (3 + value_bytes(value, size).len()) as int,
            ) + le16_bytes(default_id) + seq![value_type] + value_bytes(value, size)
}

/// END.
pub open spec fn end_op() -> Seq<u8> {
    header_bytes(IFR_END_OP, false, 0)
}

/// Accumulates IFR bytes.
pub struct IfrBuilder {
    buf: Vec<u8>,
}

impl View for IfrBuilder {
    type V = Seq<u8>;

    closed spec fn view(&self) -> Seq<u8> {
        self.buf@
    }
}

impl Default for IfrBuilder {
    fn default() -> (b: Self)
        ensures
            b@ == Seq::<u8>::empty(),
    {
        Self::new()
    }
}

/// The bytes of `g`, in storage order.
pub fn guid_to_bytes(g: &Guid) -> (r: [u8; 16])
    ensures
        r@ == g@,
{
    g.to_bytes()
}

fn push_guid(buf: &mut Vec<u8>, g: &Guid)
    ensures
        final(buf)@ == old(buf)@ + g@,
{
    let b = guid_to_bytes(g);
    let mut k: usize = 0;
    while k < 16
        invariant
            b@ == g@,
            b@.len() == 16,
            k <= 16,
            buf@ == old(buf)@ + b@.subrange(0, k as int),
        decreases 16 - k,
    {
        buf.push(b[k]);
        k = k + 1;
        assert(b@.subrange(0, k as int) =~= b@.subrange(0, k - 1).push(b@[k - 1]));
    }
    assert(b@.subrange(0, 16) =~= b@);
}

/// `v` stored in `size` bytes.
pub fn value_to_bytes(v: u64, size: u8) -> (r: Vec<u8>)
    ensures
        r@ == value_bytes(v, size),
{
    if size == 2 {
        u16_bytes((v % 0x10000) as u16)
    } else if size == 4 {
        u32_bytes((v % 0x1_0000_0000) as u32)
    } else if size == 8 {
        u64_bytes(v)
    } else {
        let mut r: Vec<u8> = Vec::new();
        r.push((v % 256) as u8);
        assert(r@ =~= seq![(v % 256) as u8]);
        r
    }
}

/// Minimum, maximum and step of a `size`-byte field with no stated range:
/// zero, the largest value, zero.
pub fn min_max_step_default(size: u8) -> (r: (Vec<u8>, Vec<u8>, Vec<u8>))
    ensures
        r.0@ == value_bytes(0, size),
        r.1@ == value_bytes(size_max(size), size),
        r.2@ == value_bytes(0, size),
{
    let z = value_to_bytes(0, size);
    let max: u64 = if size == 1 {
        0xFF
    } else if size == 2 {
        0xFFFF
    } else if size == 4 {
        0xFFFF_FFFF
    } else {
        0xFFFF_FFFF_FFFF_FFFF
    };
    let m = value_to_bytes(max, size);
    let z2 = value_to_bytes(0, size);
    (z, m, z2)
}

impl IfrBuilder {
    pub fn new() -> (b: Self)
        ensures
            b@ == Seq::<u8>::empty(),
    {
        IfrBuilder { buf: Vec::new() }
    }

    fn write_header(&mut self, opcode: u8, scope: bool, data_len: usize)
        requires
            data_len + 2 <= usize::MAX,
        ensures
            final(self)@ == old(self)@ + header_bytes(opcode, scope, data_len as int),
    {
        let length: u8 = ((data_len + 2) % 128) as u8;
        let scope_bit: u8 = if scope {
            0x80
        } else {
            0x00
        };
        assert(length | scope_bit == length + scope_bit) by (bit_vector)
            requires
                length < 128,
                scope_bit == 0x80 || scope_bit == 0,
        ;
        self.buf.push(opcode);
        self.buf.push(length | scope_bit);
        assert(self@ =~= old(self)@ + header_bytes(opcode, scope, data_len as int));
    }

    fn push_u16(&mut self, v: u16)
        ensures
            final(self)@ == old(self)@ + le16_bytes(v),
    {
        let b = u16_bytes(v);
        push_all(&mut self.buf, b.as_slice());
    }

    fn push_question_header(&mut self, prompt: u16, help: u16, qid: u16, vsid: u16, voff: u16)
        ensures
            final(self)@ == old(self)@ + question_header(prompt, help, qid, vsid, voff),
    {
        self.push_u16(prompt);
        self.push_u16(help);
        self.push_u16(qid);
        self.push_u16(vsid);
        self.push_u16(voff);
        self.buf.push(0);
        assert(self@ =~= old(self)@ + question_header(prompt, help, qid, vsid, voff));
    }

    /// FORM_SET (scoped): GUID, title, help, class-GUID count in the low two
    /// flag bits, then the class GUIDs.
    pub fn emit_form_set(&mut self, guid: &Guid, title_id: u16, help_id: u16, class_guids: &[Guid])
        requires
            23 + 16 * class_guids@.len() <= usize::MAX,
        ensures
            final(self)@ == old(self)@ + form_set_op(guid@, title_id, help_id, guid_views(class_guids@)),
    {
        let n = class_guids.len();
        let flags: u8 = (n % 4) as u8;
        self.write_header(IFR_FORM_SET_OP, true, 21 + 16 * n);
        push_guid(&mut self.buf, guid);
        self.push_u16(title_id);
        self.push_u16(help_id);
        self.buf.push(flags);
        let ghost head = self@;
        let mut k: usize = 0;
        while k < n
            invariant
                n == class_guids@.len(),
                k <= n,
                self@ == head + guids_bytes(guid_views(class_guids@.subrange(0, k as int))),
            decreases n - k,
        {
            push_guid(&mut self.buf, &class_guids[k]);
            proof {
                let p = class_guids@.subrange(0, k + 1);
                assert(p.drop_last() =~= class_guids@.subrange(0, k as int));
                assert(guid_views(p).drop_last() =~= guid_views(p.drop_last()));
            }
            k = k + 1;
        }
        assert(class_guids@.subrange(0, n as int) =~= class_guids@);
        assert(self@ =~= old(self)@ + form_set_op(guid@, title_id, help_id, guid_views(class_guids@)));
    }

    /// VARSTORE (buffer storage): GUID, id, size, ASCII name and a NUL.
    pub fn emit_var_store(&mut self, id: u16, guid: &Guid, size: u16, name: &str)
        requires
            23 + name.spec_bytes().len() <= usize::MAX,
        ensures
            final(self)@ == old(self)@ + var_store_op(id, guid@, size, name.spec_bytes()),
    {
        let name_bytes = name.as_bytes();
        self.write_header(IFR_VARSTORE_OP, false, 20 + name_bytes.len() + 1);
        push_guid(&mut self.buf, guid);
        self.push_u16(id);
        self.push_u16(size);
        push_all(&mut self.buf, name_bytes);
        self.buf.push(0);
        assert(self@ =~= old(self)@ + var_store_op(id, guid@, size, name.spec_bytes()));
    }

    /// VARSTORE_EFI: id at +2, GUID at +4, attributes at +20, size at +24,
    /// then the name in UCS-2 with a NUL unit.
    pub fn emit_var_store_efi(&mut self, id: u16, guid: &Guid, size: u16, name: &str, attributes: u32)
        requires
            26 + ucs2_name_bytes(name@).len() <= usize::MAX,
        ensures
            final(self)@ == old(self)@ + var_store_efi_op(id, guid@, size, name@, attributes),
    {
        let units = encode_utf16(name);
        let mut name_bytes: Vec<u8> = Vec::new();
        let nu = units.len();
        let mut k: usize = 0;
        while k < nu
            invariant
                nu == units@.len(),
                k <= nu,
                name_bytes@ == units_bytes(units@.subrange(0, k as int)),
            decreases nu - k,
        {
            let b = u16_bytes(units[k]);
            push_all(&mut name_bytes, b.as_slice());
            proof {
                let p = units@.subrange(0, k + 1);
                assert(p.drop_last() =~= units@.subrange(0, k as int));
            }
            k = k + 1;
        }
        assert(units@.subrange(0, nu as int) =~= units@);
        name_bytes.push(0);
        name_bytes.push(0);
        assert(name_bytes@ =~= ucs2_name_bytes(name@));
        self.write_header(IFR_VARSTORE_EFI_OP, false, 24 + name_bytes.len());
        self.push_u16(id);
        push_guid(&mut self.buf, guid);
        let a = u32_bytes(attributes);
        push_all(&mut self.buf, a.as_slice());
        self.push_u16(size);
        push_all(&mut self.buf, name_bytes.as_slice());
        assert(self@ =~= old(self)@ + var_store_efi_op(id, guid@, size, name@, attributes));
    }

    /// DEFAULTSTORE: name string id and default id.
    pub fn emit_default_store(&mut self, name_id: u16, default_id: u16)
        ensures
            final(self)@ == old(self)@ + default_store_op(name_id, default_id),
    {
        self.write_header(IFR_DEFAULTSTORE_OP, false, 4);
        self.push_u16(name_id);
        self.push_u16(default_id);
        assert(self@ =~= old(self)@ + default_store_op(name_id, default_id));
    }

    /// FORM (scoped): form id and title.
    pub fn emit_form(&mut self, id: u16, title_id: u16)
        ensures
            final(self)@ == old(self)@ + form_op(id, title_id),
    {
        self.write_header(IFR_FORM_OP, true, 4);
        self.push_u16(id);
        self.push_u16(title_id);
        assert(self@ =~= old(self)@ + form_op(id, title_id));
    }

    /// ONE_OF (scoped): question header, size-coded flags, then the default
    /// range (zero, the largest value, zero) in `size`-byte fields.
    pub fn emit_one_of(
        &mut self,
        prompt_id: u16,
        help_id: u16,
        qid: u16,
        vsid: u16,
        voff: u16,
        flags: u8,
        size: u8,
    )
        requires
            size >= 1,
        ensures
            final(self)@ == old(self)@ + one_of_op(prompt_id, help_id, qid, vsid, voff, flags, size),
    {
        self.write_header(IFR_ONE_OF_OP, true, 12 + 3 * size as usize);
        self.push_question_header(prompt_id, help_id, qid, vsid, voff);
        let numeric_flags: u8 = (size - 1) % 4;
        self.buf.push(numeric_flags | flags);
        let (min, max, step) = min_max_step_default(size);
        push_all(&mut self.buf, min.as_slice());
        push_all(&mut self.buf, max.as_slice());
        push_all(&mut self.buf, step.as_slice());
        assert(self@ =~= old(self)@ + one_of_op(prompt_id, help_id, qid, vsid, voff, flags, size));
    }

    /// ONE_OF_OPTION: text id, flags with the value type, value type, value.
    pub fn emit_one_of_option(&mut self, text_id: u16, flags: u8, value_type: u8, value: u64, size: u8)
        ensures
            final(self)@ == old(self)@ + one_of_option_op(text_id, flags, value_type, value, size),
    {
        let val_bytes = value_to_bytes(value, size);
        self.write_header(IFR_ONE_OF_OPTION_OP, false, 4 + val_bytes.len());
        self.push_u16(text_id);
        self.buf.push(flags | value_type);
        self.buf.push(value_type);
        push_all(&mut self.buf, val_bytes.as_slice());
        assert(self@ =~= old(self)@ + one_of_option_op(text_id, flags, value_type, value, size));
    }

    /// CHECKBOX (scoped): question header and flags.
    pub fn emit_check_box(
        &mut self,
        prompt_id: u16,
        help_id: u16,
        qid: u16,
        vsid: u16,
        voff: u16,
        flags: u8,
    )
        ensures
            final(self)@ == old(self)@ + check_box_op(prompt_id, help_id, qid, vsid, voff, flags),
    {
        self.write_header(IFR_CHECKBOX_OP, true, 12);
        self.push_question_header(prompt_id, help_id, qid, vsid, voff);
        self.buf.push(flags);
        assert(self@ =~= old(self)@ + check_box_op(prompt_id, help_id, qid, vsid, voff, flags));
    }

    /// NUMERIC (scoped): question header, size-coded flags, then minimum,
    /// maximum and step in `size`-byte fields.
    pub fn emit_numeric(
        &mut self,
        prompt_id: u16,
        help_id: u16,
        qid: u16,
        vsid: u16,
        voff: u16,
        flags: u8,
        size: u8,
        min: u64,
        max: u64,
        step: u64,
    )
        requires
            size >= 1,
        ensures
            final(self)@ == old(self)@ + numeric_op(prompt_id, help_id, qid, vsid, voff, flags, size, min, max, step),
    {
        self.write_header(IFR_NUMERIC_OP, true, 12 + 3 * size as usize);
        self.push_question_header(prompt_id, help_id, qid, vsid, voff);
        let numeric_flags: u8 = (size - 1) % 4;
        self.buf.push(numeric_flags | flags);
        let a = value_to_bytes(min, size);
        push_all(&mut self.buf, a.as_slice());
        let b = value_to_bytes(max, size);
        push_all(&mut self.buf, b.as_slice());
        let c = value_to_bytes(step, size);
        push_all(&mut self.buf, c.as_slice());
        assert(self@ =~= old(self)@ + numeric_op(prompt_id, help_id, qid, vsid, voff, flags, size, min, max, step));
    }

    /// REF (15 bytes): question header and the target form id.
    pub fn emit_ref(
        &mut self,
        prompt_id: u16,
        help_id: u16,
        qid: u16,
        vsid: u16,
        voff: u16,
        form_id: u16,
    )
        ensures
            final(self)@ == old(self)@ + ref_op(prompt_id, help_id, qid, vsid, voff, form_id),
    {
        self.write_header(IFR_REF_OP, false, 13);
        self.push_question_header(prompt_id, help_id, qid, vsid, voff);
        self.push_u16(form_id);
        assert(self@ =~= old(self)@ + ref_op(prompt_id, help_id, qid, vsid, voff, form_id));
    }

    /// REF3 (33 bytes): a cross-formset link; no varstore (0xFFFF), the
    /// target form, question id 0xFFFF, and the target formset GUID.
    pub fn emit_ref3(&mut self, prompt_id: u16, help_id: u16, qid: u16, form_id: u16, formset: &Guid)
        ensures
            final(self)@ == old(self)@ + ref3_op(prompt_id, help_id, qid, form_id, formset@),
    {
        self.write_header(IFR_REF_OP, false, 31);
        self.push_question_header(prompt_id, help_id, qid, 0xFFFF, 0xFFFF);
        self.push_u16(form_id);
        self.push_u16(0xFFFF);
        push_guid(&mut self.buf, formset);
        assert(self@ =~= old(self)@ + ref3_op(prompt_id, help_id, qid, form_id, formset@));
    }

    /// TEXT: prompt, help and second text.
    pub fn emit_text(&mut self, prompt_id: u16, help_id: u16, text_two_id: u16)
        ensures
            final(self)@ == old(self)@ + text_op(prompt_id, help_id, text_two_id),
    {
        self.write_header(IFR_TEXT_OP, false, 6);
        self.push_u16(prompt_id);
        self.push_u16(help_id);
        self.push_u16(text_two_id);
        assert(self@ =~= old(self)@ + text_op(prompt_id, help_id, text_two_id));
    }

    /// DEFAULT: default id, value type and value.
    pub fn emit_default(&mut self, default_id: u16, value_type: u8, value: u64, size: u8)
        ensures
            final(self)@ == old(self)@ + default_op(default_id, value_type, value, size),
    {
        let val_bytes = value_to_bytes(value, size);
        self.write_header(IFR_DEFAULT_OP, false, 3 + val_bytes.len());
        self.push_u16(default_id);
        self.buf.push(value_type);
        push_all(&mut self.buf, val_bytes.as_slice());
        assert(self@ =~= old(self)@ + default_op(default_id, value_type, value, size));
    }

    /// END.
    pub fn emit_end(&mut self)
        ensures
            final(self)@ == old(self)@ + end_op(),
    {
        self.write_header(IFR_END_OP, false, 0);
    }

    /// The bytes emitted so far.
    pub fn build(self) -> (r: Vec<u8>)
        ensures
            r@ == self@,
    {
        self.buf
    }
}

} // verus!
