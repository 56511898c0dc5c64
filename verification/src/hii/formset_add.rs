//! IFR for a schema-described formset: the texts it needs as strings, the
//! opcodes of its forms and items, and the AMI registrations of its
//! questions.

use vstd::prelude::*;
use vstd::utf8::encode_utf8;
use crate::guid::{guid_text_bytes, is_guid_text, Guid};
use crate::hii::ami_patcher::{QuestionAmiRecord, AMI_DEFAULT_ACCESS_LEVEL};
use crate::hii::ifr_builder::{
    check_box_op, default_op, default_store_op, end_op, form_op, form_set_op, guid_views, numeric_op,
    one_of_op, one_of_option_op, ref_op, text_op, var_store_op, IfrBuilder, DEFAULT_ID_MANUFACTURING,
    DEFAULT_ID_STANDARD,
};
use crate::hii::opcodes::{
    IFR_CHECKBOX_DEFAULT, IFR_CHECKBOX_DEFAULT_MFG, IFR_DISPLAY_INT_DEC, IFR_DISPLAY_UINT_DEC,
    IFR_DISPLAY_UINT_HEX, IFR_OPTION_DEFAULT, IFR_OPTION_DEFAULT_MFG,
};
use crate::hii::schema::{
    DefaultClass, DefaultStoreSchema, Defaults, DisplayMode, FormSchema, FormSetSchema, ItemSchema,
    NumericItem, VarStoreSchema,
    OneOfItem, OptionSchema,
};
use crate::hii::string_ids::{id_of, knows, StringIds};
use crate::hii::HiiError;

verus! {

/// The texts of options, in order.
pub open spec fn option_texts(os: Seq<OptionSchema>) -> Seq<Seq<char>>
    decreases os.len(),
{
    if os.len() == 0 {
        Seq::empty()
    } else {
        option_texts(os.drop_last()).push(os.last().text@)
    }
}

/// The texts an item needs as strings, in the order they are collected.
pub open spec fn item_strings(item: ItemSchema) -> Seq<Seq<char>> {
    match item {
        ItemSchema::OneOf(o) => seq![o.prompt@, o.help@] + option_texts(o.options@),
        ItemSchema::CheckBox(c) => seq![c.prompt@, c.help@],
        ItemSchema::Numeric(n) => seq![n.prompt@, n.help@],
        ItemSchema::Text(t) => seq![t.prompt@, t.help@, t.text_two@],
        ItemSchema::Ref(r) => seq![r.prompt@, r.help@],
        ItemSchema::String(s) => seq![s.prompt@, s.help@],
        ItemSchema::Action(a) => seq![a.prompt@, a.help@, a.config@],
        ItemSchema::OrderedList(o) => seq![o.prompt@, o.help@],
    }
}

fn push_text(strings: &mut Vec<String>, s: &String)
    ensures
        final(strings)@.map_values(|x: String| x@) == old(strings)@.map_values(|x: String| x@).push(
            s@,
        ),
{
    let ghost before = strings@;
    strings.push(s.clone());
    assert(strings@.map_values(|x: String| x@) =~= before.map_values(|x: String| x@).push(s@));
}

/// Appends the texts an item needs.
pub fn collect_item_strings(item: &ItemSchema, strings: &mut Vec<String>)
    ensures
        final(strings)@.map_values(|x: String| x@) == old(strings)@.map_values(|x: String| x@)
            + item_strings(*item),
{
    let ghost start = strings@.map_values(|x: String| x@);
    match item {
        ItemSchema::OneOf(o) => {
            push_text(strings, &o.prompt);
            push_text(strings, &o.help);
            let n = o.options.len();
            let mut k: usize = 0;
            while k < n
                invariant
                    n == o.options@.len(),
                    k <= n,
                    strings@.map_values(|x: String| x@) == start + seq![o.prompt@, o.help@]
                        + option_texts(o.options@.subrange(0, k as int)),
                decreases n - k,
            {
                push_text(strings, &o.options[k].text);
                proof {
                    let p = o.options@.subrange(0, k + 1);
                    assert(p.drop_last() =~= o.options@.subrange(0, k as int));
                    assert(strings@.map_values(|x: String| x@) =~= start + seq![o.prompt@, o.help@]
                        + option_texts(p));
                }
                k = k + 1;
            }
            assert(o.options@.subrange(0, n as int) =~= o.options@);
            assert(strings@.map_values(|x: String| x@) =~= start + item_strings(*item));
        },
        ItemSchema::CheckBox(c) => {
            push_text(strings, &c.prompt);
            push_text(strings, &c.help);
            assert(strings@.map_values(|x: String| x@) =~= start + item_strings(*item));
        },
        ItemSchema::Numeric(nm) => {
            push_text(strings, &nm.prompt);
            push_text(strings, &nm.help);
            assert(strings@.map_values(|x: String| x@) =~= start + item_strings(*item));
        },
        ItemSchema::Text(t) => {
            push_text(strings, &t.prompt);
            push_text(strings, &t.help);
            push_text(strings, &t.text_two);
            assert(strings@.map_values(|x: String| x@) =~= start + item_strings(*item));
        },
        ItemSchema::Ref(r) => {
            push_text(strings, &r.prompt);
            push_text(strings, &r.help);
            assert(strings@.map_values(|x: String| x@) =~= start + item_strings(*item));
        },
        ItemSchema::String(s) => {
            push_text(strings, &s.prompt);
            push_text(strings, &s.help);
            assert(strings@.map_values(|x: String| x@) =~= start + item_strings(*item));
        },
        ItemSchema::Action(a) => {
            push_text(strings, &a.prompt);
            push_text(strings, &a.help);
            push_text(strings, &a.config);
            assert(strings@.map_values(|x: String| x@) =~= start + item_strings(*item));
        },
        ItemSchema::OrderedList(o) => {
            push_text(strings, &o.prompt);
            push_text(strings, &o.help);
            assert(strings@.map_values(|x: String| x@) =~= start + item_strings(*item));
        },
    }
}

/// The NUMERIC / ONE_OF display flags of a display mode.
pub open spec fn display_flags(d: DisplayMode) -> u8 {
    match d {
        DisplayMode::IntDec => IFR_DISPLAY_INT_DEC,
        DisplayMode::UintDec => IFR_DISPLAY_UINT_DEC,
        DisplayMode::UintHex => IFR_DISPLAY_UINT_HEX,
    }
}

fn display_flags_exec(d: DisplayMode) -> (r: u8)
    ensures
        r == display_flags(d),
{
    match d {
        DisplayMode::IntDec => IFR_DISPLAY_INT_DEC,
        DisplayMode::UintDec => IFR_DISPLAY_UINT_DEC,
        DisplayMode::UintHex => IFR_DISPLAY_UINT_HEX,
    }
}

/// The ONE_OF_OPTION flags of an option's default class.
pub open spec fn option_flags(d: Option<DefaultClass>) -> u8 {
    match d {
        Some(DefaultClass::Optimized) => IFR_OPTION_DEFAULT,
        Some(DefaultClass::Failsafe) => IFR_OPTION_DEFAULT_MFG,
        None => 0,
    }
}

/// The options of a ONE_OF, each with its text's string id.
pub open spec fn options_bytes(os: Seq<OptionSchema>, size: u8, ids: Seq<(Seq<char>, u16)>) -> Seq<u8>
    decreases os.len(),
{
    if os.len() == 0 {
        Seq::empty()
    } else {
        let o = os.last();
        options_bytes(os.drop_last(), size, ids) + one_of_option_op(
            id_of(ids, o.text@),
            option_flags(o.default),
            (size - 1) as u8,
            o.value,
            size,
        )
    }
}

/// The DEFAULT opcodes of stated defaults: standard (optimized) first, then
/// manufacturing (fail-safe).
pub open spec fn defaults_bytes(d: Defaults, size: u8) -> Seq<u8> {
    (match d.optimized {
        Some(v) => default_op(DEFAULT_ID_STANDARD, (size - 1) as u8, v, size),
        None => Seq::empty(),
    }) + (match d.failsafe {
        Some(v) => default_op(DEFAULT_ID_MANUFACTURING, (size - 1) as u8, v, size),
        None => Seq::empty(),
    })
}

/// The CHECKBOX flags of its defaults: a non-zero optimized default sets the
/// default flag, a non-zero fail-safe one the manufacturing flag.
pub open spec fn checkbox_flags(d: Defaults) -> u8 {
    (if d.optimized matches Some(v) && v != 0 {
        IFR_CHECKBOX_DEFAULT
    } else {
        0u8
    }) | (if d.failsafe matches Some(v) && v != 0 {
        IFR_CHECKBOX_DEFAULT_MFG
    } else {
        0u8
    })
}

/// The opcodes an item becomes. String, action and ordered-list items
/// become a lone END.
pub open spec fn item_bytes(item: ItemSchema, ids: Seq<(Seq<char>, u16)>) -> Seq<u8> {
    match item {
        ItemSchema::OneOf(o) => one_of_item_bytes(o, ids),
        ItemSchema::CheckBox(c) => check_box_op(
            id_of(ids, c.prompt@),
            id_of(ids, c.help@),
            c.question_id,
            c.var_store_id,
            c.var_offset,
            checkbox_flags(c.defaults),
        ) + end_op(),
        ItemSchema::Numeric(n) => numeric_item_bytes(n, ids),
        ItemSchema::Text(t) => text_op(
            id_of(ids, t.prompt@),
            id_of(ids, t.help@),
            id_of(ids, t.text_two@),
        ),
        ItemSchema::Ref(r) => ref_op(
            id_of(ids, r.prompt@),
            id_of(ids, r.help@),
            r.question_id,
            0,
            0,
            r.form_id,
        ),
        _ => end_op(),
    }
}

/// A ONE_OF item: the question, its options, its defaults, END.
pub open spec fn one_of_item_bytes(o: OneOfItem, ids: Seq<(Seq<char>, u16)>) -> Seq<u8> {
    one_of_op(
            id_of(ids, o.prompt@),
            id_of(ids, o.help@),
            o.question_id,
            o.var_store_id,
            o.var_offset,
            display_flags(o.display),
            o.size,
        ) + options_bytes(o.options@, o.size, ids) + defaults_bytes(o.defaults, o.size) + end_op()
}

/// A NUMERIC item: the question, its defaults, END.
pub open spec fn numeric_item_bytes(n: NumericItem, ids: Seq<(Seq<char>, u16)>) -> Seq<u8> {
    numeric_op(
        id_of(ids, n.prompt@),
        id_of(ids, n.help@),
        n.question_id,
        n.var_store_id,
        n.var_offset,
        display_flags(n.display),
        n.size,
        n.min,
        n.max,
        n.step,
    ) + defaults_bytes(n.defaults, n.size) + end_op()
}

/// Every text the item needs has a string id, and sized items have a size.
pub open spec fn item_ready(item: ItemSchema, ids: Seq<(Seq<char>, u16)>) -> bool {
    &&& forall|i: int| 0 <= i < item_strings(item).len() ==> knows(ids, #[trigger] item_strings(item)[i])
    &&& item matches ItemSchema::OneOf(o) ==> o.size >= 1
    &&& item matches ItemSchema::Numeric(n) ==> n.size >= 1
}

fn string_id(ids: &StringIds, s: &String) -> (r: u16)
    requires
        knows(ids@, s@),
    ensures
        r == id_of(ids@, s@),
{
    ids.get(s.as_str()).unwrap()
}

fn emit_defaults(b: &mut IfrBuilder, d: &Defaults, size: u8)
    requires
        size >= 1,
    ensures
        final(b)@ == old(b)@ + defaults_bytes(*d, size),
{
    let ghost start = b@;
    let vt: u8 = size - 1;
    match d.optimized {
        Some(v) => b.emit_default(DEFAULT_ID_STANDARD, vt, v, size),
        None => {},
    }
    match d.failsafe {
        Some(v) => b.emit_default(DEFAULT_ID_MANUFACTURING, vt, v, size),
        None => {},
    }
    assert(b@ =~= start + defaults_bytes(*d, size));
}

fn emit_one_of_item(b: &mut IfrBuilder, o: &OneOfItem, ids: &StringIds)
    requires
        o.size >= 1,
        knows(ids@, o.prompt@),
        knows(ids@, o.help@),
        forall|k: int| 0 <= k < o.options@.len() ==> knows(ids@, #[trigger] o.options@[k].text@),
    ensures
        final(b)@ == old(b)@ + one_of_item_bytes(*o, ids@),
{
    let ghost start = b@;
    let pid = string_id(ids, &o.prompt);
    let hid = string_id(ids, &o.help);
    b.emit_one_of(
        pid,
        hid,
        o.question_id,
        o.var_store_id,
        o.var_offset,
        display_flags_exec(o.display),
        o.size,
    );
    let ghost head = b@;
    let n = o.options.len();
    let mut k: usize = 0;
    while k < n
        invariant
            n == o.options@.len(),
            k <= n,
            o.size >= 1,
            forall|j: int| 0 <= j < o.options@.len() ==> knows(ids@, #[trigger] o.options@[j].text@),
            b@ == head + options_bytes(o.options@.subrange(0, k as int), o.size, ids@),
        decreases n - k,
    {
        let opt = &o.options[k];
        let tid = string_id(ids, &opt.text);
        let flags: u8 = match opt.default {
            Some(DefaultClass::Optimized) => IFR_OPTION_DEFAULT,
            Some(DefaultClass::Failsafe) => IFR_OPTION_DEFAULT_MFG,
            None => 0,
        };
        b.emit_one_of_option(tid, flags, o.size - 1, opt.value, o.size);
        proof {
            let p = o.options@.subrange(0, k + 1);
            assert(p.drop_last() =~= o.options@.subrange(0, k as int));
            assert(b@ =~= head + options_bytes(p, o.size, ids@));
        }
        k = k + 1;
    }
    assert(o.options@.subrange(0, n as int) =~= o.options@);
    emit_defaults(b, &o.defaults, o.size);
    b.emit_end();
    assert(b@ =~= start + one_of_item_bytes(*o, ids@));
}

/// Emits the opcodes of one schema item.
pub fn emit_item(b: &mut IfrBuilder, item: &ItemSchema, ids: &StringIds)
    requires
        item_ready(*item, ids@),
    ensures
        final(b)@ == old(b)@ + item_bytes(*item, ids@),
{
    let ghost start = b@;
    let ghost strs = item_strings(*item);
    assert(knows(ids@, strs[0]));
    assert(knows(ids@, strs[1]));
    match item {
        ItemSchema::OneOf(o) => {
            proof {
                lemma_option_texts_len(o.options@);
                assert forall|k: int| 0 <= k < o.options@.len() implies knows(ids@, #[trigger] o.options@[k].text@) by {
                    lemma_option_text_at(o.options@, k);
                    assert(strs[2 + k] == o.options@[k].text@);
                }
            }
            emit_one_of_item(b, o, ids);
        },
        ItemSchema::CheckBox(c) => {
            let pid = string_id(ids, &c.prompt);
            let hid = string_id(ids, &c.help);
            let mut cbflags: u8 = 0;
            let opt = match c.defaults.optimized {
                Some(v) => v,
                None => 0,
            };
            if opt != 0 {
                cbflags = cbflags | IFR_CHECKBOX_DEFAULT;
            }
            let fs = match c.defaults.failsafe {
                Some(v) => v,
                None => 0,
            };
            if fs != 0 {
                cbflags = cbflags | IFR_CHECKBOX_DEFAULT_MFG;
            }
            assert(cbflags == checkbox_flags(c.defaults)) by {
                assert(0u8 | 1u8 == 1u8 && 0u8 | 2u8 == 2u8 && 1u8 | 2u8 == 3u8 && 0u8 | 0u8 == 0u8
                    && 1u8 | 0u8 == 1u8) by (bit_vector);
            }
            b.emit_check_box(pid, hid, c.question_id, c.var_store_id, c.var_offset, cbflags);
            b.emit_end();
            assert(b@ =~= start + item_bytes(*item, ids@));
        },
        ItemSchema::Numeric(nm) => {
            let pid = string_id(ids, &nm.prompt);
            let hid = string_id(ids, &nm.help);
            b.emit_numeric(
                pid,
                hid,
                nm.question_id,
                nm.var_store_id,
                nm.var_offset,
                display_flags_exec(nm.display),
                nm.size,
                nm.min,
                nm.max,
                nm.step,
            );
            emit_defaults(b, &nm.defaults, nm.size);
            b.emit_end();
            assert(b@ =~= start + item_bytes(*item, ids@));
        },
        ItemSchema::Text(t) => {
            assert(knows(ids@, strs[2]));
            let pid = string_id(ids, &t.prompt);
            let hid = string_id(ids, &t.help);
            let t2 = string_id(ids, &t.text_two);
            b.emit_text(pid, hid, t2);
        },
        ItemSchema::Ref(r) => {
            let pid = string_id(ids, &r.prompt);
            let hid = string_id(ids, &r.help);
            b.emit_ref(pid, hid, r.question_id, 0, 0, r.form_id);
        },
        _ => {
            b.emit_end();
        },
    }
}

proof fn lemma_option_text_at(os: Seq<OptionSchema>, k: int)
    requires
        0 <= k < os.len(),
    ensures
        option_texts(os).len() == os.len(),
        option_texts(os)[k] == os[k].text@,
    decreases os.len(),
{
    lemma_option_texts_len(os);
    if k < os.len() - 1 {
        lemma_option_text_at(os.drop_last(), k);
    }
}

proof fn lemma_option_texts_len(os: Seq<OptionSchema>)
    ensures
        option_texts(os).len() == os.len(),
    decreases os.len(),
{
    if os.len() > 0 {
        lemma_option_texts_len(os.drop_last());
    }
}


/// The opcodes of the first `k` items.
pub open spec fn items_bytes(items: Seq<ItemSchema>, ids: Seq<(Seq<char>, u16)>) -> Seq<u8>
    decreases items.len(),
{
    if items.len() == 0 {
        Seq::empty()
    } else {
        items_bytes(items.drop_last(), ids) + item_bytes(items.last(), ids)
    }
}

/// A form: FORM, its items, END.
pub open spec fn form_bytes(f: FormSchema, ids: Seq<(Seq<char>, u16)>) -> Seq<u8> {
    form_op(f.id, id_of(ids, f.title@)) + items_bytes(f.items@, ids) + end_op()
}

pub open spec fn forms_bytes(fs: Seq<FormSchema>, ids: Seq<(Seq<char>, u16)>) -> Seq<u8>
    decreases fs.len(),
{
    if fs.len() == 0 {
        Seq::empty()
    } else {
        forms_bytes(fs.drop_last(), ids) + form_bytes(fs.last(), ids)
    }
}

/// Every form title and every item text has a string id, and sized items
/// have a size.
pub open spec fn forms_ready(fs: Seq<FormSchema>, ids: Seq<(Seq<char>, u16)>) -> bool {
    forall|i: int|
        0 <= i < fs.len() ==> knows(ids, #[trigger] fs[i].title@) && forall|j: int|
            0 <= j < fs[i].items@.len() ==> item_ready(#[trigger] fs[i].items@[j], ids)
}

fn emit_form_items(b: &mut IfrBuilder, f: &FormSchema, ids: &StringIds)
    requires
        knows(ids@, f.title@),
        forall|j: int| 0 <= j < f.items@.len() ==> item_ready(#[trigger] f.items@[j], ids@),
    ensures
        final(b)@ == old(b)@ + form_bytes(*f, ids@),
{
    let ghost start = b@;
    let title_id = string_id(ids, &f.title);
    b.emit_form(f.id, title_id);
    let ghost head = b@;
    let n = f.items.len();
    let mut k: usize = 0;
    while k < n
        invariant
            n == f.items@.len(),
            k <= n,
            forall|j: int| 0 <= j < f.items@.len() ==> item_ready(#[trigger] f.items@[j], ids@),
            b@ == head + items_bytes(f.items@.subrange(0, k as int), ids@),
        decreases n - k,
    {
        emit_item(b, &f.items[k], ids);
        proof {
            let p = f.items@.subrange(0, k + 1);
            assert(p.drop_last() =~= f.items@.subrange(0, k as int));
            assert(b@ =~= head + items_bytes(p, ids@));
        }
        k = k + 1;
    }
    assert(f.items@.subrange(0, n as int) =~= f.items@);
    b.emit_end();
    assert(b@ =~= start + form_bytes(*f, ids@));
}

/// Emits every form of the schema in order.
pub fn emit_forms(b: &mut IfrBuilder, schema: &FormSetSchema, ids: &StringIds)
    requires
        forms_ready(schema.forms@, ids@),
    ensures
        final(b)@ == old(b)@ + forms_bytes(schema.forms@, ids@),
{
    let ghost start = b@;
    let n = schema.forms.len();
    let mut k: usize = 0;
    while k < n
        invariant
            n == schema.forms@.len(),
            k <= n,
            forms_ready(schema.forms@, ids@),
            b@ == start + forms_bytes(schema.forms@.subrange(0, k as int), ids@),
        decreases n - k,
    {
        let f = &schema.forms[k];
        assert(knows(ids@, schema.forms@[k as int].title@));
        emit_form_items(b, f, ids);
        proof {
            let p = schema.forms@.subrange(0, k + 1);
            assert(p.drop_last() =~= schema.forms@.subrange(0, k as int));
            assert(b@ =~= start + forms_bytes(p, ids@));
        }
        k = k + 1;
    }
    assert(schema.forms@.subrange(0, n as int) =~= schema.forms@);
}

/// What an item registers with AMI setup: the question id, no page id, and
/// the fail-safe and optimized defaults (0 when unstated) truncated to a
/// byte; items without a stored question register nothing.
pub open spec fn spec_extract_question(item: ItemSchema) -> Option<(u16, Option<u16>, u8, u8)> {
    match item {
        ItemSchema::OneOf(o) => Some((o.question_id, None, default_byte(o.defaults.failsafe), default_byte(o.defaults.optimized))),
        ItemSchema::CheckBox(c) => Some((c.question_id, None, default_byte(c.defaults.failsafe), default_byte(c.defaults.optimized))),
        ItemSchema::Numeric(n) => Some((n.question_id, None, default_byte(n.defaults.failsafe), default_byte(n.defaults.optimized))),
        _ => None,
    }
}

/// The low byte of a default value, 0 when there is none.
pub open spec fn default_byte(v: Option<u64>) -> u8 {
    match v {
        Some(x) => (x % 256) as u8,
        None => 0,
    }
}

fn default_byte_exec(v: Option<u64>) -> (r: u8)
    ensures
        r == default_byte(v),
{
    match v {
        Some(x) => (x % 256) as u8,
        None => 0,
    }
}

pub fn extract_question(item: &ItemSchema) -> (r: Option<(u16, Option<u16>, u8, u8)>)
    ensures
        r == spec_extract_question(*item),
{
    match item {
        ItemSchema::OneOf(o) => Some((o.question_id, None, default_byte_exec(o.defaults.failsafe), default_byte_exec(o.defaults.optimized))),
        ItemSchema::CheckBox(c) => Some((c.question_id, None, default_byte_exec(c.defaults.failsafe), default_byte_exec(c.defaults.optimized))),
        ItemSchema::Numeric(n) => Some((n.question_id, None, default_byte_exec(n.defaults.failsafe), default_byte_exec(n.defaults.optimized))),
        _ => None,
    }
}

/// The AMI record of an extracted question, at the default access level.
pub open spec fn record_of(q: (u16, Option<u16>, u8, u8)) -> QuestionAmiRecord {
    QuestionAmiRecord {
        question_id: q.0,
        page_id: q.1,
        access_level: AMI_DEFAULT_ACCESS_LEVEL,
        failsafe: q.2,
        optimal: q.3,
    }
}

/// The AMI records of the registering items, in order.
pub open spec fn item_records(items: Seq<ItemSchema>) -> Seq<QuestionAmiRecord>
    decreases items.len(),
{
    if items.len() == 0 {
        Seq::empty()
    } else {
        item_records(items.drop_last()) + match spec_extract_question(items.last()) {
            Some(q) => seq![record_of(q)],
            None => Seq::empty(),
        }
    }
}

pub open spec fn form_records(fs: Seq<FormSchema>) -> Seq<QuestionAmiRecord>
    decreases fs.len(),
{
    if fs.len() == 0 {
        Seq::empty()
    } else {
        form_records(fs.drop_last()) + item_records(fs.last().items@)
    }
}

/// The form ids of the schema, and the AMI records of its questions.
pub fn extract_form_ids_and_questions(schema: &FormSetSchema) -> (r: (Vec<u16>, Vec<QuestionAmiRecord>))
    ensures
        r.0@ == schema.forms@.map_values(|f: FormSchema| f.id),
        r.1@ == form_records(schema.forms@),
{
    let n = schema.forms.len();
    let mut ids: Vec<u16> = Vec::new();
    let mut questions: Vec<QuestionAmiRecord> = Vec::new();
    let mut k: usize = 0;
    while k < n
        invariant
            n == schema.forms@.len(),
            k <= n,
            ids@ == schema.forms@.subrange(0, k as int).map_values(|f: FormSchema| f.id),
            questions@ == form_records(schema.forms@.subrange(0, k as int)),
        decreases n - k,
    {
        let form = &schema.forms[k];
        ids.push(form.id);
        let ghost before = questions@;
        let m = form.items.len();
        let mut j: usize = 0;
        while j < m
            invariant
                m == form.items@.len(),
                j <= m,
                questions@ == before + item_records(form.items@.subrange(0, j as int)),
            decreases m - j,
        {
            match extract_question(&form.items[j]) {
                Some(q) => {
                    let (qid, page_id, failsafe, optimal) = q;
                    questions.push(QuestionAmiRecord {
                        question_id: qid,
                        page_id,
                        access_level: AMI_DEFAULT_ACCESS_LEVEL,
                        failsafe,
                        optimal,
                    });
                },
                None => {},
            }
            proof {
                let p = form.items@.subrange(0, j + 1);
                assert(p.drop_last() =~= form.items@.subrange(0, j as int));
                assert(questions@ =~= before + item_records(p));
            }
            j = j + 1;
        }
        proof {
            assert(form.items@.subrange(0, m as int) =~= form.items@);
            let p = schema.forms@.subrange(0, k + 1);
            assert(p.drop_last() =~= schema.forms@.subrange(0, k as int));
            assert(questions@ =~= form_records(p));
            assert(ids@ =~= p.map_values(|f: FormSchema| f.id));
        }
        k = k + 1;
    }
    assert(schema.forms@.subrange(0, n as int) =~= schema.forms@);
    (ids, questions)
}


/// The stored bytes of the GUID a text spells, when it spells one.
pub open spec fn guid_of_text(t: Seq<char>) -> Option<Seq<u8>> {
    if is_guid_text(encode_utf8(t)) {
        Some(guid_text_bytes(encode_utf8(t)))
    } else {
        None
    }
}

/// The class GUIDs that parse, in order; the others are left out.
pub open spec fn valid_class_guids(ts: Seq<String>) -> Seq<Seq<u8>>
    decreases ts.len(),
{
    if ts.len() == 0 {
        Seq::empty()
    } else {
        valid_class_guids(ts.drop_last()) + match guid_of_text(ts.last()@) {
            Some(g) => seq![g],
            None => Seq::empty(),
        }
    }
}

/// The VARSTORE opcodes of the varstores, or `None` when a GUID does not parse.
pub open spec fn varstores_bytes(vs: Seq<VarStoreSchema>) -> Option<Seq<u8>>
    decreases vs.len(),
{
    if vs.len() == 0 {
        Some(Seq::empty())
    } else {
        match varstores_bytes(vs.drop_last()) {
            None => None,
            Some(a) => match guid_of_text(vs.last().guid@) {
                None => None,
                Some(g) => Some(
                    a + var_store_op(vs.last().id, g, vs.last().size, encode_utf8(vs.last().name@)),
                ),
            },
        }
    }
}

/// The DEFAULTSTORE opcodes, each with its name's string id.
pub open spec fn default_stores_bytes(ds: Seq<DefaultStoreSchema>, ids: Seq<(Seq<char>, u16)>) -> Seq<u8>
    decreases ds.len(),
{
    if ds.len() == 0 {
        Seq::empty()
    } else {
        default_stores_bytes(ds.drop_last(), ids) + default_store_op(id_of(ids, ds.last().name@), ds.last().id)
    }
}

/// The IFR of a whole formset: FORM_SET, varstores, default stores, forms,
/// END; `None` when the formset GUID or a varstore GUID does not parse.
pub open spec fn spec_build_ifr(schema: FormSetSchema, ids: Seq<(Seq<char>, u16)>) -> Option<Seq<u8>> {
    match guid_of_text(schema.formset_guid@) {
        None => None,
        Some(g) => match varstores_bytes(schema.varstores@) {
            None => None,
            Some(vb) => Some(
                form_set_op(
                    g,
                    id_of(ids, schema.title@),
                    id_of(ids, schema.help@),
                    valid_class_guids(schema.class_guids@),
                ) + vb + default_stores_bytes(schema.default_stores@, ids) + forms_bytes(
                    schema.forms@,
                    ids,
                ) + end_op(),
            ),
        },
    }
}

/// Every text of the schema has a string id, and its lengths fit.
pub open spec fn schema_ready(schema: FormSetSchema, ids: Seq<(Seq<char>, u16)>) -> bool {
    &&& knows(ids, schema.title@)
    &&& knows(ids, schema.help@)
    &&& forall|i: int| 0 <= i < schema.default_stores@.len() ==> knows(ids, #[trigger] schema.default_stores@[i].name@)
    &&& forms_ready(schema.forms@, ids)
    &&& 23 + 16 * schema.class_guids@.len() <= usize::MAX
    &&& forall|i: int| 0 <= i < schema.varstores@.len() ==> 23 + encode_utf8(#[trigger] schema.varstores@[i].name@).len() <= usize::MAX
}

/// The refusal of a GUID that does not parse.
pub open spec fn invalid_guid_text() -> Seq<char> {
    "invalid GUID"@
}

pub(crate) fn invalid_guid() -> (e: HiiError)
    ensures
        e matches HiiError::InvalidSchema(m) && m@ == invalid_guid_text(),
{
    HiiError::InvalidSchema("invalid GUID".to_owned())
}

pub(crate) fn parse_guid(t: &String) -> (r: Option<Guid>)
    ensures
        match r {
            Some(g) => guid_of_text(t@) == Some(g@),
            None => guid_of_text(t@) is None,
        },
{
    Guid::try_parse(t.as_str())
}

/// Builds the IFR of a schema-described formset.
pub fn build_ifr(schema: &FormSetSchema, ids: &StringIds) -> (r: Result<Vec<u8>, HiiError>)
    requires
        schema_ready(*schema, ids@),
    ensures
        match r {
            Ok(v) => spec_build_ifr(*schema, ids@) == Some(v@),
            Err(e) => spec_build_ifr(*schema, ids@) is None && (e matches HiiError::InvalidSchema(m)
                && m@ == invalid_guid_text()),
        },
{
    let mut b = IfrBuilder::new();
    let formset_guid = match parse_guid(&schema.formset_guid) {
        Some(g) => g,
        None => return Err(invalid_guid()),
    };
    let title_id = string_id(ids, &schema.title);
    let help_id = string_id(ids, &schema.help);
    let mut class_guids: Vec<Guid> = Vec::new();
    let nc = schema.class_guids.len();
    let mut k: usize = 0;
    while k < nc
        invariant
            nc == schema.class_guids@.len(),
            k <= nc,
            class_guids@.len() <= k,
            guid_views(class_guids@) == valid_class_guids(schema.class_guids@.subrange(0, k as int)),
        decreases nc - k,
    {
        let ghost before = class_guids@;
        match parse_guid(&schema.class_guids[k]) {
            Some(g) => class_guids.push(g),
            None => {},
        }
        proof {
            let p = schema.class_guids@.subrange(0, k + 1);
            assert(p.drop_last() =~= schema.class_guids@.subrange(0, k as int));
            assert(guid_views(class_guids@) =~= valid_class_guids(p));
        }
        k = k + 1;
    }
    assert(schema.class_guids@.subrange(0, nc as int) =~= schema.class_guids@);
    b.emit_form_set(&formset_guid, title_id, help_id, class_guids.as_slice());
    let ghost after_set = b@;
    let nv = schema.varstores.len();
    let mut k: usize = 0;
    while k < nv
        invariant
            nv == schema.varstores@.len(),
            k <= nv,
            forall|i: int| 0 <= i < schema.varstores@.len() ==> 23 + encode_utf8(#[trigger] schema.varstores@[i].name@).len() <= usize::MAX,
            varstores_bytes(schema.varstores@.subrange(0, k as int)) matches Some(vb) && b@ == after_set + vb,
        decreases nv - k,
    {
        let vs = &schema.varstores[k];
        let ghost prev = varstores_bytes(schema.varstores@.subrange(0, k as int))->0;
        proof {
            let p = schema.varstores@.subrange(0, k + 1);
            assert(p.drop_last() =~= schema.varstores@.subrange(0, k as int));
        }
        let g = match parse_guid(&vs.guid) {
            Some(g) => g,
            None => {
                proof {
                    lemma_varstores_sticky(schema.varstores@, k + 1);
                }
                return Err(invalid_guid());
            },
        };
        assert(23 + encode_utf8(schema.varstores@[k as int].name@).len() <= usize::MAX);
        b.emit_var_store(vs.id, &g, vs.size, vs.name.as_str());
        proof {
            let p = schema.varstores@.subrange(0, k + 1);
            assert(b@ =~= after_set + varstores_bytes(p)->0);
        }
        k = k + 1;
    }
    assert(schema.varstores@.subrange(0, nv as int) =~= schema.varstores@);
    let ghost after_vs = b@;
    let nd = schema.default_stores.len();
    let mut k: usize = 0;
    while k < nd
        invariant
            nd == schema.default_stores@.len(),
            k <= nd,
            forall|i: int| 0 <= i < schema.default_stores@.len() ==> knows(ids@, #[trigger] schema.default_stores@[i].name@),
            b@ == after_vs + default_stores_bytes(schema.default_stores@.subrange(0, k as int), ids@),
        decreases nd - k,
    {
        let ds = &schema.default_stores[k];
        assert(knows(ids@, schema.default_stores@[k as int].name@));
        let nid = string_id(ids, &ds.name);
        b.emit_default_store(nid, ds.id);
        proof {
            let p = schema.default_stores@.subrange(0, k + 1);
            assert(p.drop_last() =~= schema.default_stores@.subrange(0, k as int));
            assert(b@ =~= after_vs + default_stores_bytes(p, ids@));
        }
        k = k + 1;
    }
    assert(schema.default_stores@.subrange(0, nd as int) =~= schema.default_stores@);
    emit_forms(&mut b, schema, ids);
    b.emit_end();
    let out = b.build();
    assert(out@ =~= spec_build_ifr(*schema, ids@)->0);
    Ok(out)
}

pub(crate) proof fn lemma_varstores_sticky(vs: Seq<VarStoreSchema>, k: int)
    requires
        0 <= k <= vs.len(),
        varstores_bytes(vs.subrange(0, k)) is None,
    ensures
        varstores_bytes(vs) is None,
    decreases vs.len() - k,
{
    if k < vs.len() {
        let p = vs.subrange(0, k + 1);
        assert(p.drop_last() =~= vs.subrange(0, k));
        lemma_varstores_sticky(vs, k + 1);
    } else {
        assert(vs.subrange(0, k) =~= vs);
    }
}

} // verus!
