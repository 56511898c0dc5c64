//! The JSON schemas the engine accepts for new formsets, hijacked forms and
//! added questions, as plain data. Reading the JSON text is the caller's
//! part; the checks a parsed schema must pass are here.

use vstd::prelude::*;
use crate::hii::HiiError;

verus! {

pub struct FormSetSchema {
    pub formset_guid: String,
    pub title: String,
    pub help: String,
    pub class_guids: Vec<String>,
    pub varstores: Vec<VarStoreSchema>,
    pub default_stores: Vec<DefaultStoreSchema>,
    pub forms: Vec<FormSchema>,
    pub setupdata_guid: Option<String>,
    pub amitse_guid: Option<String>,
}

pub struct VarStoreSchema {
    pub id: u16,
    pub guid: String,
    pub size: u16,
    pub name: String,
    pub var_type: VarStoreType,
}

#[derive(Debug, Clone, Copy, PartialEq, Eq)]
pub enum VarStoreType {
    Buffer,
    Efi,
}

pub struct DefaultStoreSchema {
    pub name: String,
    pub id: u16,
}

pub struct FormSchema {
    pub id: u16,
    pub title: String,
    pub items: Vec<ItemSchema>,
}

pub enum ItemSchema {
    OneOf(OneOfItem),
    CheckBox(CheckBoxItem),
    Numeric(NumericItem),
    Text(TextItem),
    Ref(RefItem),
    String(StringItem),
    Action(ActionItem),
    OrderedList(OrderedListItem),
}

pub struct OneOfItem {
    pub prompt: String,
    pub help: String,
    pub question_id: u16,
    pub var_store_id: u16,
    pub var_offset: u16,
    pub size: u8,
    pub display: DisplayMode,
    pub options: Vec<OptionSchema>,
    pub defaults: Defaults,
}

pub struct OptionSchema {
    pub text: String,
    pub value: u64,
    pub default: Option<DefaultClass>,
}

/// Which default store an option or value belongs to.
#[derive(Debug, Clone, Copy, PartialEq, Eq)]
pub enum DefaultClass {
    Optimized,
    Failsafe,
}

/// How a numeric value is shown.
#[derive(Debug, Clone, Copy, PartialEq, Eq)]
pub enum DisplayMode {
    IntDec,
    UintDec,
    UintHex,
}

/// The display mode a schema item gets when it names none.
pub fn default_display() -> (d: DisplayMode)
    ensures
        d == DisplayMode::UintDec,
{
    DisplayMode::UintDec
}

#[derive(Debug, Clone, Copy, PartialEq, Eq)]
pub struct Defaults {
    pub optimized: Option<u64>,
    pub failsafe: Option<u64>,
}

impl Default for Defaults {
    fn default() -> (d: Self)
        ensures
            d.optimized is None,
            d.failsafe is None,
    {
        Defaults { optimized: None, failsafe: None }
    }
}

pub struct CheckBoxItem {
    pub prompt: String,
    pub help: String,
    pub question_id: u16,
    pub var_store_id: u16,
    pub var_offset: u16,
    pub defaults: Defaults,
}

pub struct NumericItem {
    pub prompt: String,
    pub help: String,
    pub question_id: u16,
    pub var_store_id: u16,
    pub var_offset: u16,
    pub size: u8,
    pub min: u64,
    pub max: u64,
    pub step: u64,
    pub display: DisplayMode,
    pub defaults: Defaults,
}

pub struct TextItem {
    pub prompt: String,
    pub help: String,
    pub text_two: String,
}

pub struct RefItem {
    pub prompt: String,
    pub help: String,
    pub question_id: u16,
    pub form_id: u16,
}

pub struct StringItem {
    pub prompt: String,
    pub help: String,
    pub question_id: u16,
    pub var_store_id: u16,
    pub var_offset: u16,
    pub min_size: u8,
    pub max_size: u8,
}

pub struct ActionItem {
    pub prompt: String,
    pub help: String,
    pub question_id: u16,
    pub config: String,
}

pub struct OrderedListItem {
    pub prompt: String,
    pub help: String,
    pub question_id: u16,
    pub var_store_id: u16,
    pub var_offset: u16,
    pub max_containers: u8,
}

pub struct HijackQuestionSchema {
    pub question_id: u16,
    pub prompt: String,
    pub help: String,
}

pub struct HijackSchema {
    pub questions: Vec<HijackQuestionSchema>,
}

pub struct QuestionAddSchema {
    pub form_id: u16,
    pub prompt: String,
    pub help: String,
    pub question_id: u16,
    pub var_store_id: u16,
    pub var_offset: u16,
    pub size: u8,
    pub options: Vec<QuestionAddOption>,
    pub defaults: Option<QuestionAddDefaults>,
}

pub struct QuestionAddOption {
    pub text: String,
    pub value: u64,
    pub default: Option<DefaultClass>,
}

#[derive(Debug, Clone, Copy, PartialEq, Eq)]
pub struct QuestionAddDefaults {
    pub optimized: u64,
}

pub struct QuestionAddList {
    pub questions: Vec<QuestionAddSchema>,
}

/// The reason a question list is refused.
pub open spec fn empty_questions_text() -> Seq<char> {
    "questions must not be empty"@
}

fn empty_questions_error() -> (e: HiiError)
    ensures
        e matches HiiError::InvalidSchema(m) && m@ == empty_questions_text(),
{
    HiiError::InvalidSchema("questions must not be empty".to_owned())
}

/// A hijack schema must name at least one question.
pub fn check_hijack_schema(s: HijackSchema) -> (r: Result<HijackSchema, HiiError>)
    ensures
        match r {
            Ok(t) => t == s && s.questions@.len() > 0,
            Err(e) => s.questions@.len() == 0 && (e matches HiiError::InvalidSchema(m) && m@
                == empty_questions_text()),
        },
{
    if s.questions.len() == 0 {
        return Err(empty_questions_error());
    }
    Ok(s)
}

/// A question-add list must hold at least one question.
pub fn check_question_add_list(s: QuestionAddList) -> (r: Result<QuestionAddList, HiiError>)
    ensures
        match r {
            Ok(t) => t == s && s.questions@.len() > 0,
            Err(e) => s.questions@.len() == 0 && (e matches HiiError::InvalidSchema(m) && m@
                == empty_questions_text()),
        },
{
    if s.questions.len() == 0 {
        return Err(empty_questions_error());
    }
    Ok(s)
}

} // verus!
