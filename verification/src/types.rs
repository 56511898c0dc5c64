//! The parsed firmware image: a tree of volumes, files and sections, each
//! node keeping its original header, body and tail bytes and the edit that is
//! pending on it.

use vstd::prelude::*;
use crate::guid::Guid;

verus! {

/// What a node of the tree is.
#[derive(Debug, Clone, Copy, PartialEq, Eq, Structural)]
pub enum FfsType {
    Image,
    Capsule,
    Region,
    Root,
    Volume,
    File,
    Section,
    Padding,
    FreeSpace,
}

/// The edit pending on a node.
#[derive(Debug, Clone, Copy, PartialEq, Eq, Structural)]
pub enum Action {
    NoAction,
    Rebuild,
    Replace,
    Remove,
}

/// Whether an image may be edited.
#[derive(Debug, Clone, Copy, PartialEq, Eq, Structural)]
pub enum ImageMode {
    Read,
    Write,
}

/// What the parser learnt from a volume header.
#[derive(Debug, Clone, Copy)]
pub struct VolumeParsingData {
    pub extended_header_guid: Option<Guid>,
    pub alignment: u32,
    pub ffs_version: u8,
    pub empty_byte: u8,
    pub revision: u8,
}

/// What the parser learnt from a GUID-defined section header.
#[derive(Debug, Clone, Copy)]
pub struct GuidedSectionParsingData {
    pub guid: Guid,
    pub dictionary_size: u32,
}

#[derive(Debug, Clone, Copy)]
/// What the parser learnt from a node's header (`NoData` when nothing).
pub enum ParsingData {
    NoData,
    Volume(VolumeParsingData),
    GuidedSection(GuidedSectionParsingData),
}

/// A node of the image tree. A node with children is rebuilt from them; one
/// without is rebuilt from its body.
#[derive(Debug)]
pub struct FfsNode {
    pub guid: Option<Guid>,
    pub node_type: FfsType,
    pub subtype: u8,
    pub offset: usize,
    pub header: Vec<u8>,
    pub body: Vec<u8>,
    pub tail: Vec<u8>,
    pub children: Vec<FfsNode>,
    pub action: Action,
    pub parsing_data: ParsingData,
    pub fixed: bool,
    pub compressed: bool,
    pub alignment_bytes: Vec<u8>,
}

/// A loaded image.
#[derive(Debug)]
pub struct Image {
    pub image_id: String,
    pub session_id: String,
    pub root: FfsNode,
    pub mode: ImageMode,
}

} // verus!
