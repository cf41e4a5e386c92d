//! The data model of a parsed class file, and its mathematical view.
use vstd::prelude::*;
use crate::classfile::constant_pool::{ConstantPoolEntry, CpEntryV};

verus! {

/// A parsed class file.
#[derive(Debug, PartialEq)]
pub struct ClassFile {
    pub magic: u32,
    pub minor_version: u16,
    pub major_version: u16,
    pub constant_pool: ConstantPool,
    pub access_flags: u16,
    pub this_class: u16,
    pub super_class: u16,
    pub interfaces: Vec<u16>,
    pub fields: Vec<FieldInfo>,
    pub methods: Vec<MethodInfo>,
    pub attributes: Vec<AttributeInfo>,
}

/// The constant pool. Slot `k` of `entries` holds the entry numbered `k + 1`;
/// the slot that follows a `Long` or `Double` entry is `None`.
#[derive(Debug, Clone, PartialEq)]
pub struct ConstantPool {
    pub entries: Vec<Option<ConstantPoolEntry>>,
}

#[derive(Debug, PartialEq)]
pub struct FieldInfo {
    pub access_flags: u16,
    pub name_index: u16,
    pub descriptor_index: u16,
    pub attributes: Vec<AttributeInfo>,
}

#[derive(Debug, PartialEq)]
pub struct MethodInfo {
    pub access_flags: u16,
    pub name_index: u16,
    pub descriptor_index: u16,
    pub attributes: Vec<AttributeInfo>,
}

#[derive(Debug, PartialEq)]
pub struct AttributeInfo {
    pub name_index: u16,
    pub data: AttributeData,
}

#[derive(Debug, PartialEq)]
pub enum AttributeData {
    Code(CodeAttribute),
    Raw(Vec<u8>),
}

#[derive(Debug, PartialEq)]
pub struct CodeAttribute {
    pub max_stack: u16,
    pub max_locals: u16,
    pub code: Vec<u8>,
    pub exception_table: Vec<ExceptionTableEntry>,
    pub attributes: Vec<AttributeInfo>,
}

#[derive(Debug, Clone, Copy, PartialEq, Eq)]
pub struct ExceptionTableEntry {
    pub start_pc: u16,
    pub end_pc: u16,
    pub handler_pc: u16,
    pub catch_type: u16,
}

// ---------------------------------------------------------------------------
// Mathematical views
// ---------------------------------------------------------------------------

/// View of an attribute.
pub struct AttributeV {
    pub name_index: u16,
    pub data: AttributeDataV,
}

pub enum AttributeDataV {
    Code(CodeV),
    Raw(Seq<u8>),
}

pub struct CodeV {
    pub max_stack: u16,
    pub max_locals: u16,
    pub code: Seq<u8>,
    pub exception_table: Seq<ExceptionTableEntry>,
    pub attributes: Seq<AttributeV>,
}

/// View of a field or a method: both have the same layout.
pub struct MemberV {
    pub access_flags: u16,
    pub name_index: u16,
    pub descriptor_index: u16,
    pub attributes: Seq<AttributeV>,
}

/// View of a whole class file.
pub struct ClassFileV {
    pub magic: u32,
    pub minor_version: u16,
    pub major_version: u16,
    pub constant_pool: Seq<Option<CpEntryV>>,
    pub access_flags: u16,
    pub this_class: u16,
    pub super_class: u16,
    pub interfaces: Seq<u16>,
    pub fields: Seq<MemberV>,
    pub methods: Seq<MemberV>,
    pub attributes: Seq<AttributeV>,
}

pub open spec fn attribute_view(a: AttributeInfo) -> AttributeV
    decreases a,
{
    AttributeV {
        name_index: a.name_index,
        data: match a.data {
            AttributeData::Code(c) => AttributeDataV::Code(
                CodeV {
                    max_stack: c.max_stack,
                    max_locals: c.max_locals,
                    code: c.code@,
                    exception_table: c.exception_table@,
                    attributes: attributes_view(c.attributes@),
                },
            ),
            AttributeData::Raw(v) => AttributeDataV::Raw(v@),
        },
    }
}

pub open spec fn attributes_view(s: Seq<AttributeInfo>) -> Seq<AttributeV>
    decreases s,
{
    if s.len() == 0 {
        Seq::empty()
    } else {
        attributes_view(s.drop_last()).push(attribute_view(s.last()))
    }
}


pub open spec fn opt_entry_view(o: Option<ConstantPoolEntry>) -> Option<CpEntryV> {
    match o {
        Some(e) => Some(e@),
        None => None,
    }
}

pub open spec fn entries_view(s: Seq<Option<ConstantPoolEntry>>) -> Seq<Option<CpEntryV>> {
    Seq::new(s.len(), |i: int| opt_entry_view(s[i]))
}

impl View for ConstantPool {
    type V = Seq<Option<CpEntryV>>;

    open spec fn view(&self) -> Seq<Option<CpEntryV>> {
        entries_view(self.entries@)
    }
}

/// The entry numbered `index` of a constant pool: entries are numbered from 1.
pub open spec fn cp_lookup(cp: Seq<Option<CpEntryV>>, index: u16) -> Option<CpEntryV> {
    if index == 0 || index > cp.len() {
        None
    } else {
        cp[index - 1]
    }
}

/// The text of the `Utf8` entry numbered `index`.
pub open spec fn utf8_at(cp: Seq<Option<CpEntryV>>, index: u16) -> Option<Seq<char>> {
    match cp_lookup(cp, index) {
        Some(CpEntryV::Utf8(s)) => Some(s),
        _ => None,
    }
}

/// The class name that the `Class` entry numbered `index` refers to.
pub open spec fn class_name_at(cp: Seq<Option<CpEntryV>>, index: u16) -> Option<Seq<char>> {
    match cp_lookup(cp, index) {
        Some(CpEntryV::Class { name_index }) => utf8_at(cp, name_index),
        _ => None,
    }
}

/// The name and descriptor that the `NameAndType` entry numbered `index` refers to.
pub open spec fn name_and_type_at(cp: Seq<Option<CpEntryV>>, index: u16) -> Option<(Seq<char>, Seq<char>)> {
    match cp_lookup(cp, index) {
        Some(CpEntryV::NameAndType { name_index, descriptor_index }) => match (
            utf8_at(cp, name_index),
            utf8_at(cp, descriptor_index),
        ) {
            (Some(n), Some(d)) => Some((n, d)),
            _ => None,
        },
        _ => None,
    }
}

/// Class name, method name and descriptor of the `Methodref` entry numbered `index`.
pub open spec fn method_ref_at(cp: Seq<Option<CpEntryV>>, index: u16) -> Option<(Seq<char>, Seq<char>, Seq<char>)> {
    match cp_lookup(cp, index) {
        Some(CpEntryV::Methodref { class_index, name_and_type_index }) => match (
            class_name_at(cp, class_index),
            name_and_type_at(cp, name_and_type_index),
        ) {
            (Some(c), Some((n, d))) => Some((c, n, d)),
            _ => None,
        },
        _ => None,
    }
}

/// The name of the field that the `Fieldref` entry numbered `index` refers
/// to (its class and descriptor entries are not read).
pub open spec fn field_name_at(cp: Seq<Option<CpEntryV>>, index: u16) -> Option<Seq<char>> {
    match cp_lookup(cp, index) {
        Some(CpEntryV::Fieldref { class_index, name_and_type_index }) => match cp_lookup(
            cp,
            name_and_type_index,
        ) {
            Some(CpEntryV::NameAndType { name_index, descriptor_index }) => utf8_at(cp, name_index),
            _ => None,
        },
        _ => None,
    }
}

/// Class name and field name of the `Fieldref` entry numbered `index` (its
/// descriptor entry is not read).
pub open spec fn field_ref_at(cp: Seq<Option<CpEntryV>>, index: u16) -> Option<(Seq<char>, Seq<char>)> {
    match cp_lookup(cp, index) {
        Some(CpEntryV::Fieldref { class_index, name_and_type_index }) => match (
            class_name_at(cp, class_index),
            field_name_at(cp, index),
        ) {
            (Some(c), Some(n)) => Some((c, n)),
            _ => None,
        },
        _ => None,
    }
}

/// Whether a method's name and descriptor entries hold `name` and `descriptor`.
pub open spec fn method_matches(cp: Seq<Option<CpEntryV>>, m: MethodInfo, name: Seq<char>, descriptor: Seq<char>) -> bool {
    utf8_at(cp, m.name_index) == Some(name) && utf8_at(cp, m.descriptor_index) == Some(descriptor)
}

/// The first of `methods` whose name and descriptor are `name` and `descriptor`.
pub open spec fn first_method(
    cp: Seq<Option<CpEntryV>>,
    methods: Seq<MethodInfo>,
    name: Seq<char>,
    descriptor: Seq<char>,
) -> Option<MethodInfo>
    decreases methods.len(),
{
    if methods.len() == 0 {
        None
    } else if method_matches(cp, methods[0], name, descriptor) {
        Some(methods[0])
    } else {
        first_method(cp, methods.drop_first(), name, descriptor)
    }
}

/// The first Code attribute in a list of attributes.
pub open spec fn first_code(attrs: Seq<AttributeInfo>) -> Option<CodeAttribute>
    decreases attrs.len(),
{
    if attrs.len() == 0 {
        None
    } else {
        match attrs[0].data {
            AttributeData::Code(c) => Some(c),
            AttributeData::Raw(_) => first_code(attrs.drop_first()),
        }
    }
}

impl ConstantPool {
    /// The entry numbered `index`, if there is one.
    pub fn get(&self, index: u16) -> (res: Option<&ConstantPoolEntry>)
        ensures
            match res {
                Some(e) => cp_lookup(self@, index) == Some(e@),
                None => cp_lookup(self@, index) is None,
            },
            res matches Some(e) ==> self.entries@[index - 1] == Some(*e),
    {
        let idx = index as usize;
        if idx == 0 || idx > self.entries.len() {
            return None;
        }
        match &self.entries[idx - 1] {
            Some(e) => Some(e),
            None => None,
        }
    }
}

pub open spec fn member_view(access_flags: u16, name_index: u16, descriptor_index: u16, attributes: Seq<AttributeInfo>) -> MemberV {
    MemberV {
        access_flags,
        name_index,
        descriptor_index,
        attributes: attributes_view(attributes),
    }
}

impl View for FieldInfo {
    type V = MemberV;

    open spec fn view(&self) -> MemberV {
        member_view(self.access_flags, self.name_index, self.descriptor_index, self.attributes@)
    }
}

impl View for MethodInfo {
    type V = MemberV;

    open spec fn view(&self) -> MemberV {
        member_view(self.access_flags, self.name_index, self.descriptor_index, self.attributes@)
    }
}

impl View for AttributeInfo {
    type V = AttributeV;

    open spec fn view(&self) -> AttributeV {
        attribute_view(*self)
    }
}

impl View for ClassFile {
    type V = ClassFileV;

    open spec fn view(&self) -> ClassFileV {
        ClassFileV {
            magic: self.magic,
            minor_version: self.minor_version,
            major_version: self.major_version,
            constant_pool: self.constant_pool@,
            access_flags: self.access_flags,
            this_class: self.this_class,
            super_class: self.super_class,
            interfaces: self.interfaces@,
            fields: self.fields@.map_values(|f: FieldInfo| f@),
            methods: self.methods@.map_values(|m: MethodInfo| m@),
            attributes: attributes_view(self.attributes@),
        }
    }
}

} // verus!
