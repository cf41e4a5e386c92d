//! Entries of a class file's constant pool.
use vstd::prelude::*;

verus! {

/// One entry of the constant pool. `Float` and `Double` keep the raw IEEE 754
/// bits of the value as they stand in the class file.
#[derive(Debug, Clone, PartialEq)]
pub enum ConstantPoolEntry {
    Utf8(String),
    Integer(i32),
    Float(u32),
    Long(i64),
    Double(u64),
    Class { name_index: u16 },
    String { string_index: u16 },
    Fieldref { class_index: u16, name_and_type_index: u16 },
    Methodref { class_index: u16, name_and_type_index: u16 },
    InterfaceMethodref { class_index: u16, name_and_type_index: u16 },
    NameAndType { name_index: u16, descriptor_index: u16 },
    MethodHandle { reference_kind: u8, reference_index: u16 },
    MethodType { descriptor_index: u16 },
    InvokeDynamic { bootstrap_method_attr_index: u16, name_and_type_index: u16 },
    Module { name_index: u16 },
    Package { name_index: u16 },
    Dynamic { bootstrap_method_attr_index: u16, name_and_type_index: u16 },
}

/// The mathematical value of a constant-pool entry: text is a sequence of chars.
pub enum CpEntryV {
    Utf8(Seq<char>),
    Integer(i32),
    Float(u32),
    Long(i64),
    Double(u64),
    Class { name_index: u16 },
    String { string_index: u16 },
    Fieldref { class_index: u16, name_and_type_index: u16 },
    Methodref { class_index: u16, name_and_type_index: u16 },
    InterfaceMethodref { class_index: u16, name_and_type_index: u16 },
    NameAndType { name_index: u16, descriptor_index: u16 },
    MethodHandle { reference_kind: u8, reference_index: u16 },
    MethodType { descriptor_index: u16 },
    InvokeDynamic { bootstrap_method_attr_index: u16, name_and_type_index: u16 },
    Module { name_index: u16 },
    Package { name_index: u16 },
    Dynamic { bootstrap_method_attr_index: u16, name_and_type_index: u16 },
}

impl View for ConstantPoolEntry {
    type V = CpEntryV;

    open spec fn view(&self) -> CpEntryV {
        match self {
            ConstantPoolEntry::Utf8(s) => CpEntryV::Utf8(s@),
            ConstantPoolEntry::Integer(v) => CpEntryV::Integer(*v),
            ConstantPoolEntry::Float(v) => CpEntryV::Float(*v),
            ConstantPoolEntry::Long(v) => CpEntryV::Long(*v),
            ConstantPoolEntry::Double(v) => CpEntryV::Double(*v),
            ConstantPoolEntry::Class { name_index } => CpEntryV::Class { name_index: *name_index },
            ConstantPoolEntry::String { string_index } => CpEntryV::String {
                string_index: *string_index,
            },
            ConstantPoolEntry::Fieldref { class_index, name_and_type_index } => CpEntryV::Fieldref {
                class_index: *class_index,
                name_and_type_index: *name_and_type_index,
            },
            ConstantPoolEntry::Methodref { class_index, name_and_type_index } => CpEntryV::Methodref {
                class_index: *class_index,
                name_and_type_index: *name_and_type_index,
            },
            ConstantPoolEntry::InterfaceMethodref { class_index, name_and_type_index } =>
                CpEntryV::InterfaceMethodref {
                class_index: *class_index,
                name_and_type_index: *name_and_type_index,
            },
            ConstantPoolEntry::NameAndType { name_index, descriptor_index } => CpEntryV::NameAndType {
                name_index: *name_index,
                descriptor_index: *descriptor_index,
            },
            ConstantPoolEntry::MethodHandle { reference_kind, reference_index } => CpEntryV::MethodHandle {
                reference_kind: *reference_kind,
                reference_index: *reference_index,
            },
            ConstantPoolEntry::MethodType { descriptor_index } => CpEntryV::MethodType {
                descriptor_index: *descriptor_index,
            },
            ConstantPoolEntry::InvokeDynamic { bootstrap_method_attr_index, name_and_type_index } =>
                CpEntryV::InvokeDynamic {
                bootstrap_method_attr_index: *bootstrap_method_attr_index,
                name_and_type_index: *name_and_type_index,
            },
            ConstantPoolEntry::Module { name_index } => CpEntryV::Module { name_index: *name_index },
            ConstantPoolEntry::Package { name_index } => CpEntryV::Package { name_index: *name_index },
            ConstantPoolEntry::Dynamic { bootstrap_method_attr_index, name_and_type_index } =>
                CpEntryV::Dynamic {
                bootstrap_method_attr_index: *bootstrap_method_attr_index,
                name_and_type_index: *name_and_type_index,
            },
        }
    }
}

} // verus!
