//! Class files: the constant pool, the data model and the binary parser.
use vstd::prelude::*;
use crate::text::{dec_digits, dec_u8, hex8, hex_digits};

pub mod constant_pool;
pub mod models;
pub mod parser;

pub use constant_pool::{ConstantPoolEntry, CpEntryV};
pub use models::{
    AttributeData, AttributeDataV, AttributeInfo, AttributeV, ClassFile, ClassFileV,
    CodeAttribute, CodeV, ConstantPool, ExceptionTableEntry, FieldInfo, MemberV, MethodInfo,
};

verus! {

/// Why a class file could not be parsed.
#[derive(Debug, Clone, PartialEq)]
pub enum ParseError {
    InvalidMagic(u32),
    UnexpectedEof,
    InvalidConstantPoolTag(u8),
    InvalidUtf8,
    InvalidAttribute(String),
}

impl ParseError {
    /// The text that describes the error.
    pub open spec fn spec_message(&self) -> Seq<char> {
        match self {
            ParseError::InvalidMagic(v) => "Invalid magic number: 0x"@ + hex_digits(*v as nat, 8)
                + ", expected 0xCAFEBABE"@,
            ParseError::UnexpectedEof => "Unexpected end of file"@,
            ParseError::InvalidConstantPoolTag(tag) => "Invalid constant pool tag: "@ + dec_digits(
                *tag as nat,
            ),
            ParseError::InvalidUtf8 => "Invalid UTF-8 in constant pool"@,
            ParseError::InvalidAttribute(msg) => "Invalid attribute: "@ + msg@,
        }
    }

    /// The text that describes the error.
    pub fn message(&self) -> (s: String)
        ensures
            s@ == self.spec_message(),
    {
        match self {
            ParseError::InvalidMagic(v) => {
                let mut s = String::from_str("Invalid magic number: 0x");
                let h = hex8(*v);
                s.append(h.as_str());
                s.append(", expected 0xCAFEBABE");
                s
            },
            ParseError::UnexpectedEof => String::from_str("Unexpected end of file"),
            ParseError::InvalidConstantPoolTag(tag) => {
                let mut s = String::from_str("Invalid constant pool tag: ");
                let d = dec_u8(*tag);
                s.append(d.as_str());
                s
            },
            ParseError::InvalidUtf8 => String::from_str("Invalid UTF-8 in constant pool"),
            ParseError::InvalidAttribute(msg) => {
                let mut s = String::from_str("Invalid attribute: ");
                s.append(msg.as_str());
                s
            },
        }
    }
}

} // verus!
