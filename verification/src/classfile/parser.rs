//! The class-file parser: a big-endian byte reader and the parsers of the
//! constant pool, members and attributes, each stated against a functional
//! description of the format over the input bytes.
use vstd::prelude::*;
use vstd::utf8::{valid_utf8, decode_utf8};
use crate::classfile::constant_pool::{ConstantPoolEntry, CpEntryV};
use crate::classfile::models::{
    cp_lookup, entries_view, member_view, attribute_view, attributes_view, AttributeData, AttributeDataV, AttributeInfo, AttributeV,
    ClassFile, ClassFileV, CodeAttribute, CodeV, ConstantPool, ExceptionTableEntry, FieldInfo,
    MemberV, MethodInfo,
};
use crate::classfile::ParseError;

verus! {

// ---------------------------------------------------------------------------
// The format, as functions of the input bytes and a position
// ---------------------------------------------------------------------------

/// Big-endian value of a byte sequence.
pub open spec fn be_value(s: Seq<u8>) -> nat
    decreases s.len(),
{
    if s.len() == 0 {
        0
    } else {
        be_value(s.drop_last()) * 256 + s.last() as nat
    }
}

/// `256` to the power `n`.
pub open spec fn pow256(n: nat) -> nat
    decreases n,
{
    if n == 0 {
        1
    } else {
        256 * pow256((n - 1) as nat)
    }
}

/// The `n` bytes at position `p`, or `UnexpectedEof` when fewer remain.
pub open spec fn read_bytes(s: Seq<u8>, p: nat, n: nat) -> Result<(Seq<u8>, nat), ParseError> {
    if p + n <= s.len() {
        Ok((s.subrange(p as int, (p + n) as int), p + n))
    } else {
        Err(ParseError::UnexpectedEof)
    }
}

pub open spec fn read_u1(s: Seq<u8>, p: nat) -> Result<(u8, nat), ParseError> {
    if p + 1 <= s.len() {
        Ok((s[p as int], p + 1))
    } else {
        Err(ParseError::UnexpectedEof)
    }
}

pub open spec fn read_u2(s: Seq<u8>, p: nat) -> Result<(u16, nat), ParseError> {
    if p + 2 <= s.len() {
        Ok((be_value(s.subrange(p as int, p + 2 as int)) as u16, p + 2))
    } else {
        Err(ParseError::UnexpectedEof)
    }
}

pub open spec fn read_u4(s: Seq<u8>, p: nat) -> Result<(u32, nat), ParseError> {
    if p + 4 <= s.len() {
        Ok((be_value(s.subrange(p as int, p + 4 as int)) as u32, p + 4))
    } else {
        Err(ParseError::UnexpectedEof)
    }
}

pub open spec fn read_u8(s: Seq<u8>, p: nat) -> Result<(u64, nat), ParseError> {
    if p + 8 <= s.len() {
        Ok((be_value(s.subrange(p as int, p + 8 as int)) as u64, p + 8))
    } else {
        Err(ParseError::UnexpectedEof)
    }
}

/// Two consecutive `u2` values.
pub open spec fn read_u2_pair(s: Seq<u8>, p: nat) -> Result<((u16, u16), nat), ParseError> {
    match read_u2(s, p) {
        Err(e) => Err(e),
        Ok((a, p1)) => match read_u2(s, p1) {
            Err(e) => Err(e),
            Ok((b, p2)) => Ok(((a, b), p2)),
        },
    }
}


/// One constant-pool entry at position `p`: the entry, whether it takes two
/// slots of the pool (`Long` and `Double`), and the position after it.
pub open spec fn cp_entry_at(s: Seq<u8>, p: nat) -> Result<(CpEntryV, bool, nat), ParseError> {
    match read_u1(s, p) {
        Err(e) => Err(e),
        Ok((tag, p1)) => if tag == 1 {
            match read_u2(s, p1) {
                Err(e) => Err(e),
                Ok((len, p2)) => match read_bytes(s, p2, len as nat) {
                    Err(e) => Err(e),
                    Ok((b, p3)) => if valid_utf8(b) {
                        Ok((CpEntryV::Utf8(decode_utf8(b)), false, p3))
                    } else {
                        Err(ParseError::InvalidUtf8)
                    },
                },
            }
        } else if tag == 3 {
            match read_u4(s, p1) {
                Err(e) => Err(e),
                Ok((v, p2)) => Ok((CpEntryV::Integer(v as i32), false, p2)),
            }
        } else if tag == 4 {
            match read_u4(s, p1) {
                Err(e) => Err(e),
                Ok((v, p2)) => Ok((CpEntryV::Float(v), false, p2)),
            }
        } else if tag == 5 {
            match read_u8(s, p1) {
                Err(e) => Err(e),
                Ok((v, p2)) => Ok((CpEntryV::Long(v as i64), true, p2)),
            }
        } else if tag == 6 {
            match read_u8(s, p1) {
                Err(e) => Err(e),
                Ok((v, p2)) => Ok((CpEntryV::Double(v), true, p2)),
            }
        } else if tag == 7 || tag == 8 || tag == 16 || tag == 19 || tag == 20 {
            match read_u2(s, p1) {
                Err(e) => Err(e),
                Ok((v, p2)) => Ok((
                    if tag == 7 {
                        CpEntryV::Class { name_index: v }
                    } else if tag == 8 {
                        CpEntryV::String { string_index: v }
                    } else if tag == 16 {
                        CpEntryV::MethodType { descriptor_index: v }
                    } else if tag == 19 {
                        CpEntryV::Module { name_index: v }
                    } else {
                        CpEntryV::Package { name_index: v }
                    },
                    false,
                    p2,
                )),
            }
        } else if tag == 9 || tag == 10 || tag == 11 || tag == 12 || tag == 17 || tag == 18 {
            match read_u2_pair(s, p1) {
                Err(e) => Err(e),
                Ok(((a, b), p2)) => Ok((
                    if tag == 9 {
                        CpEntryV::Fieldref { class_index: a, name_and_type_index: b }
                    } else if tag == 10 {
                        CpEntryV::Methodref { class_index: a, name_and_type_index: b }
                    } else if tag == 11 {
                        CpEntryV::InterfaceMethodref { class_index: a, name_and_type_index: b }
                    } else if tag == 12 {
                        CpEntryV::NameAndType { name_index: a, descriptor_index: b }
                    } else if tag == 17 {
                        CpEntryV::Dynamic { bootstrap_method_attr_index: a, name_and_type_index: b }
                    } else {
                        CpEntryV::InvokeDynamic {
                            bootstrap_method_attr_index: a,
                            name_and_type_index: b,
                        }
                    },
                    false,
                    p2,
                )),
            }
        } else if tag == 15 {
            match read_u1(s, p1) {
                Err(e) => Err(e),
                Ok((k, p2)) => match read_u2(s, p2) {
                    Err(e) => Err(e),
                    Ok((r, p3)) => Ok((
                        CpEntryV::MethodHandle { reference_kind: k, reference_index: r },
                        false,
                        p3,
                    )),
                },
            }
        } else {
            Err(ParseError::InvalidConstantPoolTag(tag))
        },
    }
}

/// An entry always takes at least its tag byte and stays inside the input.
pub proof fn lemma_cp_entry_advances(s: Seq<u8>, p: nat)
    ensures
        cp_entry_at(s, p) matches Ok((_, _, q)) ==> p < q <= s.len(),
{
}

/// The number that follows `i` in a `u16` counter that wraps around.
pub open spec fn u16_wrapping_add(i: u16, k: u16) -> u16 {
    if i + k > u16::MAX {
        (i + k - 0x10000) as u16
    } else {
        (i + k) as u16
    }
}

/// The rest of the constant pool from entry number `i` (of `count - 1`), with
/// the entries read so far in `acc`. A `Long` or `Double` takes two slots;
/// the slot after it is `None`. The entry counter is a `u16` that wraps.
pub open spec fn cp_entries_from(
    s: Seq<u8>,
    p: nat,
    i: u16,
    count: u16,
    acc: Seq<Option<CpEntryV>>,
) -> Result<(Seq<Option<CpEntryV>>, nat), ParseError>
    decreases s.len() - p,
    when p <= s.len()
    via cp_entries_from_decreases
{
    if i >= count {
        Ok((acc, p))
    } else {
        match cp_entry_at(s, p) {
            Err(e) => Err(e),
            Ok((e, wide, q)) => if wide {
                cp_entries_from(s, q, u16_wrapping_add(i, 2), count, acc.push(Some(e)).push(None))
            } else {
                cp_entries_from(s, q, u16_wrapping_add(i, 1), count, acc.push(Some(e)))
            },
        }
    }
}

#[via_fn]
proof fn cp_entries_from_decreases(
    s: Seq<u8>,
    p: nat,
    i: u16,
    count: u16,
    acc: Seq<Option<CpEntryV>>,
) {
    lemma_cp_entry_advances(s, p);
}

/// The constant pool with `count` as its declared count, read at `p`.
pub open spec fn constant_pool_at(s: Seq<u8>, p: nat, count: u16) -> Result<(Seq<Option<CpEntryV>>, nat), ParseError> {
    cp_entries_from(s, p, 1, count, Seq::empty())
}


/// The name of the attribute that holds a method's bytecode.
pub open spec fn code_attribute_name() -> Seq<char> {
    seq!['C', 'o', 'd', 'e']
}

/// `n` exception-table entries at `p`.
pub open spec fn exception_table_at(s: Seq<u8>, p: nat, n: nat) -> Result<(Seq<ExceptionTableEntry>, nat), ParseError>
    decreases n,
{
    if n == 0 {
        Ok((Seq::empty(), p))
    } else {
        match exception_table_at(s, p, (n - 1) as nat) {
            Err(e) => Err(e),
            Ok((v, q)) => match read_u2_pair(s, q) {
                Err(e) => Err(e),
                Ok(((a, b), q1)) => match read_u2_pair(s, q1) {
                    Err(e) => Err(e),
                    Ok(((c, d), q2)) => Ok((
                        v.push(ExceptionTableEntry { start_pc: a, end_pc: b, handler_pc: c, catch_type: d }),
                        q2,
                    )),
                },
            },
        }
    }
}

/// The fixed part of a Code attribute's body: max_stack, max_locals, the
/// bytecode and the exception table.
pub open spec fn code_header_at(s: Seq<u8>, p: nat) -> Result<((u16, u16, Seq<u8>, Seq<ExceptionTableEntry>), nat), ParseError> {
    match read_u2_pair(s, p) {
        Err(e) => Err(e),
        Ok(((max_stack, max_locals), p1)) => match read_u4(s, p1) {
            Err(e) => Err(e),
            Ok((code_length, p2)) => match read_bytes(s, p2, code_length as nat) {
                Err(e) => Err(e),
                Ok((code, p3)) => match read_u2(s, p3) {
                    Err(e) => Err(e),
                    Ok((n, p4)) => match exception_table_at(s, p4, n as nat) {
                        Err(e) => Err(e),
                        Ok((table, p5)) => Ok(((max_stack, max_locals, code, table), p5)),
                    },
                },
            },
        },
    }
}

/// One attribute at `p`. Its body is kept raw unless its name (looked up in
/// `cp`) is `Code`, in which case the body is itself parsed, nested
/// attributes included.
pub open spec fn attribute_at(s: Seq<u8>, p: nat, cp: Seq<Option<CpEntryV>>) -> Result<(AttributeV, nat), ParseError>
    decreases s.len(), 0nat,
{
    match read_u2(s, p) {
        Err(e) => Err(e),
        Ok((name_index, p1)) => match read_u4(s, p1) {
            Err(e) => Err(e),
            Ok((len, p2)) => match read_bytes(s, p2, len as nat) {
                Err(e) => Err(e),
                Ok((info, p3)) => if cp_lookup(cp, name_index) == Some(CpEntryV::Utf8(code_attribute_name())) {
                    match code_header_at(info, 0) {
                        Err(e) => Err(e),
                        Ok(((max_stack, max_locals, code, table), q)) => match attribute_list_at(info, q, cp) {
                            Err(e) => Err(e),
                            Ok((attrs, _)) => Ok((
                                AttributeV {
                                    name_index,
                                    data: AttributeDataV::Code(CodeV {
                                        max_stack,
                                        max_locals,
                                        code,
                                        exception_table: table,
                                        attributes: attrs,
                                    }),
                                },
                                p3,
                            )),
                        },
                    }
                } else {
                    Ok((AttributeV { name_index, data: AttributeDataV::Raw(info) }, p3))
                },
            },
        },
    }
}

/// `n` attributes at `p`.
pub open spec fn attributes_at(s: Seq<u8>, p: nat, cp: Seq<Option<CpEntryV>>, n: nat) -> Result<(Seq<AttributeV>, nat), ParseError>
    decreases s.len(), n,
{
    if n == 0 {
        Ok((Seq::empty(), p))
    } else {
        match attributes_at(s, p, cp, (n - 1) as nat) {
            Err(e) => Err(e),
            Ok((v, q)) => match attribute_at(s, q, cp) {
                Err(e) => Err(e),
                Ok((a, q1)) => Ok((v.push(a), q1)),
            },
        }
    }
}

/// A `u2` count followed by that many attributes.
pub open spec fn attribute_list_at(s: Seq<u8>, p: nat, cp: Seq<Option<CpEntryV>>) -> Result<(Seq<AttributeV>, nat), ParseError>
    decreases s.len(), 0x10000nat,
{
    match read_u2(s, p) {
        Err(e) => Err(e),
        Ok((n, p1)) => attributes_at(s, p1, cp, n as nat),
    }
}

/// A field or a method at `p`.
pub open spec fn member_at(s: Seq<u8>, p: nat, cp: Seq<Option<CpEntryV>>) -> Result<(MemberV, nat), ParseError> {
    match read_u2(s, p) {
        Err(e) => Err(e),
        Ok((access_flags, p1)) => match read_u2_pair(s, p1) {
            Err(e) => Err(e),
            Ok(((name_index, descriptor_index), p2)) => match attribute_list_at(s, p2, cp) {
                Err(e) => Err(e),
                Ok((attributes, p3)) => Ok((
                    MemberV { access_flags, name_index, descriptor_index, attributes },
                    p3,
                )),
            },
        },
    }
}

/// `n` fields or methods at `p`.
pub open spec fn members_at(s: Seq<u8>, p: nat, cp: Seq<Option<CpEntryV>>, n: nat) -> Result<(Seq<MemberV>, nat), ParseError>
    decreases n,
{
    if n == 0 {
        Ok((Seq::empty(), p))
    } else {
        match members_at(s, p, cp, (n - 1) as nat) {
            Err(e) => Err(e),
            Ok((v, q)) => match member_at(s, q, cp) {
                Err(e) => Err(e),
                Ok((m, q1)) => Ok((v.push(m), q1)),
            },
        }
    }
}

/// A `u2` count followed by that many fields or methods.
pub open spec fn member_list_at(s: Seq<u8>, p: nat, cp: Seq<Option<CpEntryV>>) -> Result<(Seq<MemberV>, nat), ParseError> {
    match read_u2(s, p) {
        Err(e) => Err(e),
        Ok((n, p1)) => members_at(s, p1, cp, n as nat),
    }
}

/// `n` values of two bytes each at `p`.
pub open spec fn u2s_at(s: Seq<u8>, p: nat, n: nat) -> Result<(Seq<u16>, nat), ParseError>
    decreases n,
{
    if n == 0 {
        Ok((Seq::empty(), p))
    } else {
        match u2s_at(s, p, (n - 1) as nat) {
            Err(e) => Err(e),
            Ok((v, q)) => match read_u2(s, q) {
                Err(e) => Err(e),
                Ok((x, q1)) => Ok((v.push(x), q1)),
            },
        }
    }
}

/// The class file that the bytes encode, or the first error met reading them.
/// Bytes after the last class attribute are ignored. Its body is long, so it
/// is opaque: a proof that reads it says `reveal(class_file_of)`.
#[verifier::opaque]
pub open spec fn class_file_of(s: Seq<u8>) -> Result<ClassFileV, ParseError> {
    match read_u4(s, 0) {
        Err(e) => Err(e),
        Ok((magic, p1)) => if magic != 0xCAFEBABE {
            Err(ParseError::InvalidMagic(magic))
        } else {
            match read_u2_pair(s, p1) {
                Err(e) => Err(e),
                Ok(((minor_version, major_version), p2)) => match read_u2(s, p2) {
                    Err(e) => Err(e),
                    Ok((cp_count, p3)) => match constant_pool_at(s, p3, cp_count) {
                        Err(e) => Err(e),
                        Ok((cp, p4)) => match read_u2(s, p4) {
                            Err(e) => Err(e),
                            Ok((access_flags, p5)) => match read_u2_pair(s, p5) {
                                Err(e) => Err(e),
                                Ok(((this_class, super_class), p6)) => match read_u2(s, p6) {
                                    Err(e) => Err(e),
                                    Ok((n_interfaces, p7)) => match u2s_at(s, p7, n_interfaces as nat) {
                                        Err(e) => Err(e),
                                        Ok((interfaces, p8)) => match member_list_at(s, p8, cp) {
                                            Err(e) => Err(e),
                                            Ok((fields, p9)) => match member_list_at(s, p9, cp) {
                                                Err(e) => Err(e),
                                                Ok((methods, p10)) => match attribute_list_at(s, p10, cp) {
                                                    Err(e) => Err(e),
                                                    Ok((attributes, _)) => Ok(ClassFileV {
                                                        magic,
                                                        minor_version,
                                                        major_version,
                                                        constant_pool: cp,
                                                        access_flags,
                                                        this_class,
                                                        super_class,
                                                        interfaces,
                                                        fields,
                                                        methods,
                                                        attributes,
                                                    }),
                                                },
                                            },
                                        },
                                    },
                                },
                            },
                        },
                    },
                },
            }
        },
    }
}


// ---------------------------------------------------------------------------
// Byte reader
// ---------------------------------------------------------------------------

proof fn lemma_be_value_push(s: Seq<u8>, b: u8)
    ensures
        be_value(s.push(b)) == be_value(s) * 256 + b as nat,
{
    assert(s.push(b).drop_last() =~= s);
}

proof fn lemma_be_value_bound(s: Seq<u8>)
    ensures
        be_value(s) < pow256(s.len()),
    decreases s.len(),
{
    if s.len() > 0 {
        lemma_be_value_bound(s.drop_last());
        let v = be_value(s.drop_last());
        let m = pow256(s.drop_last().len());
        assert(v * 256 + (s.last() as nat) < m * 256) by (nonlinear_arith)
            requires
                v < m,
                s.last() < 256,
        ;
    }
}

proof fn lemma_pow256_values()
    ensures
        pow256(1) == 0x100,
        pow256(2) == 0x10000,
        pow256(4) == 0x1_0000_0000,
        pow256(8) == 0x1_0000_0000_0000_0000,
{
    reveal_with_fuel(pow256, 9);
}

proof fn lemma_pow256_mono(a: nat, b: nat)
    requires
        a <= b,
    ensures
        pow256(a) <= pow256(b),
    decreases b,
{
    if a < b {
        lemma_pow256_mono(a, (b - 1) as nat);
    }
}

/// Reads a class file's big-endian binary data from a byte slice.
pub struct ByteReader<'a> {
    bytes: &'a [u8],
    pos: usize,
}

impl<'a> ByteReader<'a> {
    #[verifier::type_invariant]
    spec fn inside(self) -> bool {
        self.pos <= self.bytes@.len()
    }

    /// The bytes being read.
    pub closed spec fn data(self) -> Seq<u8> {
        self.bytes@
    }

    /// The position of the next byte to read.
    pub closed spec fn pos(self) -> nat {
        self.pos as nat
    }

    /// A reader at the start of `bytes`.
    pub fn new(bytes: &'a [u8]) -> (r: Self)
        ensures
            r.data() == bytes@,
            r.pos() == 0,
    {
        Self { bytes, pos: 0 }
    }

    /// The number of bytes not read yet.
    pub fn remaining(&self) -> (n: usize)
        ensures
            self.pos() <= self.data().len(),
            n == self.data().len() - self.pos(),
    {
        proof {
            use_type_invariant(self);
        }
        self.bytes.len() - self.pos
    }

    /// Reads `k` bytes as a big-endian number (`k <= 8`).
    fn read_be(&mut self, k: usize) -> (res: Result<u64, ParseError>)
        requires
            k <= 8,
        ensures
            final(self).data() == old(self).data(),
            old(self).pos() + k <= old(self).data().len() ==> {
                &&& res == Ok::<u64, ParseError>(
                    be_value(old(self).data().subrange(old(self).pos() as int, old(self).pos() + k)) as u64,
                )
                &&& be_value(old(self).data().subrange(old(self).pos() as int, old(self).pos() + k)) < pow256(k as nat)
                &&& final(self).pos() == old(self).pos() + k
            },
            old(self).pos() + k > old(self).data().len() ==> {
                &&& res == Err::<u64, ParseError>(ParseError::UnexpectedEof)
                &&& final(self).pos() == old(self).pos()
            },
    {
        proof {
            use_type_invariant(&*self);
        }
        if self.bytes.len() - self.pos < k {
            return Err(ParseError::UnexpectedEof);
        }
        let ghost s = self.bytes@;
        let start = self.pos;
        let mut v: u64 = 0;
        let mut i: usize = 0;
        proof {
            assert(s.subrange(start as int, start as int) =~= Seq::<u8>::empty());
            lemma_pow256_values();
            lemma_pow256_mono(k as nat, 8);
        }
        while i < k
            invariant
                s == self.bytes@,
                start == self.pos,
                start + k <= self.bytes.len(),
                i <= k <= 8,
                pow256(k as nat) <= 0x1_0000_0000_0000_0000,
                v == be_value(s.subrange(start as int, start + i)),
                v < pow256(i as nat),
            decreases k - i,
        {
            let b = self.bytes[start + i];
            proof {
                assert(s.subrange(start as int, start + i + 1) =~= s.subrange(start as int, start + i).push(b));
                lemma_be_value_push(s.subrange(start as int, start + i), b);
                lemma_pow256_mono((i + 1) as nat, k as nat);
                assert(pow256((i + 1) as nat) == 256 * pow256(i as nat));
                assert(v * 256 + b < 256 * pow256(i as nat)) by (nonlinear_arith)
                    requires
                        v < pow256(i as nat),
                        b < 256,
                ;
            }
            v = v * 256 + b as u64;
            i = i + 1;
        }
        self.pos = start + k;
        Ok(v)
    }

    /// Reads one byte.
    pub fn u1(&mut self) -> (res: Result<u8, ParseError>)
        ensures
            final(self).data() == old(self).data(),
            match read_u1(old(self).data(), old(self).pos()) {
                Ok((v, q)) => res == Ok::<u8, ParseError>(v) && final(self).pos() == q,
                Err(e) => res == Err::<u8, ParseError>(e) && final(self).pos() == old(self).pos(),
            },
    {
        proof {
            use_type_invariant(&*self);
        }
        if self.pos >= self.bytes.len() {
            return Err(ParseError::UnexpectedEof);
        }
        let val = self.bytes[self.pos];
        self.pos = self.pos + 1;
        Ok(val)
    }

    /// Reads a big-endian `u16`.
    pub fn u2(&mut self) -> (res: Result<u16, ParseError>)
        ensures
            final(self).data() == old(self).data(),
            match read_u2(old(self).data(), old(self).pos()) {
                Ok((v, q)) => res == Ok::<u16, ParseError>(v) && final(self).pos() == q,
                Err(e) => res == Err::<u16, ParseError>(e) && final(self).pos() == old(self).pos(),
            },
    {
        proof {
            lemma_pow256_values();
        }
        match self.read_be(2) {
            Ok(v) => Ok(v as u16),
            Err(e) => Err(e),
        }
    }

    /// Reads a big-endian `u32`.
    pub fn u4(&mut self) -> (res: Result<u32, ParseError>)
        ensures
            final(self).data() == old(self).data(),
            match read_u4(old(self).data(), old(self).pos()) {
                Ok((v, q)) => res == Ok::<u32, ParseError>(v) && final(self).pos() == q,
                Err(e) => res == Err::<u32, ParseError>(e) && final(self).pos() == old(self).pos(),
            },
    {
        proof {
            lemma_pow256_values();
        }
        match self.read_be(4) {
            Ok(v) => Ok(v as u32),
            Err(e) => Err(e),
        }
    }

    /// Reads a big-endian `u64`.
    pub fn u8(&mut self) -> (res: Result<u64, ParseError>)
        ensures
            final(self).data() == old(self).data(),
            match read_u8(old(self).data(), old(self).pos()) {
                Ok((v, q)) => res == Ok::<u64, ParseError>(v) && final(self).pos() == q,
                Err(e) => res == Err::<u64, ParseError>(e) && final(self).pos() == old(self).pos(),
            },
    {
        proof {
            lemma_pow256_values();
        }
        self.read_be(8)
    }

    /// Reads the next `n` bytes.
    pub fn bytes(&mut self, n: usize) -> (res: Result<&'a [u8], ParseError>)
        ensures
            final(self).data() == old(self).data(),
            match read_bytes(old(self).data(), old(self).pos(), n as nat) {
                Ok((v, q)) => res is Ok && res.unwrap()@ == v && final(self).pos() == q,
                Err(e) => res == Err::<&'a [u8], ParseError>(e) && final(self).pos() == old(self).pos(),
            },
    {
        proof {
            use_type_invariant(&*self);
        }
        if self.bytes.len() - self.pos < n {
            return Err(ParseError::UnexpectedEof);
        }
        let val = vstd::slice::slice_subrange(self.bytes, self.pos, self.pos + n);
        self.pos = self.pos + n;
        Ok(val)
    }
}


// ---------------------------------------------------------------------------
// Parsers
// ---------------------------------------------------------------------------

/// `String::from_utf8`: the text that `bytes` encode in UTF-8, or `None`
/// where they are not valid UTF-8. The contract claims that the standard
/// library's notion of valid UTF-8 and its decoding agree with vstd's
/// `valid_utf8` and `decode_utf8`.
#[verifier::external_body]
fn utf8_to_string(bytes: Vec<u8>) -> (res: Option<String>)
    ensures
        res is Some <==> valid_utf8(bytes@),
        res matches Some(s) ==> s@ == decode_utf8(bytes@),
{
    String::from_utf8(bytes).ok()
}

/// Whether `name` is the name of the Code attribute.
fn is_code_name(name: &String) -> (b: bool)
    ensures
        b == (name@ == code_attribute_name()),
{
    let code = String::from_str("Code");
    proof {
        reveal_strlit("Code");
        assert(code@ =~= code_attribute_name());
    }
    name.eq(&code)
}

/// Reads one constant-pool entry; the flag says whether it takes two slots.
fn parse_cp_entry(r: &mut ByteReader) -> (res: Result<(ConstantPoolEntry, bool), ParseError>)
    ensures
        final(r).data() == old(r).data(),
        match cp_entry_at(old(r).data(), old(r).pos()) {
            Ok((e, wide, q)) => res is Ok && res.unwrap().0@ == e && res.unwrap().1 == wide
                && final(r).pos() == q,
            Err(err) => res == Err::<(ConstantPoolEntry, bool), ParseError>(err),
        },
{
    let tag = r.u1()?;
    if tag == 1 {
        let length = r.u2()?;
        let bytes = r.bytes(length as usize)?;
        let v = vstd::slice::slice_to_vec(bytes);
        match utf8_to_string(v) {
            Some(text) => Ok((ConstantPoolEntry::Utf8(text), false)),
            None => Err(ParseError::InvalidUtf8),
        }
    } else if tag == 3 {
        let v = r.u4()?;
        Ok((ConstantPoolEntry::Integer(v as i32), false))
    } else if tag == 4 {
        let v = r.u4()?;
        Ok((ConstantPoolEntry::Float(v), false))
    } else if tag == 5 {
        let v = r.u8()?;
        Ok((ConstantPoolEntry::Long(v as i64), true))
    } else if tag == 6 {
        let v = r.u8()?;
        Ok((ConstantPoolEntry::Double(v), true))
    } else if tag == 7 {
        Ok((ConstantPoolEntry::Class { name_index: r.u2()? }, false))
    } else if tag == 8 {
        Ok((ConstantPoolEntry::String { string_index: r.u2()? }, false))
    } else if tag == 16 {
        Ok((ConstantPoolEntry::MethodType { descriptor_index: r.u2()? }, false))
    } else if tag == 19 {
        Ok((ConstantPoolEntry::Module { name_index: r.u2()? }, false))
    } else if tag == 20 {
        Ok((ConstantPoolEntry::Package { name_index: r.u2()? }, false))
    } else if tag == 9 || tag == 10 || tag == 11 || tag == 12 || tag == 17 || tag == 18 {
        let a = r.u2()?;
        let b = r.u2()?;
        let e = if tag == 9 {
            ConstantPoolEntry::Fieldref { class_index: a, name_and_type_index: b }
        } else if tag == 10 {
            ConstantPoolEntry::Methodref { class_index: a, name_and_type_index: b }
        } else if tag == 11 {
            ConstantPoolEntry::InterfaceMethodref { class_index: a, name_and_type_index: b }
        } else if tag == 12 {
            ConstantPoolEntry::NameAndType { name_index: a, descriptor_index: b }
        } else if tag == 17 {
            ConstantPoolEntry::Dynamic { bootstrap_method_attr_index: a, name_and_type_index: b }
        } else {
            ConstantPoolEntry::InvokeDynamic { bootstrap_method_attr_index: a, name_and_type_index: b }
        };
        Ok((e, false))
    } else if tag == 15 {
        let k = r.u1()?;
        let i = r.u2()?;
        Ok((ConstantPoolEntry::MethodHandle { reference_kind: k, reference_index: i }, false))
    } else {
        Err(ParseError::InvalidConstantPoolTag(tag))
    }
}

/// Reads the constant pool, whose declared count is `count`.
fn parse_constant_pool(r: &mut ByteReader, count: u16) -> (res: Result<ConstantPool, ParseError>)
    ensures
        final(r).data() == old(r).data(),
        match constant_pool_at(old(r).data(), old(r).pos(), count) {
            Ok((v, q)) => res is Ok && res.unwrap()@ == v && final(r).pos() == q,
            Err(e) => res == Err::<ConstantPool, ParseError>(e),
        },
{
    let ghost s = r.data();
    let ghost p0 = r.pos();
    let _ = r.remaining();
    let mut entries: Vec<Option<ConstantPoolEntry>> = Vec::new();
    let mut i: u16 = 1;
    proof {
        assert(entries_view(entries@) =~= Seq::<Option<CpEntryV>>::empty());
    }
    while i < count
        invariant
            r.data() == s,
            s == old(r).data(),
            p0 == old(r).pos(),
            r.pos() <= s.len(),
            constant_pool_at(s, p0, count) == cp_entries_from(s, r.pos(), i, count, entries_view(entries@)),
        decreases s.len() - r.pos(),
    {
        let ghost pos = r.pos();
        let ghost old_acc = entries_view(entries@);
        let ghost old_i = i;
        proof {
            lemma_cp_entry_advances(s, pos);
        }
        let (entry, wide) = parse_cp_entry(r)?;
        let ghost ev = entry@;
        if wide {
            entries.push(Some(entry));
            entries.push(None);
            i = i.wrapping_add(2);
        } else {
            entries.push(Some(entry));
            i = i.wrapping_add(1);
        }
        proof {
            let acc = entries_view(entries@);
            if wide {
                assert(acc =~= old_acc.push(Some(ev)).push(None));
                assert(i == u16_wrapping_add(old_i, 2));
            } else {
                assert(acc =~= old_acc.push(Some(ev)));
                assert(i == u16_wrapping_add(old_i, 1));
            }
        }
    }
    Ok(ConstantPool { entries })
}



proof fn lemma_attributes_err(s: Seq<u8>, p: nat, cp: Seq<Option<CpEntryV>>, m: nat, n: nat)
    requires
        m <= n,
        attributes_at(s, p, cp, m) is Err,
    ensures
        attributes_at(s, p, cp, n) == attributes_at(s, p, cp, m),
    decreases n,
{
    if m < n {
        lemma_attributes_err(s, p, cp, m, (n - 1) as nat);
    }
}

proof fn lemma_members_err(s: Seq<u8>, p: nat, cp: Seq<Option<CpEntryV>>, m: nat, n: nat)
    requires
        m <= n,
        members_at(s, p, cp, m) is Err,
    ensures
        members_at(s, p, cp, n) == members_at(s, p, cp, m),
    decreases n,
{
    if m < n {
        lemma_members_err(s, p, cp, m, (n - 1) as nat);
    }
}

proof fn lemma_u2s_err(s: Seq<u8>, p: nat, m: nat, n: nat)
    requires
        m <= n,
        u2s_at(s, p, m) is Err,
    ensures
        u2s_at(s, p, n) == u2s_at(s, p, m),
    decreases n,
{
    if m < n {
        lemma_u2s_err(s, p, m, (n - 1) as nat);
    }
}

proof fn lemma_exception_table_err(s: Seq<u8>, p: nat, m: nat, n: nat)
    requires
        m <= n,
        exception_table_at(s, p, m) is Err,
    ensures
        exception_table_at(s, p, n) == exception_table_at(s, p, m),
    decreases n,
{
    if m < n {
        lemma_exception_table_err(s, p, m, (n - 1) as nat);
    }
}

proof fn lemma_attributes_view_push(v: Seq<AttributeInfo>, a: AttributeInfo)
    ensures
        attributes_view(v.push(a)) == attributes_view(v).push(attribute_view(a)),
{
    assert(v.push(a).drop_last() =~= v);
}

/// Reads `n` exception-table entries.
fn parse_exception_table(r: &mut ByteReader, n: u16) -> (res: Result<Vec<ExceptionTableEntry>, ParseError>)
    ensures
        final(r).data() == old(r).data(),
        match exception_table_at(old(r).data(), old(r).pos(), n as nat) {
            Ok((v, q)) => res is Ok && res.unwrap()@ == v && final(r).pos() == q,
            Err(e) => res == Err::<Vec<ExceptionTableEntry>, ParseError>(e),
        },
{
    let ghost s = r.data();
    let ghost p0 = r.pos();
    let mut table: Vec<ExceptionTableEntry> = Vec::new();
    let mut k: u16 = 0;
    while k < n
        invariant
            r.data() == s,
            s == old(r).data(),
            p0 == old(r).pos(),
            k <= n,
            exception_table_at(s, p0, k as nat) == Ok::<(Seq<ExceptionTableEntry>, nat), ParseError>((table@, r.pos())),
        decreases n - k,
    {
        let start_pc = match r.u2() {
            Ok(v) => v,
            Err(e) => {
                proof { lemma_exception_table_err(s, p0, (k + 1) as nat, n as nat); }
                return Err(e);
            },
        };
        let end_pc = match r.u2() {
            Ok(v) => v,
            Err(e) => {
                proof { lemma_exception_table_err(s, p0, (k + 1) as nat, n as nat); }
                return Err(e);
            },
        };
        let handler_pc = match r.u2() {
            Ok(v) => v,
            Err(e) => {
                proof { lemma_exception_table_err(s, p0, (k + 1) as nat, n as nat); }
                return Err(e);
            },
        };
        let catch_type = match r.u2() {
            Ok(v) => v,
            Err(e) => {
                proof { lemma_exception_table_err(s, p0, (k + 1) as nat, n as nat); }
                return Err(e);
            },
        };
        table.push(ExceptionTableEntry { start_pc, end_pc, handler_pc, catch_type });
        k = k + 1;
    }
    Ok(table)
}

/// Reads the fixed part of a Code attribute's body.
fn parse_code_header(r: &mut ByteReader) -> (res: Result<(u16, u16, Vec<u8>, Vec<ExceptionTableEntry>), ParseError>)
    ensures
        final(r).data() == old(r).data(),
        match code_header_at(old(r).data(), old(r).pos()) {
            Ok(((a, b, c, t), q)) => res is Ok && res.unwrap().0 == a && res.unwrap().1 == b
                && res.unwrap().2@ == c && res.unwrap().3@ == t && final(r).pos() == q,
            Err(e) => res == Err::<(u16, u16, Vec<u8>, Vec<ExceptionTableEntry>), ParseError>(e),
        },
{
    let max_stack = r.u2()?;
    let max_locals = r.u2()?;
    let code_length = r.u4()?;
    let code = vstd::slice::slice_to_vec(r.bytes(code_length as usize)?);
    let n = r.u2()?;
    let table = parse_exception_table(r, n)?;
    Ok((max_stack, max_locals, code, table))
}

/// Reads one attribute; a Code attribute's body is parsed with nested
/// attributes.
fn parse_attribute(r: &mut ByteReader, cp: &ConstantPool) -> (res: Result<AttributeInfo, ParseError>)
    ensures
        final(r).data() == old(r).data(),
        match attribute_at(old(r).data(), old(r).pos(), cp@) {
            Ok((v, q)) => res is Ok && attribute_view(res.unwrap()) == v && final(r).pos() == q,
            Err(e) => res == Err::<AttributeInfo, ParseError>(e),
        },
    decreases old(r).data().len(), 0nat,
{
    let name_index = r.u2()?;
    let attribute_length = r.u4()?;
    let info = vstd::slice::slice_to_vec(r.bytes(attribute_length as usize)?);
    let is_code = match cp.get(name_index) {
        Some(ConstantPoolEntry::Utf8(name)) => is_code_name(name),
        _ => false,
    };
    if is_code {
        let mut cr = ByteReader::new(info.as_slice());
        let (max_stack, max_locals, code, exception_table) = parse_code_header(&mut cr)?;
        let attributes = parse_attributes(&mut cr, cp)?;
        Ok(AttributeInfo {
            name_index,
            data: AttributeData::Code(
                CodeAttribute { max_stack, max_locals, code, exception_table, attributes },
            ),
        })
    } else {
        Ok(AttributeInfo { name_index, data: AttributeData::Raw(info) })
    }
}

/// Reads a `u2` count and that many attributes.
fn parse_attributes(r: &mut ByteReader, cp: &ConstantPool) -> (res: Result<Vec<AttributeInfo>, ParseError>)
    ensures
        final(r).data() == old(r).data(),
        match attribute_list_at(old(r).data(), old(r).pos(), cp@) {
            Ok((v, q)) => res is Ok && attributes_view(res.unwrap()@) == v && final(r).pos() == q,
            Err(e) => res == Err::<Vec<AttributeInfo>, ParseError>(e),
        },
    decreases old(r).data().len(), 1nat,
{
    let ghost s = r.data();
    let count = r.u2()?;
    let ghost p1 = r.pos();
    let mut attrs: Vec<AttributeInfo> = Vec::new();
    let mut k: u16 = 0;
    proof {
        assert(attributes_view(attrs@) =~= Seq::<AttributeV>::empty());
    }
    while k < count
        invariant
            r.data() == s,
            s == old(r).data(),
            attribute_list_at(s, old(r).pos(), cp@) == attributes_at(s, p1, cp@, count as nat),
            k <= count,
            attributes_at(s, p1, cp@, k as nat) == Ok::<(Seq<AttributeV>, nat), ParseError>((attributes_view(attrs@), r.pos())),
        decreases count - k,
    {
        let a = match parse_attribute(r, cp) {
            Ok(a) => a,
            Err(e) => {
                proof { lemma_attributes_err(s, p1, cp@, (k + 1) as nat, count as nat); }
                return Err(e);
            },
        };
        proof {
            lemma_attributes_view_push(attrs@, a);
        }
        attrs.push(a);
        k = k + 1;
    }
    Ok(attrs)
}


/// Reads one field or method: access flags, name index, descriptor index and
/// attributes.
fn parse_member(r: &mut ByteReader, cp: &ConstantPool) -> (res: Result<(u16, u16, u16, Vec<AttributeInfo>), ParseError>)
    ensures
        final(r).data() == old(r).data(),
        match member_at(old(r).data(), old(r).pos(), cp@) {
            Ok((m, q)) => res is Ok && m == member_view(res.unwrap().0, res.unwrap().1, res.unwrap().2, res.unwrap().3@)
                && final(r).pos() == q,
            Err(e) => res == Err::<(u16, u16, u16, Vec<AttributeInfo>), ParseError>(e),
        },
{
    let access_flags = r.u2()?;
    let name_index = r.u2()?;
    let descriptor_index = r.u2()?;
    let attributes = parse_attributes(r, cp)?;
    Ok((access_flags, name_index, descriptor_index, attributes))
}

/// Reads a `u2` count and that many fields.
fn parse_fields(r: &mut ByteReader, cp: &ConstantPool) -> (res: Result<Vec<FieldInfo>, ParseError>)
    ensures
        final(r).data() == old(r).data(),
        match member_list_at(old(r).data(), old(r).pos(), cp@) {
            Ok((v, q)) => res is Ok && res.unwrap()@.map_values(|f: FieldInfo| f@) == v && final(r).pos() == q,
            Err(e) => res == Err::<Vec<FieldInfo>, ParseError>(e),
        },
{
    let ghost s = r.data();
    let count = r.u2()?;
    let ghost p1 = r.pos();
    let mut fields: Vec<FieldInfo> = Vec::new();
    let mut k: u16 = 0;
    proof {
        assert(fields@.map_values(|f: FieldInfo| f@) =~= Seq::<MemberV>::empty());
    }
    while k < count
        invariant
            r.data() == s,
            s == old(r).data(),
            member_list_at(s, old(r).pos(), cp@) == members_at(s, p1, cp@, count as nat),
            k <= count,
            members_at(s, p1, cp@, k as nat) == Ok::<(Seq<MemberV>, nat), ParseError>((fields@.map_values(|f: FieldInfo| f@), r.pos())),
        decreases count - k,
    {
        let (access_flags, name_index, descriptor_index, attributes) = match parse_member(r, cp) {
            Ok(m) => m,
            Err(e) => {
                proof { lemma_members_err(s, p1, cp@, (k + 1) as nat, count as nat); }
                return Err(e);
            },
        };
        let ghost old_fields = fields@;
        let f = FieldInfo { access_flags, name_index, descriptor_index, attributes };
        fields.push(f);
        proof {
            assert(fields@.map_values(|f: FieldInfo| f@) =~= old_fields.map_values(|f: FieldInfo| f@).push(f@));
        }
        k = k + 1;
    }
    Ok(fields)
}

/// Reads a `u2` count and that many methods.
fn parse_methods(r: &mut ByteReader, cp: &ConstantPool) -> (res: Result<Vec<MethodInfo>, ParseError>)
    ensures
        final(r).data() == old(r).data(),
        match member_list_at(old(r).data(), old(r).pos(), cp@) {
            Ok((v, q)) => res is Ok && res.unwrap()@.map_values(|m: MethodInfo| m@) == v && final(r).pos() == q,
            Err(e) => res == Err::<Vec<MethodInfo>, ParseError>(e),
        },
{
    let ghost s = r.data();
    let count = r.u2()?;
    let ghost p1 = r.pos();
    let mut methods: Vec<MethodInfo> = Vec::new();
    let mut k: u16 = 0;
    proof {
        assert(methods@.map_values(|m: MethodInfo| m@) =~= Seq::<MemberV>::empty());
    }
    while k < count
        invariant
            r.data() == s,
            s == old(r).data(),
            member_list_at(s, old(r).pos(), cp@) == members_at(s, p1, cp@, count as nat),
            k <= count,
            members_at(s, p1, cp@, k as nat) == Ok::<(Seq<MemberV>, nat), ParseError>((methods@.map_values(|m: MethodInfo| m@), r.pos())),
        decreases count - k,
    {
        let (access_flags, name_index, descriptor_index, attributes) = match parse_member(r, cp) {
            Ok(m) => m,
            Err(e) => {
                proof { lemma_members_err(s, p1, cp@, (k + 1) as nat, count as nat); }
                return Err(e);
            },
        };
        let ghost old_methods = methods@;
        let m = MethodInfo { access_flags, name_index, descriptor_index, attributes };
        methods.push(m);
        proof {
            assert(methods@.map_values(|m: MethodInfo| m@) =~= old_methods.map_values(|m: MethodInfo| m@).push(m@));
        }
        k = k + 1;
    }
    Ok(methods)
}

/// Reads `n` interface indices.
fn parse_interfaces(r: &mut ByteReader, n: u16) -> (res: Result<Vec<u16>, ParseError>)
    ensures
        final(r).data() == old(r).data(),
        match u2s_at(old(r).data(), old(r).pos(), n as nat) {
            Ok((v, q)) => res is Ok && res.unwrap()@ == v && final(r).pos() == q,
            Err(e) => res == Err::<Vec<u16>, ParseError>(e),
        },
{
    let ghost s = r.data();
    let ghost p0 = r.pos();
    let mut interfaces: Vec<u16> = Vec::new();
    let mut k: u16 = 0;
    while k < n
        invariant
            r.data() == s,
            s == old(r).data(),
            p0 == old(r).pos(),
            k <= n,
            u2s_at(s, p0, k as nat) == Ok::<(Seq<u16>, nat), ParseError>((interfaces@, r.pos())),
        decreases n - k,
    {
        let v = match r.u2() {
            Ok(v) => v,
            Err(e) => {
                proof { lemma_u2s_err(s, p0, (k + 1) as nat, n as nat); }
                return Err(e);
            },
        };
        interfaces.push(v);
        k = k + 1;
    }
    Ok(interfaces)
}

/// Parses a class file. The result is the class file that `bytes` encode,
/// or the first error met while reading them (see `class_file_of`).
pub fn parse_class_file(bytes: &[u8]) -> (res: Result<ClassFile, ParseError>)
    ensures
        match class_file_of(bytes@) {
            Ok(c) => res is Ok && res.unwrap()@ == c,
            Err(e) => res == Err::<ClassFile, ParseError>(e),
        },
{
    proof {
        reveal(class_file_of);
    }
    let mut r = ByteReader::new(bytes);
    let magic = r.u4()?;
    if magic != 0xCAFEBABE {
        return Err(ParseError::InvalidMagic(magic));
    }
    let minor_version = r.u2()?;
    let major_version = r.u2()?;
    let constant_pool_count = r.u2()?;
    let constant_pool = parse_constant_pool(&mut r, constant_pool_count)?;
    let access_flags = r.u2()?;
    let this_class = r.u2()?;
    let super_class = r.u2()?;
    let interfaces_count = r.u2()?;
    let interfaces = parse_interfaces(&mut r, interfaces_count)?;
    let fields = parse_fields(&mut r, &constant_pool)?;
    let methods = parse_methods(&mut r, &constant_pool)?;
    let attributes = parse_attributes(&mut r, &constant_pool)?;
    Ok(ClassFile {
        magic,
        minor_version,
        major_version,
        constant_pool,
        access_flags,
        this_class,
        super_class,
        interfaces,
        fields,
        methods,
        attributes,
    })
}

/// Four bytes whose big-endian value is 0xCAFEBABE are `CA FE BA BE`.
proof fn lemma_magic_bytes(s: Seq<u8>)
    requires
        s.len() >= 4,
        be_value(s.subrange(0, 4)) as u32 == 0xCAFEBABE,
    ensures
        s[0] == 0xCA && s[1] == 0xFE && s[2] == 0xBA && s[3] == 0xBE,
{
    let m = s.subrange(0, 4);
    reveal_with_fuel(be_value, 5);
    assert(m.drop_last().drop_last().drop_last().drop_last() =~= Seq::<u8>::empty());
    assert(m.drop_last().drop_last().drop_last() =~= seq![s[0]]);
    assert(m.drop_last().drop_last() =~= seq![s[0], s[1]]);
    assert(m.drop_last() =~= seq![s[0], s[1], s[2]]);
    assert(be_value(m) == ((s[0] as nat * 256 + s[1] as nat) * 256 + s[2] as nat) * 256 + s[3] as nat);
    assert(be_value(m) < 0x1_0000_0000);
}

/// A class file parses only where its first four bytes are `CA FE BA BE`;
/// the magic number then read is 0xCAFEBABE.
pub proof fn lemma_parse_requires_magic(s: Seq<u8>)
    ensures
        class_file_of(s) is Ok ==> s.len() >= 4 && s[0] == 0xCA && s[1] == 0xFE && s[2] == 0xBA && s[3] == 0xBE
            && class_file_of(s).unwrap().magic == 0xCAFEBABE,
        s.len() < 4 ==> class_file_of(s) == Err::<ClassFileV, ParseError>(ParseError::UnexpectedEof),
{
    reveal(class_file_of);
    if class_file_of(s) is Ok {
        assert(read_u4(s, 0) is Ok);
        lemma_magic_bytes(s);
    }
}

/// Whether `b`, a parse of longer input, agrees with `a`, the parse of a
/// prefix of it: a success or an error other than running out of input
/// stays the same; running out of input may turn into anything.
pub open spec fn parse_extends<A>(a: Result<A, ParseError>, b: Result<A, ParseError>) -> bool {
    match a {
        Ok(_) => b == a,
        Err(ParseError::UnexpectedEof) => true,
        Err(_) => b == a,
    }
}

/// The primitive reads agree on a prefix and the longer input.
proof fn lemma_reads_extend(s: Seq<u8>, t: Seq<u8>)
    requires
        s.is_prefix_of(t),
    ensures
        forall|p: nat, n: nat| #[trigger] parse_extends(read_bytes(s, p, n), read_bytes(t, p, n)),
        forall|p: nat| #[trigger] parse_extends(read_u1(s, p), read_u1(t, p)),
        forall|p: nat| #[trigger] parse_extends(read_u2(s, p), read_u2(t, p)),
        forall|p: nat| #[trigger] parse_extends(read_u4(s, p), read_u4(t, p)),
        forall|p: nat| #[trigger] parse_extends(read_u8(s, p), read_u8(t, p)),
        forall|p: nat| #[trigger] parse_extends(read_u2_pair(s, p), read_u2_pair(t, p)),
{
    assert forall|p: nat, n: nat| #[trigger] parse_extends(read_bytes(s, p, n), read_bytes(t, p, n)) by {
        if p + n <= s.len() {
            assert(t.subrange(p as int, (p + n) as int) =~= s.subrange(p as int, (p + n) as int));
        }
    }
    assert forall|p: nat| #[trigger] parse_extends(read_u1(s, p), read_u1(t, p)) by {
        if p + 1 <= s.len() {
            assert(t[p as int] == s[p as int]);
        }
    }
    assert forall|p: nat| #[trigger] parse_extends(read_u2(s, p), read_u2(t, p)) by {
        if p + 2 <= s.len() {
            assert(t.subrange(p as int, p + 2 as int) =~= s.subrange(p as int, p + 2 as int));
        }
    }
    assert forall|p: nat| #[trigger] parse_extends(read_u4(s, p), read_u4(t, p)) by {
        if p + 4 <= s.len() {
            assert(t.subrange(p as int, p + 4 as int) =~= s.subrange(p as int, p + 4 as int));
        }
    }
    assert forall|p: nat| #[trigger] parse_extends(read_u8(s, p), read_u8(t, p)) by {
        if p + 8 <= s.len() {
            assert(t.subrange(p as int, p + 8 as int) =~= s.subrange(p as int, p + 8 as int));
        }
    }
    assert forall|p: nat| #[trigger] parse_extends(read_u2_pair(s, p), read_u2_pair(t, p)) by {
        assert(parse_extends(read_u2(s, p), read_u2(t, p)));
        if let Ok((a, p1)) = read_u2(s, p) {
            assert(parse_extends(read_u2(s, p1), read_u2(t, p1)));
        }
    }
}

/// A constant-pool entry parses alike on a prefix and the longer input.
proof fn lemma_cp_entry_extends(s: Seq<u8>, t: Seq<u8>, p: nat)
    requires
        s.is_prefix_of(t),
    ensures
        parse_extends(cp_entry_at(s, p), cp_entry_at(t, p)),
{
    lemma_reads_extend(s, t);
    assert(parse_extends(read_u1(s, p), read_u1(t, p)));
    if let Ok((tag, p1)) = read_u1(s, p) {
        assert(parse_extends(read_u2(s, p1), read_u2(t, p1)));
        assert(parse_extends(read_u4(s, p1), read_u4(t, p1)));
        assert(parse_extends(read_u8(s, p1), read_u8(t, p1)));
        assert(parse_extends(read_u1(s, p1), read_u1(t, p1)));
        assert(parse_extends(read_u2_pair(s, p1), read_u2_pair(t, p1)));
        if let Ok((len, p2)) = read_u2(s, p1) {
            assert(parse_extends(read_bytes(s, p2, len as nat), read_bytes(t, p2, len as nat)));
        }
        if let Ok((k, p2)) = read_u1(s, p1) {
            assert(parse_extends(read_u2(s, p2), read_u2(t, p2)));
        }
    }
}

/// The rest of a constant pool parses alike on a prefix and the longer input.
proof fn lemma_cp_entries_extend(
    s: Seq<u8>,
    t: Seq<u8>,
    p: nat,
    i: u16,
    count: u16,
    acc: Seq<Option<CpEntryV>>,
)
    requires
        s.is_prefix_of(t),
        p <= s.len(),
    ensures
        parse_extends(cp_entries_from(s, p, i, count, acc), cp_entries_from(t, p, i, count, acc)),
    decreases s.len() - p,
{
    if i < count {
        lemma_cp_entry_extends(s, t, p);
        lemma_cp_entry_advances(s, p);
        if let Ok((e, wide, q)) = cp_entry_at(s, p) {
            if wide {
                lemma_cp_entries_extend(s, t, q, u16_wrapping_add(i, 2), count, acc.push(Some(e)).push(None));
            } else {
                lemma_cp_entries_extend(s, t, q, u16_wrapping_add(i, 1), count, acc.push(Some(e)));
            }
        }
    }
}

/// An exception table parses alike on a prefix and the longer input.
proof fn lemma_exception_table_extends(s: Seq<u8>, t: Seq<u8>, p: nat, n: nat)
    requires
        s.is_prefix_of(t),
    ensures
        parse_extends(exception_table_at(s, p, n), exception_table_at(t, p, n)),
    decreases n,
{
    lemma_reads_extend(s, t);
    if n > 0 {
        lemma_exception_table_extends(s, t, p, (n - 1) as nat);
        if let Ok((v, q)) = exception_table_at(s, p, (n - 1) as nat) {
            assert(parse_extends(read_u2_pair(s, q), read_u2_pair(t, q)));
            if let Ok((ab, q1)) = read_u2_pair(s, q) {
                assert(parse_extends(read_u2_pair(s, q1), read_u2_pair(t, q1)));
            }
        }
    }
}

/// An attribute parses alike on a prefix and the longer input: its body is
/// the same bytes either way.
proof fn lemma_attribute_extends(s: Seq<u8>, t: Seq<u8>, p: nat, cp: Seq<Option<CpEntryV>>)
    requires
        s.is_prefix_of(t),
    ensures
        parse_extends(attribute_at(s, p, cp), attribute_at(t, p, cp)),
{
    lemma_reads_extend(s, t);
    assert(parse_extends(read_u2(s, p), read_u2(t, p)));
    if let Ok((name_index, p1)) = read_u2(s, p) {
        assert(parse_extends(read_u4(s, p1), read_u4(t, p1)));
        if let Ok((len, p2)) = read_u4(s, p1) {
            assert(parse_extends(read_bytes(s, p2, len as nat), read_bytes(t, p2, len as nat)));
        }
    }
}

/// A list of attributes parses alike on a prefix and the longer input.
proof fn lemma_attributes_extend(s: Seq<u8>, t: Seq<u8>, p: nat, cp: Seq<Option<CpEntryV>>, n: nat)
    requires
        s.is_prefix_of(t),
    ensures
        parse_extends(attributes_at(s, p, cp, n), attributes_at(t, p, cp, n)),
        parse_extends(attribute_list_at(s, p, cp), attribute_list_at(t, p, cp)),
    decreases n,
{
    lemma_reads_extend(s, t);
    if n > 0 {
        lemma_attributes_extend(s, t, p, cp, (n - 1) as nat);
        if let Ok((v, q)) = attributes_at(s, p, cp, (n - 1) as nat) {
            lemma_attribute_extends(s, t, q, cp);
        }
    }
    assert(parse_extends(read_u2(s, p), read_u2(t, p)));
    if let Ok((m, p1)) = read_u2(s, p) {
        lemma_attributes_count_extend(s, t, p1, cp, m as nat);
    }
}

proof fn lemma_attributes_count_extend(s: Seq<u8>, t: Seq<u8>, p: nat, cp: Seq<Option<CpEntryV>>, n: nat)
    requires
        s.is_prefix_of(t),
    ensures
        parse_extends(attributes_at(s, p, cp, n), attributes_at(t, p, cp, n)),
    decreases n,
{
    if n > 0 {
        lemma_attributes_count_extend(s, t, p, cp, (n - 1) as nat);
        if let Ok((v, q)) = attributes_at(s, p, cp, (n - 1) as nat) {
            lemma_attribute_extends(s, t, q, cp);
        }
    }
}

/// Fields or methods parse alike on a prefix and the longer input.
proof fn lemma_members_extend(s: Seq<u8>, t: Seq<u8>, p: nat, cp: Seq<Option<CpEntryV>>, n: nat)
    requires
        s.is_prefix_of(t),
    ensures
        parse_extends(members_at(s, p, cp, n), members_at(t, p, cp, n)),
    decreases n,
{
    lemma_reads_extend(s, t);
    if n > 0 {
        lemma_members_extend(s, t, p, cp, (n - 1) as nat);
        if let Ok((v, q)) = members_at(s, p, cp, (n - 1) as nat) {
            assert(parse_extends(read_u2(s, q), read_u2(t, q)));
            if let Ok((flags, q1)) = read_u2(s, q) {
                assert(parse_extends(read_u2_pair(s, q1), read_u2_pair(t, q1)));
                if let Ok((nd, q2)) = read_u2_pair(s, q1) {
                    lemma_attributes_extend(s, t, q2, cp, 0);
                }
            }
        }
    }
}

/// `u2` values parse alike on a prefix and the longer input.
proof fn lemma_u2s_extend(s: Seq<u8>, t: Seq<u8>, p: nat, n: nat)
    requires
        s.is_prefix_of(t),
    ensures
        parse_extends(u2s_at(s, p, n), u2s_at(t, p, n)),
    decreases n,
{
    lemma_reads_extend(s, t);
    if n > 0 {
        lemma_u2s_extend(s, t, p, (n - 1) as nat);
        if let Ok((v, q)) = u2s_at(s, p, (n - 1) as nat) {
            assert(parse_extends(read_u2(s, q), read_u2(t, q)));
        }
    }
}

/// Bytes after a class file do not change how it parses: a class file that
/// parses, or that fails for another reason than running out of input,
/// parses the same with bytes appended; where the longer input runs out,
/// so does the shorter one.
#[verifier::rlimit(100)]
pub proof fn lemma_trailing_bytes_ignored(s: Seq<u8>, e: Seq<u8>)
    ensures
        class_file_of(s) is Ok ==> class_file_of(s + e) == class_file_of(s),
        class_file_of(s) matches Err(x) && x != ParseError::UnexpectedEof ==> class_file_of(s + e) == class_file_of(s),
        class_file_of(s + e) == Err::<ClassFileV, ParseError>(ParseError::UnexpectedEof) ==> class_file_of(s)
            == Err::<ClassFileV, ParseError>(ParseError::UnexpectedEof),
{
    reveal(class_file_of);
    let t = s + e;
    assert(s.is_prefix_of(t)) by {
        assert(t.subrange(0, s.len() as int) =~= s);
    }
    lemma_reads_extend(s, t);
    let a = class_file_of(s);
    assert(parse_extends(read_u4(s, 0), read_u4(t, 0)));
    if let Ok((magic, p1)) = read_u4(s, 0) {
        assert(parse_extends(read_u2_pair(s, p1), read_u2_pair(t, p1)));
        if let Ok((mm, p2)) = read_u2_pair(s, p1) {
            assert(parse_extends(read_u2(s, p2), read_u2(t, p2)));
            if let Ok((cp_count, p3)) = read_u2(s, p2) {
                if p3 <= s.len() {
                    lemma_cp_entries_extend(s, t, p3, 1, cp_count, Seq::empty());
                }
                if let Ok((cp, p4)) = constant_pool_at(s, p3, cp_count) {
                    assert(parse_extends(read_u2(s, p4), read_u2(t, p4)));
                    if let Ok((flags, p5)) = read_u2(s, p4) {
                        assert(parse_extends(read_u2_pair(s, p5), read_u2_pair(t, p5)));
                        if let Ok((tc, p6)) = read_u2_pair(s, p5) {
                            assert(parse_extends(read_u2(s, p6), read_u2(t, p6)));
                            if let Ok((ni, p7)) = read_u2(s, p6) {
                                lemma_u2s_extend(s, t, p7, ni as nat);
                                if let Ok((ifs, p8)) = u2s_at(s, p7, ni as nat) {
                                    assert(parse_extends(read_u2(s, p8), read_u2(t, p8)));
                                    if let Ok((nf, q8)) = read_u2(s, p8) {
                                        lemma_members_extend(s, t, q8, cp, nf as nat);
                                    }
                                    if let Ok((fields, p9)) = member_list_at(s, p8, cp) {
                                        assert(parse_extends(read_u2(s, p9), read_u2(t, p9)));
                                        if let Ok((nm, q9)) = read_u2(s, p9) {
                                            lemma_members_extend(s, t, q9, cp, nm as nat);
                                        }
                                        if let Ok((methods, p10)) = member_list_at(s, p9, cp) {
                                            lemma_attributes_extend(s, t, p10, cp, 0);
                                        }
                                    }
                                }
                            }
                        }
                    }
                }
            }
        }
    }
}


/// Whether a constant-pool slot holds a `Long` or a `Double`.
pub open spec fn is_wide_slot(e: Option<CpEntryV>) -> bool {
    match e {
        Some(CpEntryV::Long(_)) => true,
        Some(CpEntryV::Double(_)) => true,
        _ => false,
    }
}

/// Every `Long` or `Double` in the slots is followed by an empty slot, and
/// every empty slot follows a `Long` or a `Double`.
pub open spec fn wide_entries_paired(cp: Seq<Option<CpEntryV>>) -> bool {
    forall|k: int|
        0 <= k < cp.len() ==> {
            &&& is_wide_slot(#[trigger] cp[k]) ==> k + 1 < cp.len() && cp[k + 1] is None
            &&& cp[k] is None ==> k >= 1 && is_wide_slot(cp[k - 1])
        }
}

/// The entries that take two slots are exactly the `Long` and `Double` ones.
proof fn lemma_cp_entry_wide(s: Seq<u8>, p: nat)
    ensures
        cp_entry_at(s, p) matches Ok((e, wide, _)) ==> (wide <==> is_wide_slot(Some(e))),
{
}

/// Reading on from slots that pair their wide entries keeps them paired.
proof fn lemma_cp_entries_paired(s: Seq<u8>, p: nat, i: u16, count: u16, acc: Seq<Option<CpEntryV>>)
    requires
        p <= s.len(),
        wide_entries_paired(acc),
    ensures
        cp_entries_from(s, p, i, count, acc) matches Ok((cp, _)) ==> wide_entries_paired(cp),
    decreases s.len() - p,
{
    if i < count {
        lemma_cp_entry_advances(s, p);
        lemma_cp_entry_wide(s, p);
        if let Ok((e, wide, q)) = cp_entry_at(s, p) {
            if wide {
                let acc2 = acc.push(Some(e)).push(None);
                assert forall|k: int| 0 <= k < acc2.len() implies {
                    &&& is_wide_slot(#[trigger] acc2[k]) ==> k + 1 < acc2.len() && acc2[k + 1] is None
                    &&& acc2[k] is None ==> k >= 1 && is_wide_slot(acc2[k - 1])
                } by {
                    if k < acc.len() {
                        assert(acc2[k] == acc[k]);
                        if k >= 1 {
                            assert(acc2[k - 1] == acc[k - 1]);
                        }
                        if k + 1 < acc.len() {
                            assert(acc2[k + 1] == acc[k + 1]);
                        }
                    }
                }
                lemma_cp_entries_paired(s, q, u16_wrapping_add(i, 2), count, acc2);
            } else {
                let acc2 = acc.push(Some(e));
                assert forall|k: int| 0 <= k < acc2.len() implies {
                    &&& is_wide_slot(#[trigger] acc2[k]) ==> k + 1 < acc2.len() && acc2[k + 1] is None
                    &&& acc2[k] is None ==> k >= 1 && is_wide_slot(acc2[k - 1])
                } by {
                    if k < acc.len() {
                        assert(acc2[k] == acc[k]);
                        if k >= 1 {
                            assert(acc2[k - 1] == acc[k - 1]);
                        }
                        if k + 1 < acc.len() {
                            assert(acc2[k + 1] == acc[k + 1]);
                        }
                    }
                }
                lemma_cp_entries_paired(s, q, u16_wrapping_add(i, 1), count, acc2);
            }
        }
    }
}

/// Reading on from slot number `i` (the slots so far being `acc`) fills the
/// slots up to number `count - 1`, one further where the last entry takes
/// two slots.
proof fn lemma_cp_entries_count(s: Seq<u8>, p: nat, i: u16, count: u16, acc: Seq<Option<CpEntryV>>)
    requires
        p <= s.len(),
        1 <= count <= 0xFFFE,
        i as int == acc.len() + 1,
        i <= count + 1,
        i == count + 1 ==> acc.len() > 0 && acc.last() is None,
    ensures
        cp_entries_from(s, p, i, count, acc) matches Ok((cp, _)) ==> cp.len() == count - 1 || (cp.len() == count
            && cp.last() is None),
    decreases s.len() - p,
{
    if i < count {
        lemma_cp_entry_advances(s, p);
        if let Ok((e, wide, q)) = cp_entry_at(s, p) {
            if wide {
                lemma_cp_entries_count(s, q, u16_wrapping_add(i, 2), count, acc.push(Some(e)).push(None));
            } else {
                lemma_cp_entries_count(s, q, u16_wrapping_add(i, 1), count, acc.push(Some(e)));
            }
        }
    }
}

/// A `Long` or `Double` constant takes two slots of the pool: the slot
/// after it is empty and is the only empty slot it accounts for, so the
/// entry after it is numbered two more than it. A pool declared with
/// count `N` (below 0xFFFF) is read as its `N - 1` slots, or `N` where its
/// last entry is a `Long` or `Double` that starts in slot `N - 1`.
pub proof fn lemma_wide_constants_take_two_slots(s: Seq<u8>, p: nat, count: u16)
    requires
        p <= s.len(),
    ensures
        constant_pool_at(s, p, count) matches Ok((cp, _)) ==> wide_entries_paired(cp),
        1 <= count <= 0xFFFE ==> (constant_pool_at(s, p, count) matches Ok((cp, _)) ==> cp.len() == count - 1 || (
        cp.len() == count && cp.last() is None)),
        count <= 1 ==> constant_pool_at(s, p, count) == Ok::<(Seq<Option<CpEntryV>>, nat), ParseError>((Seq::empty(), p)),
{
    lemma_cp_entries_paired(s, p, 1, count, Seq::empty());
    if 1 <= count <= 0xFFFE {
        lemma_cp_entries_count(s, p, 1, count, Seq::empty());
    }
}

/// In a parsed class file, each `Long` and `Double` constant is followed by
/// an empty slot, and the pool has the slots that its count declares.
pub proof fn lemma_class_file_wide_constants(s: Seq<u8>)
    ensures
        class_file_of(s) matches Ok(c) ==> wide_entries_paired(c.constant_pool),
        class_file_of(s) matches Ok(c) ==> read_u2(s, 8) matches Ok((count, _)) && (1 <= count <= 0xFFFE
            ==> c.constant_pool.len() == count - 1 || (c.constant_pool.len() == count
            && c.constant_pool.last() is None)),
{
    reveal(class_file_of);
    if class_file_of(s) is Ok {
        let (cp_count, p3) = read_u2(s, 8).unwrap();
        lemma_wide_constants_take_two_slots(s, p3, cp_count);
    }
}

} // verus!
