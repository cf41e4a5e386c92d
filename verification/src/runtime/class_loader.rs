//! Holds loaded classes by name and resolves constant-pool references.
use vstd::prelude::*;
use crate::classfile::{ClassFile, ConstantPoolEntry, MethodInfo, AttributeData};
use crate::classfile::models::{
    class_name_at, first_code, first_method, method_matches, method_ref_at,
};
use crate::classfile::parser::{parse_class_file, class_file_of};
use crate::text::str_eq;

verus! {

/// Loads and caches class files by name.
pub struct ClassLoader {
    /// The loaded classes: each name occurs once.
    classes: Vec<(String, ClassFile)>,
    /// Directories searched for class files.
    classpath: Vec<String>,
}

/// The position of the entry named `name`, if any.
fn index_of(classes: &Vec<(String, ClassFile)>, name: &str) -> (r: Option<usize>)
    ensures
        match r {
            Some(i) => i < classes@.len() && classes@[i as int].0@ == name@,
            None => forall|j: int| 0 <= j < classes@.len() ==> classes@[j].0@ != name@,
        },
{
    let mut i: usize = 0;
    while i < classes.len()
        invariant
            i <= classes@.len(),
            forall|j: int| 0 <= j < i ==> classes@[j].0@ != name@,
        decreases classes@.len() - i,
    {
        if str_eq(classes[i].0.as_str(), name) {
            return Some(i);
        }
        i = i + 1;
    }
    None
}

impl ClassLoader {
    #[verifier::type_invariant]
    spec fn names_unique(self) -> bool {
        forall|i: int, j: int|
            0 <= i < j < self.classes@.len() ==> self.classes@[i].0@ != self.classes@[j].0@
    }

    /// The class loaded under `name`, if any.
    pub closed spec fn class_named(self, name: Seq<char>) -> Option<ClassFile> {
        if exists|i: int| 0 <= i < self.classes@.len() && self.classes@[i].0@ == name {
            Some(self.classes@[choose|i: int| 0 <= i < self.classes@.len() && self.classes@[i].0@ == name].1)
        } else {
            None
        }
    }

    /// The directories searched for class files, in order.
    pub closed spec fn classpath(self) -> Seq<Seq<char>> {
        self.classpath@.map_values(|d: String| d@)
    }

    /// An empty loader that searches the current directory.
    pub fn new() -> (l: Self)
        ensures
            forall|name: Seq<char>| l.class_named(name) is None,
            l.classpath() == seq![seq!['.']],
    {
        let dot = String::from_str(".");
        proof {
            reveal_strlit(".");
            assert(dot@ =~= seq!['.']);
        }
        let mut classpath = Vec::new();
        classpath.push(dot);
        let l = ClassLoader { classes: Vec::new(), classpath };
        proof {
            assert(l.classpath() =~= seq![seq!['.']]);
        }
        l
    }

    /// An empty loader that searches `classpath`.
    pub fn with_classpath(classpath: Vec<String>) -> (l: Self)
        ensures
            forall|name: Seq<char>| l.class_named(name) is None,
            l.classpath() == classpath@.map_values(|d: String| d@),
    {
        ClassLoader { classes: Vec::new(), classpath }
    }

    /// Stores `class_file` under `name`, replacing what was there.
    fn insert(&mut self, name: String, class_file: ClassFile) -> (i: usize)
        ensures
            i < final(self).classes@.len(),
            final(self).classes@[i as int].1 == class_file,
            final(self).class_named(name@) == Some(class_file),
            forall|n: Seq<char>| n != name@ ==> final(self).class_named(n) == old(self).class_named(n),
            final(self).classpath() == old(self).classpath(),
    {
        proof {
            use_type_invariant(&*self);
        }
        let ghost old_classes = self.classes@;
        let ghost nm = name@;
        let mut classes: Vec<(String, ClassFile)> = Vec::new();
        std::mem::swap(&mut classes, &mut self.classes);
        let i = match index_of(&classes, name.as_str()) {
            Some(i) => {
                classes.set(i, (name, class_file));
                i
            },
            None => {
                let i = classes.len();
                classes.push((name, class_file));
                i
            },
        };
        proof {
            assert(classes@[i as int].0@ == nm);
            assert forall|a: int, b: int| 0 <= a < b < classes@.len() implies classes@[a].0@ != classes@[b].0@ by {
                if a != i && b != i {
                    assert(old_classes[a].0@ != old_classes[b].0@);
                }
            }
        }
        self.classes = classes;
        proof {
            assert forall|n: Seq<char>| n != nm implies self.class_named(n) == old(self).class_named(n) by {
                if exists|j: int| 0 <= j < self.classes@.len() && self.classes@[j].0@ == n {
                    let j = choose|j: int| 0 <= j < self.classes@.len() && self.classes@[j].0@ == n;
                    assert(old_classes[j].0@ == n);
                }
                if exists|j: int| 0 <= j < old_classes.len() && old_classes[j].0@ == n {
                    let j = choose|j: int| 0 <= j < old_classes.len() && old_classes[j].0@ == n;
                    assert(self.classes@[j].0@ == n);
                }
            }
        }
        i
    }

    /// Parses `bytes` and stores the class under `name`, replacing any
    /// class loaded under that name before. On a parse error nothing is
    /// stored and the error is described.
    pub fn load_class_from_bytes(&mut self, name: &str, bytes: &[u8]) -> (res: Result<&ClassFile, String>)
        ensures
            match class_file_of(bytes@) {
                Ok(c) => {
                    &&& res is Ok
                    &&& res.unwrap()@ == c
                    &&& final(self).class_named(name@) == Some(*res.unwrap())
                    &&& forall|n: Seq<char>| n != name@ ==> final(self).class_named(n) == old(self).class_named(n)
                },
                Err(e) => {
                    &&& res is Err
                    &&& res.unwrap_err()@ == "Failed to parse class: "@ + e.spec_message()
                    &&& forall|n: Seq<char>| final(self).class_named(n) == old(self).class_named(n)
                },
            },
            final(self).classpath() == old(self).classpath(),
    {
        match parse_class_file(bytes) {
            Ok(class_file) => {
                let i = self.insert(name.to_owned(), class_file);
                Ok(&self.classes[i].1)
            },
            Err(e) => {
                let mut msg = String::from_str("Failed to parse class: ");
                let m = e.message();
                msg.append(m.as_str());
                Err(msg)
            },
        }
    }

    /// The paths at which the class `name` is looked for, in the classpath's
    /// order: `dir/name.class` for each directory `dir`.
    pub fn class_file_paths(&self, name: &str) -> (paths: Vec<String>)
        ensures
            paths@.len() == self.classpath().len(),
            forall|i: int| 0 <= i < paths@.len() ==> #[trigger] paths@[i]@ == self.classpath()[i] + "/"@
                + name@ + ".class"@,
    {
        let mut paths: Vec<String> = Vec::new();
        let mut i: usize = 0;
        while i < self.classpath.len()
            invariant
                i <= self.classpath@.len(),
                paths@.len() == i,
                forall|j: int| 0 <= j < i ==> #[trigger] paths@[j]@ == self.classpath()[j] + "/"@ + name@
                    + ".class"@,
            decreases self.classpath@.len() - i,
        {
            let mut path = self.classpath[i].clone();
            path.append("/");
            path.append(name);
            path.append(".class");
            paths.push(path);
            i = i + 1;
        }
        paths
    }

    /// Parses `bytes`, read from the file at `path`, and stores the class
    /// under `name`; on a parse error nothing is stored and the error names
    /// the file.
    pub fn load_class_from_file(&mut self, name: &str, path: &str, bytes: &[u8]) -> (res: Result<&ClassFile, String>)
        ensures
            match class_file_of(bytes@) {
                Ok(c) => {
                    &&& res is Ok
                    &&& res.unwrap()@ == c
                    &&& final(self).class_named(name@) == Some(*res.unwrap())
                    &&& forall|n: Seq<char>| n != name@ ==> final(self).class_named(n) == old(self).class_named(n)
                },
                Err(e) => {
                    &&& res is Err
                    &&& res.unwrap_err()@ == "Failed to parse "@ + path@ + ": "@ + e.spec_message()
                    &&& forall|n: Seq<char>| final(self).class_named(n) == old(self).class_named(n)
                },
            },
            final(self).classpath() == old(self).classpath(),
    {
        match parse_class_file(bytes) {
            Ok(class_file) => {
                let i = self.insert(name.to_owned(), class_file);
                Ok(&self.classes[i].1)
            },
            Err(e) => {
                let mut msg = String::from_str("Failed to parse ");
                msg.append(path);
                msg.append(": ");
                let m = e.message();
                msg.append(m.as_str());
                Err(msg)
            },
        }
    }

    /// The error for a class found in no directory of the classpath.
    pub fn class_not_found(name: &str) -> (msg: String)
        ensures
            msg@ == "Class not found: "@ + name@,
    {
        let mut msg = String::from_str("Class not found: ");
        msg.append(name);
        msg
    }

    /// The class loaded under `name`, if any.
    pub fn get_class(&self, name: &str) -> (res: Option<&ClassFile>)
        ensures
            match self.class_named(name@) {
                Some(c) => res is Some && *res.unwrap() == c,
                None => res is None,
            },
    {
        proof {
            use_type_invariant(self);
        }
        match index_of(&self.classes, name) {
            Some(i) => {
                proof {
                    let j = choose|j: int| 0 <= j < self.classes@.len() && self.classes@[j].0@ == name@;
                    assert(j == i);
                }
                Some(&self.classes[i].1)
            },
            None => None,
        }
    }

    /// The name of the class that entry `class_index` of `class_file`'s
    /// constant pool refers to.
    pub fn resolve_class_name(&self, class_file: &ClassFile, class_index: u16) -> (res: Option<String>)
        ensures
            match class_name_at(class_file.constant_pool@, class_index) {
                Some(n) => res is Some && res.unwrap()@ == n,
                None => res is None,
            },
    {
        match class_file.constant_pool.get(class_index) {
            Some(ConstantPoolEntry::Class { name_index }) => match class_file.constant_pool.get(*name_index) {
                Some(ConstantPoolEntry::Utf8(name)) => Some(name.clone()),
                _ => None,
            },
            _ => None,
        }
    }

    /// Class name, method name and descriptor of the method reference at
    /// entry `index` of `class_file`'s constant pool.
    pub fn resolve_method_ref(&self, class_file: &ClassFile, index: u16) -> (res: Option<(String, String, String)>)
        ensures
            match method_ref_at(class_file.constant_pool@, index) {
                Some((c, n, d)) => res is Some && res.unwrap().0@ == c && res.unwrap().1@ == n
                    && res.unwrap().2@ == d,
                None => res is None,
            },
    {
        match class_file.constant_pool.get(index) {
            Some(ConstantPoolEntry::Methodref { class_index, name_and_type_index }) => {
                let class_name = match self.resolve_class_name(class_file, *class_index) {
                    Some(c) => c,
                    None => return None,
                };
                match class_file.constant_pool.get(*name_and_type_index) {
                    Some(ConstantPoolEntry::NameAndType { name_index, descriptor_index }) => {
                        let method_name = match class_file.constant_pool.get(*name_index) {
                            Some(ConstantPoolEntry::Utf8(n)) => n.clone(),
                            _ => return None,
                        };
                        let descriptor = match class_file.constant_pool.get(*descriptor_index) {
                            Some(ConstantPoolEntry::Utf8(d)) => d.clone(),
                            _ => return None,
                        };
                        Some((class_name, method_name, descriptor))
                    },
                    _ => None,
                }
            },
            _ => None,
        }
    }

    /// The methods before `i` do not match, so the first match is the first
    /// one from `i` on.
    proof fn lemma_first_method_from(
        cp: Seq<Option<crate::classfile::constant_pool::CpEntryV>>,
        ms: Seq<MethodInfo>,
        name: Seq<char>,
        descriptor: Seq<char>,
        i: int,
    )
        requires
            0 <= i <= ms.len(),
            forall|j: int| 0 <= j < i ==> !method_matches(cp, #[trigger] ms[j], name, descriptor),
        ensures
            first_method(cp, ms, name, descriptor) == first_method(cp, ms.subrange(i, ms.len() as int), name, descriptor),
        decreases i,
    {
        if i > 0 {
            assert(ms.drop_first().subrange(i - 1, ms.drop_first().len() as int) =~= ms.subrange(i, ms.len() as int));
            assert forall|j: int| 0 <= j < i - 1 implies !method_matches(cp, #[trigger] ms.drop_first()[j], name, descriptor) by {
                assert(ms.drop_first()[j] == ms[j + 1]);
            }
            Self::lemma_first_method_from(cp, ms.drop_first(), name, descriptor, i - 1);
        } else {
            assert(ms.subrange(0, ms.len() as int) =~= ms);
        }
    }

    /// The first method of `class_file` with the given name and descriptor.
    pub fn find_method<'a>(&self, class_file: &'a ClassFile, name: &str, descriptor: &str) -> (res: Option<&'a MethodInfo>)
        ensures
            match res {
                Some(m) => exists|i: int|
                    0 <= i < class_file.methods@.len() && class_file.methods@[i] == *m
                        && method_matches(class_file.constant_pool@, *m, name@, descriptor@)
                        && forall|j: int| 0 <= j < i ==> !method_matches(
                            class_file.constant_pool@,
                            #[trigger] class_file.methods@[j],
                            name@,
                            descriptor@,
                        ),
                None => forall|j: int|
                    0 <= j < class_file.methods@.len() ==> !method_matches(
                        class_file.constant_pool@,
                        #[trigger] class_file.methods@[j],
                        name@,
                        descriptor@,
                    ),
            },
            match res {
                Some(m) => first_method(class_file.constant_pool@, class_file.methods@, name@, descriptor@) == Some(*m),
                None => first_method(class_file.constant_pool@, class_file.methods@, name@, descriptor@) is None,
            },
    {
        let mut i: usize = 0;
        while i < class_file.methods.len()
            invariant
                i <= class_file.methods@.len(),
                forall|j: int| 0 <= j < i ==> !method_matches(
                    class_file.constant_pool@,
                    #[trigger] class_file.methods@[j],
                    name@,
                    descriptor@,
                ),
            decreases class_file.methods@.len() - i,
        {
            let method = &class_file.methods[i];
            let name_ok = match class_file.constant_pool.get(method.name_index) {
                Some(ConstantPoolEntry::Utf8(n)) => str_eq(n.as_str(), name),
                _ => false,
            };
            let desc_ok = match class_file.constant_pool.get(method.descriptor_index) {
                Some(ConstantPoolEntry::Utf8(d)) => str_eq(d.as_str(), descriptor),
                _ => false,
            };
            if name_ok && desc_ok {
                proof {
                    Self::lemma_first_method_from(class_file.constant_pool@, class_file.methods@, name@, descriptor@, i as int);
                }
                return Some(method);
            }
            i = i + 1;
        }
        proof {
            Self::lemma_first_method_from(class_file.constant_pool@, class_file.methods@, name@, descriptor@, i as int);
        }
        None
    }

    /// Max stack, max locals and bytecode of the first Code attribute of `method`.
    pub fn get_method_code(method: &MethodInfo, class_file: &ClassFile) -> (res: Option<(u16, u16, Vec<u8>)>)
        ensures
            match first_code(method.attributes@) {
                Some(c) => res is Some && res.unwrap().0 == c.max_stack && res.unwrap().1 == c.max_locals
                    && res.unwrap().2@ == c.code@,
                None => res is None,
            },
    {
        let mut i: usize = 0;
        proof {
            assert(method.attributes@.subrange(0, method.attributes@.len() as int) =~= method.attributes@);
        }
        while i < method.attributes.len()
            invariant
                i <= method.attributes@.len(),
                first_code(method.attributes@) == first_code(method.attributes@.subrange(i as int, method.attributes@.len() as int)),
            decreases method.attributes@.len() - i,
        {
            let ghost rest = method.attributes@.subrange(i as int, method.attributes@.len() as int);
            proof {
                assert(rest.drop_first() =~= method.attributes@.subrange(i + 1, method.attributes@.len() as int));
            }
            match &method.attributes[i].data {
                AttributeData::Code(code) => {
                    let c = code.code.clone();
                    proof {
                        assert(c@ =~= code.code@);
                    }
                    return Some((code.max_stack, code.max_locals, c));
                },
                AttributeData::Raw(_) => {},
            }
            i = i + 1;
        }
        proof {
            assert(method.attributes@.subrange(i as int, method.attributes@.len() as int) =~= Seq::<crate::classfile::AttributeInfo>::empty());
        }
        None
    }
}

} // verus!
