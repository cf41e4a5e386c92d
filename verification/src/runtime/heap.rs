//! The heap: objects addressed by index, a free list of slots to reuse,
//! side tables for the elements of arrays, and static fields.
use vstd::prelude::*;
use crate::runtime::frame::Value;
use crate::text::str_eq;

verus! {

/// A heap object.
#[derive(Debug, Clone)]
pub struct JObject {
    pub class_name: String,
    /// Instance fields by name; a name's first entry is the one in effect.
    pub fields: Vec<(String, Value)>,
    /// The text of a String object.
    pub string_value: Option<String>,
}

/// The mathematical view of a heap object.
pub struct JObjectV {
    pub class_name: Seq<char>,
    pub fields: Seq<(Seq<char>, Value)>,
    pub string_value: Option<Seq<char>>,
}

/// Names taken by their text.
pub open spec fn named_view(s: Seq<(String, Value)>) -> Seq<(Seq<char>, Value)> {
    Seq::new(s.len(), |i: int| (s[i].0@, s[i].1))
}

impl View for JObject {
    type V = JObjectV;

    open spec fn view(&self) -> JObjectV {
        JObjectV {
            class_name: self.class_name@,
            fields: named_view(self.fields@),
            string_value: match self.string_value {
                Some(s) => Some(s@),
                None => None,
            },
        }
    }
}

/// The value of the first entry named `name`.
pub open spec fn lookup(s: Seq<(Seq<char>, Value)>, name: Seq<char>) -> Option<Value>
    decreases s.len(),
{
    if s.len() == 0 {
        None
    } else if s[0].0 == name {
        Some(s[0].1)
    } else {
        lookup(s.drop_first(), name)
    }
}

/// The entries with the first one named `name` set to `v`, or with
/// `(name, v)` appended where there is none.
pub open spec fn update(s: Seq<(Seq<char>, Value)>, name: Seq<char>, v: Value) -> Seq<(Seq<char>, Value)>
    decreases s.len(),
{
    if s.len() == 0 {
        seq![(name, v)]
    } else if s[0].0 == name {
        s.update(0, (name, v))
    } else {
        seq![s[0]] + update(s.drop_first(), name, v)
    }
}

/// Position of the first entry named `name`.
fn position(entries: &Vec<(String, Value)>, name: &str) -> (r: Option<usize>)
    ensures
        match r {
            Some(i) => i < entries@.len() && entries@[i as int].0@ == name@
                && forall|j: int| 0 <= j < i ==> entries@[j].0@ != name@,
            None => forall|j: int| 0 <= j < entries@.len() ==> entries@[j].0@ != name@,
        },
{
    let mut i: usize = 0;
    while i < entries.len()
        invariant
            i <= entries@.len(),
            forall|j: int| 0 <= j < i ==> entries@[j].0@ != name@,
        decreases entries@.len() - i,
    {
        if str_eq(entries[i].0.as_str(), name) {
            return Some(i);
        }
        i = i + 1;
    }
    None
}

proof fn lemma_lookup_found(s: Seq<(Seq<char>, Value)>, name: Seq<char>, i: int)
    requires
        0 <= i < s.len(),
        s[i].0 == name,
        forall|j: int| 0 <= j < i ==> s[j].0 != name,
    ensures
        lookup(s, name) == Some(s[i].1),
        update(s, name, s[i].1) == s,
        forall|v: Value| update(s, name, v) == s.update(i, (name, v)),
    decreases i,
{
    if i > 0 {
        lemma_lookup_found(s.drop_first(), name, i - 1);
        assert(seq![s[0]] + s.drop_first() =~= s);
        assert forall|v: Value| update(s, name, v) == s.update(i, (name, v)) by {
            assert(s[0].0 != name);
            assert(update(s, name, v) == seq![s[0]] + update(s.drop_first(), name, v));
            assert(update(s.drop_first(), name, v) == s.drop_first().update(i - 1, (name, v)));
            assert(seq![s[0]] + s.drop_first().update(i - 1, (name, v)) =~= s.update(i, (name, v)));
        }
    } else {
        assert(s.update(0, (name, s[0].1)) =~= s);
    }
}

proof fn lemma_lookup_absent(s: Seq<(Seq<char>, Value)>, name: Seq<char>)
    requires
        forall|j: int| 0 <= j < s.len() ==> s[j].0 != name,
    ensures
        lookup(s, name) is None,
        forall|v: Value| update(s, name, v) == s.push((name, v)),
    decreases s.len(),
{
    if s.len() > 0 {
        lemma_lookup_absent(s.drop_first(), name);
        assert forall|v: Value| update(s, name, v) == s.push((name, v)) by {
            assert(s[0].0 != name);
            assert(update(s, name, v) == seq![s[0]] + update(s.drop_first(), name, v));
            assert(update(s.drop_first(), name, v) == s.drop_first().push((name, v)));
            assert(seq![s[0]] + s.drop_first().push((name, v)) =~= s.push((name, v)));
        }
    }
}

/// Looks up the value of the first entry named `name`.
pub fn lookup_named(entries: &Vec<(String, Value)>, name: &str) -> (r: Option<Value>)
    ensures
        r == lookup(named_view(entries@), name@),
{
    match position(entries, name) {
        Some(i) => {
            proof {
                lemma_lookup_found(named_view(entries@), name@, i as int);
            }
            Some(entries[i].1)
        },
        None => {
            proof {
                lemma_lookup_absent(named_view(entries@), name@);
            }
            None
        },
    }
}

/// Sets the first entry named `name` to `value`, or appends one.
pub fn update_named(entries: &mut Vec<(String, Value)>, name: String, value: Value)
    ensures
        named_view(final(entries)@) == update(named_view(old(entries)@), name@, value),
{
    let ghost nv = named_view(entries@);
    let ghost nm = name@;
    match position(entries, name.as_str()) {
        Some(i) => {
            proof {
                lemma_lookup_found(nv, nm, i as int);
            }
            entries.set(i, (name, value));
            proof {
                assert(named_view(entries@) =~= nv.update(i as int, (nm, value)));
            }
        },
        None => {
            proof {
                lemma_lookup_absent(nv, nm);
            }
            entries.push((name, value));
            proof {
                assert(named_view(entries@) =~= nv.push((nm, value)));
            }
        },
    }
}

impl JObject {
    /// The value of instance field `name`, if it has been set.
    pub fn get_field(&self, name: &str) -> (r: Option<Value>)
        ensures
            r == lookup(self@.fields, name@),
    {
        lookup_named(&self.fields, name)
    }

    /// Sets instance field `name`.
    pub fn put_field(&mut self, name: String, value: Value)
        ensures
            final(self)@ == (JObjectV { fields: update(old(self)@.fields, name@, value), ..old(self)@ }),
    {
        update_named(&mut self.fields, name, value);
    }
}


/// The heap. Slot `i` of `array_data` and `array_refs` holds the elements of
/// the array stored at index `i`, if one was allocated there; these side
/// tables are cleared by the collector, not by `free`.
pub struct Heap {
    pub objects: Vec<Option<JObject>>,
    pub free_list: Vec<usize>,
    /// Elements of arrays of primitive values.
    pub array_data: Vec<Option<Vec<Value>>>,
    /// Elements of arrays of references.
    pub array_refs: Vec<Option<Vec<Value>>>,
    /// Static fields, keyed by `Class.field`.
    pub static_fields: Vec<(String, Value)>,
}

/// The mathematical view of the heap.
pub struct HeapV {
    pub objects: Seq<Option<JObjectV>>,
    pub free_list: Seq<usize>,
    pub array_data: Seq<Option<Seq<Value>>>,
    pub array_refs: Seq<Option<Seq<Value>>>,
    pub statics: Seq<(Seq<char>, Value)>,
}

pub open spec fn opt_object_view(o: Option<JObject>) -> Option<JObjectV> {
    match o {
        Some(x) => Some(x@),
        None => None,
    }
}

pub open spec fn opt_elements_view(o: Option<Vec<Value>>) -> Option<Seq<Value>> {
    match o {
        Some(x) => Some(x@),
        None => None,
    }
}

impl View for Heap {
    type V = HeapV;

    open spec fn view(&self) -> HeapV {
        HeapV {
            objects: self.objects@.map_values(|o: Option<JObject>| opt_object_view(o)),
            free_list: self.free_list@,
            array_data: self.array_data@.map_values(|o: Option<Vec<Value>>| opt_elements_view(o)),
            array_refs: self.array_refs@.map_values(|o: Option<Vec<Value>>| opt_elements_view(o)),
            statics: named_view(self.static_fields@),
        }
    }
}

/// A new String object holding `value`.
pub open spec fn string_object(value: Seq<char>) -> JObjectV {
    JObjectV { class_name: "java/lang/String"@, fields: Seq::empty(), string_value: Some(value) }
}

/// A new, empty object of class `class_name`.
pub open spec fn blank_object(class_name: Seq<char>) -> JObjectV {
    JObjectV { class_name, fields: Seq::empty(), string_value: None }
}

impl HeapV {
    /// The side tables cover every slot, the free list names slots, and
    /// primitive arrays hold integers.
    pub open spec fn wf(self) -> bool {
        &&& self.objects.len() <= usize::MAX
        &&& self.array_data.len() == self.objects.len()
        &&& self.array_refs.len() == self.objects.len()
        &&& forall|i: int| 0 <= i < self.free_list.len() ==> #[trigger] self.free_list[i] < self.objects.len()
        &&& forall|i: int, k: int|
            0 <= i < self.array_data.len() && #[trigger] self.array_data[i] is Some
                && 0 <= k < self.array_data[i].unwrap().len()
                ==> #[trigger] self.array_data[i].unwrap()[k] is I32
    }

    /// The free list names distinct slots, none of which holds a live object.
    pub open spec fn free_list_sound(self) -> bool {
        &&& forall|i: int| 0 <= i < self.free_list.len() ==> !self.live(#[trigger] self.free_list[i] as int)
        &&& forall|i: int, j: int|
            0 <= i < j < self.free_list.len() ==> #[trigger] self.free_list[i] != #[trigger] self.free_list[j]
    }

    /// Whether `i` addresses a live object.
    pub open spec fn live(self, i: int) -> bool {
        0 <= i < self.objects.len() && self.objects[i] is Some
    }

    /// The slot the next allocation takes: the last freed one, else a new one.
    pub open spec fn next_slot(self) -> usize {
        if self.free_list.len() > 0 {
            self.free_list.last()
        } else {
            self.objects.len() as usize
        }
    }

    /// The heap after storing `obj` in `next_slot()`.
    pub open spec fn place(self, obj: JObjectV) -> HeapV {
        if self.free_list.len() > 0 {
            HeapV {
                objects: self.objects.update(self.free_list.last() as int, Some(obj)),
                free_list: self.free_list.drop_last(),
                ..self
            }
        } else {
            HeapV {
                objects: self.objects.push(Some(obj)),
                array_data: self.array_data.push(None),
                array_refs: self.array_refs.push(None),
                ..self
            }
        }
    }

    /// The heap after freeing slot `i` (nothing happens out of range).
    pub open spec fn freed(self, i: int) -> HeapV {
        if 0 <= i < self.objects.len() {
            HeapV {
                objects: self.objects.update(i, None),
                free_list: self.free_list.push(i as usize),
                ..self
            }
        } else {
            self
        }
    }

    /// The heap after allocating an array of `length` elements of class
    /// `class_name` at `next_slot()`.
    pub open spec fn with_array(self, class_name: Seq<char>, length: usize) -> HeapV {
        let idx = self.next_slot() as int;
        let obj = JObjectV {
            class_name,
            fields: seq![("$length"@, Value::I32(length as i32)), ("$data"@, Value::Null)],
            string_value: None,
        };
        let h = self.place(obj);
        HeapV {
            array_data: h.array_data.update(idx, Some(Seq::new(length as nat, |k: int| Value::I32(0)))),
            array_refs: h.array_refs.update(idx, Some(Seq::new(length as nat, |k: int| Value::Null))),
            ..h
        }
    }

    /// The length of the array at `index`, or 0 where there is none.
    pub open spec fn array_length(self, index: int) -> nat {
        if 0 <= index < self.array_data.len() && self.array_data[index] is Some {
            self.array_data[index].unwrap().len()
        } else {
            0
        }
    }

    /// Element `k` of the primitive array at `index`, or 0 where there is none.
    pub open spec fn array_int(self, index: int, k: int) -> i32 {
        if 0 <= index < self.array_data.len() && self.array_data[index] is Some && 0 <= k
            < self.array_data[index].unwrap().len() {
            match self.array_data[index].unwrap()[k] {
                Value::I32(v) => v,
                _ => 0,
            }
        } else {
            0
        }
    }

    /// Element `k` of the reference array at `index`, or `Null` where there is none.
    pub open spec fn array_ref(self, index: int, k: int) -> Value {
        if 0 <= index < self.array_refs.len() && self.array_refs[index] is Some && 0 <= k
            < self.array_refs[index].unwrap().len() {
            self.array_refs[index].unwrap()[k]
        } else {
            Value::Null
        }
    }

    /// The heap with element `k` of the primitive array at `index` set to
    /// `I32(v)`; nothing changes where there is no such element.
    pub open spec fn with_array_int(self, index: int, k: int, v: i32) -> HeapV {
        if 0 <= index < self.array_data.len() && self.array_data[index] is Some && 0 <= k
            < self.array_data[index].unwrap().len() {
            HeapV {
                array_data: self.array_data.update(
                    index,
                    Some(self.array_data[index].unwrap().update(k, Value::I32(v))),
                ),
                ..self
            }
        } else {
            self
        }
    }

    /// The heap with element `k` of the reference array at `index` set to
    /// `v`; nothing changes where there is no such element.
    pub open spec fn with_array_ref(self, index: int, k: int, v: Value) -> HeapV {
        if 0 <= index < self.array_refs.len() && self.array_refs[index] is Some && 0 <= k
            < self.array_refs[index].unwrap().len() {
            HeapV {
                array_refs: self.array_refs.update(
                    index,
                    Some(self.array_refs[index].unwrap().update(k, v)),
                ),
                ..self
            }
        } else {
            self
        }
    }

    /// The number of live objects in the slots below `n`.
    pub open spec fn live_below(self, n: int) -> nat
        decreases n,
    {
        if n <= 0 {
            0
        } else {
            self.live_below(n - 1) + if self.live(n - 1) {
                1nat
            } else {
                0nat
            }
        }
    }

    /// The number of live objects.
    pub open spec fn live_count(self) -> nat {
        self.live_below(self.objects.len() as int)
    }
}


impl Heap {
    /// The view of an empty heap.
    pub open spec fn new_spec() -> HeapV {
        HeapV {
            objects: Seq::empty(),
            free_list: Seq::empty(),
            array_data: Seq::empty(),
            array_refs: Seq::empty(),
            statics: Seq::empty(),
        }
    }

    /// An empty heap.
    pub fn new() -> (h: Self)
        ensures
            h@.wf(),
            h@ == (HeapV {
                objects: Seq::empty(),
                free_list: Seq::empty(),
                array_data: Seq::empty(),
                array_refs: Seq::empty(),
                statics: Seq::empty(),
            }),
    {
        let h = Heap {
            objects: Vec::new(),
            free_list: Vec::new(),
            array_data: Vec::new(),
            array_refs: Vec::new(),
            static_fields: Vec::new(),
        };
        proof {
            assert(h@.objects =~= Seq::<Option<JObjectV>>::empty());
            assert(h@.array_data =~= Seq::<Option<Seq<Value>>>::empty());
            assert(h@.array_refs =~= Seq::<Option<Seq<Value>>>::empty());
            assert(h@.statics =~= Seq::<(Seq<char>, Value)>::empty());
        }
        h
    }

    /// Stores `obj` in the last freed slot, or in a new one; returns its index.
    fn place(&mut self, obj: JObject) -> (idx: usize)
        requires
            old(self)@.wf(),
        ensures
            idx == old(self)@.next_slot(),
            final(self)@ == old(self)@.place(obj@),
            final(self)@.wf(),
            idx < final(self)@.objects.len(),
            final(self)@.objects[idx as int] == Some(obj@),
    {
        let ghost h = self@;
        match self.free_list.pop() {
            Some(idx) => {
                proof {
                    assert(h.free_list[h.free_list.len() - 1] < h.objects.len());
                }
                self.objects.set(idx, Some(obj));
                proof {
                    assert(self@.objects =~= h.objects.update(idx as int, Some(obj@)));
                    assert(self@.free_list =~= h.free_list.drop_last());
                    assert forall|i: int| 0 <= i < self@.free_list.len() implies #[trigger] self@.free_list[i] < self@.objects.len() by {
                        assert(self@.free_list[i] == h.free_list[i]);
                    }
                }
                idx
            },
            None => {
                let idx = self.objects.len();
                self.objects.push(Some(obj));
                self.array_data.push(None);
                self.array_refs.push(None);
                proof {
                    assert(self.objects@.len() == self.objects.len());
                    assert(self@.objects =~= h.objects.push(Some(obj@)));
                    assert(self@.array_data =~= h.array_data.push(None));
                    assert(self@.array_refs =~= h.array_refs.push(None));
                    assert forall|i: int, k: int|
                        0 <= i < self@.array_data.len() && #[trigger] self@.array_data[i] is Some
                            && 0 <= k < self@.array_data[i].unwrap().len()
                        implies #[trigger] self@.array_data[i].unwrap()[k] is I32 by {
                        assert(i < h.array_data.len());
                        assert(self@.array_data[i] == h.array_data[i]);
                    }
                }
                idx
            },
        }
    }

    /// Allocates an object of class `class_name`; returns its index.
    pub fn alloc_object(&mut self, class_name: String) -> (idx: usize)
        requires
            old(self)@.wf(),
        ensures
            idx == old(self)@.next_slot(),
            final(self)@ == old(self)@.place(blank_object(class_name@)),
            final(self)@.wf(),
            final(self)@.live(idx as int),
    {
        let obj = JObject { class_name, fields: Vec::new(), string_value: None };
        proof {
            assert(obj@.fields =~= Seq::<(Seq<char>, Value)>::empty());
        }
        self.place(obj)
    }

    /// The object at `index`, if it is live.
    pub fn get(&self, index: usize) -> (res: Option<&JObject>)
        ensures
            match res {
                Some(o) => index < self.objects@.len() && self.objects@[index as int] == Some(*o),
                None => !self@.live(index as int),
            },
    {
        if index < self.objects.len() {
            match &self.objects[index] {
                Some(o) => Some(o),
                None => None,
            }
        } else {
            None
        }
    }

    /// The object at `index`, if it is live, to change in place.
    pub fn get_mut(&mut self, index: usize) -> (res: Option<&mut JObject>)
        ensures
            match res {
                Some(o) => {
                    &&& old(self)@.live(index as int)
                    &&& *o == old(self).objects@[index as int].unwrap()
                    &&& final(self).objects@ == old(self).objects@.update(index as int, Some(*final(o)))
                    &&& final(self).free_list == old(self).free_list
                    &&& final(self).array_data == old(self).array_data
                    &&& final(self).array_refs == old(self).array_refs
                    &&& final(self).static_fields == old(self).static_fields
                },
                None => !old(self)@.live(index as int) && *final(self) == *old(self),
            },
    {
        if index < self.objects.len() && self.objects[index].is_some() {
            match &mut self.objects[index] {
                Some(o) => Some(o),
                None => None,
            }
        } else {
            None
        }
    }

    /// Frees the slot `index` for reuse (nothing happens out of range).
    pub fn free(&mut self, index: usize)
        requires
            old(self)@.wf(),
        ensures
            final(self)@ == old(self)@.freed(index as int),
            final(self)@.wf(),
    {
        let ghost h = self@;
        if index < self.objects.len() {
            self.objects.set(index, None);
            self.free_list.push(index);
            proof {
                assert(self@.objects =~= h.objects.update(index as int, None));
                assert forall|i: int| 0 <= i < self@.free_list.len() implies #[trigger] self@.free_list[i] < self@.objects.len() by {
                    if i < h.free_list.len() {
                        assert(self@.free_list[i] == h.free_list[i]);
                    }
                }
            }
        }
    }

    /// Allocates a String object holding `value`; returns its index.
    pub fn alloc_string(&mut self, value: String) -> (idx: usize)
        requires
            old(self)@.wf(),
        ensures
            idx == old(self)@.next_slot(),
            final(self)@ == old(self)@.place(string_object(value@)),
            final(self)@.wf(),
            final(self)@.live(idx as int),
    {
        let obj = JObject {
            class_name: String::from_str("java/lang/String"),
            fields: Vec::new(),
            string_value: Some(value),
        };
        proof {
            assert(obj@.fields =~= Seq::<(Seq<char>, Value)>::empty());
        }
        self.place(obj)
    }

    /// The text of the String object at `index`, if there is one.
    pub fn get_string(&self, index: usize) -> (res: Option<&str>)
        ensures
            match res {
                Some(s) => self@.live(index as int) && self@.objects[index as int].unwrap().string_value
                    == Some(s@),
                None => !self@.live(index as int) || self@.objects[index as int].unwrap().string_value is None,
            },
    {
        if index < self.objects.len() {
            match &self.objects[index] {
                Some(o) => match &o.string_value {
                    Some(s) => Some(s.as_str()),
                    None => None,
                },
                None => None,
            }
        } else {
            None
        }
    }

    /// Allocates an array of `length` elements; every element starts as
    /// `I32(0)` in the primitive table and `Null` in the reference table.
    pub fn alloc_array(&mut self, class_name: String, length: usize) -> (idx: usize)
        requires
            old(self)@.wf(),
        ensures
            idx == old(self)@.next_slot(),
            final(self)@ == old(self)@.with_array(class_name@, length),
            final(self)@.wf(),
            final(self)@.live(idx as int),
    {
        let mut fields: Vec<(String, Value)> = Vec::new();
        let len_value: i32 = #[verifier::truncate] (length as i32);
        fields.push((String::from_str("$length"), Value::I32(len_value)));
        fields.push((String::from_str("$data"), Value::Null));
        let obj = JObject { class_name, fields, string_value: None };
        proof {
            assert(obj@.fields =~= seq![("$length"@, Value::I32(length as i32)), ("$data"@, Value::Null)]);
        }
        let idx = self.place(obj);
        let ghost h1 = self@;
        let data: Vec<Value> = vec![Value::I32(0); length];
        let refs: Vec<Value> = vec![Value::Null; length];
        self.array_data.set(idx, Some(data));
        self.array_refs.set(idx, Some(refs));
        proof {
            assert(data@ =~= Seq::new(length as nat, |k: int| Value::I32(0)));
            assert(refs@ =~= Seq::new(length as nat, |k: int| Value::Null));
            assert(self@.array_data =~= h1.array_data.update(idx as int, Some(Seq::new(length as nat, |k: int| Value::I32(0)))));
            assert(self@.array_refs =~= h1.array_refs.update(idx as int, Some(Seq::new(length as nat, |k: int| Value::Null))));
            assert forall|i: int, k: int|
                0 <= i < self@.array_data.len() && #[trigger] self@.array_data[i] is Some
                    && 0 <= k < self@.array_data[i].unwrap().len()
                implies #[trigger] self@.array_data[i].unwrap()[k] is I32 by {
                if i != idx {
                    assert(self@.array_data[i] == h1.array_data[i]);
                }
            }
        }
        idx
    }

    /// The length of the array at `index`, or 0 where there is none.
    pub fn get_array_length(&self, index: usize) -> (n: usize)
        requires
            self@.wf(),
        ensures
            n == self@.array_length(index as int),
    {
        if index < self.array_data.len() {
            match &self.array_data[index] {
                Some(a) => a.len(),
                None => 0,
            }
        } else {
            0
        }
    }

    /// Element `element_index` of the primitive array at `index`, or 0.
    pub fn get_array_int(&self, index: usize, element_index: usize) -> (v: i32)
        requires
            self@.wf(),
        ensures
            v == self@.array_int(index as int, element_index as int),
    {
        if index < self.array_data.len() {
            match &self.array_data[index] {
                Some(a) => if element_index < a.len() {
                    proof {
                        assert(self@.array_data[index as int] == Some(a@));
                        assert(self@.array_data[index as int] is Some);
                        assert(self@.array_data[index as int].unwrap()[element_index as int] is I32);
                    }
                    a[element_index].as_i32()
                } else {
                    0
                },
                None => 0,
            }
        } else {
            0
        }
    }

    /// Sets element `element_index` of the primitive array at `index`
    /// (nothing happens where there is no such element).
    pub fn set_array_int(&mut self, index: usize, element_index: usize, value: i32)
        requires
            old(self)@.wf(),
        ensures
            final(self)@ == old(self)@.with_array_int(index as int, element_index as int, value),
            final(self)@.wf(),
    {
        let ghost h = self@;
        if index < self.array_data.len() {
            let mut slot: Option<Vec<Value>> = None;
            self.array_data.set_and_swap(index, &mut slot);
            match slot {
                Some(mut a) => {
                    if element_index < a.len() {
                        a.set(element_index, Value::I32(value));
                    }
                    self.array_data.set(index, Some(a));
                    proof {
                        if element_index < h.array_data[index as int].unwrap().len() {
                            assert(self@.array_data =~= h.array_data.update(
                                index as int,
                                Some(h.array_data[index as int].unwrap().update(element_index as int, Value::I32(value))),
                            ));
                        } else {
                            assert(self@.array_data =~= h.array_data);
                        }
                        assert forall|i: int, k: int|
                            0 <= i < self@.array_data.len() && #[trigger] self@.array_data[i] is Some
                                && 0 <= k < self@.array_data[i].unwrap().len()
                            implies #[trigger] self@.array_data[i].unwrap()[k] is I32 by {
                            if i != index {
                                assert(self@.array_data[i] == h.array_data[i]);
                            } else if k != element_index {
                                assert(self@.array_data[i].unwrap()[k] == h.array_data[i].unwrap()[k]);
                            }
                        }
                    }
                },
                None => {
                    self.array_data.set(index, None);
                    proof {
                        assert(self@.array_data =~= h.array_data);
                    }
                },
            }
        }
    }

    /// Element `element_index` of the reference array at `index`, or `Null`.
    pub fn get_array_ref(&self, index: usize, element_index: usize) -> (v: Value)
        requires
            self@.wf(),
        ensures
            v == self@.array_ref(index as int, element_index as int),
    {
        if index < self.array_refs.len() {
            match &self.array_refs[index] {
                Some(a) => if element_index < a.len() {
                    proof {
                        assert(self@.array_refs[index as int] == Some(a@));
                    }
                    a[element_index]
                } else {
                    Value::Null
                },
                None => Value::Null,
            }
        } else {
            Value::Null
        }
    }

    /// Sets element `element_index` of the reference array at `index`
    /// (nothing happens where there is no such element).
    pub fn set_array_ref(&mut self, index: usize, element_index: usize, value: Value)
        requires
            old(self)@.wf(),
        ensures
            final(self)@ == old(self)@.with_array_ref(index as int, element_index as int, value),
            final(self)@.wf(),
    {
        let ghost h = self@;
        if index < self.array_refs.len() {
            let mut slot: Option<Vec<Value>> = None;
            self.array_refs.set_and_swap(index, &mut slot);
            match slot {
                Some(mut a) => {
                    if element_index < a.len() {
                        a.set(element_index, value);
                    }
                    self.array_refs.set(index, Some(a));
                    proof {
                        if element_index < h.array_refs[index as int].unwrap().len() {
                            assert(self@.array_refs =~= h.array_refs.update(
                                index as int,
                                Some(h.array_refs[index as int].unwrap().update(element_index as int, value)),
                            ));
                        } else {
                            assert(self@.array_refs =~= h.array_refs);
                        }
                    }
                },
                None => {
                    self.array_refs.set(index, None);
                    proof {
                        assert(self@.array_refs =~= h.array_refs);
                    }
                },
            }
        }
    }

    /// The value of static field `key`, or `I32(0)` where it was never set.
    pub fn get_static_field(&self, key: &str) -> (v: Value)
        ensures
            v == match lookup(self@.statics, key@) {
                Some(x) => x,
                None => Value::I32(0),
            },
    {
        match lookup_named(&self.static_fields, key) {
            Some(v) => v,
            None => Value::I32(0),
        }
    }

    /// Sets static field `key`.
    pub fn set_static_field(&mut self, key: String, value: Value)
        requires
            old(self)@.wf(),
        ensures
            final(self)@ == (HeapV { statics: update(old(self)@.statics, key@, value), ..old(self)@ }),
            final(self)@.wf(),
    {
        update_named(&mut self.static_fields, key, value);
    }

    /// The number of live objects.
    pub fn live_count(&self) -> (n: usize)
        ensures
            n == self@.live_count(),
    {
        let mut n: usize = 0;
        let mut i: usize = 0;
        while i < self.objects.len()
            invariant
                i <= self.objects@.len(),
                n == self@.live_below(i as int),
                n <= i,
            decreases self.objects@.len() - i,
        {
            if self.objects[i].is_some() {
                n = n + 1;
            }
            i = i + 1;
        }
        n
    }
}

/// A field or static field set to `v` reads back as `v`, and every other
/// name reads as before.
pub proof fn lemma_update_then_lookup(s: Seq<(Seq<char>, Value)>, name: Seq<char>, v: Value, other: Seq<char>)
    ensures
        lookup(update(s, name, v), name) == Some(v),
        other != name ==> lookup(update(s, name, v), other) == lookup(s, other),
    decreases s.len(),
{
    if s.len() > 0 && s[0].0 != name {
        lemma_update_then_lookup(s.drop_first(), name, v, other);
        assert((seq![s[0]] + update(s.drop_first(), name, v)).drop_first() =~= update(s.drop_first(), name, v));
    } else if s.len() > 0 {
        assert(s.update(0, (name, v)).drop_first() =~= s.drop_first());
    } else {
        assert(seq![(name, v)].drop_first() =~= s);
    }
}

/// The object an allocation places is found at the index it returns, and
/// no other slot changes.
pub proof fn lemma_place_then_get(h: HeapV, obj: JObjectV, i: int)
    requires
        h.wf(),
    ensures
        h.place(obj).live(h.next_slot() as int),
        h.place(obj).objects[h.next_slot() as int] == Some(obj),
        0 <= i < h.objects.len() && i != h.next_slot() ==> h.place(obj).objects[i] == h.objects[i],
{
}

/// After a live object is freed, the next allocation reuses its slot.
pub proof fn lemma_free_then_alloc_reuses(h: HeapV, i: int)
    requires
        h.wf(),
        h.live(i),
    ensures
        !h.freed(i).live(i),
        h.freed(i).wf(),
        h.freed(i).next_slot() == i,
{
    assert forall|k: int| 0 <= k < h.freed(i).free_list.len() implies #[trigger] h.freed(i).free_list[k] < h.freed(i).objects.len() by {
        if k < h.free_list.len() {
            assert(h.freed(i).free_list[k] == h.free_list[k]);
        }
    }
}

/// An element written into an array reads back, within the array's length.
pub proof fn lemma_array_write_then_read(h: HeapV, index: int, k: int, v: i32, w: Value)
    requires
        0 <= k < h.array_length(index),
    ensures
        h.with_array_int(index, k, v).array_int(index, k) == v,
        h.array_refs.len() > index && index >= 0 && h.array_refs[index] is Some && k < h.array_refs[index].unwrap().len()
            ==> h.with_array_ref(index, k, w).array_ref(index, k) == w,
{
}

/// An allocation never overwrites a live object while the free list is
/// sound (a new heap's is, and allocation and freeing of a live object keep
/// it so; freeing a slot twice does not): the slot it takes holds no live
/// object, it then holds the new object, every other slot keeps its own,
/// and the free list stays sound.
pub proof fn lemma_alloc_takes_a_free_slot(h: HeapV, obj: JObjectV, class_name: Seq<char>, length: usize)
    requires
        h.wf(),
        h.free_list_sound(),
    ensures
        Heap::new_spec().free_list_sound(),
        !h.live(h.next_slot() as int),
        h.place(obj).free_list_sound(),
        h.place(obj).objects[h.next_slot() as int] == Some(obj),
        forall|i: int| 0 <= i < h.objects.len() && i != h.next_slot() ==> h.place(obj).objects[i] == h.objects[i],
        h.with_array(class_name, length).free_list_sound(),
{
    lemma_place_sound(h, obj);
    let a = h.with_array(class_name, length);
    assert(a.objects == h.place(a.objects[h.next_slot() as int].unwrap()).objects);
    assert(a.free_list == h.place(a.objects[h.next_slot() as int].unwrap()).free_list);
    lemma_place_sound(h, a.objects[h.next_slot() as int].unwrap());
}

proof fn lemma_place_sound(h: HeapV, obj: JObjectV)
    requires
        h.wf(),
        h.free_list_sound(),
    ensures
        h.place(obj).free_list_sound(),
{
    let p = h.place(obj);
    if h.free_list.len() > 0 {
        assert forall|i: int| 0 <= i < p.free_list.len() implies !p.live(#[trigger] p.free_list[i] as int) by {
            assert(p.free_list[i] == h.free_list[i]);
            assert(h.free_list[i] != h.free_list[h.free_list.len() - 1]);
        }
        assert forall|i: int, j: int| 0 <= i < j < p.free_list.len() implies #[trigger] p.free_list[i] != #[trigger] p.free_list[j] by {
            assert(p.free_list[i] == h.free_list[i] && p.free_list[j] == h.free_list[j]);
        }
    } else {
        assert forall|i: int| 0 <= i < p.free_list.len() implies !p.live(#[trigger] p.free_list[i] as int) by {
            assert(p.free_list[i] == h.free_list[i]);
        }
    }
}

/// Freeing a live object keeps the free list sound.
pub proof fn lemma_free_keeps_free_list_sound(h: HeapV, i: int)
    requires
        h.wf(),
        h.free_list_sound(),
        h.live(i),
    ensures
        h.freed(i).free_list_sound(),
{
    let f = h.freed(i);
    assert forall|k: int| 0 <= k < f.free_list.len() implies !f.live(#[trigger] f.free_list[k] as int) by {
        if k < h.free_list.len() {
            assert(f.free_list[k] == h.free_list[k]);
        }
    }
    assert forall|a: int, b: int| 0 <= a < b < f.free_list.len() implies #[trigger] f.free_list[a] != #[trigger] f.free_list[b] by {
        assert(f.free_list[a] == h.free_list[a]);
        if b < h.free_list.len() {
            assert(f.free_list[b] == h.free_list[b]);
        }
    }
}

} // verus!
