//! Mark-sweep garbage collection.
//!
//! The roots are the references held in the locals and operand stacks of a
//! thread's frames and the static fields that refer to live objects. Marking
//! traces instance fields and the elements of reference arrays; sweeping
//! frees every live object that was not marked.
use vstd::prelude::*;
use crate::runtime::frame::{Frame, FrameV, Value};
use crate::runtime::heap::{opt_object_view, Heap, HeapV};

verus! {

/// The frame holds a reference to `j` in a local or on its operand stack.
pub open spec fn frame_holds(f: FrameV, j: usize) -> bool {
    ||| exists|k: int| 0 <= k < f.locals.len() && #[trigger] f.locals[k] == Value::Object(j)
    ||| exists|k: int| 0 <= k < f.stack.len() && #[trigger] f.stack[k] == Value::Object(j)
}

/// Some frame holds a reference to `j`.
pub open spec fn held_by_frames(frames: Seq<FrameV>, j: usize) -> bool {
    exists|f: int| 0 <= f < frames.len() && #[trigger] frame_holds(frames[f], j)
}

/// Some static field refers to `j`.
pub open spec fn held_by_statics(h: HeapV, j: usize) -> bool {
    exists|k: int| 0 <= k < h.statics.len() && #[trigger] h.statics[k].1 == Value::Object(j)
}

/// `j` is a live object that a frame or a static field refers to.
pub open spec fn is_root(h: HeapV, frames: Seq<FrameV>, j: usize) -> bool {
    h.live(j as int) && (held_by_frames(frames, j) || held_by_statics(h, j))
}

/// The live object `i` refers to `j` in an instance field or, as a
/// reference array, in an element.
pub open spec fn points_to(h: HeapV, i: usize, j: usize) -> bool {
    &&& h.live(i as int)
    &&& {
        ||| exists|k: int|
            0 <= k < h.objects[i as int].unwrap().fields.len()
                && #[trigger] h.objects[i as int].unwrap().fields[k].1 == Value::Object(j)
        ||| h.array_refs[i as int] is Some && exists|k: int|
            0 <= k < h.array_refs[i as int].unwrap().len() && #[trigger] h.array_refs[i as int].unwrap()[k]
                == Value::Object(j)
    }
}

/// `p` is a chain of live objects from a root, each referring to the next.
pub open spec fn is_path(h: HeapV, frames: Seq<FrameV>, p: Seq<usize>) -> bool {
    &&& p.len() > 0
    &&& is_root(h, frames, p[0])
    &&& forall|k: int|
        #![trigger p[k + 1]]
        0 <= k < p.len() - 1 ==> points_to(h, p[k], p[k + 1]) && h.live(p[k + 1] as int)
}

/// The object at `j` can be reached from the roots.
pub open spec fn reachable(h: HeapV, frames: Seq<FrameV>, j: usize) -> bool {
    exists|p: Seq<usize>| #[trigger] is_path(h, frames, p) && p.last() == j
}

/// The object at `i` is live and cannot be reached: the collector frees it.
pub open spec fn doomed(h: HeapV, frames: Seq<FrameV>, i: usize) -> bool {
    h.live(i as int) && !reachable(h, frames, i)
}

/// The doomed slots below `n`, in ascending order.
pub open spec fn doomed_below(h: HeapV, frames: Seq<FrameV>, n: nat) -> Seq<usize>
    decreases n,
{
    if n == 0 {
        Seq::empty()
    } else {
        doomed_below(h, frames, (n - 1) as nat) + if doomed(h, frames, (n - 1) as usize) {
            seq![(n - 1) as usize]
        } else {
            Seq::empty()
        }
    }
}

/// The heap after a collection: doomed slots are emptied, appended to the
/// free list in ascending order, and their array tables cleared.
pub open spec fn after_gc(h: HeapV, frames: Seq<FrameV>) -> HeapV {
    HeapV {
        objects: Seq::new(
            h.objects.len(),
            |i: int| if doomed(h, frames, i as usize) { None } else { h.objects[i] },
        ),
        free_list: h.free_list + doomed_below(h, frames, h.objects.len()),
        array_data: Seq::new(
            h.array_data.len(),
            |i: int| if doomed(h, frames, i as usize) { None } else { h.array_data[i] },
        ),
        array_refs: Seq::new(
            h.array_refs.len(),
            |i: int| if doomed(h, frames, i as usize) { None } else { h.array_refs[i] },
        ),
        statics: h.statics,
    }
}

/// The views of a thread's frames.
pub open spec fn frames_view(frames: Seq<Frame>) -> Seq<FrameV> {
    frames.map_values(|f: Frame| f@)
}


/// The heap indices that `values` refer to, in order.
pub open spec fn object_refs(values: Seq<Value>) -> Seq<usize>
    decreases values.len(),
{
    if values.len() == 0 {
        Seq::empty()
    } else {
        object_refs(values.drop_last()) + match values.last() {
            Value::Object(i) => seq![i],
            _ => Seq::empty(),
        }
    }
}

proof fn lemma_object_refs_contains(values: Seq<Value>, j: usize)
    ensures
        object_refs(values).contains(j) <==> exists|k: int| 0 <= k < values.len() && values[k] == Value::Object(j),
    decreases values.len(),
{
    if values.len() > 0 {
        lemma_object_refs_contains(values.drop_last(), j);
        let tail: Seq<usize> = match values.last() {
            Value::Object(i) => seq![i],
            _ => Seq::empty(),
        };
        assert(object_refs(values) == object_refs(values.drop_last()) + tail);
        if object_refs(values).contains(j) {
            let m = choose|m: int| 0 <= m < object_refs(values).len() && object_refs(values)[m] == j;
            if m < object_refs(values.drop_last()).len() {
                assert(object_refs(values.drop_last())[m] == j);
                let k = choose|k: int| 0 <= k < values.drop_last().len() && values.drop_last()[k] == Value::Object(j);
                assert(values[k] == Value::Object(j));
            } else {
                assert(values[values.len() - 1] == Value::Object(j));
            }
        }
        if exists|k: int| 0 <= k < values.len() && values[k] == Value::Object(j) {
            let k = choose|k: int| 0 <= k < values.len() && values[k] == Value::Object(j);
            if k < values.len() - 1 {
                assert(values.drop_last()[k] == Value::Object(j));
                let m = choose|m: int| 0 <= m < object_refs(values.drop_last()).len() && object_refs(values.drop_last())[m] == j;
                assert((object_refs(values.drop_last()) + tail)[m] == j);
            } else {
                assert((object_refs(values.drop_last()) + tail)[object_refs(values.drop_last()).len() as int] == j);
            }
        }
    }
}

/// Pushes every heap index that `values` refer to onto `worklist`.
fn collect_refs_from_values(values: &Vec<Value>, worklist: &mut Vec<usize>)
    ensures
        final(worklist)@ == old(worklist)@ + object_refs(values@),
{
    let ghost start = worklist@;
    let mut i: usize = 0;
    proof {
        assert(values@.subrange(0, 0) =~= Seq::<Value>::empty());
        assert(start + object_refs(Seq::<Value>::empty()) =~= start);
    }
    while i < values.len()
        invariant
            start == old(worklist)@,
            i <= values@.len(),
            worklist@ == start + object_refs(values@.subrange(0, i as int)),
        decreases values@.len() - i,
    {
        proof {
            assert(values@.subrange(0, i + 1).drop_last() =~= values@.subrange(0, i as int));
        }
        match values[i] {
            Value::Object(idx) => {
                worklist.push(idx);
                proof {
                    assert(worklist@ =~= start + object_refs(values@.subrange(0, i + 1)));
                }
            },
            _ => {
                proof {
                    assert(worklist@ =~= start + object_refs(values@.subrange(0, i + 1)));
                }
            },
        }
        i = i + 1;
    }
    proof {
        assert(values@.subrange(0, values@.len() as int) =~= values@);
    }
}

/// A root is reachable.
proof fn lemma_root_reachable(h: HeapV, frames: Seq<FrameV>, j: usize)
    requires
        is_root(h, frames, j),
    ensures
        reachable(h, frames, j),
{
    let p = seq![j];
    assert(is_path(h, frames, p));
}

/// Following one reference from a reachable object reaches a live target.
proof fn lemma_extend(h: HeapV, frames: Seq<FrameV>, i: usize, j: usize)
    requires
        reachable(h, frames, i),
        points_to(h, i, j),
        h.live(j as int),
    ensures
        reachable(h, frames, j),
{
    let p = choose|p: Seq<usize>| #[trigger] is_path(h, frames, p) && p.last() == i;
    let q = p.push(j);
    assert forall|k: int| #![trigger q[k + 1]] 0 <= k < q.len() - 1 implies points_to(h, q[k], q[k + 1]) && h.live(q[k + 1] as int) by {
        if k < p.len() - 1 {
            assert(q[k] == p[k] && q[k + 1] == p[k + 1]);
        } else {
            assert(q[k] == i);
        }
    }
    assert(is_path(h, frames, q));
}

/// Every reachable object is live.
proof fn lemma_reachable_live(h: HeapV, frames: Seq<FrameV>, j: usize)
    requires
        reachable(h, frames, j),
    ensures
        h.live(j as int),
{
    let p = choose|p: Seq<usize>| #[trigger] is_path(h, frames, p) && p.last() == j;
    if p.len() > 1 {
        let k = p.len() - 2;
        assert(h.live(p[k + 1] as int));
    }
}

/// A set of marks that holds every root and is closed under references to
/// live objects holds every reachable object.
proof fn lemma_closed_marks(h: HeapV, frames: Seq<FrameV>, marks: Seq<bool>, j: usize)
    requires
        marks.len() == h.objects.len(),
        forall|r: usize| is_root(h, frames, r) ==> marks[r as int],
        forall|a: usize, b: usize|
            #![trigger points_to(h, a, b), marks[b as int]]
            (a as int) < marks.len() && marks[a as int] && points_to(h, a, b) && h.live(b as int)
                ==> marks[b as int],
        reachable(h, frames, j),
    ensures
        marks[j as int],
{
    let p = choose|p: Seq<usize>| #[trigger] is_path(h, frames, p) && p.last() == j;
    lemma_path_marked(h, frames, marks, p, p.len() - 1);
}

proof fn lemma_path_marked(h: HeapV, frames: Seq<FrameV>, marks: Seq<bool>, p: Seq<usize>, k: int)
    requires
        marks.len() == h.objects.len(),
        forall|r: usize| is_root(h, frames, r) ==> marks[r as int],
        forall|a: usize, b: usize|
            #![trigger points_to(h, a, b), marks[b as int]]
            (a as int) < marks.len() && marks[a as int] && points_to(h, a, b) && h.live(b as int)
                ==> marks[b as int],
        is_path(h, frames, p),
        0 <= k < p.len(),
    ensures
        marks[p[k] as int],
    decreases k,
{
    if k > 0 {
        lemma_path_marked(h, frames, marks, p, k - 1);
        let m = k - 1;
        assert(points_to(h, p[m], p[m + 1]) && h.live(p[m + 1] as int));
        assert(h.live(p[m] as int));
        assert(marks[p[k] as int]);
    }
}

/// The number of live, unmarked slots below `n`.
pub open spec fn unmarked_below(h: HeapV, marks: Seq<bool>, n: int) -> nat
    decreases n,
{
    if n <= 0 {
        0
    } else {
        unmarked_below(h, marks, n - 1) + if h.live(n - 1) && !marks[n - 1] {
            1nat
        } else {
            0nat
        }
    }
}

proof fn lemma_unmarked_mark(h: HeapV, marks: Seq<bool>, w: int, n: int)
    requires
        0 <= w < marks.len(),
        h.live(w),
        !marks[w],
        0 <= n <= marks.len(),
    ensures
        n > w ==> unmarked_below(h, marks.update(w, true), n) + 1 == unmarked_below(h, marks, n),
        n <= w ==> unmarked_below(h, marks.update(w, true), n) == unmarked_below(h, marks, n),
    decreases n,
{
    if n > 0 {
        lemma_unmarked_mark(h, marks, w, n - 1);
    }
}


/// The marks of the reachable objects: slot `i` is marked exactly when the
/// object there can be reached from the roots.
fn mark(thread_stack: &[Frame], heap: &Heap) -> (marked: Vec<bool>)
    requires
        heap@.wf(),
    ensures
        marked@.len() == heap@.objects.len(),
        forall|i: int|
            0 <= i < marked@.len() ==> (marked@[i] <==> reachable(heap@, frames_view(thread_stack@), i as usize)),
{
    let ghost h = heap@;
    let ghost fr = frames_view(thread_stack@);
    let n = heap.objects.len();
    let mut worklist: Vec<usize> = Vec::new();

    // Roots held by the frames.
    let mut f: usize = 0;
    while f < thread_stack.len()
        invariant
            f <= thread_stack@.len(),
            fr == frames_view(thread_stack@),
            forall|m: int| 0 <= m < worklist@.len() ==> held_by_frames(fr, #[trigger] worklist@[m]),
            forall|g: int, j: usize| 0 <= g < f && #[trigger] frame_holds(fr[g], j) ==> worklist@.contains(j),
        decreases thread_stack@.len() - f,
    {
        let ghost w0 = worklist@;
        collect_refs_from_values(&thread_stack[f].locals, &mut worklist);
        let ghost w1 = worklist@;
        collect_refs_from_values(&thread_stack[f].operand_stack, &mut worklist);
        proof {
            let fv = fr[f as int];
            assert(fv == thread_stack@[f as int]@);
            let rl = object_refs(fv.locals);
            let rs = object_refs(fv.stack);
            assert(worklist@ == w0 + rl + rs);
            assert forall|m: int| 0 <= m < worklist@.len() implies held_by_frames(fr, #[trigger] worklist@[m]) by {
                if m >= w0.len() {
                    let x = worklist@[m];
                    if m < w1.len() {
                        assert(rl[m - w0.len()] == x);
                        lemma_object_refs_contains(fv.locals, x);
                    } else {
                        assert(rs[m - w1.len()] == x);
                        lemma_object_refs_contains(fv.stack, x);
                    }
                    assert(frame_holds(fr[f as int], x));
                } else {
                    assert(worklist@[m] == w0[m]);
                }
            }
            assert forall|g: int, j: usize| 0 <= g < f + 1 && #[trigger] frame_holds(fr[g], j) implies worklist@.contains(j) by {
                if g < f {
                    let m = choose|m: int| 0 <= m < w0.len() && w0[m] == j;
                    assert(worklist@[m] == j);
                } else {
                    lemma_object_refs_contains(fv.locals, j);
                    lemma_object_refs_contains(fv.stack, j);
                    if rl.contains(j) {
                        let m = choose|m: int| 0 <= m < rl.len() && rl[m] == j;
                        assert(worklist@[w0.len() + m] == j);
                    } else {
                        let m = choose|m: int| 0 <= m < rs.len() && rs[m] == j;
                        assert(worklist@[w1.len() + m] == j);
                    }
                }
            }
        }
        f = f + 1;
    }

    // Roots held by static fields.
    let mut k: usize = 0;
    while k < heap.static_fields.len()
        invariant
            h == heap@,
            n == h.objects.len(),
            k <= h.statics.len(),
            forall|m: int|
                0 <= m < worklist@.len() ==> held_by_frames(fr, #[trigger] worklist@[m]) || held_by_statics(h, worklist@[m]),
            forall|j: usize| held_by_frames(fr, j) ==> worklist@.contains(j),
            forall|k2: int|
                0 <= k2 < k ==> (#[trigger] h.statics[k2].1 matches Value::Object(j) ==> (h.live(j as int) ==> worklist@.contains(j))),
        decreases h.statics.len() - k,
    {
        let ghost w0 = worklist@;
        match heap.static_fields[k].1 {
            Value::Object(idx) => {
                if idx < n && heap.objects[idx].is_some() {
                    worklist.push(idx);
                    proof {
                        assert(h.statics[k as int].1 == Value::Object(idx));
                        assert(worklist@[w0.len() as int] == idx);
                    }
                }
            },
            _ => {},
        }
        proof {
            assert forall|j: usize| w0.contains(j) implies worklist@.contains(j) by {
                let m = choose|m: int| 0 <= m < w0.len() && w0[m] == j;
                assert(worklist@[m] == j);
            }
            assert forall|m: int| 0 <= m < worklist@.len() implies held_by_frames(fr, #[trigger] worklist@[m]) || held_by_statics(h, worklist@[m]) by {
                if m < w0.len() {
                    assert(worklist@[m] == w0[m]);
                } else {
                    assert(h.statics[k as int].1 == Value::Object(worklist@[m]));
                }
            }
        }
        k = k + 1;
    }

    // Trace.
    let mut marked: Vec<bool> = vec![false; n];
    proof {
        assert forall|j: usize| is_root(h, fr, j) implies marked@[j as int] || worklist@.contains(j) by {
            if held_by_statics(h, j) {
                let k2 = choose|k2: int| 0 <= k2 < h.statics.len() && #[trigger] h.statics[k2].1 == Value::Object(j);
            }
        }
        assert forall|m: int| 0 <= m < worklist@.len() && h.live(worklist@[m] as int) implies reachable(h, fr, #[trigger] worklist@[m]) by {
            lemma_root_reachable(h, fr, worklist@[m]);
        }
    }
    while worklist.len() > 0
        invariant
            h == heap@,
            h.wf(),
            n == h.objects.len(),
            marked@.len() == n,
            forall|m: int| 0 <= m < worklist@.len() && h.live(worklist@[m] as int) ==> reachable(h, fr, #[trigger] worklist@[m]),
            forall|i: int| 0 <= i < n && #[trigger] marked@[i] ==> reachable(h, fr, i as usize),
            forall|j: usize| is_root(h, fr, j) ==> marked@[j as int] || worklist@.contains(j),
            forall|a: usize, b: usize|
                #![trigger points_to(h, a, b)]
                (a as int) < n && marked@[a as int] && points_to(h, a, b) && h.live(b as int)
                    ==> marked@[b as int] || worklist@.contains(b),
        decreases unmarked_below(h, marked@, n as int), worklist@.len(),
    {
        let ghost w_full = worklist@;
        let w = match worklist.pop() {
            Some(x) => x,
            None => 0,
        };
        let ghost w_rest = worklist@;
        proof {
            assert(w_full == w_rest.push(w));
            assert forall|j: usize| w_full.contains(j) implies w_rest.contains(j) || j == w by {
                let m = choose|m: int| 0 <= m < w_full.len() && w_full[m] == j;
                if m < w_rest.len() {
                    assert(w_rest[m] == j);
                }
            }
            assert(w_full[w_full.len() - 1] == w);
        }
        if w < n && !marked[w] && heap.objects[w].is_some() {
            let ghost marks0 = marked@;
            proof {
                assert(h.live(w as int));
                assert(reachable(h, fr, w));
                lemma_unmarked_mark(h, marks0, w as int, n as int);
            }
            marked.set(w, true);
            let ghost w_mid = worklist@;
            // References held in instance fields.
            match &heap.objects[w] {
                Some(obj) => {
                    proof {
                        assert(h.objects[w as int] == Some(obj@));
                    }
                    let mut k: usize = 0;
                    while k < obj.fields.len()
                        invariant
                            h == heap@,
                            n == h.objects.len(),
                            h.objects[w as int] == Some(obj@),
                            (w as int) < n,
                            reachable(h, fr, w),
                            marked@.len() == n,
                            marked@[w as int],
                            k <= obj.fields@.len(),
                            forall|j: usize| w_mid.contains(j) ==> worklist@.contains(j),
                            forall|m: int| 0 <= m < worklist@.len() && h.live(worklist@[m] as int) ==> reachable(h, fr, #[trigger] worklist@[m]),
                            forall|k2: int|
                                0 <= k2 < k ==> (#[trigger] obj@.fields[k2].1 matches Value::Object(b) ==> (h.live(b as int)
                                    ==> marked@[b as int] || worklist@.contains(b))),
                        decreases obj.fields@.len() - k,
                    {
                        let ghost w0 = worklist@;
                        proof {
                            assert(obj@.fields[k as int].1 == obj.fields@[k as int].1);
                        }
                        match obj.fields[k].1 {
                            Value::Object(fi) => {
                                if fi >= n || !marked[fi] {
                                    worklist.push(fi);
                                    proof {
                                        assert(worklist@[w0.len() as int] == fi);
                                        if h.live(fi as int) {
                                            assert(points_to(h, w, fi));
                                            lemma_extend(h, fr, w, fi);
                                        }
                                    }
                                }
                            },
                            _ => {},
                        }
                        proof {
                            assert forall|j: usize| w0.contains(j) implies worklist@.contains(j) by {
                                let m = choose|m: int| 0 <= m < w0.len() && w0[m] == j;
                                assert(worklist@[m] == j);
                            }
                            assert forall|m: int| 0 <= m < worklist@.len() && h.live(worklist@[m] as int) implies reachable(h, fr, #[trigger] worklist@[m]) by {
                                if m < w0.len() {
                                    assert(worklist@[m] == w0[m]);
                                }
                            }
                        }
                        k = k + 1;
                    }
                },
                None => {},
            }
            let ghost w_fields = worklist@;
            // References held in the elements of a reference array.
            match &heap.array_refs[w] {
                Some(arr) => {
                    proof {
                        assert(h.array_refs[w as int] == Some(arr@));
                    }
                    let mut k: usize = 0;
                    while k < arr.len()
                        invariant
                            h == heap@,
                            n == h.objects.len(),
                            h.array_refs[w as int] == Some(arr@),
                            (w as int) < n,
                            h.live(w as int),
                            reachable(h, fr, w),
                            marked@.len() == n,
                            k <= arr@.len(),
                            forall|j: usize| w_fields.contains(j) ==> worklist@.contains(j),
                            forall|m: int| 0 <= m < worklist@.len() && h.live(worklist@[m] as int) ==> reachable(h, fr, #[trigger] worklist@[m]),
                            forall|k2: int|
                                0 <= k2 < k ==> (#[trigger] arr@[k2] matches Value::Object(b) ==> (h.live(b as int)
                                    ==> marked@[b as int] || worklist@.contains(b))),
                        decreases arr@.len() - k,
                    {
                        let ghost w0 = worklist@;
                        match arr[k] {
                            Value::Object(ei) => {
                                if ei >= n || !marked[ei] {
                                    worklist.push(ei);
                                    proof {
                                        assert(worklist@[w0.len() as int] == ei);
                                        if h.live(ei as int) {
                                            assert(h.array_refs[w as int].unwrap()[k as int] == Value::Object(ei));
                                            assert(points_to(h, w, ei));
                                            lemma_extend(h, fr, w, ei);
                                        }
                                    }
                                }
                            },
                            _ => {},
                        }
                        proof {
                            assert forall|j: usize| w0.contains(j) implies worklist@.contains(j) by {
                                let m = choose|m: int| 0 <= m < w0.len() && w0[m] == j;
                                assert(worklist@[m] == j);
                            }
                            assert forall|m: int| 0 <= m < worklist@.len() && h.live(worklist@[m] as int) implies reachable(h, fr, #[trigger] worklist@[m]) by {
                                if m < w0.len() {
                                    assert(worklist@[m] == w0[m]);
                                }
                            }
                        }
                        k = k + 1;
                    }
                },
                None => {},
            }
            proof {
                assert forall|j: usize| w_rest.contains(j) implies worklist@.contains(j) by {
                    assert(w_mid.contains(j));
                    assert(w_fields.contains(j));
                }
                assert forall|i: int| 0 <= i < n && #[trigger] marked@[i] implies reachable(h, fr, i as usize) by {
                    if i != w {
                        assert(marks0[i]);
                    }
                }
                assert forall|j: usize| is_root(h, fr, j) implies marked@[j as int] || worklist@.contains(j) by {
                    if j != w && !marks0[j as int] {
                        assert(w_full.contains(j));
                    }
                }
                assert forall|a: usize, b: usize|
                    #![trigger points_to(h, a, b)]
                    (a as int) < n && marked@[a as int] && points_to(h, a, b) && h.live(b as int)
                    implies marked@[b as int] || worklist@.contains(b) by {
                    if a == w {
                        let o = h.objects[w as int].unwrap();
                        if exists|k: int| 0 <= k < o.fields.len() && #[trigger] o.fields[k].1 == Value::Object(b) {
                            let k = choose|k: int| 0 <= k < o.fields.len() && #[trigger] o.fields[k].1 == Value::Object(b);
                            assert(marked@[b as int] || w_fields.contains(b));
                        } else {
                            let arr = h.array_refs[w as int].unwrap();
                            let k = choose|k: int| 0 <= k < arr.len() && #[trigger] arr[k] == Value::Object(b);
                        }
                    } else {
                        assert(marks0[a as int]);
                        if b != w && !marks0[b as int] {
                            assert(w_full.contains(b));
                        }
                    }
                }
            }
        } else {
            proof {
                assert forall|j: usize| is_root(h, fr, j) implies marked@[j as int] || worklist@.contains(j) by {
                    if !marked@[j as int] {
                        assert(w_full.contains(j));
                    }
                }
                assert forall|a: usize, b: usize|
                    #![trigger points_to(h, a, b)]
                    (a as int) < n && marked@[a as int] && points_to(h, a, b) && h.live(b as int)
                    implies marked@[b as int] || worklist@.contains(b) by {
                    if !marked@[b as int] {
                        assert(w_full.contains(b));
                    }
                }
                assert forall|m: int| 0 <= m < worklist@.len() && h.live(worklist@[m] as int) implies reachable(h, fr, #[trigger] worklist@[m]) by {
                    assert(worklist@[m] == w_full[m]);
                }
            }
        }
    }
    proof {
        assert forall|i: int| 0 <= i < marked@.len() implies (marked@[i] <==> reachable(h, fr, i as usize)) by {
            if reachable(h, fr, i as usize) {
                lemma_closed_marks(h, fr, marked@, i as usize);
            }
        }
    }
    marked
}


/// The slots below `n` whose live object is not marked, ascending.
pub open spec fn unmarked_live_below(h: HeapV, marks: Seq<bool>, n: nat) -> Seq<usize>
    decreases n,
{
    if n == 0 {
        Seq::empty()
    } else {
        unmarked_live_below(h, marks, (n - 1) as nat) + if h.live(n - 1) && !marks[n - 1] {
            seq![(n - 1) as usize]
        } else {
            Seq::empty()
        }
    }
}

proof fn lemma_unmarked_is_doomed(h: HeapV, frames: Seq<FrameV>, marks: Seq<bool>, n: nat)
    requires
        marks.len() == h.objects.len(),
        h.objects.len() <= usize::MAX,
        n <= marks.len(),
        forall|i: int| 0 <= i < marks.len() ==> (marks[i] <==> reachable(h, frames, i as usize)),
    ensures
        unmarked_live_below(h, marks, n) == doomed_below(h, frames, n),
    decreases n,
{
    if n > 0 {
        lemma_unmarked_is_doomed(h, frames, marks, (n - 1) as nat);
        let i = n - 1;
        assert(marks[i] <==> reachable(h, frames, i as usize));
        assert(doomed(h, frames, (n - 1) as usize) == (h.live(n - 1) && !marks[n - 1]));
    }
}

/// Frees every live object that is not marked; returns how many were freed.
fn sweep(heap: &mut Heap, marked: &Vec<bool>) -> (freed: usize)
    requires
        old(heap)@.wf(),
        marked@.len() == old(heap)@.objects.len(),
    ensures
        final(heap)@ == (HeapV {
            objects: Seq::new(
                old(heap)@.objects.len(),
                |i: int| if old(heap)@.live(i) && !marked@[i] { None } else { old(heap)@.objects[i] },
            ),
            free_list: old(heap)@.free_list + unmarked_live_below(old(heap)@, marked@, old(heap)@.objects.len()),
            array_data: Seq::new(
                old(heap)@.array_data.len(),
                |i: int| if old(heap)@.live(i) && !marked@[i] { None } else { old(heap)@.array_data[i] },
            ),
            array_refs: Seq::new(
                old(heap)@.array_refs.len(),
                |i: int| if old(heap)@.live(i) && !marked@[i] { None } else { old(heap)@.array_refs[i] },
            ),
            statics: old(heap)@.statics,
        }),
        freed == unmarked_live_below(old(heap)@, marked@, old(heap)@.objects.len()).len(),
{
    let ghost h = heap@;
    let ghost marks = marked@;
    let total = heap.objects.len();
    let mut freed: usize = 0;
    let mut idx: usize = 0;
    proof {
        assert(heap@.objects =~= Seq::new(h.objects.len(), |i: int| if i < 0 && h.live(i) && !marks[i] { None } else { h.objects[i] }));
        assert(heap@.array_data =~= Seq::new(h.array_data.len(), |i: int| if i < 0 && h.live(i) && !marks[i] { None } else { h.array_data[i] }));
        assert(heap@.array_refs =~= Seq::new(h.array_refs.len(), |i: int| if i < 0 && h.live(i) && !marks[i] { None } else { h.array_refs[i] }));
        assert(heap@.free_list =~= h.free_list + unmarked_live_below(h, marks, 0));
    }
    while idx < total
        invariant
            h == old(heap)@,
            h.wf(),
            marks == marked@,
            total == h.objects.len(),
            marks.len() == total,
            idx <= total,
            heap@.objects == Seq::new(h.objects.len(), |i: int| if i < idx && h.live(i) && !marks[i] { None } else { h.objects[i] }),
            heap@.array_data == Seq::new(h.array_data.len(), |i: int| if i < idx && h.live(i) && !marks[i] { None } else { h.array_data[i] }),
            heap@.array_refs == Seq::new(h.array_refs.len(), |i: int| if i < idx && h.live(i) && !marks[i] { None } else { h.array_refs[i] }),
            heap@.free_list == h.free_list + unmarked_live_below(h, marks, idx as nat),
            heap@.statics == h.statics,
            freed == unmarked_live_below(h, marks, idx as nat).len(),
            freed <= idx,
        decreases total - idx,
    {
        let ghost before = heap@;
        proof {
            assert(heap.objects@.len() == heap@.objects.len());
            assert(heap.array_data@.len() == heap@.array_data.len());
            assert(heap.array_refs@.len() == heap@.array_refs.len());
            assert(heap@.objects[idx as int] == h.objects[idx as int]);
        }
        if heap.objects[idx].is_some() && !marked[idx] {
            proof {
                assert(heap@.objects[idx as int] == opt_object_view(heap.objects@[idx as int]));
                assert(h.live(idx as int));
            }
            heap.objects.set(idx, None);
            heap.free_list.push(idx);
            heap.array_data.set(idx, None);
            heap.array_refs.set(idx, None);
            freed = freed + 1;
            proof {
                assert(heap@.objects =~= before.objects.update(idx as int, None));
                assert(heap@.array_data =~= before.array_data.update(idx as int, None));
                assert(heap@.array_refs =~= before.array_refs.update(idx as int, None));
            }
        } else {
            proof {
                assert(heap@.objects[idx as int] == opt_object_view(heap.objects@[idx as int]));
                assert(!(h.live(idx as int) && !marks[idx as int]));
            }
        }
        proof {
            let ni = (idx + 1) as int;
            assert(heap@.objects =~= Seq::new(h.objects.len(), |i: int| if i < ni && h.live(i) && !marks[i] { None } else { h.objects[i] }));
            assert(heap@.array_data =~= Seq::new(h.array_data.len(), |i: int| if i < ni && h.live(i) && !marks[i] { None } else { h.array_data[i] }));
            assert(heap@.array_refs =~= Seq::new(h.array_refs.len(), |i: int| if i < ni && h.live(i) && !marks[i] { None } else { h.array_refs[i] }));
            assert(heap@.free_list =~= h.free_list + unmarked_live_below(h, marks, (idx + 1) as nat));
        }
        idx = idx + 1;
    }
    proof {
        assert(heap@.objects =~= Seq::new(h.objects.len(), |i: int| if h.live(i) && !marks[i] { None } else { h.objects[i] }));
        assert(heap@.array_data =~= Seq::new(h.array_data.len(), |i: int| if h.live(i) && !marks[i] { None } else { h.array_data[i] }));
        assert(heap@.array_refs =~= Seq::new(h.array_refs.len(), |i: int| if h.live(i) && !marks[i] { None } else { h.array_refs[i] }));
    }
    freed
}

/// Runs a full collection over the roots of `thread_stack` and the static
/// fields. Returns the number of objects freed and the number left live.
pub fn gc(thread_stack: &[Frame], heap: &mut Heap) -> (res: (usize, usize))
    requires
        old(heap)@.wf(),
    ensures
        final(heap)@ == after_gc(old(heap)@, frames_view(thread_stack@)),
        final(heap)@.wf(),
        res.0 == doomed_below(old(heap)@, frames_view(thread_stack@), old(heap)@.objects.len()).len(),
        res.1 == final(heap)@.live_count(),
{
    let ghost h = heap@;
    let ghost fr = frames_view(thread_stack@);
    let marked = mark(thread_stack, heap);
    let freed = sweep(heap, &marked);
    proof {
        lemma_unmarked_is_doomed(h, fr, marked@, h.objects.len());
        assert forall|i: int| 0 <= i < h.objects.len() implies doomed(h, fr, i as usize) == (h.live(i) && !marked@[i]) by {
            assert(marked@[i] <==> reachable(h, fr, i as usize));
        }
        let a = after_gc(h, fr);
        assert(heap@.objects =~= a.objects);
        assert(heap@.array_data =~= a.array_data);
        assert(heap@.array_refs =~= a.array_refs);
        assert(heap@ =~= after_gc(h, fr));
        lemma_after_gc_wf(h, fr);
    }
    let remaining = heap.live_count();
    (freed, remaining)
}

proof fn lemma_doomed_below_bounds(h: HeapV, frames: Seq<FrameV>, n: nat)
    ensures
        forall|k: int| 0 <= k < doomed_below(h, frames, n).len() ==> (#[trigger] doomed_below(h, frames, n)[k] as int) < n
            && doomed(h, frames, doomed_below(h, frames, n)[k]),
    decreases n,
{
    if n > 0 {
        lemma_doomed_below_bounds(h, frames, (n - 1) as nat);
        let prev = doomed_below(h, frames, (n - 1) as nat);
        assert forall|k: int| 0 <= k < doomed_below(h, frames, n).len() implies (#[trigger] doomed_below(h, frames, n)[k] as int) < n
            && doomed(h, frames, doomed_below(h, frames, n)[k]) by {
            if k < prev.len() {
                assert(doomed_below(h, frames, n)[k] == prev[k]);
            }
        }
    }
}

proof fn lemma_after_gc_wf(h: HeapV, frames: Seq<FrameV>)
    requires
        h.wf(),
    ensures
        after_gc(h, frames).wf(),
{
    let a = after_gc(h, frames);
    lemma_doomed_below_bounds(h, frames, h.objects.len());
    assert forall|i: int| 0 <= i < a.free_list.len() implies #[trigger] a.free_list[i] < a.objects.len() by {
        if i >= h.free_list.len() {
            let k = i - h.free_list.len();
            assert(a.free_list[i] == doomed_below(h, frames, h.objects.len())[k]);
        }
    }
    assert forall|i: int, k: int|
        0 <= i < a.array_data.len() && #[trigger] a.array_data[i] is Some && 0 <= k < a.array_data[i].unwrap().len()
        implies #[trigger] a.array_data[i].unwrap()[k] is I32 by {
        assert(a.array_data[i] == h.array_data[i]);
    }
}

proof fn lemma_live_counts(h: HeapV, frames: Seq<FrameV>, n: int)
    requires
        0 <= n <= h.objects.len(),
        h.objects.len() <= usize::MAX,
    ensures
        after_gc(h, frames).live_below(n) + doomed_below(h, frames, n as nat).len() == h.live_below(n),
    decreases n,
{
    if n > 0 {
        lemma_live_counts(h, frames, n - 1);
        let a = after_gc(h, frames);
        assert(a.live(n - 1) == (h.live(n - 1) && !doomed(h, frames, (n - 1) as usize)));
        assert(doomed_below(h, frames, n as nat) == doomed_below(h, frames, (n - 1) as nat) + if doomed(h, frames, (n - 1) as usize) {
            seq![(n - 1) as usize]
        } else {
            Seq::empty()
        });
    }
}

/// The collector frees exactly the objects that cannot be reached from the
/// roots: after a collection an index addresses a live object if and only
/// if it was reachable before, reachable objects are left as they were, and
/// the freed count plus the live count after equals the live count before.
pub proof fn lemma_gc_frees_exactly_the_unreachable(h: HeapV, frames: Seq<FrameV>)
    requires
        h.wf(),
    ensures
        after_gc(h, frames).wf(),
        forall|j: usize| #[trigger] after_gc(h, frames).live(j as int) <==> reachable(h, frames, j),
        forall|j: usize|
            reachable(h, frames, j) ==> after_gc(h, frames).objects[j as int] == h.objects[j as int]
                && after_gc(h, frames).array_data[j as int] == h.array_data[j as int]
                && after_gc(h, frames).array_refs[j as int] == h.array_refs[j as int],
        after_gc(h, frames).live_count() + doomed_below(h, frames, h.objects.len()).len() == h.live_count(),
{
    lemma_after_gc_wf(h, frames);
    assert forall|j: usize| #[trigger] after_gc(h, frames).live(j as int) <==> reachable(h, frames, j) by {
        if reachable(h, frames, j) {
            lemma_reachable_live(h, frames, j);
        }
    }
    assert forall|j: usize| reachable(h, frames, j) implies after_gc(h, frames).objects[j as int] == h.objects[j as int]
        && after_gc(h, frames).array_data[j as int] == h.array_data[j as int]
        && after_gc(h, frames).array_refs[j as int] == h.array_refs[j as int] by {
        lemma_reachable_live(h, frames, j);
    }
    lemma_live_counts(h, frames, h.objects.len() as int);
}

/// Every object on a path from the roots is reachable.
proof fn lemma_path_members_reachable(h: HeapV, frames: Seq<FrameV>, p: Seq<usize>, k: int)
    requires
        is_path(h, frames, p),
        0 <= k < p.len(),
    ensures
        reachable(h, frames, p[k]),
{
    let q = p.subrange(0, k + 1);
    assert forall|m: int| #![trigger q[m + 1]] 0 <= m < q.len() - 1 implies points_to(h, q[m], q[m + 1]) && h.live(q[m + 1] as int) by {
        assert(q[m] == p[m] && q[m + 1] == p[m + 1]);
    }
    assert(is_path(h, frames, q));
    assert(q.last() == p[k]);
}

/// No slot below `n` is doomed, so none is freed.
proof fn lemma_nothing_doomed(h: HeapV, frames: Seq<FrameV>, n: nat)
    requires
        forall|i: usize| !doomed(h, frames, i),
    ensures
        doomed_below(h, frames, n) == Seq::<usize>::empty(),
    decreases n,
{
    if n > 0 {
        lemma_nothing_doomed(h, frames, (n - 1) as nat);
        assert(!doomed(h, frames, (n - 1) as usize));
        assert(doomed_below(h, frames, n) =~= Seq::<usize>::empty());
    }
}

/// A second collection with the same roots frees nothing and leaves the
/// heap as the first one left it.
pub proof fn lemma_gc_twice(h: HeapV, frames: Seq<FrameV>)
    requires
        h.wf(),
    ensures
        doomed_below(after_gc(h, frames), frames, after_gc(h, frames).objects.len()).len() == 0,
        after_gc(after_gc(h, frames), frames) == after_gc(h, frames),
{
    let h2 = after_gc(h, frames);
    lemma_gc_frees_exactly_the_unreachable(h, frames);
    assert forall|j: usize| !doomed(h2, frames, j) by {
        if h2.live(j as int) {
            assert(reachable(h, frames, j));
            let p = choose|p: Seq<usize>| #[trigger] is_path(h, frames, p) && p.last() == j;
            assert forall|k: int| 0 <= k < p.len() implies h2.live(p[k] as int) && h2.objects[p[k] as int] == h.objects[p[k] as int]
                && h2.array_refs[p[k] as int] == h.array_refs[p[k] as int] by {
                lemma_path_members_reachable(h, frames, p, k);
            }
            assert(is_root(h2, frames, p[0]));
            assert forall|k: int| #![trigger p[k + 1]] 0 <= k < p.len() - 1 implies points_to(h2, p[k], p[k + 1]) && h2.live(p[k + 1] as int) by {
                assert(points_to(h, p[k], p[k + 1]));
                assert(h2.live(p[k] as int) && h2.objects[p[k] as int] == h.objects[p[k] as int]
                    && h2.array_refs[p[k] as int] == h.array_refs[p[k] as int]);
                assert(h2.live(p[k + 1] as int));
            }
            assert(is_path(h2, frames, p));
        }
    }
    lemma_nothing_doomed(h2, frames, h2.objects.len());
    let h3 = after_gc(h2, frames);
    assert(h3.objects =~= h2.objects);
    assert(h3.free_list =~= h2.free_list);
    assert(h3.array_data =~= h2.array_data);
    assert(h3.array_refs =~= h2.array_refs);
}

/// The doomed slots below `n` come in ascending order, so none repeats.
proof fn lemma_doomed_below_ascending(h: HeapV, frames: Seq<FrameV>, n: nat)
    requires
        n <= usize::MAX,
    ensures
        forall|a: int, b: int|
            0 <= a < b < doomed_below(h, frames, n).len() ==> #[trigger] doomed_below(h, frames, n)[a]
                < #[trigger] doomed_below(h, frames, n)[b],
    decreases n,
{
    if n > 0 {
        lemma_doomed_below_ascending(h, frames, (n - 1) as nat);
        lemma_doomed_below_bounds(h, frames, (n - 1) as nat);
        let prev = doomed_below(h, frames, (n - 1) as nat);
        let d = doomed_below(h, frames, n);
        assert forall|a: int, b: int| 0 <= a < b < d.len() implies #[trigger] d[a] < #[trigger] d[b] by {
            assert(d[a] == prev[a]);
            if b < prev.len() {
                assert(d[b] == prev[b]);
            } else {
                assert(d[b] == (n - 1) as usize);
                assert((prev[a] as int) < n - 1);
            }
        }
    }
}

/// A collection keeps the free list sound: the freed slots were live, so
/// they were not on it, and each is added once.
pub proof fn lemma_gc_keeps_free_list_sound(h: HeapV, frames: Seq<FrameV>)
    requires
        h.wf(),
        h.free_list_sound(),
    ensures
        after_gc(h, frames).free_list_sound(),
{
    let a = after_gc(h, frames);
    let d = doomed_below(h, frames, h.objects.len());
    lemma_doomed_below_bounds(h, frames, h.objects.len());
    lemma_doomed_below_ascending(h, frames, h.objects.len());
    assert forall|i: int| 0 <= i < a.free_list.len() implies !a.live(#[trigger] a.free_list[i] as int) by {
        if i < h.free_list.len() {
            assert(a.free_list[i] == h.free_list[i]);
        } else {
            assert(a.free_list[i] == d[i - h.free_list.len()]);
        }
    }
    assert forall|x: int, y: int| 0 <= x < y < a.free_list.len() implies #[trigger] a.free_list[x] != #[trigger] a.free_list[y] by {
        if y < h.free_list.len() {
            assert(a.free_list[x] == h.free_list[x] && a.free_list[y] == h.free_list[y]);
        } else if x < h.free_list.len() {
            assert(a.free_list[x] == h.free_list[x]);
            assert(a.free_list[y] == d[y - h.free_list.len()]);
            assert(doomed(h, frames, d[y - h.free_list.len()]));
        } else {
            assert(a.free_list[x] == d[x - h.free_list.len()] && a.free_list[y] == d[y - h.free_list.len()]);
        }
    }
}

} // verus!
