use vstd::prelude::*;

use crate::object::{Array, Class, Function, Object, StaticRoot};
use crate::value::Value;
use crate::run::{marked, obj_view, slots_view, stored_element, stored_field};

verus! {

/// Types that can be read back out of a pool slot.
pub trait Resident: Sized {
    /// The value of this type that `o` holds, if it holds one.
    spec fn resident_of(o: Object) -> Option<Self>;

    fn downcast(o: &Object) -> (r: Option<&Self>)
        ensures
            match r {
                Some(x) => Self::resident_of(*o) == Some(*x),
                None => Self::resident_of(*o) is None,
            };
}

impl Resident for StaticRoot {
    open spec fn resident_of(o: Object) -> Option<StaticRoot> {
        match o {
            Object::Root(x) => Some(x),
            _ => None,
        }
    }

    fn downcast(o: &Object) -> (r: Option<&StaticRoot>) {
        match o {
            Object::Root(x) => Some(x),
            _ => None,
        }
    }
}

impl Resident for String {
    open spec fn resident_of(o: Object) -> Option<String> {
        match o {
            Object::Text(x) => Some(x),
            _ => None,
        }
    }

    fn downcast(o: &Object) -> (r: Option<&String>) {
        match o {
            Object::Text(x) => Some(x),
            _ => None,
        }
    }
}

impl Resident for Function {
    open spec fn resident_of(o: Object) -> Option<Function> {
        match o {
            Object::Function(x) => Some(x),
            _ => None,
        }
    }

    fn downcast(o: &Object) -> (r: Option<&Function>) {
        match o {
            Object::Function(x) => Some(x),
            _ => None,
        }
    }
}

impl Resident for Class {
    open spec fn resident_of(o: Object) -> Option<Class> {
        match o {
            Object::Class(x) => Some(x),
            _ => None,
        }
    }

    fn downcast(o: &Object) -> (r: Option<&Class>) {
        match o {
            Object::Class(x) => Some(x),
            _ => None,
        }
    }
}

impl Resident for Array {
    open spec fn resident_of(o: Object) -> Option<Array> {
        match o {
            Object::Array(x) => Some(x),
            _ => None,
        }
    }

    fn downcast(o: &Object) -> (r: Option<&Array>) {
        match o {
            Object::Array(x) => Some(x),
            _ => None,
        }
    }
}

/// Whether `slots` is `old` with `o` placed at handle `h`, where `h` was an
/// empty slot or one past the end, and every other slot is kept.
pub open spec fn placed(old: Seq<Option<Object>>, slots: Seq<Option<Object>>, o: Object, h: int) -> bool {
    &&& 0 <= h <= old.len()
    &&& (h < old.len() ==> old[h] is None && slots == old.update(h, Some(o)))
    &&& (h == old.len() ==> slots == old.push(Some(o)))
}

/// The heap: a growable table of optional slots addressed by integer handles.
///
/// A new pool holds the static root in slot 0. Freed handles are kept and handed
/// out again before the table grows.
pub struct ObjectPool {
    objects: Vec<Option<Object>>,
    free: Vec<usize>,
    alloc_count: usize,
}

impl ObjectPool {
    /// The slots of the pool, by handle.
    pub closed spec fn slots(&self) -> Seq<Option<Object>> {
        self.objects@
    }

    /// The freed handles, the most recently freed last.
    pub closed spec fn freed(&self) -> Seq<usize> {
        self.free@
    }

    /// Number of allocations since creation or the last reset.
    pub closed spec fn count(&self) -> usize {
        self.alloc_count
    }

    /// Whether every freed handle names an empty slot,
    /// and no handle is freed twice.
    pub closed spec fn wf(&self) -> bool {
        &&& forall|k: int|
            0 <= k < self.free@.len() ==> #[trigger] self.free@[k] < self.objects@.len()
                && self.objects@[self.free@[k] as int] is None
        &&& forall|a: int, b: int|
            0 <= a < b < self.free@.len() ==> #[trigger] self.free@[a] != #[trigger] self.free@[b]
    }

    /// Whether `h` names an empty slot.
    pub open spec fn reusable(&self, h: usize) -> bool {
        h < self.slots().len() && self.slots()[h as int] is None
    }

    /// Whether `h` names an occupied slot.
    pub open spec fn occupied(&self, h: usize) -> bool {
        h < self.slots().len() && self.slots()[h as int] is Some
    }

    /// A pool holding only an empty static root.
    pub fn new() -> (r: ObjectPool)
        ensures
            r.slots().len() == 1,
            r.slots()[0] matches Some(Object::Root(root)) && root.children@.len() == 0,
            r.freed().len() == 0,
            r.count() == 0,
            r.wf(),
    {
        let root = StaticRoot::new();
        ObjectPool { objects: vec![Some(Object::Root(root))], free: Vec::new(), alloc_count: 0 }
    }

    /// Pins `inner` to the pool and returns its handle.
    ///
    /// The most recently freed handle is reused when it still names an empty
    /// slot; otherwise the table grows by one slot.
    pub fn allocate(&mut self, inner: Object) -> (h: usize)
        requires
            old(self).slots().len() < usize::MAX,
        ensures
            placed(old(self).slots(), final(self).slots(), inner, h as int),
            old(self).freed().len() > 0 && old(self).reusable(old(self).freed().last()) ==> h
                == old(self).freed().last(),
            old(self).freed().len() > 0 ==> final(self).freed() == old(self).freed().drop_last(),
            old(self).freed().len() == 0 ==> h == old(self).slots().len()
                && final(self).freed() == old(self).freed(),
            h == crate::run::alloc_handle(old(self).slots(), old(self).freed()),
            (final(self).slots(), final(self).freed()) == crate::laws::apply_op(
                old(self).slots(),
                old(self).freed(),
                crate::laws::PoolOp::Allocate(inner),
            ),
            h == crate::run::alloc_handle(slots_view(old(self).slots()), old(self).freed()),
            crate::run::reuses(slots_view(old(self).slots()), old(self).freed()) ==> slots_view(final(self).slots())
                == slots_view(old(self).slots()).update(h as int, Some(obj_view(inner))),
            !crate::run::reuses(slots_view(old(self).slots()), old(self).freed()) ==> slots_view(final(self).slots())
                == slots_view(old(self).slots()).push(Some(obj_view(inner))),
            old(self).wf() ==> final(self).wf(),
            old(self).wf() && old(self).freed().len() > 0 ==> h == old(self).freed().last()
                && old(self).reusable(old(self).freed().last()),
            crate::run::reuses(old(self).slots(), old(self).freed()) ==> final(self).slots() == old(self).slots().update(
                h as int,
                Some(inner),
            ),
            !crate::run::reuses(old(self).slots(), old(self).freed()) ==> final(self).slots() == old(self).slots().push(
                Some(inner),
            ),
            final(self).count() == old(self).count().wrapping_add(1),
    {
        let n = self.objects.len();
        proof {
            if old(self).wf() && old(self).free@.len() > 0 {
                let last = old(self).free@.len() - 1;
                assert(old(self).free@[last] < old(self).objects@.len());
                assert(forall|k: int| 0 <= k < last ==> old(self).free@[k] != old(self).free@[last]);
            }
        }
        let h = match self.free.pop() {
            Some(id) if id < n && self.objects[id].is_none() => {
                self.objects.set(id, Some(inner));
                id
            },
            _ => {
                self.objects.push(Some(inner));
                n
            },
        };
        self.alloc_count = self.alloc_count.wrapping_add(1);
        proof {
            crate::run::lemma_reuses_view(old(self).objects@, old(self).free@);
            if crate::run::reuses(old(self).objects@, old(self).free@) {
                crate::run::lemma_slots_update(old(self).objects@, h as int, Some(inner));
            } else {
                crate::run::lemma_slots_push(old(self).objects@, Some(inner));
            }
        }
        h
    }

    /// Empties the occupied slot `h` and records `h` for reuse.
    pub fn deallocate(&mut self, h: usize)
        requires
            old(self).occupied(h),
        ensures
            final(self).slots() == old(self).slots().update(h as int, None),
            final(self).freed() == old(self).freed().push(h),
            final(self).count() == old(self).count(),
            old(self).wf() ==> final(self).wf(),
            (final(self).slots(), final(self).freed()) == crate::laws::apply_op(
                old(self).slots(),
                old(self).freed(),
                crate::laws::PoolOp::Deallocate(h),
            ),
    {
        self.objects.set(h, None);
        self.free.push(h);
    }

    /// Number of slots, occupied or not.
    pub fn size(&self) -> (r: usize)
        ensures
            r == self.slots().len(),
    {
        self.objects.len()
    }

    /// Whether `h` names an occupied slot.
    pub fn is_occupied(&self, h: usize) -> (r: bool)
        ensures
            r == self.occupied(h),
    {
        h < self.objects.len() && self.objects[h].is_some()
    }

    /// The object at the occupied slot `h`.
    pub fn get(&self, h: usize) -> (r: &Object)
        requires
            self.occupied(h),
        ensures
            self.slots()[h as int] == Some(*r),
    {
        self.objects[h].as_ref().unwrap()
    }

    /// The object at slot `h` read as a `T`; `None` when the slot is empty or
    /// holds something else.
    pub fn get_typed<T: Resident>(&self, h: usize) -> (r: Option<&T>)
        ensures
            match r {
                Some(x) => self.occupied(h) && T::resident_of(self.slots()[h as int].unwrap()) == Some(*x),
                None => !self.occupied(h) || T::resident_of(self.slots()[h as int].unwrap()) is None,
            },
    {
        if h < self.objects.len() {
            match &self.objects[h] {
                Some(o) => T::downcast(o),
                None => None,
            }
        } else {
            None
        }
    }

    /// Same as `get_typed`: handles and references coincide in this pool.
    pub fn get_direct_typed<T: Resident>(&self, h: usize) -> (r: Option<&T>)
        ensures
            match r {
                Some(x) => self.occupied(h) && T::resident_of(self.slots()[h as int].unwrap()) == Some(*x),
                None => !self.occupied(h) || T::resident_of(self.slots()[h as int].unwrap()) is None,
            },
    {
        self.get_typed(h)
    }

    /// The object at slot `h`, which must hold a `T`.
    pub fn must_get_typed<T: Resident>(&self, h: usize) -> (r: &T)
        requires
            self.occupied(h),
            T::resident_of(self.slots()[h as int].unwrap()) is Some,
        ensures
            T::resident_of(self.slots()[h as int].unwrap()) == Some(*r),
    {
        self.get_typed(h).unwrap()
    }

    /// Same as `must_get_typed`.
    pub fn must_get_direct_typed<T: Resident>(&self, h: usize) -> (r: &T)
        requires
            self.occupied(h),
            T::resident_of(self.slots()[h as int].unwrap()) is Some,
        ensures
            T::resident_of(self.slots()[h as int].unwrap()) == Some(*r),
    {
        self.must_get_typed(h)
    }

    /// The static root in slot 0.
    pub fn get_static_root(&self) -> (r: &StaticRoot)
        requires
            self.slots().len() > 0,
            self.slots()[0] is Some && self.slots()[0].unwrap() is Root,
        ensures
            self.slots()[0] == Some(Object::Root(*r)),
    {
        match &self.objects[0] {
            Some(Object::Root(root)) => root,
            _ => {
                proof {
                    assert(false);
                }
                unreached()
            },
        }
    }

    /// Same as `get_static_root`.
    pub fn get_direct_static_root(&self) -> (r: &StaticRoot)
        requires
            self.slots().len() > 0,
            self.slots()[0] is Some && self.slots()[0].unwrap() is Root,
        ensures
            self.slots()[0] == Some(Object::Root(*r)),
    {
        self.get_static_root()
    }

    /// Number of allocations since creation or the last reset.
    pub fn get_alloc_count(&self) -> (r: usize)
        ensures
            r == self.count(),
    {
        self.alloc_count
    }

    pub fn reset_alloc_count(&mut self)
        ensures
            old(self).wf() ==> final(self).wf(),
            final(self).count() == 0,
            final(self).slots() == old(self).slots(),
            final(self).freed() == old(self).freed(),
    {
        self.alloc_count = 0;
    }

    /// Stores `v` in the field `key` of the class at `h`; false, with nothing
    /// changed, when `h` does not hold a class.
    pub fn store_field(&mut self, h: usize, key: &str, v: Value) -> (r: bool)
        ensures
            r ==> slots_view(final(self).slots()) == stored_field(slots_view(old(self).slots()), h, key@, v),
            old(self).wf() ==> final(self).wf(),
            r == (old(self).occupied(h) && old(self).slots()[h as int].unwrap() is Class),
            r ==> class_changed(old(self).slots(), final(self).slots(), h as int, key@, v),
            !r ==> final(self).slots() == old(self).slots(),
            final(self).freed() == old(self).freed(),
            final(self).count() == old(self).count(),
    {
        if h < self.objects.len() {
            match &mut self.objects[h] {
                Some(Object::Class(c)) => {
                    c.set_field(key, v);
                    proof {
                        assert(slots_view(self.objects@) =~= stored_field(slots_view(old(self).objects@), h, key@, v));
                    }
                    true
                },
                _ => false,
            }
        } else {
            false
        }
    }

    /// Marks the class at `h` as initialized; false, with nothing changed,
    /// when `h` does not hold a class.
    pub fn mark_initialized(&mut self, h: usize) -> (r: bool)
        ensures
            old(self).wf() ==> final(self).wf(),
            r == (old(self).occupied(h) && old(self).slots()[h as int].unwrap() is Class),
            r ==> class_marked(old(self).slots(), final(self).slots(), h as int),
            !r ==> final(self).slots() == old(self).slots(),
            slots_view(final(self).slots()) == marked(slots_view(old(self).slots()), h),
            final(self).freed() == old(self).freed(),
            final(self).count() == old(self).count(),
    {
        if h < self.objects.len() {
            match &mut self.objects[h] {
                Some(Object::Class(c)) => {
                    c.initialized = true;
                    proof {
                        assert(slots_view(self.objects@) =~= marked(slots_view(old(self).objects@), h));
                    }
                    true
                },
                _ => false,
            }
        } else {
            false
        }
    }

    /// Overwrites element `idx` of the array at `h`; `None` when `h` does not
    /// hold an array, else whether `idx` was in range.
    pub fn store_element(&mut self, h: usize, idx: usize, v: Value) -> (r: Option<bool>)
        ensures
            r == Some(true) ==> slots_view(final(self).slots()) == stored_element(slots_view(old(self).slots()), h, idx as int, v),
            old(self).wf() ==> final(self).wf(),
            r is Some == (old(self).occupied(h) && old(self).slots()[h as int].unwrap() is Array),
            r == Some(true) ==> array_changed(old(self).slots(), final(self).slots(), h as int, idx as int, v),
            r is Some ==> (r == Some(true) <==> idx < old(self).slots()[h as int].unwrap()->Array_0.elements@.len()),
            r != Some(true) ==> final(self).slots() == old(self).slots(),
            final(self).freed() == old(self).freed(),
            final(self).count() == old(self).count(),
    {
        if h < self.objects.len() {
            match &mut self.objects[h] {
                Some(Object::Array(a)) => {
                    let done = a.set(idx, v);
                    proof {
                        if done {
                            assert(slots_view(self.objects@) =~= stored_element(slots_view(old(self).objects@), h, idx as int, v));
                        }
                    }
                    Some(done)
                },
                _ => None,
            }
        } else {
            None
        }
    }
}

/// Whether `slots` is `old` with the class at `h` marked initialized and
/// nothing else changed.
pub open spec fn class_marked(old: Seq<Option<Object>>, slots: Seq<Option<Object>>, h: int) -> bool {
    &&& 0 <= h < old.len()
    &&& slots.len() == old.len()
    &&& forall|i: int| 0 <= i < old.len() && i != h ==> slots[i] == old[i]
    &&& old[h] matches Some(Object::Class(c1))
    &&& slots[h] matches Some(Object::Class(c2))
    &&& c2.initialized
    &&& c2.fields == c1.fields
    &&& c2.name == c1.name
}

/// Whether `slots` is `old` with element `idx` of the array at `h` set to
/// `v` and nothing else changed.
pub open spec fn array_changed(old: Seq<Option<Object>>, slots: Seq<Option<Object>>, h: int, idx: int, v: Value) -> bool {
    &&& 0 <= h < old.len()
    &&& slots.len() == old.len()
    &&& forall|i: int| 0 <= i < old.len() && i != h ==> slots[i] == old[i]
    &&& old[h] matches Some(Object::Array(a1))
    &&& slots[h] matches Some(Object::Array(a2))
    &&& 0 <= idx < a1.elements@.len()
    &&& a2.elements@ == a1.elements@.update(idx, v)
}

/// Whether `slots` is `old` with the class at `h` given `v` in field `key`,
/// every other field, the name and the flag of that class kept, and every
/// other slot kept.
pub open spec fn class_changed(old: Seq<Option<Object>>, slots: Seq<Option<Object>>, h: int, key: Seq<char>, v: Value) -> bool {
    &&& 0 <= h < old.len()
    &&& slots.len() == old.len()
    &&& forall|i: int| 0 <= i < old.len() && i != h ==> slots[i] == old[i]
    &&& old[h] matches Some(Object::Class(c1))
    &&& slots[h] matches Some(Object::Class(c2))
    &&& c2.field(key) == Some(v)
    &&& forall|k: Seq<char>| k != key ==> #[trigger] c2.field(k) == c1.field(k)
    &&& c2.name == c1.name
    &&& c2.initialized == c1.initialized
}

} // verus!
