use vstd::prelude::*;
use vstd::string::StringExecFns;

use crate::instruction::Instruction;
use crate::value::Value;
use crate::run::{field_set, fields_view, first_pair, lemma_fields_view, lemma_first_pair_unique};

verus! {

/// The root object kept in slot 0 of every pool; its children are the
/// permanently reachable handles.
pub struct StaticRoot {
    pub children: Vec<usize>,
}

impl StaticRoot {
    pub fn new() -> (r: StaticRoot)
        ensures
            r.children@ == Seq::<usize>::empty(),
    {
        StaticRoot { children: Vec::new() }
    }

    /// Records `id` as permanently reachable.
    pub fn append_child(&mut self, id: usize)
        ensures
            final(self).children@ == old(self).children@.push(id),
    {
        self.children.push(id);
    }

    /// The permanently reachable handles, in the order they were added.
    pub fn get_children(&self) -> (r: Vec<usize>)
        ensures
            r@ == self.children@,
    {
        let mut r: Vec<usize> = Vec::new();
        let mut k: usize = 0;
        while k < self.children.len()
            invariant
                k <= self.children@.len(),
                r@ == self.children@.take(k as int),
            decreases self.children@.len() - k,
        {
            r.push(self.children[k]);
            k = k + 1;
            assert(r@ =~= self.children@.take(k as int));
        }
        assert(r@ =~= self.children@);
        r
    }
}

/// A function made of bytecode.
pub struct VirtualFunction {
    pub code: Vec<Instruction>,
    pub argc: usize,
}

/// A function provided by the host, known to the machine by its id.
pub struct NativeFunction(pub usize);

/// A callable object: bytecode, or a host callback.
pub enum Function {
    Virtual(VirtualFunction),
    Native(NativeFunction),
}

impl Function {
    /// A bytecode function taking `args` arguments besides its receiver.
    pub fn from_instructions(code: Vec<Instruction>, args: usize) -> (r: Function)
        ensures
            r matches Function::Virtual(vf) && vf.code@ == code@ && vf.argc == args,
    {
        Function::Virtual(VirtualFunction { code, argc: args })
    }

    /// A host function; the host's `call_native` receives `id` when it is called.
    pub fn from_native(id: usize) -> (r: Function)
        ensures
            r == Function::Native(NativeFunction(id)),
    {
        Function::Native(NativeFunction(id))
    }
}

/// One field of a class: its name and its value.
pub struct Field {
    pub name: String,
    pub value: Value,
}

/// Whether `i` is the first position of `fs` whose name is `k`.
pub open spec fn is_first_key(fs: Seq<Field>, k: Seq<char>, i: int) -> bool {
    &&& 0 <= i < fs.len()
    &&& fs[i].name@ == k
    &&& forall|j: int| 0 <= j < i ==> fs[j].name@ != k
}

/// The value of the field named `k`: the first field of that name.
pub open spec fn field_value(fs: Seq<Field>, k: Seq<char>) -> Option<Value> {
    if exists|i: int| is_first_key(fs, k, i) {
        Some(fs[choose|i: int| is_first_key(fs, k, i)].value)
    } else {
        None
    }
}

proof fn lemma_first_key_unique(fs: Seq<Field>, k: Seq<char>, i: int, j: int)
    requires
        is_first_key(fs, k, i),
        is_first_key(fs, k, j),
    ensures
        i == j,
{
    if i < j {
        assert(fs[i].name@ != k);
    } else if j < i {
        assert(fs[j].name@ != k);
    }
}

proof fn lemma_field_value_at(fs: Seq<Field>, k: Seq<char>, i: int)
    requires
        is_first_key(fs, k, i),
    ensures
        field_value(fs, k) == Some(fs[i].value),
{
    let c = choose|c: int| is_first_key(fs, k, c);
    lemma_first_key_unique(fs, k, i, c);
}

proof fn lemma_field_value_absent(fs: Seq<Field>, k: Seq<char>)
    requires
        forall|j: int| 0 <= j < fs.len() ==> fs[j].name@ != k,
    ensures
        field_value(fs, k) == None::<Value>,
{
}

proof fn lemma_same_names(a: Seq<Field>, b: Seq<Field>, k: Seq<char>, j: int)
    requires
        a.len() == b.len(),
        forall|m: int| 0 <= m < a.len() ==> #[trigger] b[m].name@ == a[m].name@,
        is_first_key(a, k, j),
    ensures
        is_first_key(b, k, j),
{
    assert forall|m: int| 0 <= m < j implies b[m].name@ != k by {
        assert(b[m].name@ == a[m].name@);
    }
    assert(b[j].name@ == a[j].name@);
}

/// A user class: a name, named fields, and whether its initializer has run.
pub struct Class {
    pub name: String,
    pub fields: Vec<Field>,
    pub initialized: bool,
}

impl Class {
    pub fn new() -> (r: Class)
        ensures
            r.name@ == "<uninitialized>"@,
            r.fields@ == Seq::<Field>::empty(),
            !r.initialized,
    {
        Class { name: String::from_str("<uninitialized>"), fields: Vec::new(), initialized: false }
    }

    /// The value of the field named `key`.
    pub open spec fn field(&self, key: Seq<char>) -> Option<Value> {
        field_value(self.fields@, key)
    }

    /// Position of the field named `key`, if there is one.
    fn position(&self, key: &str) -> (r: Option<usize>)
        ensures
            match r {
                Some(i) => is_first_key(self.fields@, key@, i as int),
                None => forall|j: int| 0 <= j < self.fields@.len() ==> self.fields@[j].name@ != key@,
            },
    {
        let wanted = String::from_str(key);
        let mut k: usize = 0;
        while k < self.fields.len()
            invariant
                k <= self.fields@.len(),
                wanted@ == key@,
                forall|j: int| 0 <= j < k ==> self.fields@[j].name@ != key@,
            decreases self.fields@.len() - k,
        {
            if self.fields[k].name == wanted {
                return Some(k);
            }
            k = k + 1;
        }
        None
    }

    /// Reads the field named `key`.
    pub fn get_field(&self, key: &str) -> (r: Option<Value>)
        ensures
            r == self.field(key@),
    {
        match self.position(key) {
            Some(i) => {
                proof {
                    lemma_field_value_at(self.fields@, key@, i as int);
                }
                Some(self.fields[i].value)
            },
            None => {
                proof {
                    lemma_field_value_absent(self.fields@, key@);
                }
                None
            },
        }
    }

    /// Inserts or overwrites the field named `key`.
    pub fn set_field(&mut self, key: &str, v: Value)
        ensures
            final(self).field(key@) == Some(v),
            forall|k: Seq<char>| k != key@ ==> #[trigger] final(self).field(k) == old(self).field(k),
            fields_view(final(self).fields@) == field_set(fields_view(old(self).fields@), key@, v),
            final(self).name == old(self).name,
            final(self).initialized == old(self).initialized,
    {
        let ghost before = self.fields@;
        match self.position(key) {
            Some(i) => {
                self.fields[i].value = v;
                proof {
                    let after = self.fields@;
                    assert forall|m: int| 0 <= m < after.len() implies #[trigger] after[m].name@
                        == before[m].name@ by {
                        if m == i as int {
                        }
                    }
                    assert(is_first_key(after, key@, i as int)) by {
                        lemma_same_names(before, after, key@, i as int);
                    }
                    lemma_fields_view(before);
                    assert(first_pair(fields_view(before), key@, i as int));
                    let w = choose|w: int| first_pair(fields_view(before), key@, w);
                    lemma_first_pair_unique(fields_view(before), key@, i as int, w);
                    assert(fields_view(after) =~= field_set(fields_view(before), key@, v));
                    lemma_field_value_at(after, key@, i as int);
                    assert forall|k: Seq<char>| k != key@ implies #[trigger] field_value(after, k)
                        == field_value(before, k) by {
                        if exists|j: int| is_first_key(before, k, j) {
                            let j = choose|j: int| is_first_key(before, k, j);
                            lemma_same_names(before, after, k, j);
                            lemma_field_value_at(before, k, j);
                            lemma_field_value_at(after, k, j);
                        } else if exists|j: int| is_first_key(after, k, j) {
                            let j = choose|j: int| is_first_key(after, k, j);
                            lemma_same_names(after, before, k, j);
                        }
                    }
                }
            },
            None => {
                self.fields.push(Field { name: String::from_str(key), value: v });
                proof {
                    let after = self.fields@;
                    let n = before.len() as int;
                    lemma_fields_view(before);
                    assert(!exists|w: int| first_pair(fields_view(before), key@, w));
                    assert(fields_view(after) =~= field_set(fields_view(before), key@, v));
                    assert(is_first_key(after, key@, n));
                    lemma_field_value_at(after, key@, n);
                    assert forall|k: Seq<char>| k != key@ implies #[trigger] field_value(after, k)
                        == field_value(before, k) by {
                        if exists|j: int| is_first_key(before, k, j) {
                            let j = choose|j: int| is_first_key(before, k, j);
                            assert(is_first_key(after, k, j));
                            lemma_field_value_at(before, k, j);
                            lemma_field_value_at(after, k, j);
                        } else if exists|j: int| is_first_key(after, k, j) {
                            let j = choose|j: int| is_first_key(after, k, j);
                            assert(j != n);
                            assert forall|m: int| 0 <= m < j implies before[m].name@ != k by {
                                assert(after[m] == before[m]);
                            }
                            assert(after[j] == before[j]);
                            assert(is_first_key(before, k, j));
                        }
                    }
                }
            },
        }
    }

    /// A copy of the class: same name, flag and fields.
    pub fn duplicate(&self) -> (r: Class)
        ensures
            r.name == self.name,
            r.initialized == self.initialized,
            r.fields@ == self.fields@,
    {
        let mut fields: Vec<Field> = Vec::new();
        let mut k: usize = 0;
        while k < self.fields.len()
            invariant
                k <= self.fields@.len(),
                fields@ == self.fields@.take(k as int),
            decreases self.fields@.len() - k,
        {
            fields.push(Field { name: self.fields[k].name.clone(), value: self.fields[k].value });
            k = k + 1;
            assert(fields@ =~= self.fields@.take(k as int));
        }
        assert(fields@ =~= self.fields@);
        Class { name: self.name.clone(), fields, initialized: self.initialized }
    }
}

/// An ordered sequence of values.
pub struct Array {
    pub elements: Vec<Value>,
}

impl Array {
    pub fn new() -> (r: Array)
        ensures
            r.elements@ == Seq::<Value>::empty(),
    {
        Array { elements: Vec::new() }
    }

    pub fn push(&mut self, v: Value)
        ensures
            final(self).elements@ == old(self).elements@.push(v),
    {
        self.elements.push(v);
    }

    /// Removes and returns the last element; null when the array is empty.
    pub fn pop(&mut self) -> (r: Value)
        ensures
            old(self).elements@.len() == 0 ==> r == Value::Null && final(self).elements@ == old(self).elements@,
            old(self).elements@.len() > 0 ==> r == old(self).elements@.last()
                && final(self).elements@ == old(self).elements@.drop_last(),
    {
        match self.elements.pop() {
            Some(v) => v,
            None => Value::Null,
        }
    }

    /// The element at `idx`, if `idx` is in range.
    pub fn get(&self, idx: usize) -> (r: Option<Value>)
        ensures
            r == (if idx < self.elements@.len() { Some(self.elements@[idx as int]) } else { None }),
    {
        if idx < self.elements.len() {
            Some(self.elements[idx])
        } else {
            None
        }
    }

    /// Overwrites the element at `idx`; returns whether `idx` was in range.
    pub fn set(&mut self, idx: usize, v: Value) -> (r: bool)
        ensures
            r == (idx < old(self).elements@.len()),
            r ==> final(self).elements@ == old(self).elements@.update(idx as int, v),
            !r ==> *final(self) == *old(self),
    {
        if idx < self.elements.len() {
            self.elements.set(idx, v);
            true
        } else {
            false
        }
    }

    pub fn len(&self) -> (r: usize)
        ensures
            r == self.elements@.len(),
    {
        self.elements.len()
    }
}

/// Anything that lives in the object pool.
pub enum Object {
    Root(StaticRoot),
    Text(String),
    Function(Function),
    Class(Class),
    Array(Array),
    /// An object implemented by the host, known to the machine by its id.
    Host(usize),
}

pub open spec fn typename_spec(o: &Object) -> Seq<char> {
    match o {
        Object::Text(_) => "String"@,
        Object::Function(_) => "Func"@,
        Object::Class(c) => c.name@,
        Object::Array(_) => "Array"@,
        _ => "Object"@,
    }
}

impl Object {
    /// The name of the object's type, as `Isa` compares it.
    pub fn typename(&self) -> (r: String)
        ensures
            r@ == typename_spec(self),
    {
        match self {
            Object::Text(_) => String::from_str("String"),
            Object::Function(_) => String::from_str("Func"),
            Object::Class(c) => c.name.clone(),
            Object::Array(_) => String::from_str("Array"),
            _ => String::from_str("Object"),
        }
    }

    /// The handles the object keeps reachable.
    pub fn get_children(&self) -> (r: Vec<usize>)
        ensures
            self matches Object::Root(root) ==> r@ == root.children@,
            !(self is Root) ==> r@.len() == 0,
    {
        match self {
            Object::Root(root) => root.get_children(),
            _ => Vec::new(),
        }
    }
}

} // verus!
