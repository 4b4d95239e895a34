use vstd::prelude::*;

verus! {

/// A value stored in an entity field.
#[derive(Debug)]
pub enum StoreValue {
    String(String),
    Int(i32),
    Bool(bool),
    Bytes(Vec<u8>),
    BigInt(Vec<u8>),
    Null,
}

/// What a `StoreValue` holds.
pub enum ValueView {
    String(Seq<char>),
    Int(i32),
    Bool(bool),
    Bytes(Seq<u8>),
    BigInt(Seq<u8>),
    Null,
}

impl View for StoreValue {
    type V = ValueView;

    open spec fn view(&self) -> ValueView {
        match self {
            StoreValue::String(s) => ValueView::String(s@),
            StoreValue::Int(i) => ValueView::Int(*i),
            StoreValue::Bool(b) => ValueView::Bool(*b),
            StoreValue::Bytes(b) => ValueView::Bytes(b@),
            StoreValue::BigInt(b) => ValueView::BigInt(b@),
            StoreValue::Null => ValueView::Null,
        }
    }
}

/// A copy of a byte vector.
pub fn copy_bytes(b: &Vec<u8>) -> (r: Vec<u8>)
    ensures
        r@ == b@,
{
    let mut out: Vec<u8> = Vec::new();
    let mut i: usize = 0;
    while i < b.len()
        invariant
            0 <= i <= b@.len(),
            out@ == b@.subrange(0, i as int),
        decreases b@.len() - i,
    {
        out.push(b[i]);
        assert(out@ =~= b@.subrange(0, i + 1));
        i = i + 1;
    }
    assert(out@ =~= b@);
    out
}

/// Whether two byte vectors hold the same bytes.
pub fn same_bytes(a: &Vec<u8>, b: &Vec<u8>) -> (r: bool)
    ensures
        r == (a@ == b@),
{
    if a.len() != b.len() {
        return false;
    }
    let mut i: usize = 0;
    while i < a.len()
        invariant
            0 <= i <= a@.len(),
            a@.len() == b@.len(),
            a@.subrange(0, i as int) == b@.subrange(0, i as int),
        decreases a@.len() - i,
    {
        if a[i] != b[i] {
            assert(a@[i as int] != b@[i as int]);
            return false;
        }
        assert(a@.subrange(0, i + 1) =~= a@.subrange(0, i as int).push(a@[i as int]));
        assert(b@.subrange(0, i + 1) =~= b@.subrange(0, i as int).push(b@[i as int]));
        i = i + 1;
    }
    assert(a@ =~= a@.subrange(0, i as int));
    assert(b@ =~= b@.subrange(0, i as int));
    true
}

impl StoreValue {
    /// Whether both values hold the same thing.
    pub fn same(&self, o: &StoreValue) -> (r: bool)
        ensures
            r == (self@ == o@),
    {
        match (self, o) {
            (StoreValue::String(a), StoreValue::String(b)) => *a == *b,
            (StoreValue::Int(a), StoreValue::Int(b)) => *a == *b,
            (StoreValue::Bool(a), StoreValue::Bool(b)) => *a == *b,
            (StoreValue::Bytes(a), StoreValue::Bytes(b)) => same_bytes(a, b),
            (StoreValue::BigInt(a), StoreValue::BigInt(b)) => same_bytes(a, b),
            (StoreValue::Null, StoreValue::Null) => true,
            _ => false,
        }
    }

    /// A copy of the value.
    pub fn duplicate(&self) -> (r: StoreValue)
        ensures
            r@ == self@,
    {
        match self {
            StoreValue::String(s) => StoreValue::String(s.clone()),
            StoreValue::Int(i) => StoreValue::Int(*i),
            StoreValue::Bool(b) => StoreValue::Bool(*b),
            StoreValue::Bytes(b) => StoreValue::Bytes(copy_bytes(b)),
            StoreValue::BigInt(b) => StoreValue::BigInt(copy_bytes(b)),
            StoreValue::Null => StoreValue::Null,
        }
    }
}

/// A named field of an entity.
#[derive(Debug)]
pub struct Field {
    pub name: String,
    pub value: StoreValue,
}

/// An entity: its fields, in order.
#[derive(Debug)]
pub struct Entity {
    pub fields: Vec<Field>,
}

/// What a field holds.
pub open spec fn field_view(f: Field) -> (Seq<char>, ValueView) {
    (f.name@, f.value@)
}

impl View for Entity {
    type V = Seq<(Seq<char>, ValueView)>;

    open spec fn view(&self) -> Seq<(Seq<char>, ValueView)> {
        self.fields@.map_values(|f: Field| field_view(f))
    }
}

impl Entity {
    /// An entity without fields.
    pub fn new() -> (r: Entity)
        ensures
            r@ == Seq::<(Seq<char>, ValueView)>::empty(),
    {
        let r = Entity { fields: Vec::new() };
        assert(r@ =~= Seq::<(Seq<char>, ValueView)>::empty());
        r
    }

    /// Adds a field at the end.
    pub fn push(&mut self, name: String, value: StoreValue)
        ensures
            final(self)@ == old(self)@.push((name@, value@)),
    {
        self.fields.push(Field { name, value });
        assert(final(self)@ =~= old(self)@.push((name@, value@)));
    }

    /// Whether both entities hold the same fields in the same order.
    pub fn same(&self, o: &Entity) -> (r: bool)
        ensures
            r == (self@ == o@),
    {
        if self.fields.len() != o.fields.len() {
            assert(self@.len() != o@.len());
            return false;
        }
        let mut i: usize = 0;
        while i < self.fields.len()
            invariant
                0 <= i <= self@.len(),
                self.fields@.len() == o.fields@.len(),
                self@.subrange(0, i as int) == o@.subrange(0, i as int),
            decreases self@.len() - i,
        {
            let a = &self.fields[i];
            let b = &o.fields[i];
            if !(a.name == b.name) || !a.value.same(&b.value) {
                assert(self@[i as int] != o@[i as int]);
                return false;
            }
            assert(self@.subrange(0, i + 1) =~= self@.subrange(0, i as int).push(self@[i as int]));
            assert(o@.subrange(0, i + 1) =~= o@.subrange(0, i as int).push(o@[i as int]));
            i = i + 1;
        }
        assert(self@ =~= self@.subrange(0, i as int));
        assert(o@ =~= o@.subrange(0, i as int));
        true
    }

    /// A copy of the entity.
    pub fn duplicate(&self) -> (r: Entity)
        ensures
            r@ == self@,
    {
        let mut out = Entity::new();
        let mut i: usize = 0;
        while i < self.fields.len()
            invariant
                0 <= i <= self@.len(),
                out@ == self@.subrange(0, i as int),
            decreases self@.len() - i,
        {
            let f = &self.fields[i];
            out.push(f.name.clone(), f.value.duplicate());
            assert(out@ =~= self@.subrange(0, i + 1));
            i = i + 1;
        }
        assert(out@ =~= self@);
        out
    }
}

} // verus!
