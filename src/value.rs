use vstd::prelude::*;

verus! {

/// A JSON value. Numbers are kept as their canonical decimal text; object
/// fields are kept in the order in which the mapping yields them.
#[derive(Debug, PartialEq)]
pub enum Value {
    Null,
    Bool(bool),
    Number(String),
    String(String),
    Array(Vec<Value>),
    Object(Vec<(String, Value)>),
}

/// The mathematical picture of a `Value`.
pub enum Tree {
    Null,
    Bool(bool),
    Number(Seq<char>),
    Str(Seq<char>),
    Array(Seq<Tree>),
    Object(Seq<(Seq<char>, Tree)>),
}

impl View for Value {
    type V = Tree;

    open spec fn view(&self) -> Tree
        decreases self,
    {
        match self {
            Value::Null => Tree::Null,
            Value::Bool(b) => Tree::Bool(*b),
            Value::Number(n) => Tree::Number(n@),
            Value::String(s) => Tree::Str(s@),
            Value::Array(items) => Tree::Array(
                Seq::new(
                    items@.len(),
                    |i: int|
                        if 0 <= i < items@.len() {
                            items@[i].view()
                        } else {
                            Tree::Null
                        },
                ),
            ),
            Value::Object(fields) => Tree::Object(
                Seq::new(
                    fields@.len(),
                    |i: int|
                        (
                            fields@[i].0@,
                            if 0 <= i < fields@.len() {
                                fields@[i].1.view()
                            } else {
                                Tree::Null
                            },
                        ),
                ),
            ),
        }
    }
}

/// No two fields share a name.
pub open spec fn keys_unique(fields: Seq<(Seq<char>, Tree)>) -> bool {
    forall|i: int, j: int| 0 <= i < j < fields.len() ==> #[trigger] fields[i].0 != #[trigger] fields[j].0
}

/// Every object in the tree, at any depth, has fields with distinct names.
pub open spec fn well_formed(t: Tree) -> bool
    decreases t,
{
    match t {
        Tree::Array(items) => forall|i: int| 0 <= i < items.len() ==> well_formed(#[trigger] items[i]),
        Tree::Object(fields) => keys_unique(fields) && forall|i: int|
            0 <= i < fields.len() ==> well_formed(#[trigger] fields[i].1),
        _ => true,
    }
}

/// Every tree of the sequence is well formed.
pub open spec fn all_well_formed(ts: Seq<Tree>) -> bool {
    forall|i: int| 0 <= i < ts.len() ==> well_formed(#[trigger] ts[i])
}

/// The pictures of a sequence of values, in order.
pub open spec fn trees(vs: Seq<Value>) -> Seq<Tree> {
    vs.map_values(|v: Value| v@)
}

/// The pictures of object fields, in order.
pub open spec fn field_trees(fs: Seq<(String, Value)>) -> Seq<(Seq<char>, Tree)> {
    fs.map_values(|f: (String, Value)| (f.0@, f.1@))
}

/// An array's picture is the array of its elements' pictures.
pub proof fn lemma_array_view(items: Vec<Value>)
    ensures
        Value::Array(items)@ == Tree::Array(trees(items@)),
{
    assert(Value::Array(items)@->Array_0 =~= trees(items@));
}

/// An object's picture is the object of its fields' pictures.
pub proof fn lemma_object_view(fields: Vec<(String, Value)>)
    ensures
        Value::Object(fields)@ == Tree::Object(field_trees(fields@)),
{
    let v = Value::Object(fields)@;
    assert forall|i: int| 0 <= i < fields.len() implies v->Object_0[i] == field_trees(fields@)[i] by {
        assert(v->Object_0[i] == (fields[i].0@, fields[i].1@));
    }
    assert(v->Object_0 =~= field_trees(fields@));
}

impl Value {
    /// A copy of the value with the same picture.
    pub fn duplicate(&self) -> (r: Value)
        ensures
            r@ == self@,
        decreases self,
    {
        broadcast use vstd::std_specs::vec::group_vec_axioms;

        match self {
            Value::Null => Value::Null,
            Value::Bool(b) => Value::Bool(*b),
            Value::Number(n) => Value::Number(n.clone()),
            Value::String(s) => Value::String(s.clone()),
            Value::Array(items) => {
                let mut out: Vec<Value> = Vec::new();
                let mut i: usize = 0;
                while i < items.len()
                    invariant
                        *self == Value::Array(*items),
                        i <= items.len(),
                        out.len() == i,
                        forall|j: int| 0 <= j < i ==> out[j]@ == items[j]@,
                    decreases items.len() - i,
                {
                    proof {
                        assert(decreases_to!(*self => self->Array_0));
                        assert(decreases_to!(items => items[i as int]));
                    }
                    out.push(items[i].duplicate());
                    i += 1;
                }
                proof {
                    lemma_array_view(out);
                    lemma_array_view(*items);
                    assert(trees(out@) =~= trees(items@));
                }
                Value::Array(out)
            },
            Value::Object(fields) => {
                let mut out: Vec<(String, Value)> = Vec::new();
                let mut i: usize = 0;
                while i < fields.len()
                    invariant
                        *self == Value::Object(*fields),
                        i <= fields.len(),
                        out.len() == i,
                        forall|j: int| 0 <= j < i ==> out[j].0@ == fields[j].0@ && out[j].1@ == fields[j].1@,
                    decreases fields.len() - i,
                {
                    proof {
                        assert(decreases_to!(*self => self->Object_0));
                        assert(decreases_to!(fields => fields[i as int]));
                    }
                    let field = &fields[i];
                    out.push((field.0.clone(), field.1.duplicate()));
                    i += 1;
                }
                proof {
                    lemma_object_view(out);
                    lemma_object_view(*fields);
                    assert(field_trees(out@) =~= field_trees(fields@));
                }
                Value::Object(out)
            },
        }
    }
}

} // verus!
