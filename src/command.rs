use vstd::prelude::*;

use crate::text::chars_of;
use crate::value::{field_trees, lemma_array_view, lemma_object_view, trees, Tree, Value};

verus! {

/// Projects one field of an object; the key `.` passes the object through.
#[derive(Debug, PartialEq)]
pub struct GetKey {
    pub key: String,
}

/// Selects elements of an array by position, or all of them.
#[derive(Debug, PartialEq)]
pub struct GetArrayElements {
    pub indices: String,
}

/// Lists the field names of an object.
#[derive(Debug, PartialEq)]
pub struct ListKeys {}

/// One stage of a query pipeline.
#[derive(Debug, PartialEq)]
pub enum Command {
    GetArrayElements(GetArrayElements),
    GetKey(GetKey),
    ListKeys(ListKeys),
}

/// The mathematical picture of a `Command`.
pub enum Step {
    Key(Seq<char>),
    Elements(Seq<char>),
    Keys,
}

impl View for Command {
    type V = Step;

    open spec fn view(&self) -> Step {
        match self {
            Command::GetArrayElements(g) => Step::Elements(g.indices@),
            Command::GetKey(g) => Step::Key(g.key@),
            Command::ListKeys(_) => Step::Keys,
        }
    }
}

/// The value of the first field at or after position `i` whose name is `key`,
/// or null when there is none.
pub open spec fn field_lookup(fields: Seq<(Seq<char>, Tree)>, key: Seq<char>, i: int) -> Tree
    decreases fields.len() - i,
{
    if 0 <= i < fields.len() {
        if fields[i].0 == key {
            fields[i].1
        } else {
            field_lookup(fields, key, i + 1)
        }
    } else {
        Tree::Null
    }
}

/// What `GetKey` yields for one value.
pub open spec fn key_result(key: Seq<char>, v: Tree) -> Seq<Tree> {
    match v {
        Tree::Object(fields) => if key == seq!['.'] {
            seq![v]
        } else {
            seq![field_lookup(fields, key, 0)]
        },
        _ => Seq::empty(),
    }
}

/// The pieces of `s` between commas, in order; there is always at least one.
pub open spec fn split_commas(s: Seq<char>) -> Seq<Seq<char>>
    decreases s.len(),
{
    if s.len() == 0 {
        seq![Seq::empty()]
    } else {
        let rest = split_commas(s.drop_last());
        if s.last() == ',' {
            rest.push(Seq::empty())
        } else {
            rest.update(rest.len() - 1, rest.last().push(s.last()))
        }
    }
}

pub open spec fn is_digit(c: char) -> bool {
    '0' <= c <= '9'
}

pub open spec fn digit_value(c: char) -> nat {
    ((c as u32) - ('0' as u32)) as nat
}

/// The number that a string of decimal digits denotes.
pub open spec fn digits_value(d: Seq<char>) -> nat
    decreases d.len(),
{
    if d.len() == 0 {
        0
    } else {
        digits_value(d.drop_last()) * 10 + digit_value(d.last())
    }
}

/// The digits of a piece: an optional leading `+` is dropped.
pub open spec fn unsigned_digits(p: Seq<char>) -> Seq<char> {
    if p.len() > 0 && p[0] == '+' {
        p.drop_first()
    } else {
        p
    }
}

/// The position that a piece names: a non-empty run of decimal digits,
/// optionally preceded by `+`.
pub open spec fn parsed_index(p: Seq<char>) -> Option<nat> {
    let d = unsigned_digits(p);
    if d.len() > 0 && forall|i: int| 0 <= i < d.len() ==> is_digit(#[trigger] d[i]) {
        Some(digits_value(d))
    } else {
        None
    }
}

/// The element that one piece selects, or null.
pub open spec fn pick(items: Seq<Tree>, p: Seq<char>) -> Tree {
    match parsed_index(p) {
        Some(k) => if k < items.len() {
            items[k as int]
        } else {
            Tree::Null
        },
        None => Tree::Null,
    }
}

/// Whether an index expression selects every element.
pub open spec fn takes_all(indices: Seq<char>) -> bool {
    indices.len() == 0 || indices == seq![':']
}

/// What `GetArrayElements` yields for one value.
pub open spec fn elements_result(indices: Seq<char>, v: Tree) -> Seq<Tree> {
    match v {
        Tree::Array(items) => if takes_all(indices) {
            items
        } else {
            split_commas(indices).map_values(|p: Seq<char>| pick(items, p))
        },
        _ => seq![Tree::Null],
    }
}

/// What `ListKeys` yields for one value.
pub open spec fn keys_result(v: Tree) -> Seq<Tree> {
    match v {
        Tree::Object(fields) => fields.map_values(|f: (Seq<char>, Tree)| Tree::Str(f.0)),
        _ => Seq::empty(),
    }
}

/// What a command yields for one value.
pub open spec fn step_result(c: Step, v: Tree) -> Seq<Tree> {
    match c {
        Step::Key(key) => key_result(key, v),
        Step::Elements(indices) => elements_result(indices, v),
        Step::Keys => keys_result(v),
    }
}

/// Whether a command meets a value of a type it cannot read: an object
/// command on anything but an object.
pub open spec fn mismatch(c: Step, v: Tree) -> bool {
    !(c is Elements) && !(v is Object)
}

/// Whether `s` is the one-character string `.`.
fn is_self_key(s: &String) -> (r: bool)
    ensures
        r == (s@ == seq!['.']),
{
    let cs = chars_of(s.as_str());
    let r = cs.len() == 1 && cs[0] == '.';
    proof {
        if cs.len() == 1 {
            assert(cs@ =~= seq![cs[0]]);
        }
    }
    r
}

/// The position named by the characters `s[from..to]`, when it is below
/// `bound`.
#[verifier::loop_isolation(false)]
fn index_below(s: &Vec<char>, from: usize, to: usize, bound: usize) -> (r: Option<usize>)
    requires
        from <= to <= s.len(),
    ensures
        r == (match parsed_index(s@.subrange(from as int, to as int)) {
            Some(k) => if k < bound {
                Some(k as usize)
            } else {
                None::<usize>
            },
            None => None::<usize>,
        }),
{
    let ghost p = s@.subrange(from as int, to as int);
    let mut start: usize = from;
    if start < to && s[start] == '+' {
        start += 1;
    }
    let ghost d = s@.subrange(start as int, to as int);
    assert(unsigned_digits(p) =~= d);
    if start == to {
        return None;
    }
    let mut acc: usize = 0;
    let mut big: bool = bound == 0;
    let mut j: usize = start;
    while j < to
        invariant
            start <= j <= to <= s.len(),
            forall|k: int| start <= k < j ==> is_digit(#[trigger] s@[k]),
            !big ==> acc == digits_value(s@.subrange(start as int, j as int)) && acc < bound,
            big ==> digits_value(s@.subrange(start as int, j as int)) >= bound,
        decreases to - j,
    {
        let c = s[j];
        if !('0' <= c && c <= '9') {
            assert(d[j - start] == s@[j as int]);
            assert(!is_digit(d[j - start]));
            return None;
        }
        let ghost prev = digits_value(s@.subrange(start as int, j as int));
        assert(s@.subrange(start as int, j + 1).drop_last() =~= s@.subrange(start as int, j as int));
        assert(digits_value(s@.subrange(start as int, j + 1)) == prev * 10 + digit_value(c));
        if !big {
            let next: u128 = acc as u128 * 10 + (c as u32 - '0' as u32) as u128;
            if next >= bound as u128 {
                big = true;
            } else {
                acc = next as usize;
            }
        }
        j += 1;
    }
    assert forall|k: int| 0 <= k < d.len() implies is_digit(#[trigger] d[k]) by {
        assert(d[k] == s@[start + k]);
    }
    if big {
        None
    } else {
        Some(acc)
    }
}

/// The element of `items` that `s[from..to]` selects, or null.
fn pick_element(items: &Vec<Value>, s: &Vec<char>, from: usize, to: usize) -> (r: Value)
    requires
        from <= to <= s.len(),
    ensures
        r@ == pick(trees(items@), s@.subrange(from as int, to as int)),
{
    match index_below(s, from, to, items.len()) {
        Some(k) => items[k].duplicate(),
        None => Value::Null,
    }
}

impl GetArrayElements {
    /// The selected elements of an array, one per comma-separated piece of
    /// the index expression (null where a piece names no element), or all of
    /// them for an empty expression or `:`. Anything but an array yields one
    /// null.
    #[verifier::loop_isolation(false)]
    pub fn apply(&self, input: Value) -> (r: Vec<Value>)
        ensures
            trees(r@) == elements_result(self.indices@, input@),
    {
        let ghost v = input@;
        match input {
            Value::Array(items) => {
                proof {
                    lemma_array_view(items);
                }
                let s = chars_of(self.indices.as_str());
                if s.len() == 0 || (s.len() == 1 && s[0] == ':') {
                    proof {
                        if s.len() == 1 {
                            assert(s@ =~= seq![':']);
                        }
                    }
                    return items;
                }
                assert(!takes_all(s@)) by {
                    if s@ == seq![':'] {
                        assert(s@[0] == ':');
                    }
                }
                let ghost its = trees(items@);
                let mut out: Vec<Value> = Vec::new();
                let mut start: usize = 0;
                let mut i: usize = 0;
                while i < s.len()
                    invariant
                        start <= i <= s.len(),
                        split_commas(s@.take(i as int)).len() == out.len() + 1,
                        split_commas(s@.take(i as int)).last() == s@.subrange(start as int, i as int),
                        trees(out@) =~= split_commas(s@.take(i as int)).drop_last().map_values(
                            |p: Seq<char>| pick(its, p),
                        ),
                    decreases s.len() - i,
                {
                    let ghost ps = split_commas(s@.take(i as int));
                    assert(s@.take(i + 1).drop_last() =~= s@.take(i as int));
                    let ghost old_out = trees(out@);
                    if s[i] == ',' {
                        let e = pick_element(&items, &s, start, i);
                        out.push(e);
                        start = i + 1;
                        assert(trees(out@) =~= old_out.push(e@));
                        assert(ps.drop_last().push(ps.last()) =~= ps);
                    } else {
                        assert(split_commas(s@.take(i + 1)).drop_last() =~= ps.drop_last());
                        assert(trees(out@) =~= old_out);
                    }
                    i += 1;
                    assert(split_commas(s@.take(i as int)).last() =~= s@.subrange(start as int, i as int));
                }
                let ghost old_out = trees(out@);
                let e = pick_element(&items, &s, start, s.len());
                out.push(e);
                assert(s@.take(s.len() as int) =~= s@);
                let ghost ps = split_commas(s@);
                assert(trees(out@) =~= old_out.push(e@));
                assert(ps.drop_last().push(ps.last()) =~= ps);
                assert(trees(out@) =~= elements_result(self.indices@, v));
                out
            },
            _ => {
                let r = vec![Value::Null];
                assert(trees(r@) =~= elements_result(self.indices@, v));
                r
            },
        }
    }
}

impl GetKey {
    /// The value of the field named by the key (null where there is none),
    /// or the whole object for the key `.`. Anything but an object yields
    /// nothing.
    #[verifier::loop_isolation(false)]
    pub fn apply(&self, input: Value) -> (r: Vec<Value>)
        ensures
            trees(r@) == key_result(self.key@, input@),
    {
        let ghost v = input@;
        match input {
            Value::Object(fields) => {
                proof {
                    lemma_object_view(fields);
                }
                if is_self_key(&self.key) {
                    let r = vec![Value::Object(fields)];
                    assert(trees(r@) =~= seq![v]);
                    return r;
                }
                let mut i: usize = 0;
                while i < fields.len()
                    invariant
                        v == Tree::Object(field_trees(fields@)),
                        self.key@ != seq!['.'],
                        i <= fields.len(),
                        field_lookup(v->Object_0, self.key@, 0) == field_lookup(
                            v->Object_0,
                            self.key@,
                            i as int,
                        ),
                    decreases fields.len() - i,
                {
                    if fields[i].0 == self.key {
                        let r = vec![fields[i].1.duplicate()];
                        assert(trees(r@) =~= key_result(self.key@, v));
                        return r;
                    }
                    i += 1;
                }
                let r = vec![Value::Null];
                assert(trees(r@) =~= key_result(self.key@, v));
                r
            },
            _ => {
                let r: Vec<Value> = Vec::new();
                assert(trees(r@) =~= key_result(self.key@, v));
                r
            },
        }
    }
}

impl ListKeys {
    /// The names of an object's fields, as strings, in the object's order.
    /// Anything but an object yields nothing.
    #[verifier::loop_isolation(false)]
    pub fn apply(&self, input: Value) -> (r: Vec<Value>)
        ensures
            trees(r@) == keys_result(input@),
    {
        let ghost v = input@;
        match input {
            Value::Object(fields) => {
                proof {
                    lemma_object_view(fields);
                }
                let mut out: Vec<Value> = Vec::new();
                let mut i: usize = 0;
                while i < fields.len()
                    invariant
                        v == Tree::Object(field_trees(fields@)),
                        i <= fields.len(),
                        trees(out@) =~= keys_result(v).take(i as int),
                    decreases fields.len() - i,
                {
                    out.push(Value::String(fields[i].0.clone()));
                    i += 1;
                    assert(trees(out@) =~= keys_result(v).take(i as int));
                }
                assert(keys_result(v).take(i as int) =~= keys_result(v));
                out
            },
            _ => {
                let r: Vec<Value> = Vec::new();
                assert(trees(r@) =~= keys_result(v));
                r
            },
        }
    }
}

impl Command {
    /// The values that this command yields for one value, in order.
    pub fn apply(&self, input: Value) -> (r: Vec<Value>)
        ensures
            trees(r@) == step_result(self@, input@),
    {
        match self {
            Command::GetArrayElements(getter) => getter.apply(input),
            Command::GetKey(getter) => getter.apply(input),
            Command::ListKeys(getter) => getter.apply(input),
        }
    }

    /// Whether applying this command to `input` is a type mismatch, which
    /// drops the value and is worth a diagnostic.
    pub fn rejects(&self, input: &Value) -> (r: bool)
        ensures
            r == mismatch(self@, input@),
    {
        match self {
            Command::GetArrayElements(_) => false,
            _ => match input {
                Value::Object(_) => false,
                _ => true,
            },
        }
    }
}

} // verus!
