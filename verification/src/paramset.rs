//! Parameter values and named parameter sets.
//!
//! Every parameter value is list shaped, even one written as a bare scalar:
//! a bare token and a one-element bracketed list produce the same value.
//! A parameter set keeps the insertion order of distinct names; inserting a
//! name again overwrites the value in place (last write wins).

use vstd::prelude::*;

use crate::geometry::Point3;

verus! {

/// Exponent part of a numeric literal: the marker's sign and digits.
#[derive(Debug, Clone, PartialEq)]
pub struct ExpPart {
    pub neg: bool,
    pub digits: Vec<u8>,
}

/// Ghost form of `ExpPart`.
pub struct ExpPartV {
    pub neg: bool,
    pub digits: Seq<u8>,
}

impl View for ExpPart {
    type V = ExpPartV;

    open spec fn view(&self) -> ExpPartV {
        ExpPartV { neg: self.neg, digits: self.digits@ }
    }
}

/// A numeric literal, kept as the parts of its written form: sign, digits
/// before the decimal point, the point itself, digits after it, and an
/// optional exponent. The grammar guarantees at least one digit in
/// `whole + frac`. Equality is equality of the written parts, so `3.` and
/// `3` are distinct values; an embedding converts to its own scalar type.
#[derive(Debug, Clone, PartialEq)]
pub struct Number {
    pub neg: bool,
    pub whole: Vec<u8>,
    pub point: bool,
    pub frac: Vec<u8>,
    pub exp: Option<ExpPart>,
}

/// Ghost form of `Number`.
pub struct NumberV {
    pub neg: bool,
    pub whole: Seq<u8>,
    pub point: bool,
    pub frac: Seq<u8>,
    pub exp: Option<ExpPartV>,
}

impl View for Number {
    type V = NumberV;

    open spec fn view(&self) -> NumberV {
        NumberV {
            neg: self.neg,
            whole: self.whole@,
            point: self.point,
            frac: self.frac@,
            exp: match self.exp {
                Option::Some(e) => Option::Some(e@),
                Option::None => Option::None,
            },
        }
    }
}

impl View for Point3<Number> {
    type V = Point3<NumberV>;

    open spec fn view(&self) -> Point3<NumberV> {
        Point3 { x: self.x@, y: self.y@, z: self.z@ }
    }
}

/// A parameter value: one list per recognized type tag. `Str` holds the
/// bytes between the quotes of each string; `RGB` and `Blackbody` carry the
/// same numeric lists as `Float` but keep their own tags so a consumer can
/// tell color and temperature parameters from plain numbers.
#[derive(Debug, Clone, PartialEq)]
pub enum Value {
    Bool(Vec<bool>),
    Float(Vec<Number>),
    Int(Vec<i64>),
    Str(Vec<Vec<u8>>),
    Point3f(Vec<Point3<Number>>),
    RGB(Vec<Number>),
    Blackbody(Vec<Number>),
    Texture(Vec<Vec<u8>>),
}

/// Ghost form of `Value`.
pub enum ValueV {
    Bool(Seq<bool>),
    Float(Seq<NumberV>),
    Int(Seq<i64>),
    Str(Seq<Seq<u8>>),
    Point3f(Seq<Point3<NumberV>>),
    RGB(Seq<NumberV>),
    Blackbody(Seq<NumberV>),
    Texture(Seq<Seq<u8>>),
}

/// The ghost form of a sequence of numeric literals.
pub open spec fn nums_view(s: Seq<Number>) -> Seq<NumberV> {
    s.map_values(|n: Number| n@)
}

/// The ghost form of a sequence of byte strings.
pub open spec fn strs_view(s: Seq<Vec<u8>>) -> Seq<Seq<u8>> {
    s.map_values(|x: Vec<u8>| x@)
}

/// The ghost form of a sequence of points.
pub open spec fn points_view(s: Seq<Point3<Number>>) -> Seq<Point3<NumberV>> {
    s.map_values(|p: Point3<Number>| p@)
}

impl View for Value {
    type V = ValueV;

    open spec fn view(&self) -> ValueV {
        match self {
            Value::Bool(v) => ValueV::Bool(v@),
            Value::Float(v) => ValueV::Float(nums_view(v@)),
            Value::Int(v) => ValueV::Int(v@),
            Value::Str(v) => ValueV::Str(strs_view(v@)),
            Value::Point3f(v) => ValueV::Point3f(points_view(v@)),
            Value::RGB(v) => ValueV::RGB(nums_view(v@)),
            Value::Blackbody(v) => ValueV::Blackbody(nums_view(v@)),
            Value::Texture(v) => ValueV::Texture(strs_view(v@)),
        }
    }
}

/// One named parameter: the name between the quotes of the item header and
/// the typed value that followed it.
#[derive(Debug, Clone, PartialEq)]
pub struct ParamSetItem {
    pub name: Vec<u8>,
    pub value: Value,
}

/// Ghost form of `ParamSetItem`.
pub struct ParamSetItemV {
    pub name: Seq<u8>,
    pub value: ValueV,
}

impl View for ParamSetItem {
    type V = ParamSetItemV;

    open spec fn view(&self) -> ParamSetItemV {
        ParamSetItemV { name: self.name@, value: self.value@ }
    }
}

impl ParamSetItem {
    pub fn new(name: Vec<u8>, value: Value) -> (r: ParamSetItem)
        ensures
            r@ == (ParamSetItemV { name: name@, value: value@ }),
    {
        ParamSetItem { name, value }
    }
}

/// The ghost form of a sequence of items.
pub open spec fn items_view(items: Seq<ParamSetItem>) -> Seq<ParamSetItemV> {
    items.map_values(|it: ParamSetItem| it@)
}

/// Index of the first item named `name`, or the length if no item is.
pub open spec fn find_name(items: Seq<ParamSetItemV>, name: Seq<u8>) -> int
    decreases items.len(),
{
    if items.len() == 0 {
        0
    } else if items[0].name == name {
        0
    } else {
        1 + find_name(items.drop_first(), name)
    }
}

pub proof fn lemma_find_name(items: Seq<ParamSetItemV>, name: Seq<u8>)
    ensures
        0 <= find_name(items, name) <= items.len(),
        forall|j: int| 0 <= j < find_name(items, name) ==> items[j].name != name,
        find_name(items, name) < items.len() ==> items[find_name(items, name)].name == name,
    decreases items.len(),
{
    if items.len() > 0 && items[0].name != name {
        let rest = items.drop_first();
        lemma_find_name(rest, name);
        let f = find_name(items, name);
        assert forall|j: int| 0 <= j < f implies items[j].name != name by {
            if j > 0 {
                assert(items[j] == rest[j - 1]);
            }
        }
        if f < items.len() {
            assert(items[f] == rest[f - 1]);
        }
    }
}

/// Insertion with the last-write-wins policy: a new name is appended, a
/// repeated name overwrites the value at the name's first position.
pub open spec fn psv_insert(items: Seq<ParamSetItemV>, item: ParamSetItemV) -> Seq<ParamSetItemV> {
    let j = find_name(items, item.name);
    if 0 <= j < items.len() {
        items.update(j, item)
    } else {
        items.push(item)
    }
}

/// The parameter set obtained by inserting `items` in order into an empty
/// set.
pub open spec fn ps_fold(items: Seq<ParamSetItemV>) -> Seq<ParamSetItemV>
    decreases items.len(),
{
    if items.len() == 0 {
        Seq::empty()
    } else {
        psv_insert(ps_fold(items.drop_last()), items.last())
    }
}

/// A name-keyed collection of parameter values, in insertion order of the
/// distinct names.
#[derive(Debug, Clone, PartialEq)]
pub struct ParamSet {
    pub items: Vec<ParamSetItem>,
}

impl View for ParamSet {
    type V = Seq<ParamSetItemV>;

    open spec fn view(&self) -> Seq<ParamSetItemV> {
        items_view(self.items@)
    }
}

/// Equality of two byte vectors.
fn bytes_eq(a: &Vec<u8>, b: &Vec<u8>) -> (r: bool)
    ensures
        r == (a@ == b@),
{
    if a.len() != b.len() {
        return false;
    }
    let mut i: usize = 0;
    while i < a.len()
        invariant
            0 <= i <= a@.len(),
            a@.len() == b@.len(),
            forall|j: int| 0 <= j < i ==> a@[j] == b@[j],
        decreases a@.len() - i,
    {
        if a[i] != b[i] {
            return false;
        }
        i = i + 1;
    }
    proof {
        assert(a@ =~= b@);
    }
    true
}

impl ParamSet {
    /// The empty parameter set.
    pub fn new() -> (r: ParamSet)
        ensures
            r@ == Seq::<ParamSetItemV>::empty(),
    {
        let r = ParamSet { items: Vec::new() };
        proof {
            assert(r@ =~= Seq::<ParamSetItemV>::empty());
        }
        r
    }

    /// Number of distinct names held.
    pub fn len(&self) -> (n: usize)
        ensures
            n == self@.len(),
    {
        self.items.len()
    }

    /// Insert one item under the last-write-wins policy.
    pub fn insert(&mut self, item: ParamSetItem)
        ensures
            final(self)@ == psv_insert(old(self)@, item@),
    {
        proof {
            lemma_find_name(old(self)@, item@.name);
        }
        let n = self.items.len();
        let mut i: usize = 0;
        while i < n
            invariant
                0 <= i <= n == self.items@.len(),
                *self == *old(self),
                forall|j: int| 0 <= j < i ==> self@[j].name != item@.name,
            decreases n - i,
        {
            if bytes_eq(&self.items[i].name, &item.name) {
                proof {
                    assert(self@[i as int].name == item@.name);
                    lemma_find_name(old(self)@, item@.name);
                    assert(find_name(old(self)@, item@.name) == i as int);
                }
                self.items.set(i, item);
                proof {
                    assert(final(self)@ =~= psv_insert(old(self)@, item@));
                }
                return ;
            }
            proof {
                assert(self@[i as int].name != item@.name);
            }
            i = i + 1;
        }
        proof {
            assert(find_name(old(self)@, item@.name) == old(self)@.len());
        }
        self.items.push(item);
        proof {
            assert(final(self)@ =~= psv_insert(old(self)@, item@));
        }
    }

    /// Build a set by inserting the items in order into an empty set.
    pub fn from_items(items: Vec<ParamSetItem>) -> (r: ParamSet)
        ensures
            r@ == ps_fold(items_view(items@)),
    {
        let ghost all = items_view(items@);
        let mut r = ParamSet::new();
        let mut rest = items;
        let ghost done: int = 0;
        while rest.len() > 0
            invariant
                0 <= done <= all.len(),
                items_view(rest@) =~= all.subrange(done, all.len() as int),
                r@ == ps_fold(all.subrange(0, done)),
            decreases rest@.len(),
        {
            let ghost prev = rest@;
            let it = rest.remove(0);
            proof {
                assert(items_view(prev).len() == prev.len());
                assert(done < all.len());
                assert(items_view(prev)[0] == it@);
                assert(it@ == all[done]);
            }
            r.insert(it);
            proof {
                assert(all.subrange(0, done + 1).drop_last() =~= all.subrange(0, done));
                assert(all.subrange(0, done + 1).last() == all[done]);
                assert(items_view(rest@) =~= items_view(prev).drop_first());
                assert(items_view(rest@) =~= all.subrange(done + 1, all.len() as int));
                done = done + 1;
            }
        }
        proof {
            assert(all.subrange(0, all.len() as int) =~= all);
        }
        r
    }

    /// The value stored under `name`, if any.
    pub fn get(&self, name: &Vec<u8>) -> (r: Option<&Value>)
        ensures
            (match r {
                Option::Some(v) => {
                    let j = find_name(self@, name@);
                    0 <= j < self@.len() && v@ == self@[j].value
                },
                Option::None => find_name(self@, name@) == self@.len(),
            }),
    {
        proof {
            lemma_find_name(self@, name@);
        }
        let n = self.items.len();
        let mut i: usize = 0;
        while i < n
            invariant
                0 <= i <= n == self.items@.len(),
                forall|j: int| 0 <= j < i ==> self@[j].name != name@,
        decreases n - i,
        {
            if bytes_eq(&self.items[i].name, &name) {
                proof {
                    assert(self@[i as int].name == name@);
                    lemma_find_name(self@, name@);
                }
                return Some(&self.items[i].value);
            }
            proof {
                assert(self@[i as int].name != name@);
            }
            i = i + 1;
        }
        None
    }
}

} // verus!
