//! JSON values: a tree of the library's own, read from text by `serde_json`.

use vstd::prelude::*;

use crate::text::same;
use crate::{seqs, text};

verus! {

/// A JSON number: an integer that fits in 64 signed bits, or the text of any
/// other number.
#[derive(Debug)]
pub enum Number {
    Int(i64),
    Real(String),
}

/// A JSON value.
#[derive(Debug)]
pub enum Json {
    Null,
    Bool(bool),
    Num(Number),
    Str(String),
    Arr(Vec<Json>),
    Obj(Vec<(String, Json)>),
}

/// The mathematical value of a [`Number`].
pub enum NumberTree {
    Int(i64),
    Real(Seq<char>),
}

/// The mathematical value of a [`Json`].
pub enum Tree {
    Null,
    Bool(bool),
    Num(NumberTree),
    Str(Seq<char>),
    Arr(Seq<Tree>),
    Obj(Seq<(Seq<char>, Tree)>),
}

impl View for Number {
    type V = NumberTree;

    open spec fn view(&self) -> NumberTree {
        match self {
            Number::Int(n) => NumberTree::Int(*n),
            Number::Real(t) => NumberTree::Real(t@),
        }
    }
}

impl Json {
    /// The tree that this value stands for.
    pub open spec fn tree(&self) -> Tree
        decreases self,
    {
        match self {
            Json::Null => Tree::Null,
            Json::Bool(b) => Tree::Bool(*b),
            Json::Num(n) => Tree::Num(n@),
            Json::Str(s) => Tree::Str(s@),
            Json::Arr(a) => Tree::Arr(
                Seq::new(
                    a@.len(),
                    |i: int|
                        if 0 <= i < a@.len() {
                            a@[i].tree()
                        } else {
                            Tree::Null
                        },
                ),
            ),
            Json::Obj(m) => Tree::Obj(
                Seq::new(
                    m@.len(),
                    |i: int|
                        if 0 <= i < m@.len() {
                            (m@[i].0@, m@[i].1.tree())
                        } else {
                            (seq![], Tree::Null)
                        },
                ),
            ),
        }
    }
}

impl View for Json {
    type V = Tree;

    open spec fn view(&self) -> Tree {
        self.tree()
    }
}

/// The trees of a list of values.
pub open spec fn trees(v: Seq<Json>) -> Seq<Tree> {
    v.map_values(|j: Json| j@)
}

/// The trees of a list of members.
pub open spec fn members(v: Seq<(String, Json)>) -> Seq<(Seq<char>, Tree)> {
    v.map_values(|m: (String, Json)| (m.0@, m.1@))
}

/// What an array's view holds.
pub proof fn lemma_arr(a: Vec<Json>)
    ensures
        Json::Arr(a)@ == Tree::Arr(trees(a@)),
{
    assert(Json::Arr(a).tree()->Arr_0 =~= trees(a@));
}

/// What an object's view holds.
pub proof fn lemma_obj(m: Vec<(String, Json)>)
    ensures
        Json::Obj(m)@ == Tree::Obj(members(m@)),
{
    assert(Json::Obj(m).tree()->Obj_0 =~= members(m@));
}

// --- reading -----------------------------------------------------------------

#[verifier::external_type_specification]
#[verifier::external_body]
pub struct ExValue(serde_json::Value);

/// The tree that a `serde_json::Value` holds.
pub uninterp spec fn value_tree(v: serde_json::Value) -> Tree;

/// The tree that `serde_json::from_str` reads from a text, if it accepts it.
pub uninterp spec fn read_tree(text: Seq<char>) -> Option<Tree>;

/// Parses `text` as one JSON value (`serde_json::from_str`). Which texts are
/// accepted, and which tree they give, is a function of the text alone.
#[verifier::external_body]
fn parse_value(text: &str) -> (r: Option<serde_json::Value>)
    ensures
        match r {
            Some(v) => read_tree(text@) == Some(value_tree(v)),
            None => read_tree(text@) is None,
        },
{
    serde_json::from_str(text).ok()
}

/// The outermost layer of a value.
pub enum Layer {
    Null,
    Bool(bool),
    Int(i64),
    Real(String),
    Str(String),
    Arr(Vec<serde_json::Value>),
    Obj(Vec<(String, serde_json::Value)>),
}

/// The trees of a list of `serde_json` values.
pub open spec fn value_trees(v: Seq<serde_json::Value>) -> Seq<Tree> {
    v.map_values(|x: serde_json::Value| value_tree(x))
}

/// The trees of a list of `serde_json` members.
pub open spec fn value_members(v: Seq<(String, serde_json::Value)>) -> Seq<(Seq<char>, Tree)> {
    v.map_values(|e: (String, serde_json::Value)| (e.0@, value_tree(e.1)))
}

/// The tree whose outermost layer is `l`.
pub open spec fn layer_tree(l: Layer) -> Tree {
    match l {
        Layer::Null => Tree::Null,
        Layer::Bool(b) => Tree::Bool(b),
        Layer::Int(n) => Tree::Num(NumberTree::Int(n)),
        Layer::Real(t) => Tree::Num(NumberTree::Real(t@)),
        Layer::Str(s) => Tree::Str(s@),
        Layer::Arr(a) => Tree::Arr(value_trees(a@)),
        Layer::Obj(m) => Tree::Obj(value_members(m@)),
    }
}

/// Tells the variants of a `serde_json::Value` apart. A number is an integer
/// where `Number::as_i64` gives one, and its `Display` text otherwise.
#[verifier::external_body]
pub(crate) fn peel(v: serde_json::Value) -> (l: Layer)
    ensures
        layer_tree(l) == value_tree(v),
{
    match v {
        serde_json::Value::Null => Layer::Null,
        serde_json::Value::Bool(b) => Layer::Bool(b),
        serde_json::Value::Number(n) => n.as_i64().map_or_else(|| Layer::Real(n.to_string()), Layer::Int),
        serde_json::Value::String(s) => Layer::Str(s),
        serde_json::Value::Array(a) => Layer::Arr(a),
        serde_json::Value::Object(m) => Layer::Obj(m.into_iter().collect()),
    }
}

/// The library's tree of a `serde_json` value.
pub fn build(v: serde_json::Value) -> (j: Json)
    ensures
        j@ == value_tree(v),
    decreases value_tree(v),
{
    match peel(v) {
        Layer::Null => Json::Null,
        Layer::Bool(b) => Json::Bool(b),
        Layer::Int(n) => Json::Num(Number::Int(n)),
        Layer::Real(t) => Json::Num(Number::Real(t)),
        Layer::Str(s) => Json::Str(s),
        Layer::Arr(a) => {
            let mut rest: Vec<serde_json::Value> = a;
            let ghost items = rest@;
            let ghost want = value_trees(items);
            let mut out: Vec<Json> = Vec::new();
            while rest.len() > 0
                invariant
                    rest@.len() + out@.len() == items.len(),
                    rest@ == items.skip(out@.len() as int),
                    want == value_trees(items),
                    value_tree(v) == Tree::Arr(want),
                    trees(out@) =~= want.take(out@.len() as int),
                decreases rest@.len(),
            {
                let x: serde_json::Value = rest.remove(0);
                let ghost k = out@.len() as int;
                proof {
                    assert(value_tree(x) == want[k]);
                    assert(decreases_to!(value_tree(v) => value_tree(v)->Arr_0[k]));
                }
                let ghost done = out@;
                out.push(build(x));
                proof {
                    assert(trees(out@) =~= trees(done).push(want[k]));
                    assert(want.take(k + 1) =~= want.take(k).push(want[k]));
                }
            }
            proof {
                lemma_arr(out);
                assert(want.take(want.len() as int) =~= want);
            }
            Json::Arr(out)
        },
        Layer::Obj(m) => {
            let mut rest: Vec<(String, serde_json::Value)> = m;
            let ghost items = rest@;
            let ghost want = value_members(items);
            let mut out: Vec<(String, Json)> = Vec::new();
            while rest.len() > 0
                invariant
                    rest@.len() + out@.len() == items.len(),
                    rest@ == items.skip(out@.len() as int),
                    want == value_members(items),
                    value_tree(v) == Tree::Obj(want),
                    members(out@) =~= want.take(out@.len() as int),
                decreases rest@.len(),
            {
                let x: (String, serde_json::Value) = rest.remove(0);
                let ghost k = out@.len() as int;
                proof {
                    assert((x.0@, value_tree(x.1)) == want[k]);
                    assert(decreases_to!(value_tree(v) => value_tree(v)->Obj_0[k].1));
                }
                let ghost done = out@;
                let (key, item) = x;
                let j: Json = build(item);
                out.push((key, j));
                proof {
                    assert(members(out@) =~= members(done).push(want[k]));
                    assert(want.take(k + 1) =~= want.take(k).push(want[k]));
                }
            }
            proof {
                lemma_obj(out);
                assert(want.take(want.len() as int) =~= want);
            }
            Json::Obj(out)
        },
    }
}

/// Reads one JSON value.
pub fn read(text: &str) -> (r: Option<Json>)
    ensures
        match r {
            Some(j) => read_tree(text@) == Some(j@),
            None => read_tree(text@) is None,
        },
{
    match parse_value(text) {
        Some(v) => Some(build(v)),
        None => None,
    }
}

// --- writing -------------------------------------------------------------------

/// Whether the members stand in the order of their keys, each key once: the
/// order in which a `serde_json` object holds them.
pub open spec fn in_key_order(m: Seq<(Seq<char>, Tree)>) -> bool {
    forall|i: int|
        0 <= i < m.len() - 1 ==> text::comes_before((#[trigger] m[i]).0, m[i + 1].0)
}

/// A value that is made of others.
pub enum Made {
    Null,
    Arr(Vec<serde_json::Value>),
    Obj(Vec<(String, serde_json::Value)>),
}

/// The tree of a value that is made of others.
pub open spec fn made_tree(m: Made) -> Tree {
    match m {
        Made::Null => Tree::Null,
        Made::Arr(a) => Tree::Arr(value_trees(a@)),
        Made::Obj(m) => Tree::Obj(value_members(m@)),
    }
}

/// Makes a `serde_json::Value` (the constructors of its variants; an object is
/// collected into a `serde_json::Map`, which keeps its members in the order of
/// their keys).
#[verifier::external_body]
pub(crate) fn make(m: Made) -> (v: serde_json::Value)
    requires
        m matches Made::Obj(m) ==> in_key_order(value_members(m@)),
    ensures
        value_tree(v) == made_tree(m),
{
    match m {
        Made::Null => serde_json::Value::Null,
        Made::Arr(a) => serde_json::Value::Array(a),
        Made::Obj(m) => serde_json::Value::Object(m.into_iter().collect()),
    }
}

/// The integer that a value is (`serde_json`'s `Value::as_i64`).
#[verifier::external_body]
pub(crate) fn integer(v: &serde_json::Value) -> (r: Option<i64>)
    ensures
        r == value_tree(*v).as_int(),
{
    v.as_i64()
}

/// The member called `key` of a value (`serde_json`'s `Value::get`); `None`
/// in a value that is no object or has no such member.
#[verifier::external_body]
pub(crate) fn member<'a>(v: &'a serde_json::Value, key: &str) -> (r: Option<&'a serde_json::Value>)
    ensures
        match r {
            Some(x) => value_tree(*v).get(key@) == Some(value_tree(*x)),
            None => value_tree(*v).get(key@) is None,
        },
{
    v.get(key)
}

/// The text that `serde_json::to_string` writes for a tree, on one line.
pub uninterp spec fn written(t: Tree) -> Seq<char>;

/// Whether a tree holds no number but 64-bit integers, and nests at most
/// `depth` arrays and objects in one another.
pub open spec fn plain(t: Tree, depth: nat) -> bool
    decreases depth,
{
    match t {
        Tree::Num(n) => n is Int,
        Tree::Arr(a) => depth > 0 && forall|i: int|
            0 <= i < a.len() ==> plain(#[trigger] a[i], (depth - 1) as nat),
        Tree::Obj(m) => depth > 0 && forall|i: int|
            0 <= i < m.len() ==> plain((#[trigger] m[i]).1, (depth - 1) as nat),
        _ => true,
    }
}

/// How deep `serde_json::from_str` reads arrays and objects nested in one
/// another.
pub const DEPTH_LIMIT: u8 = 127;

/// Whether a text is one line that reads back as `t`: it has no line feed, and
/// no white space at its ends; a plain tree is read back as it was.
pub open spec fn is_line_of(line: Seq<char>, t: Tree) -> bool {
    &&& !line.contains('\n')
    &&& line.len() > 0
    &&& !text::is_space(line[0])
    &&& !text::is_space(line.last())
    &&& plain(t, DEPTH_LIMIT as nat) ==> read_tree(line) == Some(t)
}

/// Writes a value on one line (`serde_json::to_string`, which never fails on a
/// `Value`). The text is a function of the tree alone. It holds no line feed,
/// since the control characters of strings are escaped, and begins and ends
/// with a mark of JSON's; `serde_json::from_str` reads it back as the same
/// value, as long as no floating-point number stands in it (those may come back
/// with another last digit) and it nests no deeper than the reader goes.
#[verifier::external_body]
pub(crate) fn write(v: &serde_json::Value) -> (r: String)
    ensures
        r@ == written(value_tree(*v)),
        is_line_of(r@, value_tree(*v)),
{
    serde_json::to_string(v).unwrap()
}

/// The text that `serde_json::to_string_pretty` writes for a tree.
pub uninterp spec fn written_pretty(t: Tree) -> Seq<char>;

/// Writes a value over indented lines (`serde_json::to_string_pretty`, which
/// never fails on a `Value`). The text is a function of the tree alone, and
/// `serde_json::from_str` reads it back as the same value, as long as no
/// floating-point number stands in it and it nests no deeper than the reader
/// goes.
#[verifier::external_body]
pub(crate) fn write_pretty(v: &serde_json::Value) -> (r: String)
    ensures
        r@ == written_pretty(value_tree(*v)),
        plain(value_tree(*v), DEPTH_LIMIT as nat) ==> read_tree(r@) == Some(value_tree(*v)),
{
    serde_json::to_string_pretty(v).unwrap()
}

// --- looking inside ----------------------------------------------------------

/// Whether a member is called `key`.
pub open spec fn called(key: Seq<char>) -> spec_fn((Seq<char>, Tree)) -> bool {
    |e: (Seq<char>, Tree)| e.0 == key
}

/// The index of the first member called `key`.
pub open spec fn member_index(m: Seq<(Seq<char>, Tree)>, key: Seq<char>) -> Option<int> {
    seqs::first_where(m, called(key))
}

impl Tree {
    /// The member called `key`, in an object that has one.
    pub open spec fn get(self, key: Seq<char>) -> Option<Tree> {
        match self {
            Tree::Obj(m) => match member_index(m, key) {
                Some(i) => Some(m[i].1),
                None => None,
            },
            _ => None,
        }
    }

    /// The integer member called `key`.
    pub open spec fn int_at(self, key: Seq<char>) -> Option<i64> {
        match self.get(key) {
            Some(Tree::Num(NumberTree::Int(n))) => Some(n),
            _ => None,
        }
    }

    /// The integer member called `key`, 0 without one.
    pub open spec fn int_or_zero(self, key: Seq<char>) -> i64 {
        match self.int_at(key) {
            Some(n) => n,
            None => 0,
        }
    }

    /// The string member called `key`.
    pub open spec fn str_at(self, key: Seq<char>) -> Option<Seq<char>> {
        match self.get(key) {
            Some(Tree::Str(s)) => Some(s),
            _ => None,
        }
    }

    /// The items of the array member called `key`; none without one.
    pub open spec fn items_at(self, key: Seq<char>) -> Seq<Tree> {
        match self.get(key) {
            Some(Tree::Arr(a)) => a,
            _ => seq![],
        }
    }

    /// The number member called `key`.
    pub open spec fn number_at(self, key: Seq<char>) -> Option<NumberTree> {
        match self.get(key) {
            Some(Tree::Num(n)) => Some(n),
            _ => None,
        }
    }

    /// The integer that this value is.
    pub open spec fn as_int(self) -> Option<i64> {
        match self {
            Tree::Num(NumberTree::Int(n)) => Some(n),
            _ => None,
        }
    }
}

impl Json {
    /// The member called `key`, in an object that has one.
    pub fn get(&self, key: &str) -> (r: Option<&Json>)
        ensures
            match r {
                Some(j) => self@.get(key@) == Some(j@),
                None => self@.get(key@) is None,
            },
    {
        match self {
            Json::Obj(m) => {
                let ghost p = called(key@);
                let ghost all = members(m@);
                proof {
                    lemma_obj(*m);
                }
                for i in 0..m.len()
                    invariant
                        all == members(m@),
                        self@ == Tree::Obj(all),
                        p == called(key@),
                        seqs::first_where(all.take(i as int), p) is None,
                {
                    proof {
                        assert(all.take(i + 1).drop_last() =~= all.take(i as int));
                        assert(all.take(i + 1).last() == (m@[i as int].0@, m@[i as int].1@));
                    }
                    if same(m[i].0.as_str(), key) {
                        proof {
                            seqs::lemma_first_extends(all, p, i + 1);
                        }
                        return Some(&m[i].1);
                    }
                }
                proof {
                    assert(all.take(all.len() as int) =~= all);
                }
                None
            },
            _ => None,
        }
    }

    /// The integer that this value is.
    pub fn as_i64(&self) -> (r: Option<i64>)
        ensures
            r == self@.as_int(),
    {
        match self {
            Json::Num(Number::Int(n)) => Some(*n),
            _ => None,
        }
    }

    /// The integer member called `key`.
    pub fn int_at(&self, key: &str) -> (r: Option<i64>)
        ensures
            r == self@.int_at(key@),
    {
        match self.get(key) {
            Some(j) => j.as_i64(),
            None => None,
        }
    }

    /// The integer member called `key`, 0 without one.
    pub fn int_or_zero(&self, key: &str) -> (r: i64)
        ensures
            r == self@.int_or_zero(key@),
    {
        match self.int_at(key) {
            Some(n) => n,
            None => 0,
        }
    }

    /// The string member called `key`.
    pub fn str_at(&self, key: &str) -> (r: Option<&String>)
        ensures
            match r {
                Some(s) => self@.str_at(key@) == Some(s@),
                None => self@.str_at(key@) is None,
            },
    {
        match self.get(key) {
            Some(Json::Str(s)) => Some(s),
            _ => None,
        }
    }

    /// Whether the string member called `key` is `want`.
    pub fn str_is(&self, key: &str, want: &str) -> (r: bool)
        ensures
            r == (self@.str_at(key@) == Some(want@)),
    {
        match self.str_at(key) {
            Some(s) => same(s.as_str(), want),
            None => false,
        }
    }

    /// The number member called `key`.
    pub fn number_at(&self, key: &str) -> (r: Option<Number>)
        ensures
            match r {
                Some(n) => self@.number_at(key@) == Some(n@),
                None => self@.number_at(key@) is None,
            },
    {
        match self.get(key) {
            Some(Json::Num(Number::Int(n))) => Some(Number::Int(*n)),
            Some(Json::Num(Number::Real(t))) => Some(Number::Real(t.clone())),
            _ => None,
        }
    }

    /// The array member called `key`.
    pub fn array_at(&self, key: &str) -> (r: Option<&Vec<Json>>)
        ensures
            match r {
                Some(a) => self@.items_at(key@) == trees(a@) && self@.get(key@) == Some(
                    Tree::Arr(trees(a@)),
                ),
                None => !(self@.get(key@) matches Some(Tree::Arr(_))) && self@.items_at(key@)
                    == Seq::<Tree>::empty(),
            },
    {
        match self.get(key) {
            Some(Json::Arr(a)) => {
                proof {
                    lemma_arr(*a);
                }
                Some(a)
            },
            _ => None,
        }
    }
}

// --- building values ---------------------------------------------------------

/// An integer value.
pub open spec fn num(n: i64) -> Tree {
    Tree::Num(NumberTree::Int(n))
}

/// An integer value.
pub(crate) fn number(n: i64) -> (r: Json)
    ensures
        r@ == num(n),
{
    Json::Num(Number::Int(n))
}

/// An array value.
pub(crate) fn list(items: Vec<Json>) -> (r: Json)
    ensures
        r@ == Tree::Arr(trees(items@)),
{
    proof {
        lemma_arr(items);
    }
    Json::Arr(items)
}

/// An array of one value.
pub(crate) fn one(item: Json) -> (r: Json)
    ensures
        r@ == Tree::Arr(seq![item@]),
{
    let mut items: Vec<Json> = Vec::new();
    items.push(item);
    proof {
        assert(trees(items@) =~= seq![item@]);
    }
    list(items)
}

/// An object value.
pub(crate) fn object(m: Vec<(String, Json)>) -> (r: Json)
    ensures
        r@ == Tree::Obj(members(m@)),
{
    proof {
        lemma_obj(m);
    }
    Json::Obj(m)
}

/// A member of an object.
pub(crate) fn entry(key: &str, value: Json) -> (r: (String, Json))
    ensures
        r.0@ == key@,
        r.1 == value,
{
    (key.to_string(), value)
}

/// An object of one member.
pub(crate) fn object1(a: (String, Json)) -> (r: Json)
    ensures
        r@ == Tree::Obj(seq![(a.0@, a.1@)]),
{
    let mut m: Vec<(String, Json)> = Vec::new();
    m.push(a);
    proof {
        assert(members(m@) =~= seq![(a.0@, a.1@)]);
    }
    object(m)
}

/// An object of two members.
pub(crate) fn object2(a: (String, Json), b: (String, Json)) -> (r: Json)
    ensures
        r@ == Tree::Obj(seq![(a.0@, a.1@), (b.0@, b.1@)]),
{
    let mut m: Vec<(String, Json)> = Vec::new();
    m.push(a);
    m.push(b);
    proof {
        assert(members(m@) =~= seq![(a.0@, a.1@), (b.0@, b.1@)]);
    }
    object(m)
}

/// An object of three members.
pub(crate) fn object3(a: (String, Json), b: (String, Json), c: (String, Json)) -> (r: Json)
    ensures
        r@ == Tree::Obj(seq![(a.0@, a.1@), (b.0@, b.1@), (c.0@, c.1@)]),
{
    let mut m: Vec<(String, Json)> = Vec::new();
    m.push(a);
    m.push(b);
    m.push(c);
    proof {
        assert(members(m@) =~= seq![(a.0@, a.1@), (b.0@, b.1@), (c.0@, c.1@)]);
    }
    object(m)
}

/// What pushing a value does to the trees of a list.
pub proof fn lemma_trees_push(v: Seq<Json>, j: Json)
    ensures
        trees(v.push(j)) == trees(v).push(j@),
{
    assert(trees(v.push(j)) =~= trees(v).push(j@));
}

} // verus!
