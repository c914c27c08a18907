//! JSON values.
use vstd::prelude::*;

use crate::double::Double;
use crate::figures::Wholes;
use crate::text::same;

verus! {

/// A JSON value. A number is a whole number or a double; the members of an
/// object stand in the order in which they were written.
#[derive(Debug)]
pub enum Json {
    Null,
    Bool(bool),
    Int(i64),
    UInt(u64),
    Float(Double),
    Text(String),
    Array(Vec<Json>),
    Object(Vec<(String, Json)>),
}

/// The meaning of a JSON value.
pub enum JsonView {
    Null,
    Bool(bool),
    Int(int),
    Float(Double),
    Text(Seq<char>),
    Array(Seq<JsonView>),
    Object(Seq<(Seq<char>, JsonView)>),
}

/// What a JSON value says.
pub open spec fn meaning(v: Json) -> JsonView
    decreases v,
{
    match v {
        Json::Null => JsonView::Null,
        Json::Bool(b) => JsonView::Bool(b),
        Json::Int(i) => JsonView::Int(i as int),
        Json::UInt(u) => JsonView::Int(u as int),
        Json::Float(f) => JsonView::Float(f),
        Json::Text(s) => JsonView::Text(s@),
        Json::Array(items) => JsonView::Array(
            Seq::new(
                items@.len(),
                |i: int|
                    if 0 <= i < items@.len() {
                        meaning(items@[i])
                    } else {
                        JsonView::Null
                    },
            ),
        ),
        Json::Object(members) => JsonView::Object(
            Seq::new(
                members@.len(),
                |i: int|
                    if 0 <= i < members@.len() {
                        (members@[i].0@, meaning(members@[i].1))
                    } else {
                        (Seq::empty(), JsonView::Null)
                    },
            ),
        ),
    }
}

impl View for Json {
    type V = JsonView;

    open spec fn view(&self) -> JsonView {
        meaning(*self)
    }
}

impl JsonView {
    /// The value under a key of an object.
    pub open spec fn member(self, key: Seq<char>) -> Option<JsonView> {
        match self {
            JsonView::Object(members) => first_under(members, key),
            _ => None,
        }
    }

    pub open spec fn text(self) -> Option<Seq<char>> {
        match self {
            JsonView::Text(s) => Some(s),
            _ => None,
        }
    }

    /// The whole number, where 64 bits with a sign can hold it.
    pub open spec fn whole(self) -> Option<int> {
        match self {
            JsonView::Int(n) => if i64::MIN <= n <= i64::MAX {
                Some(n)
            } else {
                None
            },
            _ => None,
        }
    }

    /// The number as a double.
    pub open spec fn number(self, wholes: Wholes) -> Option<Double> {
        match self {
            JsonView::Float(f) => Some(f),
            JsonView::Int(n) => Some(wholes.nearest(n)),
            _ => None,
        }
    }

    pub open spec fn items(self) -> Option<Seq<JsonView>> {
        match self {
            JsonView::Array(items) => Some(items),
            _ => None,
        }
    }
}

/// The value of the first member with a key.
pub open spec fn first_under(members: Seq<(Seq<char>, JsonView)>, key: Seq<char>) -> Option<
    JsonView,
>
    decreases members.len(),
{
    if members.len() == 0 {
        None
    } else if members[0].0 == key {
        Some(members[0].1)
    } else {
        first_under(members.drop_first(), key)
    }
}

impl Json {
    /// The value under a key of an object.
    pub fn get(&self, key: &str) -> (r: Option<&Json>)
        ensures
            match r {
                Some(v) => self@.member(key@) == Some(v@),
                None => self@.member(key@) is None,
            },
    {
        match self {
            Json::Object(members) => {
                let mut i: usize = 0;
                let ghost all = self@->Object_0;
                assert(all.skip(0) =~= all);
                while i < members.len()
                    invariant
                        i <= members@.len(),
                        all == self@->Object_0,
                        *self == Json::Object(*members),
                        first_under(all, key@) == first_under(all.skip(i as int), key@),
                    decreases members@.len() - i,
                {
                    assert(all.skip(i as int)[0] == (members@[i as int].0@, members@[i as int].1@));
                    if same(members[i].0.as_str(), key) {
                        return Some(&members[i].1);
                    }
                    assert(all.skip(i as int).drop_first() =~= all.skip(i + 1));
                    i += 1;
                }
                None
            },
            _ => None,
        }
    }

    /// The text, if the value is one.
    pub fn as_text(&self) -> (r: Option<&String>)
        ensures
            match r {
                Some(s) => self@.text() == Some(s@),
                None => self@.text() is None,
            },
    {
        match self {
            Json::Text(s) => Some(s),
            _ => None,
        }
    }

    /// The whole number, if the value is one that 64 bits with a sign can hold.
    pub fn as_whole(&self) -> (r: Option<i64>)
        ensures
            match r {
                Some(n) => self@.whole() == Some(n as int),
                None => self@.whole() is None,
            },
    {
        match self {
            Json::Int(n) => Some(*n),
            Json::UInt(u) => if *u <= 0x7fff_ffff_ffff_ffff {
                Some(*u as i64)
            } else {
                None
            },
            _ => None,
        }
    }

    /// The number as a double, if the value is one.
    pub fn as_number(&self, wholes: &Wholes) -> (r: Option<Double>)
        ensures
            r == self@.number(*wholes),
    {
        match self {
            Json::Float(f) => Some(*f),
            Json::Int(n) => Some(wholes.double_of(*n as i128)),
            Json::UInt(u) => Some(wholes.double_of(*u as i128)),
            _ => None,
        }
    }

    /// The items, if the value is an array.
    pub fn as_items(&self) -> (r: Option<&Vec<Json>>)
        ensures
            match r {
                Some(v) => self@.items() == Some(v@.map_values(|x: Json| x@)),
                None => self@.items() is None,
            },
    {
        match self {
            Json::Array(items) => {
                assert(self@->Array_0 =~= items@.map_values(|x: Json| x@));
                Some(items)
            },
            _ => None,
        }
    }

    /// A second value that says the same.
    pub fn copy(&self) -> (r: Json)
        ensures
            r@ == self@,
        decreases self,
    {
        match self {
            Json::Null => Json::Null,
            Json::Bool(b) => Json::Bool(*b),
            Json::Int(n) => Json::Int(*n),
            Json::UInt(u) => Json::UInt(*u),
            Json::Float(f) => Json::Float(*f),
            Json::Text(s) => Json::Text(s.clone()),
            Json::Array(items) => {
                let mut out: Vec<Json> = Vec::new();
                let mut i: usize = 0;
                while i < items.len()
                    invariant
                        i <= items@.len(),
                        *self == Json::Array(*items),
                        out@.len() == i,
                        forall|j: int| 0 <= j < i ==> #[trigger] out@[j]@ == items@[j]@,
                    decreases items@.len() - i,
                {
                    assert(decreases_to!(*self => self->Array_0@[i as int]));
                    let one = items[i].copy();
                    out.push(one);
                    i += 1;
                }
                let r = Json::Array(out);
                assert forall|j: int| 0 <= j < items@.len() implies r@->Array_0[j]
                    == self@->Array_0[j] by {
                    assert(out@[j]@ == items@[j]@);
                }
                assert(r@->Array_0 =~= self@->Array_0);
                r
            },
            Json::Object(members) => {
                let mut out: Vec<(String, Json)> = Vec::new();
                let mut i: usize = 0;
                while i < members.len()
                    invariant
                        i <= members@.len(),
                        *self == Json::Object(*members),
                        out@.len() == i,
                        forall|j: int|
                            0 <= j < i ==> (#[trigger] out@[j]).0@ == members@[j].0@ && out@[j].1@
                                == members@[j].1@,
                    decreases members@.len() - i,
                {
                    assert(decreases_to!(*self => self->Object_0@[i as int].1));
                    let one = members[i].1.copy();
                    out.push((members[i].0.clone(), one));
                    i += 1;
                }
                let r = Json::Object(out);
                assert(r@->Object_0 =~= self@->Object_0);
                r
            },
        }
    }
}

/// What a list of JSON values says.
pub open spec fn json_views(s: Seq<Json>) -> Seq<JsonView> {
    s.map_values(|v: Json| v@)
}

/// Makes an array.
pub fn array(items: Vec<Json>) -> (r: Json)
    ensures
        r@ == JsonView::Array(json_views(items@)),
{
    let r = Json::Array(items);
    assert(r@->Array_0 =~= json_views(items@));
    r
}

/// The members of an object in the making.
#[derive(Debug)]
pub struct Members {
    pub list: Vec<(String, Json)>,
}

impl View for Members {
    type V = Seq<(Seq<char>, JsonView)>;

    open spec fn view(&self) -> Seq<(Seq<char>, JsonView)> {
        self.list@.map_values(|m: (String, Json)| (m.0@, m.1@))
    }
}

impl Members {
    pub fn new() -> (r: Members)
        ensures
            r@ == Seq::<(Seq<char>, JsonView)>::empty(),
    {
        let r = Members { list: Vec::new() };
        assert(r@ =~= Seq::empty());
        r
    }

    /// Adds a member.
    pub fn put(&mut self, key: &str, value: Json)
        ensures
            final(self)@ == old(self)@.push((key@, value@)),
    {
        let ghost before = self@;
        self.list.push((key.to_owned(), value));
        assert(self@ =~= before.push((key@, value@)));
    }

    /// Makes the object of the members.
    pub fn object(self) -> (r: Json)
        ensures
            r@ == JsonView::Object(self@),
    {
        let r = Json::Object(self.list);
        assert(r@->Object_0 =~= self@);
        r
    }
}

/// The doubles in a value, from front to back.
pub open spec fn doubles_of(v: JsonView) -> Seq<Double>
    decreases v,
{
    match v {
        JsonView::Float(f) => seq![f],
        JsonView::Array(items) => doubles_among(items),
        JsonView::Object(members) => doubles_under(members),
        _ => Seq::empty(),
    }
}

pub open spec fn doubles_among(items: Seq<JsonView>) -> Seq<Double>
    decreases items,
{
    if items.len() == 0 {
        Seq::empty()
    } else {
        doubles_among(items.take(items.len() - 1)) + doubles_of(items[items.len() - 1])
    }
}

pub open spec fn doubles_under(members: Seq<(Seq<char>, JsonView)>) -> Seq<Double>
    decreases members,
{
    if members.len() == 0 {
        Seq::empty()
    } else {
        doubles_under(members.take(members.len() - 1)) + doubles_of(members[members.len() - 1].1)
    }
}

/// Lists the doubles in a value: those for which a canonical text needs a
/// decimal text.
pub fn doubles_in(v: &Json) -> (r: Vec<Double>)
    ensures
        r@ == doubles_of(v@),
    decreases v,
{
    match v {
        Json::Float(f) => {
            let mut out: Vec<Double> = Vec::new();
            out.push(*f);
            assert(out@ =~= seq![*f]);
            out
        },
        Json::Array(items) => {
            let ghost all = v@->Array_0;
            let mut out: Vec<Double> = Vec::new();
            let mut i: usize = 0;
            assert(out@ =~= doubles_among(all.take(0)));
            while i < items.len()
                invariant
                    i <= items@.len(),
                    *v == Json::Array(*items),
                    all == v@->Array_0,
                    out@ =~= doubles_among(all.take(i as int)),
                decreases items@.len() - i,
            {
                assert(decreases_to!(*v => v->Array_0@[i as int]));
                let mut more = doubles_in(&items[i]);
                assert(all.take(i + 1).take(i as int) =~= all.take(i as int));
                assert(all.take(i + 1)[i as int] == items@[i as int]@);
                out.append(&mut more);
                i += 1;
            }
            assert(all.take(i as int) =~= all);
            out
        },
        Json::Object(members) => {
            let ghost all = v@->Object_0;
            let mut out: Vec<Double> = Vec::new();
            let mut i: usize = 0;
            assert(out@ =~= doubles_under(all.take(0)));
            while i < members.len()
                invariant
                    i <= members@.len(),
                    *v == Json::Object(*members),
                    all == v@->Object_0,
                    out@ =~= doubles_under(all.take(i as int)),
                decreases members@.len() - i,
            {
                assert(decreases_to!(*v => v->Object_0@[i as int].1));
                let mut more = doubles_in(&members[i].1);
                assert(all.take(i + 1).take(i as int) =~= all.take(i as int));
                assert(all.take(i + 1)[i as int].1 == members@[i as int].1@);
                out.append(&mut more);
                i += 1;
            }
            assert(all.take(i as int) =~= all);
            out
        },
        _ => Vec::new(),
    }
}

} // verus!
