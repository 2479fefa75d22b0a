//! JSON values as trees.

use crate::text;
use vstd::prelude::*;

verus! {

/// A JSON value. The members of an object keep their order.
#[derive(Debug, PartialEq)]
pub enum JsonTree {
    Null,
    Bool(bool),
    /// A number, as it is written.
    Number(String),
    Text(String),
    List(Vec<JsonTree>),
    Object(Vec<(String, JsonTree)>),
}

/// What a JSON value says.
pub enum JsonModel {
    Null,
    Bool(bool),
    Number(Seq<char>),
    Text(Seq<char>),
    List(Seq<JsonModel>),
    Object(Seq<(Seq<char>, JsonModel)>),
}

/// What a tree says.
pub open spec fn model_of(tree: JsonTree) -> JsonModel
    decreases tree,
{
    match tree {
        JsonTree::Null => JsonModel::Null,
        JsonTree::Bool(b) => JsonModel::Bool(b),
        JsonTree::Number(n) => JsonModel::Number(n@),
        JsonTree::Text(t) => JsonModel::Text(t@),
        JsonTree::List(items) => JsonModel::List(models_of(items@)),
        JsonTree::Object(members) => JsonModel::Object(members_of(members@)),
    }
}

pub open spec fn models_of(items: Seq<JsonTree>) -> Seq<JsonModel>
    decreases items,
{
    Seq::new(
        items.len(),
        |i: int|
            if 0 <= i < items.len() {
                model_of(items[i])
            } else {
                JsonModel::Null
            },
    )
}

pub open spec fn members_of(members: Seq<(String, JsonTree)>) -> Seq<(Seq<char>, JsonModel)>
    decreases members,
{
    Seq::new(
        members.len(),
        |i: int|
            if 0 <= i < members.len() {
                (members[i].0@, model_of(members[i].1))
            } else {
                (Seq::empty(), JsonModel::Null)
            },
    )
}

impl View for JsonTree {
    type V = JsonModel;

    open spec fn view(&self) -> JsonModel {
        model_of(*self)
    }
}

impl Clone for JsonTree {
    fn clone(&self) -> (r: Self)
        ensures
            r@ == self@,
        decreases self,
    {
        match self {
            JsonTree::Null => JsonTree::Null,
            JsonTree::Bool(b) => JsonTree::Bool(*b),
            JsonTree::Number(n) => JsonTree::Number(n.clone()),
            JsonTree::Text(t) => JsonTree::Text(t.clone()),
            JsonTree::List(items) => {
                let mut out: Vec<JsonTree> = Vec::new();
                let mut i: usize = 0;
                while i < items.len()
                    invariant
                        i <= items.len(),
                        out.len() == i,
                        *self == JsonTree::List(*items),
                        forall|j: int| 0 <= j < i ==> (#[trigger] out@[j])@ == items@[j]@,
                    decreases items.len() - i,
                {
                    assert(decreases_to!(*self => self->List_0));
                    assert(decreases_to!(items => items@));
                    assert(decreases_to!(items@ => items@[i as int]));
                    out.push(items[i].clone());
                    i += 1;
                }
                assert(models_of(out@) =~= models_of(items@));
                JsonTree::List(out)
            },
            JsonTree::Object(members) => {
                let mut out: Vec<(String, JsonTree)> = Vec::new();
                let mut i: usize = 0;
                while i < members.len()
                    invariant
                        i <= members.len(),
                        out.len() == i,
                        *self == JsonTree::Object(*members),
                        forall|j: int|
                            0 <= j < i ==> (#[trigger] out@[j]).0@ == members@[j].0@
                                && out@[j].1@ == members@[j].1@,
                    decreases members.len() - i,
                {
                    assert(decreases_to!(*self => self->Object_0));
                    assert(decreases_to!(members => members@));
                    assert(decreases_to!(members@ => members@[i as int]));
                    assert(decreases_to!(members@[i as int] => members@[i as int].1));
                    out.push((members[i].0.clone(), members[i].1.clone()));
                    i += 1;
                }
                assert(members_of(out@) =~= members_of(members@));
                JsonTree::Object(out)
            },
        }
    }
}

} // verus!
