use vstd::prelude::*;

verus! {

/// A JSON document value.
///
/// Numbers are kept as their source lexeme (a validated sequence of digits,
/// sign, fraction and exponent characters), so a document round-trips without
/// loss and no inexact arithmetic is ever involved.  Object members are kept
/// as an ordered list of pairs, preserving member order.
#[derive(Debug, PartialEq)]
pub enum JsonValue {
    Null,
    Bool(bool),
    Num(Vec<char>),
    Str(Vec<char>),
    Arr(Vec<JsonValue>),
    Obj(Vec<(Vec<char>, JsonValue)>),
}

/// The mathematical shape of a `JsonValue`: the same tree over `Seq`.
#[verifier::ext_equal]
pub enum JsonView {
    Null,
    Bool(bool),
    Num(Seq<char>),
    Str(Seq<char>),
    Arr(Seq<JsonView>),
    Obj(Seq<(Seq<char>, JsonView)>),
}

/// The abstraction of a concrete `JsonValue`.
pub open spec fn jview(v: JsonValue) -> JsonView
    decreases v,
{
    match v {
        JsonValue::Null => JsonView::Null,
        JsonValue::Bool(b) => JsonView::Bool(b),
        JsonValue::Num(t) => JsonView::Num(t@),
        JsonValue::Str(s) => JsonView::Str(s@),
        JsonValue::Arr(es) => JsonView::Arr(views_of(es@)),
        JsonValue::Obj(ps) => JsonView::Obj(pair_views_of(ps@)),
    }
}

impl View for JsonValue {
    type V = JsonView;

    open spec fn view(&self) -> JsonView {
        jview(*self)
    }
}

/// The abstractions of the elements of a vector of values.
pub open spec fn views_of(es: Seq<JsonValue>) -> Seq<JsonView>
    decreases es,
{
    Seq::new(
        es.len(),
        |i: int|
            if 0 <= i < es.len() {
                jview(es[i])
            } else {
                JsonView::Null
            },
    )
}

/// The abstractions of the members of a vector of key-value pairs.
pub open spec fn pair_views_of(ps: Seq<(Vec<char>, JsonValue)>) -> Seq<(Seq<char>, JsonView)>
    decreases ps,
{
    Seq::new(
        ps.len(),
        |i: int|
            if 0 <= i < ps.len() {
                (ps[i].0@, jview(ps[i].1))
            } else {
                (Seq::<char>::empty(), JsonView::Null)
            },
    )
}

/// A value is well formed when every number token in it matches the JSON
/// number grammar.
pub open spec fn wf_json(v: JsonView) -> bool
    decreases v,
{
    match v {
        JsonView::Null => true,
        JsonView::Bool(_) => true,
        JsonView::Num(t) => crate::json_text::wf_num(t),
        JsonView::Str(_) => true,
        JsonView::Arr(es) => forall|i: int| 0 <= i < es.len() ==> wf_json(#[trigger] es[i]),
        JsonView::Obj(ps) => forall|i: int| 0 <= i < ps.len() ==> wf_json(#[trigger] ps[i].1),
    }
}

} // verus!
