//! A JSON value as the client receives it, with numbers kept as their text.
use vstd::prelude::*;

verus! {

/// A JSON value. Numbers keep the text they were written with.
pub enum Json {
    Null,
    Bool(bool),
    Number(String),
    Text(String),
    Array(Vec<Json>),
    Object(Vec<(String, Json)>),
}

/// The strings among `items`, in order; other items are skipped.
pub open spec fn string_items(items: Seq<Json>) -> Seq<Seq<char>>
    decreases items.len(),
{
    if items.len() == 0 {
        Seq::empty()
    } else {
        string_items(items.drop_last()) + match items.last() {
            Json::Text(s) => seq![s@],
            _ => Seq::<Seq<char>>::empty(),
        }
    }
}

} // verus!
