//! The highscore table's storage format: a JSON object from name to score.
use vstd::prelude::*;
use std::collections::BTreeMap;
use crate::race::SharedModel;
use crate::scores::names_unique;

verus! {

/// The entries of a score table as plain values.
pub open spec fn entries(v: Seq<(String, i32)>) -> Seq<(Seq<char>, i32)> {
    v.map_values(|e: (String, i32)| (e.0@, e.1))
}

/// The JSON text of a score table.
pub uninterp spec fn highscores_json(e: Seq<(Seq<char>, i32)>) -> Seq<char>;

/// The score table a JSON text holds, if it holds one.
pub uninterp spec fn highscores_parsed(text: Seq<char>) -> Option<Seq<(Seq<char>, i32)>>;

/// Relies on `serde_json::to_string_pretty` of a `BTreeMap` from name to
/// score: the table as one JSON object, a member per name. It fails only
/// for a failing `Serialize` or for keys that are not strings, neither of
/// which a map from `&str` to `i32` has.
#[verifier::external_body]
fn encode_table(v: &Vec<(String, i32)>) -> (r: Option<String>)
    ensures
        r is Some,
        r matches Some(t) ==> t@ == highscores_json(entries(v@)),
{
    let m: BTreeMap<&str, i32> = v.iter().map(|e| (e.0.as_str(), e.1)).collect();
    serde_json::to_string_pretty(&m).ok()
}

/// Relies on `serde_json::from_str` into a `BTreeMap` from name to score:
/// the table of a JSON object whose members are integers, with one entry
/// per name, as the keys of a map are.
#[verifier::external_body]
fn decode_table(text: &str) -> (r: Option<Vec<(String, i32)>>)
    ensures
        match r {
            Some(v) => names_unique(v@) && highscores_parsed(text@) == Some(entries(v@)),
            None => highscores_parsed(text@) is None,
        },
{
    serde_json::from_str::<BTreeMap<String, i32>>(text).ok().map(|m| m.into_iter().collect())
}

/// The score table stored as JSON: `None` where the text holds none.
pub fn parse_highscores(text: &String) -> (r: Option<Vec<(String, i32)>>)
    ensures
        match r {
            Some(v) => names_unique(v@) && highscores_parsed(text@) == Some(entries(v@)),
            None => highscores_parsed(text@) is None,
        },
{
    decode_table(text.as_str())
}

impl SharedModel {
    /// The highscores as JSON, for storage.
    pub fn highscores_text(&self) -> (r: Option<String>)
        ensures
            r is Some,
            r matches Some(t) ==> t@ == highscores_json(entries(self.highscores@)),
    {
        encode_table(&self.highscores)
    }
}

} // verus!
