//! JSON at the engine's boundary: the flat name-to-value mapping that
//! `load` reads, and the pretty-printed object that `dump` emits. Parsing
//! and rendering are the `serde_json` crate's; what they produce is named
//! here as a function of the text or of the entry map alone.

use vstd::prelude::*;

verus! {

use crate::engine::SettingError;

/// Declares `serde_json::Error`, what the crate's parsing and rendering
/// return on failure, as an opaque type.
#[verifier::external_type_specification]
#[verifier::external_body]
pub struct ExSerdeJsonError(serde_json::Error);

/// The string-to-string object that `s` parses as, when `s` is valid JSON
/// of exactly that shape.
pub uninterp spec fn json_object_of(s: Seq<char>) -> Option<Map<Seq<char>, Seq<char>>>;

/// The pretty-printed JSON object rendering `m`, keys in sorted order.
pub uninterp spec fn json_pretty_of(m: Map<Seq<char>, Seq<char>>) -> Seq<char>;

/// The map formed by the pairs, a later pair overriding an earlier one of
/// the same key.
pub open spec fn pairs_to_map(ps: Seq<(Seq<char>, Seq<char>)>) -> Map<Seq<char>, Seq<char>>
    decreases ps.len(),
{
    if ps.len() == 0 {
        Map::empty()
    } else {
        pairs_to_map(ps.drop_last()).insert(ps.last().0, ps.last().1)
    }
}

/// Relies on `serde_json::from_str` deserializing a JSON object of strings
/// into a string-keyed map: whether the text parses, and the entries it
/// parses to, depend on the text alone; the order the entries come back in
/// does not, and nothing is said of it.
#[verifier::external_body]
fn parse_object(s: &str) -> (r: Result<Vec<(String, String)>, serde_json::Error>)
    ensures
        r is Ok <==> json_object_of(s@) is Some,
        r matches Ok(v) ==> {
            &&& json_object_of(s@) == Some(pairs_to_map(v.deep_view()))
            &&& forall|i: int, j: int| 0 <= i < j < v@.len() ==> v@[i].0@ != v@[j].0@
        },
{
    match serde_json::from_str::<std::collections::HashMap<String, String>>(s) {
        Ok(m) => Ok(m.into_iter().collect()),
        Err(e) => Err(e),
    }
}

/// Relies on `serde_json::to_string_pretty` over an ordered, string-keyed
/// map collected from the entries: the rendering is a function of the
/// entry map alone, keys in sorted order. It always succeeds: serde_json
/// fails only when a `Serialize` impl reports an error or a map key is not
/// a string, and neither can happen for a string-keyed map of strings
/// written into an in-memory buffer.
#[verifier::external_body]
fn pretty_object(entries: &Vec<(String, String)>) -> (r: Result<String, serde_json::Error>)
    ensures
        r is Ok,
        r matches Ok(out) ==> out@ == json_pretty_of(pairs_to_map(entries.deep_view())),
{
    let map: std::collections::BTreeMap<String, String> = entries.iter().cloned().collect();
    serde_json::to_string_pretty(&map)
}

/// Parses the flat name-to-value mapping handed to `load`. Returns the
/// entries (in no promised order) exactly when the text is a JSON object
/// of strings, and `MalformedLoadFile` otherwise.
pub fn parse_load_file(s: &str) -> (r: Result<Vec<(String, String)>, SettingError>)
    ensures
        r is Ok <==> json_object_of(s@) is Some,
        r matches Ok(v) ==> {
            &&& json_object_of(s@) == Some(pairs_to_map(v.deep_view()))
            &&& forall|i: int, j: int| 0 <= i < j < v@.len() ==> v@[i].0@ != v@[j].0@
        },
        r matches Err(e) ==> e == SettingError::MalformedLoadFile,
{
    match parse_object(s) {
        Ok(v) => Ok(v),
        Err(_) => Err(SettingError::MalformedLoadFile),
    }
}

/// The extracted entries among per-setting results: the settings whose
/// extraction failed are omitted, the rest keep their order and values.
pub open spec fn collect_dump_spec(rs: Seq<(Seq<char>, Option<Seq<char>>)>) -> Seq<
    (Seq<char>, Seq<char>),
>
    decreases rs.len(),
{
    if rs.len() == 0 {
        Seq::empty()
    } else {
        let rest = collect_dump_spec(rs.drop_last());
        match rs.last().1 {
            Some(v) => rest.push((rs.last().0, v)),
            None => rest,
        }
    }
}

/// Renders the `dump` output over per-setting extraction results: settings
/// whose extraction failed are omitted, the rest are rendered as one
/// pretty-printed JSON object, keys sorted.
pub fn render_dump(results: &Vec<(String, Option<String>)>) -> (r: String)
    ensures
        r@ == json_pretty_of(pairs_to_map(collect_dump_spec(results.deep_view()))),
{
    let mut entries: Vec<(String, String)> = Vec::new();
    let mut i: usize = 0;
    proof {
        assert(results.deep_view().take(0) =~= Seq::<(Seq<char>, Option<Seq<char>>)>::empty());
        assert(entries.deep_view() =~= collect_dump_spec(results.deep_view().take(0)));
    }
    while i < results.len()
        invariant
            0 <= i <= results@.len(),
            results@.len() == results.deep_view().len(),
            entries.deep_view() == collect_dump_spec(results.deep_view().take(i as int)),
        decreases results@.len() - i,
    {
        let ghost prev = entries.deep_view();
        let ghost rdv = results.deep_view();
        proof {
            assert(rdv.take(i + 1).drop_last() =~= rdv.take(i as int));
            assert(rdv.take(i + 1).last() == rdv[i as int]);
        }
        match &results[i].1 {
            Some(v) => {
                entries.push((results[i].0.clone(), v.clone()));
                proof {
                    assert(entries.deep_view() =~= prev.push(
                        (rdv[i as int].0, rdv[i as int].1->0),
                    ));
                }
            },
            None => {},
        }
        i += 1;
    }
    proof {
        assert(results.deep_view().take(results.deep_view().len() as int) =~= results.deep_view());
    }
    match pretty_object(&entries) {
        Ok(out) => out,
        Err(_) => vstd::pervasive::unreached(),
    }
}

} // verus!
