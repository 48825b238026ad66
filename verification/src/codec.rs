use vstd::prelude::*;

use crate::errors::StoreError;
use crate::secret_map::{map_of_entries, unique_keys, SecretMap};

verus! {

/// The canonical textual form of a mapping: the JSON object whose members are
/// the mapping's pairs. The serializer emits keys in sorted order, so the text
/// depends on the mathematical map alone.
pub uninterp spec fn json_of(m: Map<Seq<char>, Seq<char>>) -> Seq<char>;

/// Relies on serde_json::to_string_pretty applied to an ordered map of
/// strings: the text it produces depends only on the key-value mapping (a
/// BTreeMap iterates its distinct keys in sorted order, and a later insert of
/// an equal key replaces the earlier one), and serializing a map with string
/// keys and string values cannot fail.
#[verifier::external_body]
fn json_encode(m: &SecretMap) -> (r: String)
    ensures
        r@ == json_of(m@),
{
    let entries: std::collections::BTreeMap<&str, &str> =
        m.entries.iter().map(|p| (p.0.as_str(), p.1.as_str())).collect();
    serde_json::to_string_pretty(&entries).expect("a map of strings serializes")
}

/// Relies on serde_json::from_str::<BTreeMap<String, String>>: it parses the
/// object text that the serializer writes back into exactly the mapping that
/// was serialized, it rejects text that is not a JSON object of strings, and
/// a BTreeMap holds each key once.
#[verifier::external_body]
fn json_decode(text: &str) -> (r: Option<Vec<(String, String)>>)
    ensures
        r matches Some(es) ==> unique_keys(es@),
        r matches Some(es) ==> forall|m: Map<Seq<char>, Seq<char>>|
            text@ == #[trigger] json_of(m) ==> map_of_entries(es@) == m,
        r is None ==> forall|m: Map<Seq<char>, Seq<char>>| text@ != #[trigger] json_of(m),
{
    match serde_json::from_str::<std::collections::BTreeMap<String, String>>(text) {
        Ok(m) => Some(m.into_iter().collect()),
        Err(_) => None,
    }
}

/// Serializes the mapping to its canonical text.
pub fn encode(m: &SecretMap) -> (r: String)
    ensures
        r@ == json_of(m@),
{
    json_encode(m)
}

/// Parses canonical text back into the mapping it encodes: decoding the
/// encoding of any map returns exactly that map, the empty map included
/// (round trip). Text that encodes no map is malformed.
pub fn decode(text: &str) -> (r: Result<SecretMap, StoreError>)
    ensures
        forall|m: Map<Seq<char>, Seq<char>>|
            text@ == #[trigger] json_of(m) ==> (r matches Ok(sm) && sm@ == m),
        r matches Ok(sm) ==> sm.wf(),
        r matches Err(e) ==> e == StoreError::MalformedStore,
{
    match json_decode(text) {
        Some(es) => Ok(SecretMap::from_entries(es)),
        None => Err(StoreError::MalformedStore),
    }
}

} // verus!
