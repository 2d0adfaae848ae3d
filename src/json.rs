use vstd::prelude::*;

use crate::attrs::AttrPairs;
use crate::entry::{LdapEntry, CoreError, all_wf, entries_view};
use crate::export::{filter_entries, names_of, selected};

verus! {

#[verifier::external_type_specification]
#[verifier::external_body]
pub struct ExJsonError(serde_json::Error);

/// What `serde_json::to_string_pretty` writes for an array of entry objects
/// `{"dn": dn, "attributes": {name: [values]}}`, attributes in the given order.
pub uninterp spec fn pretty_json_of(entries: Seq<(Seq<char>, AttrPairs)>) -> Seq<char>;

/// Relies on `serde_json::to_string_pretty`, applied to the array of entry
/// objects built from the entries: the text depends on the entries alone,
/// and it cannot fail, since a `Value` of strings, arrays and maps with
/// string keys always serialises, and writing into a `Vec` never fails.
#[verifier::external_body]
fn json_pretty(entries: &Vec<LdapEntry>) -> (r: Result<String, serde_json::Error>)
    ensures
        r is Ok,
        r matches Ok(s) ==> s@ == pretty_json_of(entries_view(entries@)),
{
    let items: Vec<serde_json::Value> = entries.iter().map(|e| {
        let attrs: serde_json::Map<String, serde_json::Value> = e.attributes.pairs().iter()
            .map(|(k, v)| (k.clone(), serde_json::Value::from(v.clone()))).collect();
        let mut obj = serde_json::Map::new();
        obj.insert("dn".to_string(), serde_json::Value::from(e.dn.clone()));
        obj.insert("attributes".to_string(), serde_json::Value::Object(attrs));
        serde_json::Value::Object(obj)
    }).collect();
    serde_json::to_string_pretty(&serde_json::Value::Array(items))
}

/// Relies on the `Display` of `serde_json::Error`: its message.
#[verifier::external_body]
fn json_error_text(e: &serde_json::Error) -> (r: String) {
    e.to_string()
}

/// The entries as the selection leaves them, as views.
pub open spec fn selected_view(entries: Seq<LdapEntry>, names: Seq<Seq<char>>) -> Seq<
    (Seq<char>, AttrPairs),
> {
    entries.map_values(|e: LdapEntry| (e.dn@, selected(e.attributes@, names)))
}

/// The entries, with the requested attributes, as a pretty-printed JSON array.
pub fn to_string(entries: &[LdapEntry], attributes: &[String]) -> (r: Result<String, CoreError>)
    requires
        all_wf(entries@),
    ensures
        r is Ok,
        r matches Ok(s) ==> s@ == pretty_json_of(selected_view(entries@, names_of(attributes@))),
{
    let filtered = filter_entries(entries, attributes);
    assert(entries_view(filtered@) =~= selected_view(entries@, names_of(attributes@)));
    match json_pretty(&filtered) {
        Ok(s) => Ok(s),
        Err(e) => {
            let msg = String::from_str("JSON serialization failed: ").concat(json_error_text(&e).as_str());
            Err(CoreError::EncodingFailed(msg))
        },
    }
}

} // verus!
