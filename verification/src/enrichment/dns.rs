//! Name records of a domain, and the names of an address.
//!
//! The resolver is asked by the caller; what is decided here is whether the
//! answers say enough to be kept, and what the document is.

use crate::json::{JsonModel, JsonValue};
use crate::models::DnsData;
use crate::text::strs;
use vstd::prelude::*;

verus! {

/// The records say something: there is an address, a mail exchange or a
/// name server.
pub open spec fn is_resolved(d: DnsData) -> bool {
    d.a_records@.len() > 0 || d.mx_records@.len() > 0 || d.ns_records@.len() > 0
}

/// The document of the records of a domain.
pub open spec fn records_document(d: DnsData) -> JsonModel {
    JsonModel::Object(
        seq![
            ("a_records"@, JsonModel::texts(strs(d.a_records@))),
            ("aaaa_records"@, JsonModel::texts(strs(d.aaaa_records@))),
            ("mx_records"@, JsonModel::texts(strs(d.mx_records@))),
            ("txt_records"@, JsonModel::texts(strs(d.txt_records@))),
            ("ns_records"@, JsonModel::texts(strs(d.ns_records@))),
            ("cname_records"@, JsonModel::texts(strs(d.cname_records@))),
        ],
    )
}

/// The document of the names of an address.
pub open spec fn names_document(names: Seq<Seq<char>>) -> JsonModel {
    JsonModel::Object(seq![("ptr_records"@, JsonModel::texts(names))])
}

/// The document of the records of a domain, or nothing where there is
/// neither an address nor a mail exchange nor a name server.
pub fn domain_document(data: &DnsData) -> (r: Option<JsonValue>)
    ensures
        r is Some <==> is_resolved(*data),
        r is Some ==> r->0@ == records_document(*data),
{
    if data.a_records.len() == 0 && data.mx_records.len() == 0 && data.ns_records.len() == 0 {
        return None;
    }
    let mut members: Vec<(String, JsonValue)> = Vec::new();
    members.push(JsonValue::member("a_records", JsonValue::texts(&data.a_records)));
    members.push(JsonValue::member("aaaa_records", JsonValue::texts(&data.aaaa_records)));
    members.push(JsonValue::member("mx_records", JsonValue::texts(&data.mx_records)));
    members.push(JsonValue::member("txt_records", JsonValue::texts(&data.txt_records)));
    members.push(JsonValue::member("ns_records", JsonValue::texts(&data.ns_records)));
    members.push(JsonValue::member("cname_records", JsonValue::texts(&data.cname_records)));
    let doc = JsonValue::from_members(members);
    assert(doc@->Object_0 =~= records_document(*data)->Object_0);
    Some(doc)
}

/// The document of the names of an address, or nothing where it has none.
pub fn reverse_document(ptr_records: &Vec<String>) -> (r: Option<JsonValue>)
    ensures
        r is Some <==> ptr_records@.len() > 0,
        r is Some ==> r->0@ == names_document(strs(ptr_records@)),
{
    if ptr_records.len() == 0 {
        return None;
    }
    let mut members: Vec<(String, JsonValue)> = Vec::new();
    members.push(JsonValue::member("ptr_records", JsonValue::texts(ptr_records)));
    let doc = JsonValue::from_members(members);
    assert(doc@->Object_0 =~= names_document(strs(ptr_records@))->Object_0);
    Some(doc)
}

} // verus!
