//! Location of an address: country, city and network.
//!
//! The location databases are read by the caller; what is decided here is
//! whether a record says enough to be kept, and what the document is.

use crate::json::{JsonModel, JsonValue};
use crate::models::{opt_str, GeoIpData};
use vstd::prelude::*;

verus! {

/// Whether anything can be looked up: at least one of the two databases is
/// there.
pub fn can_look_up(has_city_db: bool, has_asn_db: bool) -> (b: bool)
    ensures
        b == (has_city_db || has_asn_db),
{
    has_city_db || has_asn_db
}

/// The record says where the address is, or to which network it belongs.
pub open spec fn is_located(d: GeoIpData) -> bool {
    d.country_code is Some || d.asn is Some
}

/// The document of a record.
pub open spec fn location_document(d: GeoIpData) -> JsonModel {
    JsonModel::Object(
        seq![
            ("country_code"@, JsonModel::opt_text(opt_str(d.country_code))),
            ("country_name"@, JsonModel::opt_text(opt_str(d.country_name))),
            ("city"@, JsonModel::opt_text(opt_str(d.city))),
            ("region"@, JsonModel::opt_text(opt_str(d.region))),
            ("latitude"@, JsonModel::opt_decimal(opt_str(d.latitude))),
            ("longitude"@, JsonModel::opt_decimal(opt_str(d.longitude))),
            (
                "asn"@,
                JsonModel::opt_int(
                    match d.asn {
                        Some(n) => Some(n as int),
                        None => None,
                    },
                ),
            ),
            ("as_org"@, JsonModel::opt_text(opt_str(d.as_org))),
        ],
    )
}

/// The document of a record, or nothing where the record has neither a
/// country code nor a network number.
pub fn document(data: &GeoIpData) -> (r: Option<JsonValue>)
    ensures
        r is Some <==> is_located(*data),
        r is Some ==> r->0@ == location_document(*data),
{
    if data.country_code.is_none() && data.asn.is_none() {
        return None;
    }
    let asn: Option<i64> = match data.asn {
        Some(n) => Some(n as i64),
        None => None,
    };
    let mut members: Vec<(String, JsonValue)> = Vec::new();
    members.push(JsonValue::member("country_code", JsonValue::opt_text(&data.country_code)));
    members.push(JsonValue::member("country_name", JsonValue::opt_text(&data.country_name)));
    members.push(JsonValue::member("city", JsonValue::opt_text(&data.city)));
    members.push(JsonValue::member("region", JsonValue::opt_text(&data.region)));
    members.push(JsonValue::member("latitude", JsonValue::opt_decimal(&data.latitude)));
    members.push(JsonValue::member("longitude", JsonValue::opt_decimal(&data.longitude)));
    members.push(JsonValue::member("asn", JsonValue::opt_int(asn)));
    members.push(JsonValue::member("as_org", JsonValue::opt_text(&data.as_org)));
    let doc = JsonValue::from_members(members);
    assert(doc@->Object_0 =~= location_document(*data)->Object_0);
    Some(doc)
}

} // verus!
