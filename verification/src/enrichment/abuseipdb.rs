//! Reputation of an address, as the abuse database reports it.
//!
//! The database is asked by the caller; what is decided here is what the
//! document of a report is, and what a report to the database holds.

pub mod categories;

use crate::json::{JsonModel, JsonValue};
use crate::models::opt_str;
use crate::text::{concat, decimal, i64_to_string, strs};
use vstd::prelude::*;

verus! {

/// Where the abuse database is.
pub const ABUSEIPDB_API_URL: &'static str = "https://api.abuseipdb.com/api/v2";

/// For how many days back reports are asked for.
pub const MAX_AGE_IN_DAYS: i64 = 90;

/// What the abuse database says about an address.
#[derive(Debug)]
pub struct AbuseIpDbData {
    pub ip_address: String,
    pub is_public: bool,
    pub ip_version: i32,
    pub is_whitelisted: Option<bool>,
    pub abuse_confidence_score: i32,
    pub country_code: Option<String>,
    pub usage_type: Option<String>,
    pub isp: Option<String>,
    pub domain: Option<String>,
    pub hostnames: Vec<String>,
    pub total_reports: i32,
    pub num_distinct_users: i32,
    pub last_reported_at: Option<String>,
}

/// The document of what the abuse database says.
pub open spec fn reputation_document(d: AbuseIpDbData) -> JsonModel {
    JsonModel::Object(
        seq![
            ("abuse_confidence_score"@, JsonModel::Int(d.abuse_confidence_score as int)),
            ("country_code"@, JsonModel::opt_text(opt_str(d.country_code))),
            ("usage_type"@, JsonModel::opt_text(opt_str(d.usage_type))),
            ("isp"@, JsonModel::opt_text(opt_str(d.isp))),
            ("domain"@, JsonModel::opt_text(opt_str(d.domain))),
            ("hostnames"@, JsonModel::texts(strs(d.hostnames@))),
            ("total_reports"@, JsonModel::Int(d.total_reports as int)),
            ("num_distinct_users"@, JsonModel::Int(d.num_distinct_users as int)),
            ("last_reported_at"@, JsonModel::opt_text(opt_str(d.last_reported_at))),
            ("is_whitelisted"@, JsonModel::opt_bool(d.is_whitelisted)),
        ],
    )
}

/// The document of what the abuse database says.
pub fn document(data: &AbuseIpDbData) -> (r: JsonValue)
    ensures
        r@ == reputation_document(*data),
{
    let mut members: Vec<(String, JsonValue)> = Vec::new();
    members.push(
        JsonValue::member(
            "abuse_confidence_score",
            JsonValue::Int(data.abuse_confidence_score as i64),
        ),
    );
    members.push(JsonValue::member("country_code", JsonValue::opt_text(&data.country_code)));
    members.push(JsonValue::member("usage_type", JsonValue::opt_text(&data.usage_type)));
    members.push(JsonValue::member("isp", JsonValue::opt_text(&data.isp)));
    members.push(JsonValue::member("domain", JsonValue::opt_text(&data.domain)));
    members.push(JsonValue::member("hostnames", JsonValue::texts(&data.hostnames)));
    members.push(JsonValue::member("total_reports", JsonValue::Int(data.total_reports as i64)));
    members.push(
        JsonValue::member("num_distinct_users", JsonValue::Int(data.num_distinct_users as i64)),
    );
    members.push(JsonValue::member("last_reported_at", JsonValue::opt_text(&data.last_reported_at)));
    members.push(JsonValue::member("is_whitelisted", JsonValue::opt_bool(data.is_whitelisted)));
    let doc = JsonValue::from_members(members);
    assert(doc@->Object_0 =~= reputation_document(*data)->Object_0);
    doc
}

/// The numbers in decimal notation, with a comma between one and the next.
pub open spec fn joined(numbers: Seq<i32>) -> Seq<char>
    decreases numbers.len(),
{
    if numbers.len() == 0 {
        Seq::empty()
    } else if numbers.len() == 1 {
        decimal(numbers[0] as int)
    } else {
        joined(numbers.drop_last()) + seq![','] + decimal(numbers.last() as int)
    }
}

/// The categories of a report as the database wants them: in decimal
/// notation, with a comma between one and the next.
pub fn join_categories(categories: &Vec<i32>) -> (r: String)
    ensures
        r@ == joined(categories@),
{
    let mut r = String::new();
    let mut i: usize = 0;
    assert(categories@.take(0) =~= Seq::empty());
    while i < categories.len()
        invariant
            i <= categories.len(),
            r@ == joined(categories@.take(i as int)),
        decreases categories.len() - i,
    {
        proof {
            let next = categories@.take(i + 1);
            assert(next.drop_last() =~= categories@.take(i as int));
            assert(next.last() == categories@[i as int]);
            reveal_strlit(",");
        }
        let number = i64_to_string(categories[i] as i64);
        if i > 0 {
            r.append(",");
            assert(","@ =~= seq![',']);
        } else {
            assert(r@ + decimal(categories@[0] as int) =~= decimal(categories@[0] as int));
        }
        r.append(number.as_str());
        i = i + 1;
    }
    assert(categories@.take(categories.len() as int) =~= categories@);
    r
}

/// The fields of a report of an address: the address, the categories and,
/// where there is one, the comment.
pub open spec fn report_fields(ip: Seq<char>, categories: Seq<i32>, comment: Option<Seq<char>>) -> Seq<
    (Seq<char>, Seq<char>),
> {
    let base = seq![("ip"@, ip), ("categories"@, joined(categories))];
    match comment {
        Some(c) => base.push(("comment"@, c)),
        None => base,
    }
}

/// What the fields of a form hold.
pub open spec fn field_views(fields: Seq<(String, String)>) -> Seq<(Seq<char>, Seq<char>)> {
    Seq::new(fields.len(), |i: int| (fields[i].0@, fields[i].1@))
}

/// The form by which an address is reported.
pub fn report_form(ip: &str, categories: &Vec<i32>, comment: Option<&str>) -> (form: Vec<
    (String, String),
>)
    ensures
        field_views(form@) == report_fields(
            ip@,
            categories@,
            match comment {
                Some(c) => Some(c@),
                None => None,
            },
        ),
{
    let mut form: Vec<(String, String)> = Vec::new();
    form.push(("ip".to_owned(), ip.to_owned()));
    form.push(("categories".to_owned(), join_categories(categories)));
    match comment {
        Some(c) => {
            form.push(("comment".to_owned(), c.to_owned()));
        },
        None => {},
    }
    assert(field_views(form@) =~= report_fields(
        ip@,
        categories@,
        match comment {
            Some(c) => Some(c@),
            None => None,
        },
    ));
    form
}

/// The address at which reports about an address are asked for.
pub fn check_url() -> (r: String)
    ensures
        r@ == ABUSEIPDB_API_URL@ + "/check"@,
{
    concat(ABUSEIPDB_API_URL, "/check")
}

/// The address at which an address is reported.
pub fn report_url() -> (r: String)
    ensures
        r@ == ABUSEIPDB_API_URL@ + "/report"@,
{
    concat(ABUSEIPDB_API_URL, "/report")
}

} // verus!
