//! Reputation of an address, a domain, a file or a URL, as the scanning
//! service reports it.
//!
//! The service is asked by the caller; what is decided here is under which
//! address an indicator is asked for, what an answer means, and what the
//! document of a report is.

use crate::json::{members_view, JsonModel, JsonValue};
use crate::models::IocType;
use crate::text::{concat, decimal, i64_to_string, strs};
use vstd::prelude::*;

verus! {

/// Where the scanning service is.
pub const VT_API_URL: &'static str = "https://www.virustotal.com/api/v3";

/// How the engines of the service judged.
#[derive(Debug)]
pub struct VtAnalysisStats {
    pub malicious: i32,
    pub suspicious: i32,
    pub harmless: i32,
    pub undetected: i32,
    pub timeout: Option<i32>,
}

/// How the users of the service voted.
#[derive(Debug)]
pub struct VtVotes {
    pub harmless: i32,
    pub malicious: i32,
}

/// What the service reports.
#[derive(Debug)]
pub struct VtAttributes {
    pub last_analysis_stats: Option<VtAnalysisStats>,
    pub last_analysis_date: Option<i64>,
    pub reputation: Option<i32>,
    pub total_votes: Option<VtVotes>,
    pub tags: Option<Vec<String>>,
    pub country: Option<String>,
    pub continent: Option<String>,
    pub asn: Option<i32>,
    pub as_owner: Option<String>,
    pub registrar: Option<String>,
    pub creation_date: Option<i64>,
    pub meaningful_name: Option<String>,
    pub type_description: Option<String>,
    pub size: Option<i64>,
}

/// What an answer of the service means.
#[derive(Debug, Clone, Copy, PartialEq, Eq, Structural)]
pub enum Answer {
    /// The service does not know the indicator: no document, and no
    /// failure.
    Unknown,
    /// The service failed.
    Failure,
    /// The answer holds a report.
    Report,
}

/// What an answer with this status means: 404 that the indicator is not
/// known, any other status outside 200 to 299 a failure.
pub open spec fn answer_of(status: u16) -> Answer {
    if status == 404 {
        Answer::Unknown
    } else if 200 <= status <= 299 {
        Answer::Report
    } else {
        Answer::Failure
    }
}

/// What an answer with this status means.
pub fn classify_status(status: u16) -> (r: Answer)
    ensures
        r == answer_of(status),
{
    if status == 404 {
        Answer::Unknown
    } else if 200 <= status && status <= 299 {
        Answer::Report
    } else {
        Answer::Failure
    }
}

/// What is said of a failure of the service.
pub fn failure_message(status: u16, body: &str) -> (r: String)
    ensures
        r@ == "VirusTotal API error: "@ + decimal(status as int) + " - "@ + body@,
{
    let code = i64_to_string(status as i64);
    let head = concat("VirusTotal API error: ", code.as_str());
    let mid = concat(head.as_str(), " - ");
    concat(mid.as_str(), body)
}

/// What the URL-safe alphabet of Base64 makes of the UTF-8 bytes of a text,
/// without padding.
pub uninterp spec fn base64_url_no_pad(text: Seq<char>) -> Seq<char>;

/// Calls `Engine::encode` on `base64::engine::general_purpose::URL_SAFE_NO_PAD`.
/// Trusted: the result is the encoding of the text, which is only named.
/// The encoder gives up only on an input whose encoding is longer than an
/// index can say, which takes more bytes than three quarters of the largest
/// index; no text is that long, so every text is taken.
#[verifier::external_body]
pub(crate) fn encode_url_safe(text: &str) -> (r: String)
    ensures
        r@ == base64_url_no_pad(text@),
{
    base64::Engine::encode(&base64::engine::general_purpose::URL_SAFE_NO_PAD, text)
}

/// The part of the address that says what is asked for.
pub open spec fn collection_of(ioc_type: IocType) -> Option<Seq<char>> {
    match ioc_type {
        IocType::Ip => Some("/ip_addresses/"@),
        IocType::Domain => Some("/domains/"@),
        IocType::Hash => Some("/files/"@),
        IocType::Url => Some("/urls/"@),
        _ => None,
    }
}

/// The address under which an indicator is asked for: its value after the
/// collection of its kind, a URL by the Base64 form of its text.
pub open spec fn lookup_address(ioc_type: IocType, value: Seq<char>) -> Option<Seq<char>> {
    match collection_of(ioc_type) {
        Some(c) => Some(
            VT_API_URL@ + c + if ioc_type == IocType::Url {
                base64_url_no_pad(value)
            } else {
                value
            },
        ),
        None => None,
    }
}

/// The address under which an indicator is asked for. `None` for a kind
/// that the service does not know, and for no other.
pub fn lookup_url(ioc_type: &IocType, value: &str) -> (r: Option<String>)
    ensures
        r is Some <==> collection_of(*ioc_type) is Some,
        r is Some ==> Some(r->0@) == lookup_address(*ioc_type, value@),
        r is None ==> lookup_address(*ioc_type, value@) is None,
{
    match ioc_type {
        IocType::Ip => Some(concat(concat(VT_API_URL, "/ip_addresses/").as_str(), value)),
        IocType::Domain => Some(concat(concat(VT_API_URL, "/domains/").as_str(), value)),
        IocType::Hash => Some(concat(concat(VT_API_URL, "/files/").as_str(), value)),
        IocType::Url => {
            let id = encode_url_safe(value);
            Some(concat(concat(VT_API_URL, "/urls/").as_str(), id.as_str()))
        },
        _ => None,
    }
}

/// The document that stands for an indicator that the service does not
/// know.
pub open spec fn unknown_document() -> JsonModel {
    JsonModel::Object(seq![("found"@, JsonModel::Bool(false))])
}

/// The document that stands for an indicator that the service does not
/// know.
pub fn not_found_document() -> (r: JsonValue)
    ensures
        r@ == unknown_document(),
{
    let mut members: Vec<(String, JsonValue)> = Vec::new();
    members.push(JsonValue::member("found", JsonValue::Bool(false)));
    let doc = JsonValue::from_members(members);
    assert(doc@->Object_0 =~= unknown_document()->Object_0);
    doc
}

/// How many of the engines that judged found the indicator malicious or
/// suspicious, as `found/judged`.
pub open spec fn ratio_of(s: VtAnalysisStats) -> Seq<char> {
    decimal(s.malicious + s.suspicious) + seq!['/'] + decimal(
        s.malicious + s.suspicious + s.harmless + s.undetected,
    )
}

/// How many of the engines that judged found the indicator malicious or
/// suspicious, as `found/judged`.
pub fn detection_ratio(stats: &VtAnalysisStats) -> (r: String)
    ensures
        r@ == ratio_of(*stats),
{
    let found: i64 = stats.malicious as i64 + stats.suspicious as i64;
    let judged: i64 = found + stats.harmless as i64 + stats.undetected as i64;
    let a = i64_to_string(found);
    let b = i64_to_string(judged);
    proof {
        reveal_strlit("/");
        assert("/"@ =~= seq!['/']);
    }
    let head = concat(a.as_str(), "/");
    concat(head.as_str(), b.as_str())
}

/// The part of the document that says how the engines judged.
pub open spec fn analysis_document(s: VtAnalysisStats) -> JsonModel {
    JsonModel::Object(
        seq![
            ("malicious"@, JsonModel::Int(s.malicious as int)),
            ("suspicious"@, JsonModel::Int(s.suspicious as int)),
            ("harmless"@, JsonModel::Int(s.harmless as int)),
            ("undetected"@, JsonModel::Int(s.undetected as int)),
            ("detection_ratio"@, JsonModel::Text(ratio_of(s))),
        ],
    )
}

/// The part of the document that says how the users voted.
pub open spec fn votes_document(v: VtVotes) -> JsonModel {
    JsonModel::Object(
        seq![
            ("harmless"@, JsonModel::Int(v.harmless as int)),
            ("malicious"@, JsonModel::Int(v.malicious as int)),
        ],
    )
}

/// The members with one more, where there is a value for it.
pub open spec fn with_optional(
    members: Seq<(Seq<char>, JsonModel)>,
    name: Seq<char>,
    value: Option<JsonModel>,
) -> Seq<(Seq<char>, JsonModel)> {
    match value {
        Some(v) => members.push((name, v)),
        None => members,
    }
}

pub open spec fn opt_text_member(s: Option<String>) -> Option<JsonModel> {
    match s {
        Some(t) => Some(JsonModel::Text(t@)),
        None => None,
    }
}

/// The members of the document of a report: always whether the indicator
/// was found, its reputation and its tags; then, each only where the report
/// has it, the judgement of the engines, the votes, country, network
/// number and owner, registrar, name, description and size.
pub open spec fn report_members(a: VtAttributes) -> Seq<(Seq<char>, JsonModel)> {
    let m0 = seq![
        ("found"@, JsonModel::Bool(true)),
        (
            "reputation"@,
            JsonModel::opt_int(
                match a.reputation {
                    Some(n) => Some(n as int),
                    None => None,
                },
            ),
        ),
        (
            "tags"@,
            match a.tags {
                Some(t) => JsonModel::texts(strs(t@)),
                None => JsonModel::Null,
            },
        ),
    ];
    let m1 = with_optional(
        m0,
        "analysis"@,
        match a.last_analysis_stats {
            Some(s) => Some(analysis_document(s)),
            None => None,
        },
    );
    let m2 = with_optional(
        m1,
        "votes"@,
        match a.total_votes {
            Some(v) => Some(votes_document(v)),
            None => None,
        },
    );
    let m3 = with_optional(m2, "country"@, opt_text_member(a.country));
    let m4 = with_optional(
        m3,
        "asn"@,
        match a.asn {
            Some(n) => Some(JsonModel::Int(n as int)),
            None => None,
        },
    );
    let m5 = with_optional(m4, "as_owner"@, opt_text_member(a.as_owner));
    let m6 = with_optional(m5, "registrar"@, opt_text_member(a.registrar));
    let m7 = with_optional(m6, "meaningful_name"@, opt_text_member(a.meaningful_name));
    let m8 = with_optional(m7, "type_description"@, opt_text_member(a.type_description));
    with_optional(
        m8,
        "size"@,
        match a.size {
            Some(n) => Some(JsonModel::Int(n as int)),
            None => None,
        },
    )
}

fn push_optional(members: &mut Vec<(String, JsonValue)>, name: &str, value: Option<JsonValue>)
    ensures
        members_view(final(members)@) == with_optional(
            members_view(old(members)@),
            name@,
            match value {
                Some(v) => Some(v@),
                None => None,
            },
        ),
{
    match value {
        Some(v) => {
            let ghost before = members_view(members@);
            members.push(JsonValue::member(name, v));
            assert(members_view(members@) =~= before.push((name@, v@)));
        },
        None => {},
    }
}

fn optional_text(s: &Option<String>) -> (r: Option<JsonValue>)
    ensures
        match r {
            Some(v) => Some(v@) == opt_text_member(*s),
            None => opt_text_member(*s) is None,
        },
{
    match s {
        Some(t) => Some(JsonValue::text(t.as_str())),
        None => None,
    }
}

fn analysis(stats: &VtAnalysisStats) -> (r: JsonValue)
    ensures
        r@ == analysis_document(*stats),
{
    let mut members: Vec<(String, JsonValue)> = Vec::new();
    members.push(JsonValue::member("malicious", JsonValue::Int(stats.malicious as i64)));
    members.push(JsonValue::member("suspicious", JsonValue::Int(stats.suspicious as i64)));
    members.push(JsonValue::member("harmless", JsonValue::Int(stats.harmless as i64)));
    members.push(JsonValue::member("undetected", JsonValue::Int(stats.undetected as i64)));
    members.push(JsonValue::member("detection_ratio", JsonValue::Text(detection_ratio(stats))));
    let doc = JsonValue::from_members(members);
    assert(doc@->Object_0 =~= analysis_document(*stats)->Object_0);
    doc
}

fn votes(v: &VtVotes) -> (r: JsonValue)
    ensures
        r@ == votes_document(*v),
{
    let mut members: Vec<(String, JsonValue)> = Vec::new();
    members.push(JsonValue::member("harmless", JsonValue::Int(v.harmless as i64)));
    members.push(JsonValue::member("malicious", JsonValue::Int(v.malicious as i64)));
    let doc = JsonValue::from_members(members);
    assert(doc@->Object_0 =~= votes_document(*v)->Object_0);
    doc
}

/// The document of a report.
pub fn report_document(attrs: &VtAttributes) -> (r: JsonValue)
    ensures
        r@ == JsonModel::Object(report_members(*attrs)),
{
    let reputation: Option<i64> = match attrs.reputation {
        Some(n) => Some(n as i64),
        None => None,
    };
    let tags = match &attrs.tags {
        Some(t) => JsonValue::texts(t),
        None => JsonValue::Null,
    };
    let mut members: Vec<(String, JsonValue)> = Vec::new();
    members.push(JsonValue::member("found", JsonValue::Bool(true)));
    members.push(JsonValue::member("reputation", JsonValue::opt_int(reputation)));
    members.push(JsonValue::member("tags", tags));
    assert(members_view(members@) =~= seq![
        ("found"@, JsonModel::Bool(true)),
        (
            "reputation"@,
            JsonModel::opt_int(
                match attrs.reputation {
                    Some(n) => Some(n as int),
                    None => None,
                },
            ),
        ),
        (
            "tags"@,
            match attrs.tags {
                Some(t) => JsonModel::texts(strs(t@)),
                None => JsonModel::Null,
            },
        ),
    ]);
    let stats = match &attrs.last_analysis_stats {
        Some(s) => Some(analysis(s)),
        None => None,
    };
    push_optional(&mut members, "analysis", stats);
    let voted = match &attrs.total_votes {
        Some(v) => Some(votes(v)),
        None => None,
    };
    push_optional(&mut members, "votes", voted);
    push_optional(&mut members, "country", optional_text(&attrs.country));
    let asn = match attrs.asn {
        Some(n) => Some(JsonValue::Int(n as i64)),
        None => None,
    };
    push_optional(&mut members, "asn", asn);
    push_optional(&mut members, "as_owner", optional_text(&attrs.as_owner));
    push_optional(&mut members, "registrar", optional_text(&attrs.registrar));
    push_optional(&mut members, "meaningful_name", optional_text(&attrs.meaningful_name));
    push_optional(&mut members, "type_description", optional_text(&attrs.type_description));
    let size = match attrs.size {
        Some(n) => Some(JsonValue::Int(n)),
        None => None,
    };
    push_optional(&mut members, "size", size);
    JsonValue::from_members(members)
}

/// The document says that the indicator is not known.
pub open spec fn says_unknown(doc: JsonModel) -> bool {
    doc.get("found"@) == Some(JsonModel::Bool(false))
}

/// What is kept of an answer: the document, unless it says that the
/// indicator is not known.
pub fn enrichment_of(doc: JsonValue) -> (r: Option<JsonValue>)
    ensures
        r is Some <==> !says_unknown(doc@),
        r is Some ==> r->0@ == doc@,
{
    let unknown = match doc.get("found") {
        Some(JsonValue::Bool(b)) => !*b,
        _ => false,
    };
    if unknown {
        None
    } else {
        Some(doc)
    }
}

} // verus!
