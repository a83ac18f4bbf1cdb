//! The data model: indicators of compromise and what is recorded about them.
//!
//! Identifiers are 128-bit numbers. Timestamps are microseconds since the
//! Unix epoch, in UTC.

pub mod ioc_utils;

use crate::json::{JsonModel, JsonValue};
use crate::text::{clone_strings, strs};
use vstd::prelude::*;

verus! {

/// Microseconds in an hour.
pub const MICROS_PER_HOUR: i64 = 3_600_000_000;

/// Microseconds in a day.
pub const MICROS_PER_DAY: i64 = 86_400_000_000;

/// The kind of an indicator of compromise.
#[derive(Debug, Clone, Copy, PartialEq, Eq, Structural)]
pub enum IocType {
    Ip,
    Domain,
    Url,
    Hash,
    Email,
    Cve,
}

impl IocType {
    /// The lower-case name under which the kind is written.
    pub open spec fn name(self) -> Seq<char> {
        match self {
            IocType::Ip => "ip"@,
            IocType::Domain => "domain"@,
            IocType::Url => "url"@,
            IocType::Hash => "hash"@,
            IocType::Email => "email"@,
            IocType::Cve => "cve"@,
        }
    }

    pub fn as_str(&self) -> (r: &'static str)
        ensures
            r@ == self.name(),
    {
        match self {
            IocType::Ip => "ip",
            IocType::Domain => "domain",
            IocType::Url => "url",
            IocType::Hash => "hash",
            IocType::Email => "email",
            IocType::Cve => "cve",
        }
    }

    pub fn to_string(&self) -> (r: String)
        ensures
            r@ == self.name(),
    {
        self.as_str().to_owned()
    }
}

/// How severe a threat is: `Unknown < Low < Medium < High < Critical`.
#[derive(Debug, Clone, Copy, PartialEq, Eq, Structural)]
pub enum Severity {
    Unknown,
    Low,
    Medium,
    High,
    Critical,
}

/// The severity that a score stands for: 0 to 20 low, 21 to 50 medium, 51 to
/// 80 high, 81 to 100 critical, anything else unknown.
pub open spec fn severity_of_score(score: int) -> Severity {
    if 0 <= score <= 20 {
        Severity::Low
    } else if 21 <= score <= 50 {
        Severity::Medium
    } else if 51 <= score <= 80 {
        Severity::High
    } else if 81 <= score <= 100 {
        Severity::Critical
    } else {
        Severity::Unknown
    }
}

/// The severity that a score stands for.
pub fn severity_from_score(score: i32) -> (r: Severity)
    ensures
        r == severity_of_score(score as int),
{
    if score < 0 {
        Severity::Unknown
    } else if score <= 20 {
        Severity::Low
    } else if score <= 50 {
        Severity::Medium
    } else if score <= 80 {
        Severity::High
    } else if score <= 100 {
        Severity::Critical
    } else {
        Severity::Unknown
    }
}

impl Severity {
    /// The place of the level in the order.
    pub open spec fn rank(self) -> int {
        match self {
            Severity::Unknown => 0,
            Severity::Low => 1,
            Severity::Medium => 2,
            Severity::High => 3,
            Severity::Critical => 4,
        }
    }

    /// The higher of two levels.
    pub open spec fn higher(self, other: Severity) -> Severity {
        if other.rank() > self.rank() {
            other
        } else {
            self
        }
    }

    /// The lower-case name under which the level is written.
    pub open spec fn name(self) -> Seq<char> {
        match self {
            Severity::Unknown => "unknown"@,
            Severity::Low => "low"@,
            Severity::Medium => "medium"@,
            Severity::High => "high"@,
            Severity::Critical => "critical"@,
        }
    }

    pub fn ordinal(&self) -> (r: u8)
        ensures
            r == self.rank(),
    {
        match self {
            Severity::Unknown => 0,
            Severity::Low => 1,
            Severity::Medium => 2,
            Severity::High => 3,
            Severity::Critical => 4,
        }
    }

    /// The higher of two levels.
    pub fn max(self, other: Severity) -> (r: Severity)
        ensures
            r == self.higher(other),
    {
        if other.ordinal() > self.ordinal() {
            other
        } else {
            self
        }
    }

    pub fn as_str(&self) -> (r: &'static str)
        ensures
            r@ == self.name(),
    {
        match self {
            Severity::Unknown => "unknown",
            Severity::Low => "low",
            Severity::Medium => "medium",
            Severity::High => "high",
            Severity::Critical => "critical",
        }
    }
}

impl From<i32> for Severity {
    fn from(score: i32) -> (r: Severity) {
        severity_from_score(score)
    }
}

impl vstd::std_specs::convert::FromSpecImpl<i32> for Severity {
    open spec fn obeys_from_spec() -> bool {
        true
    }

    open spec fn from_spec(score: i32) -> Severity {
        severity_of_score(score as int)
    }
}

/// The traffic-light label that says how far an indicator may be shared.
#[derive(Debug, Clone, Copy, PartialEq, Eq, Structural)]
pub enum Tlp {
    White,
    Green,
    Amber,
    Red,
}

impl Tlp {
    /// The lower-case name under which the label is written.
    pub open spec fn name(self) -> Seq<char> {
        match self {
            Tlp::White => "white"@,
            Tlp::Green => "green"@,
            Tlp::Amber => "amber"@,
            Tlp::Red => "red"@,
        }
    }

    pub fn as_str(&self) -> (r: &'static str)
        ensures
            r@ == self.name(),
    {
        match self {
            Tlp::White => "white",
            Tlp::Green => "green",
            Tlp::Amber => "amber",
            Tlp::Red => "red",
        }
    }
}

impl Default for Tlp {
    fn default() -> (r: Tlp)
        ensures
            r == Tlp::Amber,
    {
        Tlp::Amber
    }
}

/// The characters of an optional string.
pub open spec fn opt_str(o: Option<String>) -> Option<Seq<char>> {
    match o {
        Some(s) => Some(s@),
        None => None,
    }
}

/// The strings of an optional list.
pub open spec fn opt_strs(o: Option<Vec<String>>) -> Option<Seq<Seq<char>>> {
    match o {
        Some(v) => Some(strs(v@)),
        None => None,
    }
}

/// A copy of an optional string.
pub fn clone_opt_string(o: &Option<String>) -> (r: Option<String>)
    ensures
        opt_str(r) == opt_str(*o),
{
    match o {
        Some(s) => Some(s.clone()),
        None => None,
    }
}

/// A copy of an optional list of strings.
pub fn clone_opt_strings(o: &Option<Vec<String>>) -> (r: Option<Vec<String>>)
    ensures
        opt_strs(r) == opt_strs(*o),
{
    match o {
        Some(v) => Some(clone_strings(v)),
        None => None,
    }
}

/// A copy of a list of identifiers.
pub fn clone_ids(v: &Vec<u128>) -> (r: Vec<u128>)
    ensures
        r@ == v@,
{
    let mut r: Vec<u128> = Vec::new();
    let mut i: usize = 0;
    while i < v.len()
        invariant
            i <= v.len(),
            r@ == v@.take(i as int),
        decreases v.len() - i,
    {
        r.push(v[i]);
        assert(v@.take(i + 1) =~= v@.take(i as int).push(v@[i as int]));
        i = i + 1;
    }
    assert(v@.take(v.len() as int) =~= v@);
    r
}

/// A catalogue entry for a source of indicators.
#[derive(Debug)]
pub struct IocSource {
    pub id: u128,
    pub name: String,
    /// `internal`, `feed` or `manual`.
    pub source_type: String,
    pub url: Option<String>,
    pub api_key_required: bool,
    /// 0 to 100.
    pub reliability_score: i32,
    pub enabled: bool,
    pub last_fetch: Option<i64>,
    pub created_at: i64,
    pub updated_at: i64,
}

pub struct IocSourceView {
    pub id: u128,
    pub name: Seq<char>,
    pub source_type: Seq<char>,
    pub url: Option<Seq<char>>,
    pub api_key_required: bool,
    pub reliability_score: i32,
    pub enabled: bool,
    pub last_fetch: Option<i64>,
    pub created_at: i64,
    pub updated_at: i64,
}

impl View for IocSource {
    type V = IocSourceView;

    open spec fn view(&self) -> IocSourceView {
        IocSourceView {
            id: self.id,
            name: self.name@,
            source_type: self.source_type@,
            url: opt_str(self.url),
            api_key_required: self.api_key_required,
            reliability_score: self.reliability_score,
            enabled: self.enabled,
            last_fetch: self.last_fetch,
            created_at: self.created_at,
            updated_at: self.updated_at,
        }
    }
}

impl Clone for IocSource {
    fn clone(&self) -> (r: Self)
        ensures
            r@ == self@,
    {
        IocSource {
            id: self.id,
            name: self.name.clone(),
            source_type: self.source_type.clone(),
            url: clone_opt_string(&self.url),
            api_key_required: self.api_key_required,
            reliability_score: self.reliability_score,
            enabled: self.enabled,
            last_fetch: self.last_fetch,
            created_at: self.created_at,
            updated_at: self.updated_at,
        }
    }
}

/// An indicator of compromise: one row for each kind and canonical value.
#[derive(Debug)]
pub struct Indicator {
    pub id: u128,
    pub ioc_type: IocType,
    pub value: String,
    pub severity: Severity,
    /// 0 to 100.
    pub confidence: i32,
    /// 0 to 100, a composite score.
    pub threat_score: i32,
    pub tlp: Tlp,
    pub first_seen: i64,
    pub last_seen: i64,
    pub expiration: Option<i64>,
    pub tags: Vec<String>,
    pub source_ids: Vec<u128>,
    pub created_at: i64,
    pub updated_at: i64,
}

pub struct IndicatorView {
    pub id: u128,
    pub ioc_type: IocType,
    pub value: Seq<char>,
    pub severity: Severity,
    pub confidence: i32,
    pub threat_score: i32,
    pub tlp: Tlp,
    pub first_seen: i64,
    pub last_seen: i64,
    pub expiration: Option<i64>,
    pub tags: Seq<Seq<char>>,
    pub source_ids: Seq<u128>,
    pub created_at: i64,
    pub updated_at: i64,
}

impl View for Indicator {
    type V = IndicatorView;

    open spec fn view(&self) -> IndicatorView {
        IndicatorView {
            id: self.id,
            ioc_type: self.ioc_type,
            value: self.value@,
            severity: self.severity,
            confidence: self.confidence,
            threat_score: self.threat_score,
            tlp: self.tlp,
            first_seen: self.first_seen,
            last_seen: self.last_seen,
            expiration: self.expiration,
            tags: strs(self.tags@),
            source_ids: self.source_ids@,
            created_at: self.created_at,
            updated_at: self.updated_at,
        }
    }
}

impl Clone for Indicator {
    fn clone(&self) -> (r: Self)
        ensures
            r@ == self@,
    {
        Indicator {
            id: self.id,
            ioc_type: self.ioc_type,
            value: self.value.clone(),
            severity: self.severity,
            confidence: self.confidence,
            threat_score: self.threat_score,
            tlp: self.tlp,
            first_seen: self.first_seen,
            last_seen: self.last_seen,
            expiration: self.expiration,
            tags: clone_strings(&self.tags),
            source_ids: clone_ids(&self.source_ids),
            created_at: self.created_at,
            updated_at: self.updated_at,
        }
    }
}

/// The view of an optional document.
pub open spec fn opt_json(o: Option<JsonValue>) -> Option<JsonModel> {
    match o {
        Some(v) => Some(v@),
        None => None,
    }
}

/// What one provider found out about one indicator.
#[derive(Debug)]
pub struct Enrichment {
    pub id: u128,
    pub indicator_id: u128,
    /// `geoip`, `whois`, `dns`, `reputation`, ...
    pub enrichment_type: String,
    pub data: JsonValue,
    pub provider: String,
    pub fetched_at: i64,
    pub expires_at: Option<i64>,
}

pub struct EnrichmentView {
    pub id: u128,
    pub indicator_id: u128,
    pub enrichment_type: Seq<char>,
    pub data: JsonModel,
    pub provider: Seq<char>,
    pub fetched_at: i64,
    pub expires_at: Option<i64>,
}

impl View for Enrichment {
    type V = EnrichmentView;

    open spec fn view(&self) -> EnrichmentView {
        EnrichmentView {
            id: self.id,
            indicator_id: self.indicator_id,
            enrichment_type: self.enrichment_type@,
            data: self.data@,
            provider: self.provider@,
            fetched_at: self.fetched_at,
            expires_at: self.expires_at,
        }
    }
}

impl Clone for Enrichment {
    fn clone(&self) -> (r: Self)
        ensures
            r@ == self@,
    {
        Enrichment {
            id: self.id,
            indicator_id: self.indicator_id,
            enrichment_type: self.enrichment_type.clone(),
            data: self.data.clone(),
            provider: self.provider.clone(),
            fetched_at: self.fetched_at,
            expires_at: self.expires_at,
        }
    }
}

/// Where an address is, as far as the location databases know it. A
/// coordinate is kept as the text of its decimal notation.
#[derive(Debug)]
pub struct GeoIpData {
    pub country_code: Option<String>,
    pub country_name: Option<String>,
    pub city: Option<String>,
    pub region: Option<String>,
    pub latitude: Option<String>,
    pub longitude: Option<String>,
    pub asn: Option<u32>,
    pub as_org: Option<String>,
    pub isp: Option<String>,
}

impl Default for GeoIpData {
    fn default() -> (r: GeoIpData)
        ensures
            r.country_code is None,
            r.country_name is None,
            r.city is None,
            r.region is None,
            r.latitude is None,
            r.longitude is None,
            r.asn is None,
            r.as_org is None,
            r.isp is None,
    {
        GeoIpData {
            country_code: None,
            country_name: None,
            city: None,
            region: None,
            latitude: None,
            longitude: None,
            asn: None,
            as_org: None,
            isp: None,
        }
    }
}

/// What a registry says about a domain.
#[derive(Debug)]
pub struct WhoisData {
    pub registrar: Option<String>,
    pub registrant: Option<String>,
    pub registrant_org: Option<String>,
    pub registrant_country: Option<String>,
    pub creation_date: Option<i64>,
    pub expiration_date: Option<i64>,
    pub updated_date: Option<i64>,
    pub name_servers: Vec<String>,
    pub status: Vec<String>,
    pub raw: Option<String>,
}

pub struct WhoisDataView {
    pub registrar: Option<Seq<char>>,
    pub registrant: Option<Seq<char>>,
    pub registrant_org: Option<Seq<char>>,
    pub registrant_country: Option<Seq<char>>,
    pub creation_date: Option<i64>,
    pub expiration_date: Option<i64>,
    pub updated_date: Option<i64>,
    pub name_servers: Seq<Seq<char>>,
    pub status: Seq<Seq<char>>,
    pub raw: Option<Seq<char>>,
}

impl View for WhoisData {
    type V = WhoisDataView;

    open spec fn view(&self) -> WhoisDataView {
        WhoisDataView {
            registrar: opt_str(self.registrar),
            registrant: opt_str(self.registrant),
            registrant_org: opt_str(self.registrant_org),
            registrant_country: opt_str(self.registrant_country),
            creation_date: self.creation_date,
            expiration_date: self.expiration_date,
            updated_date: self.updated_date,
            name_servers: strs(self.name_servers@),
            status: strs(self.status@),
            raw: opt_str(self.raw),
        }
    }
}

impl WhoisDataView {
    /// The record in which nothing is known.
    pub open spec fn empty() -> WhoisDataView {
        WhoisDataView {
            registrar: None,
            registrant: None,
            registrant_org: None,
            registrant_country: None,
            creation_date: None,
            expiration_date: None,
            updated_date: None,
            name_servers: Seq::empty(),
            status: Seq::empty(),
            raw: None,
        }
    }
}

impl Default for WhoisData {
    fn default() -> (r: WhoisData)
        ensures
            r@ == WhoisDataView::empty(),
    {
        let r = WhoisData {
            registrar: None,
            registrant: None,
            registrant_org: None,
            registrant_country: None,
            creation_date: None,
            expiration_date: None,
            updated_date: None,
            name_servers: Vec::new(),
            status: Vec::new(),
            raw: None,
        };
        assert(strs(r.name_servers@) =~= Seq::empty());
        assert(strs(r.status@) =~= Seq::empty());
        r
    }
}

/// The records that name servers hold for a domain.
#[derive(Debug)]
pub struct DnsData {
    pub a_records: Vec<String>,
    pub aaaa_records: Vec<String>,
    pub mx_records: Vec<String>,
    pub txt_records: Vec<String>,
    pub ns_records: Vec<String>,
    pub cname_records: Vec<String>,
}

impl Default for DnsData {
    fn default() -> (r: DnsData)
        ensures
            r.a_records@.len() == 0,
            r.aaaa_records@.len() == 0,
            r.mx_records@.len() == 0,
            r.txt_records@.len() == 0,
            r.ns_records@.len() == 0,
            r.cname_records@.len() == 0,
    {
        DnsData {
            a_records: Vec::new(),
            aaaa_records: Vec::new(),
            mx_records: Vec::new(),
            txt_records: Vec::new(),
            ns_records: Vec::new(),
            cname_records: Vec::new(),
        }
    }
}

/// One observation of an indicator. Sightings are only ever added.
#[derive(Debug)]
pub struct Sighting {
    pub id: u128,
    pub indicator_id: u128,
    pub source: String,
    pub context: Option<JsonValue>,
    pub observed_at: i64,
    pub created_at: i64,
}

pub struct SightingView {
    pub id: u128,
    pub indicator_id: u128,
    pub source: Seq<char>,
    pub context: Option<JsonModel>,
    pub observed_at: i64,
    pub created_at: i64,
}

impl View for Sighting {
    type V = SightingView;

    open spec fn view(&self) -> SightingView {
        SightingView {
            id: self.id,
            indicator_id: self.indicator_id,
            source: self.source@,
            context: opt_json(self.context),
            observed_at: self.observed_at,
            created_at: self.created_at,
        }
    }
}

impl Clone for Sighting {
    fn clone(&self) -> (r: Self)
        ensures
            r@ == self@,
    {
        let context = match &self.context {
            Some(c) => Some(c.clone()),
            None => None,
        };
        Sighting {
            id: self.id,
            indicator_id: self.indicator_id,
            source: self.source.clone(),
            context,
            observed_at: self.observed_at,
            created_at: self.created_at,
        }
    }
}

/// A request to create an indicator, or to merge into the one that exists.
#[derive(Debug)]
pub struct CreateIndicatorRequest {
    pub value: String,
    /// Detected from the value where it is not given.
    pub ioc_type: Option<IocType>,
    pub severity: Option<Severity>,
    pub confidence: Option<i32>,
    pub tlp: Option<Tlp>,
    pub tags: Option<Vec<String>>,
    pub source: Option<String>,
    pub expiration_days: Option<i32>,
}

pub struct CreateIndicatorRequestView {
    pub value: Seq<char>,
    pub ioc_type: Option<IocType>,
    pub severity: Option<Severity>,
    pub confidence: Option<i32>,
    pub tlp: Option<Tlp>,
    pub tags: Option<Seq<Seq<char>>>,
    pub source: Option<Seq<char>>,
    pub expiration_days: Option<i32>,
}

impl View for CreateIndicatorRequest {
    type V = CreateIndicatorRequestView;

    open spec fn view(&self) -> CreateIndicatorRequestView {
        CreateIndicatorRequestView {
            value: self.value@,
            ioc_type: self.ioc_type,
            severity: self.severity,
            confidence: self.confidence,
            tlp: self.tlp,
            tags: opt_strs(self.tags),
            source: opt_str(self.source),
            expiration_days: self.expiration_days,
        }
    }
}

impl Clone for CreateIndicatorRequest {
    fn clone(&self) -> (r: Self)
        ensures
            r@ == self@,
    {
        CreateIndicatorRequest {
            value: self.value.clone(),
            ioc_type: self.ioc_type,
            severity: self.severity,
            confidence: self.confidence,
            tlp: self.tlp,
            tags: clone_opt_strings(&self.tags),
            source: clone_opt_string(&self.source),
            expiration_days: self.expiration_days,
        }
    }
}

/// An indicator with what is attached to it.
#[derive(Debug)]
pub struct IndicatorResponse {
    pub indicator: Indicator,
    pub enrichments: Vec<Enrichment>,
    pub sightings_count: i64,
    pub related_indicators: Vec<Indicator>,
}

/// A batch of requests with the defaults that apply to each of them.
#[derive(Debug)]
pub struct BulkImportRequest {
    pub indicators: Vec<CreateIndicatorRequest>,
    pub source: String,
    pub tlp: Option<Tlp>,
    pub tags: Option<Vec<String>>,
}

/// How a batch went.
#[derive(Debug)]
pub struct BulkImportResponse {
    pub total: usize,
    pub created: usize,
    pub updated: usize,
    pub failed: usize,
    pub errors: Vec<String>,
}

/// What a search asks for. Every field that is given must hold.
#[derive(Debug)]
pub struct IndicatorFilter {
    pub ioc_type: Option<IocType>,
    pub severity: Option<Severity>,
    pub min_confidence: Option<i32>,
    pub min_threat_score: Option<i32>,
    /// The indicator carries every one of these tags.
    pub tags: Option<Vec<String>>,
    pub source_id: Option<u128>,
    pub first_seen_after: Option<i64>,
    pub first_seen_before: Option<i64>,
    /// The value holds this text, whatever the case of either.
    pub search: Option<String>,
    pub page: Option<i64>,
    pub per_page: Option<i64>,
}

impl Default for IndicatorFilter {
    fn default() -> (r: IndicatorFilter)
        ensures
            r.ioc_type is None,
            r.severity is None,
            r.min_confidence is None,
            r.min_threat_score is None,
            r.tags is None,
            r.source_id is None,
            r.first_seen_after is None,
            r.first_seen_before is None,
            r.search is None,
            r.page is None,
            r.per_page is None,
    {
        IndicatorFilter {
            ioc_type: None,
            severity: None,
            min_confidence: None,
            min_threat_score: None,
            tags: None,
            source_id: None,
            first_seen_after: None,
            first_seen_before: None,
            search: None,
            page: None,
            per_page: None,
        }
    }
}

/// One page of a result.
#[derive(Debug)]
pub struct PaginatedResponse<T> {
    pub data: Vec<T>,
    pub total: i64,
    pub page: i64,
    pub per_page: i64,
    pub total_pages: i64,
}

/// How a feed is doing.
#[derive(Debug)]
pub struct FeedStatus {
    pub source: IocSource,
    pub last_run: Option<i64>,
    pub next_run: Option<i64>,
    pub indicators_count: i64,
    pub status: String,
    pub last_error: Option<String>,
}

/// The numbers on the dashboard.
#[derive(Debug)]
pub struct DashboardStats {
    pub total_indicators: i64,
    pub indicators_by_type: Vec<(String, i64)>,
    pub indicators_by_severity: Vec<(String, i64)>,
    pub new_today: i64,
    pub new_this_week: i64,
    pub active_sources: i64,
    pub top_tags: Vec<(String, i64)>,
    pub recent_sightings: i64,
}

} // verus!
