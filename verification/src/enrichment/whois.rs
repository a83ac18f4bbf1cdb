//! Registration data of a domain.
//!
//! A registry answers with lines of the form `key: value`. The answer is
//! fetched by the caller; what is decided here is what the lines say,
//! whether that is enough to be kept, and what the document is.

use crate::enrichment::ProviderKind;
use crate::json::{JsonModel, JsonValue};
use crate::models::{IocType, WhoisData, WhoisDataView};
use crate::text::{
    find_char, lines, lowercase, position, slice, split_lines, str_eq, string_from_chars, strs,
    to_chars, to_lowercase, trim, trim_chars, views,
};
use vstd::prelude::*;

verus! {

/// The provider of registration data.
#[derive(Debug)]
pub struct WhoisProvider {}

impl WhoisProvider {
    pub fn new() -> (r: Self) {
        WhoisProvider {  }
    }

    /// Which of the providers this is: the one of registration data.
    pub fn kind(&self) -> (r: ProviderKind)
        ensures
            r == ProviderKind::Whois,
    {
        ProviderKind::Whois
    }

    /// The name under which its results are stored.
    pub fn name(&self) -> (r: &'static str)
        ensures
            r@ == "whois"@,
            r@ == ProviderKind::Whois.name_spec(),
    {
        self.kind().name()
    }

    /// The kind of enrichment that it gives.
    pub fn enrichment_type(&self) -> (r: &'static str)
        ensures
            r@ == "whois"@,
            r@ == ProviderKind::Whois.type_spec(),
    {
        self.kind().enrichment_type()
    }

    /// It is asked about domains, and about nothing else.
    pub fn supports(&self, ioc_type: &IocType) -> (b: bool)
        ensures
            b == (*ioc_type == IocType::Domain),
            b == ProviderKind::Whois.supports_spec(*ioc_type),
    {
        self.kind().supports(ioc_type)
    }

    /// Its results are good for a week.
    pub fn ttl_hours(&self) -> (r: i64)
        ensures
            r == 168,
            r == ProviderKind::Whois.ttl_spec(),
    {
        self.kind().ttl_hours()
    }

    /// What an answer of a registry yields: the document of what its lines
    /// say, or nothing where they name neither a registrar nor a name
    /// server.
    pub fn interpret(&self, raw: &str) -> (r: Option<JsonValue>)
        ensures
            r is Some <==> is_registered(parse_whois(raw@)),
            r is Some ==> r->0@ == registration_document(parse_whois(raw@)),
    {
        let data = parse_whois_response(raw);
        document(&data)
    }
}

impl Default for WhoisProvider {
    fn default() -> (r: Self) {
        WhoisProvider::new()
    }
}

/// The record after one line of the answer was read. A line that is empty
/// or a comment, or has no colon or nothing after it, says nothing. Of
/// several registrars the first is kept, of other single values the last;
/// name servers and states are collected, name servers in lower case.
pub open spec fn whois_line(data: WhoisDataView, raw_line: Seq<char>) -> WhoisDataView {
    let line = trim(raw_line);
    if line.len() == 0 || line[0] == '%' || line[0] == '#' {
        data
    } else {
        let p = position(line, ':');
        if p >= line.len() {
            data
        } else {
            let key = lowercase(trim(line.subrange(0, p)));
            let value = trim(line.subrange(p + 1, line.len() as int));
            if value.len() == 0 {
                data
            } else if key == "registrar"@ || key == "registrar name"@ {
                if data.registrar is None {
                    WhoisDataView { registrar: Some(value), ..data }
                } else {
                    data
                }
            } else if key == "registrant"@ || key == "registrant name"@ {
                WhoisDataView { registrant: Some(value), ..data }
            } else if key == "registrant organization"@ || key == "registrant org"@ {
                WhoisDataView { registrant_org: Some(value), ..data }
            } else if key == "registrant country"@ {
                WhoisDataView { registrant_country: Some(value), ..data }
            } else if key == "name server"@ || key == "nserver"@ {
                WhoisDataView { name_servers: data.name_servers.push(lowercase(value)), ..data }
            } else if key == "status"@ || key == "domain status"@ {
                WhoisDataView { status: data.status.push(value), ..data }
            } else {
                data
            }
        }
    }
}

/// The record after the lines were read, one after the other.
pub open spec fn whois_lines(data: WhoisDataView, all: Seq<Seq<char>>) -> WhoisDataView
    decreases all.len(),
{
    if all.len() == 0 {
        data
    } else {
        whois_line(whois_lines(data, all.drop_last()), all.last())
    }
}

/// What an answer of a registry says.
pub open spec fn parse_whois(raw: Seq<char>) -> WhoisDataView {
    whois_lines(WhoisDataView { raw: Some(raw), ..WhoisDataView::empty() }, lines(raw))
}

fn read_line(data: WhoisData, raw_line: &Vec<char>) -> (r: WhoisData)
    ensures
        r@ == whois_line(data@, raw_line@),
{
    let mut data = data;
    let line = trim_chars(raw_line);
    if line.len() == 0 || line[0] == '%' || line[0] == '#' {
        return data;
    }
    let p = find_char(&line, ':');
    if p >= line.len() {
        return data;
    }
    let key_chars = trim_chars(&slice(&line, 0, p));
    let key_text = string_from_chars(&key_chars);
    let key_low = to_lowercase(key_text.as_str());
    let key = key_low.as_str();
    let value_chars = trim_chars(&slice(&line, p + 1, line.len()));
    if value_chars.len() == 0 {
        return data;
    }
    let value = string_from_chars(&value_chars);
    let ghost before = data@;
    if str_eq(key, "registrar") || str_eq(key, "registrar name") {
        if data.registrar.is_none() {
            data.registrar = Some(value);
        }
    } else if str_eq(key, "registrant") || str_eq(key, "registrant name") {
        data.registrant = Some(value);
    } else if str_eq(key, "registrant organization") || str_eq(key, "registrant org") {
        data.registrant_org = Some(value);
    } else if str_eq(key, "registrant country") {
        data.registrant_country = Some(value);
    } else if str_eq(key, "name server") || str_eq(key, "nserver") {
        let low = to_lowercase(value.as_str());
        data.name_servers.push(low);
        assert(strs(data.name_servers@) =~= before.name_servers.push(lowercase(value@)));
    } else if str_eq(key, "status") || str_eq(key, "domain status") {
        data.status.push(value);
        assert(strs(data.status@) =~= before.status.push(value@));
    }
    data
}

/// Reads the answer of a registry.
pub fn parse_whois_response(raw: &str) -> (data: WhoisData)
    ensures
        data@ == parse_whois(raw@),
{
    let chars = to_chars(raw);
    let all = split_lines(&chars);
    let mut data = WhoisData::default();
    data.raw = Some(raw.to_owned());
    let ghost start = data@;
    assert(start == WhoisDataView { raw: Some(raw@), ..WhoisDataView::empty() });
    let mut i: usize = 0;
    assert(lines(raw@).take(0) =~= Seq::empty());
    while i < all.len()
        invariant
            i <= all@.len(),
            views(all@) == lines(raw@),
            data@ == whois_lines(start, lines(raw@).take(i as int)),
        decreases all.len() - i,
    {
        proof {
            let next = lines(raw@).take(i + 1);
            assert(next.drop_last() =~= lines(raw@).take(i as int));
            assert(next.last() == all@[i as int]@) by {
                assert(views(all@)[i as int] == all@[i as int]@);
            }
        }
        data = read_line(data, &all[i]);
        i = i + 1;
    }
    assert(lines(raw@).take(all@.len() as int) =~= lines(raw@));
    data
}

/// The record names a registrar or a name server.
pub open spec fn is_registered(d: WhoisDataView) -> bool {
    d.registrar is Some || d.name_servers.len() > 0
}

/// The document of a record.
pub open spec fn registration_document(d: WhoisDataView) -> JsonModel {
    JsonModel::Object(
        seq![
            ("registrar"@, JsonModel::opt_text(d.registrar)),
            ("registrant"@, JsonModel::opt_text(d.registrant)),
            ("registrant_org"@, JsonModel::opt_text(d.registrant_org)),
            ("registrant_country"@, JsonModel::opt_text(d.registrant_country)),
            ("name_servers"@, JsonModel::texts(d.name_servers)),
            ("status"@, JsonModel::texts(d.status)),
        ],
    )
}

/// The document of a record, or nothing where it names neither a registrar
/// nor a name server.
pub fn document(data: &WhoisData) -> (r: Option<JsonValue>)
    ensures
        r is Some <==> is_registered(data@),
        r is Some ==> r->0@ == registration_document(data@),
{
    if data.registrar.is_none() && data.name_servers.len() == 0 {
        return None;
    }
    let mut members: Vec<(String, JsonValue)> = Vec::new();
    members.push(JsonValue::member("registrar", JsonValue::opt_text(&data.registrar)));
    members.push(JsonValue::member("registrant", JsonValue::opt_text(&data.registrant)));
    members.push(JsonValue::member("registrant_org", JsonValue::opt_text(&data.registrant_org)));
    members.push(
        JsonValue::member("registrant_country", JsonValue::opt_text(&data.registrant_country)),
    );
    members.push(JsonValue::member("name_servers", JsonValue::texts(&data.name_servers)));
    members.push(JsonValue::member("status", JsonValue::texts(&data.status)));
    let doc = JsonValue::from_members(members);
    assert(doc@->Object_0 =~= registration_document(data@)->Object_0);
    Some(doc)
}

} // verus!
