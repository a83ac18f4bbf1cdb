//! Pulses: collections of related indicators that an exchange publishes.

use crate::collectors::request_views;
use crate::models::{
    opt_str, CreateIndicatorRequest, CreateIndicatorRequestView, IocType, Severity, Tlp,
};
use crate::text::{clone_strings, concat, str_eq, strs};
use vstd::prelude::*;

verus! {

/// Where the exchange is.
pub const OTX_API_URL: &'static str = "https://otx.alienvault.com/api/v1";

/// The name of the feed.
pub const NAME: &'static str = "alienvault_otx";

/// For how many days an indicator of a pulse is kept.
pub const EXPIRATION_DAYS: i32 = 90;

/// How sure a pulse is.
pub const CONFIDENCE: i32 = 70;

/// One indicator of a pulse.
#[derive(Debug)]
pub struct OtxIndicator {
    pub indicator: String,
    pub indicator_type: String,
    pub description: Option<String>,
}

/// A pulse.
#[derive(Debug)]
pub struct OtxPulse {
    pub id: String,
    pub name: String,
    pub description: Option<String>,
    pub tags: Vec<String>,
    pub indicators: Vec<OtxIndicator>,
    pub tlp: Option<String>,
    pub adversary: Option<String>,
    pub malware_families: Vec<String>,
}

/// Whether the feed can be asked: it has a key.
pub fn is_configured(api_key: &str) -> (b: bool)
    ensures
        b == (api_key@.len() > 0),
{
    api_key.unicode_len() > 0
}

/// The kind that a type of the exchange stands for.
pub open spec fn kind_of(otx_type: Seq<char>) -> Option<IocType> {
    if otx_type == "IPv4"@ || otx_type == "IPv6"@ {
        Some(IocType::Ip)
    } else if otx_type == "domain"@ || otx_type == "hostname"@ {
        Some(IocType::Domain)
    } else if otx_type == "URL"@ || otx_type == "URI"@ {
        Some(IocType::Url)
    } else if otx_type == "FileHash-MD5"@ || otx_type == "FileHash-SHA1"@ || otx_type
        == "FileHash-SHA256"@ {
        Some(IocType::Hash)
    } else if otx_type == "email"@ {
        Some(IocType::Email)
    } else if otx_type == "CVE"@ {
        Some(IocType::Cve)
    } else {
        None
    }
}

/// The kind that a type of the exchange stands for, if it stands for one.
pub fn convert_type(otx_type: &str) -> (r: Option<IocType>)
    ensures
        r == kind_of(otx_type@),
{
    if str_eq(otx_type, "IPv4") || str_eq(otx_type, "IPv6") {
        Some(IocType::Ip)
    } else if str_eq(otx_type, "domain") || str_eq(otx_type, "hostname") {
        Some(IocType::Domain)
    } else if str_eq(otx_type, "URL") || str_eq(otx_type, "URI") {
        Some(IocType::Url)
    } else if str_eq(otx_type, "FileHash-MD5") || str_eq(otx_type, "FileHash-SHA1") || str_eq(
        otx_type,
        "FileHash-SHA256",
    ) {
        Some(IocType::Hash)
    } else if str_eq(otx_type, "email") {
        Some(IocType::Email)
    } else if str_eq(otx_type, "CVE") {
        Some(IocType::Cve)
    } else {
        None
    }
}

/// The label that a label of the exchange stands for: amber for none and
/// for one that is not known.
pub open spec fn label_of(otx_tlp: Option<Seq<char>>) -> Tlp {
    match otx_tlp {
        Some(l) => if l == "white"@ {
            Tlp::White
        } else if l == "green"@ {
            Tlp::Green
        } else if l == "amber"@ {
            Tlp::Amber
        } else if l == "red"@ {
            Tlp::Red
        } else {
            Tlp::Amber
        },
        None => Tlp::Amber,
    }
}

/// The label that a label of the exchange stands for.
pub fn convert_tlp(otx_tlp: Option<&str>) -> (r: Tlp)
    ensures
        r == label_of(
            match otx_tlp {
                Some(l) => Some(l@),
                None => None,
            },
        ),
{
    match otx_tlp {
        Some(l) => if str_eq(l, "white") {
            Tlp::White
        } else if str_eq(l, "green") {
            Tlp::Green
        } else if str_eq(l, "amber") {
            Tlp::Amber
        } else if str_eq(l, "red") {
            Tlp::Red
        } else {
            Tlp::Amber
        },
        None => Tlp::Amber,
    }
}

/// Each of the texts after the prefix.
pub open spec fn prefixed(prefix: Seq<char>, items: Seq<Seq<char>>) -> Seq<Seq<char>> {
    Seq::new(items.len(), |i: int| prefix + items[i])
}

/// The tags that every indicator of a pulse carries: those of the pulse,
/// the pulse itself, its adversary if it names one, and its malware
/// families.
pub open spec fn pulse_tags(p: OtxPulse) -> Seq<Seq<char>> {
    let own = strs(p.tags@).push("pulse:"@ + p.id@);
    let with_adversary = match p.adversary {
        Some(a) => own.push("adversary:"@ + a@),
        None => own,
    };
    with_adversary + prefixed("malware:"@, strs(p.malware_families@))
}

/// The request that an indicator of a pulse stands for, where its type
/// stands for a kind.
pub open spec fn pulse_request(tags: Seq<Seq<char>>, tlp: Tlp, i: OtxIndicator) -> Option<
    CreateIndicatorRequestView,
> {
    match kind_of(i.indicator_type@) {
        Some(kind) => Some(
            CreateIndicatorRequestView {
                value: i.indicator@,
                ioc_type: Some(kind),
                severity: Some(Severity::Medium),
                confidence: Some(CONFIDENCE),
                tlp: Some(tlp),
                tags: Some(tags.push("otx_type:"@ + i.indicator_type@)),
                source: Some(NAME@),
                expiration_days: Some(EXPIRATION_DAYS),
            },
        ),
        None => None,
    }
}

/// The requests that indicators with the tags and the label of their pulse
/// stand for, after the requests `front`.
pub open spec fn indicator_requests(
    front: Seq<CreateIndicatorRequestView>,
    tags: Seq<Seq<char>>,
    tlp: Tlp,
    indicators: Seq<OtxIndicator>,
) -> Seq<CreateIndicatorRequestView>
    decreases indicators.len(),
{
    if indicators.len() == 0 {
        front
    } else {
        let before = indicator_requests(front, tags, tlp, indicators.drop_last());
        match pulse_request(tags, tlp, indicators.last()) {
            Some(r) => before.push(r),
            None => before,
        }
    }
}

/// The requests that pulses stand for: those of the first pulse, then those
/// of the second, and so on.
pub open spec fn pulse_requests(pulses: Seq<OtxPulse>) -> Seq<CreateIndicatorRequestView>
    decreases pulses.len(),
{
    if pulses.len() == 0 {
        Seq::empty()
    } else {
        let p = pulses.last();
        indicator_requests(
            pulse_requests(pulses.drop_last()),
            pulse_tags(p),
            label_of(opt_str(p.tlp)),
            p.indicators@,
        )
    }
}

/// The tags that every indicator of a pulse carries.
pub fn base_tags(pulse: &OtxPulse) -> (tags: Vec<String>)
    ensures
        strs(tags@) == pulse_tags(*pulse),
{
    let mut tags = clone_strings(&pulse.tags);
    let ghost own = strs(pulse.tags@);
    tags.push(concat("pulse:", pulse.id.as_str()));
    assert(strs(tags@) =~= own.push("pulse:"@ + pulse.id@));
    match &pulse.adversary {
        Some(a) => {
            let ghost before = strs(tags@);
            tags.push(concat("adversary:", a.as_str()));
            assert(strs(tags@) =~= before.push("adversary:"@ + a@));
        },
        None => {},
    }
    let ghost head = strs(tags@);
    let ghost families = strs(pulse.malware_families@);
    let mut k: usize = 0;
    assert(head =~= head + prefixed("malware:"@, families.take(0)));
    while k < pulse.malware_families.len()
        invariant
            k <= pulse.malware_families@.len(),
            families == strs(pulse.malware_families@),
            strs(tags@) == head + prefixed("malware:"@, families.take(k as int)),
        decreases pulse.malware_families.len() - k,
    {
        let ghost before = strs(tags@);
        tags.push(concat("malware:", pulse.malware_families[k].as_str()));
        proof {
            assert(families[k as int] == pulse.malware_families@[k as int]@);
            assert(strs(tags@) =~= before.push("malware:"@ + families[k as int]));
            assert(head + prefixed("malware:"@, families.take(k + 1)) =~= (head + prefixed(
                "malware:"@,
                families.take(k as int),
            )).push("malware:"@ + families[k as int]));
        }
        k = k + 1;
    }
    assert(families.take(pulse.malware_families@.len() as int) =~= families);
    tags
}

/// The requests that pulses stand for: one for each indicator whose type
/// stands for a kind, of medium severity, with the label of its pulse, and
/// with the tags of its pulse and its own type as a tag.
pub fn pulses_to_indicators(pulses: &Vec<OtxPulse>) -> (indicators: Vec<CreateIndicatorRequest>)
    ensures
        request_views(indicators@) == pulse_requests(pulses@),
{
    let mut indicators: Vec<CreateIndicatorRequest> = Vec::new();
    let mut p: usize = 0;
    assert(pulses@.take(0) =~= Seq::empty());
    assert(request_views(indicators@) =~= Seq::empty());
    while p < pulses.len()
        invariant
            p <= pulses@.len(),
            request_views(indicators@) == pulse_requests(pulses@.take(p as int)),
        decreases pulses.len() - p,
    {
        let pulse = &pulses[p];
        let tlp = convert_tlp(
            match &pulse.tlp {
                Some(l) => Some(l.as_str()),
                None => None,
            },
        );
        let tags = base_tags(pulse);
        let ghost front = request_views(indicators@);
        proof {
            let next = pulses@.take(p + 1);
            assert(next.drop_last() =~= pulses@.take(p as int));
            assert(next.last() == *pulse);
            assert(pulse.indicators@.take(0) =~= Seq::empty());
        }
        let mut i: usize = 0;
        while i < pulse.indicators.len()
            invariant
                i <= pulse.indicators@.len(),
                tlp == label_of(opt_str(pulse.tlp)),
                strs(tags@) == pulse_tags(*pulse),
                request_views(indicators@) == indicator_requests(
                    front,
                    strs(tags@),
                    tlp,
                    pulse.indicators@.take(i as int),
                ),
            decreases pulse.indicators.len() - i,
        {
            let item = &pulse.indicators[i];
            proof {
                let next = pulse.indicators@.take(i + 1);
                assert(next.drop_last() =~= pulse.indicators@.take(i as int));
                assert(next.last() == *item);
            }
            match convert_type(item.indicator_type.as_str()) {
                Some(kind) => {
                    let ghost before = request_views(indicators@);
                    let ghost base = strs(tags@);
                    let mut own = clone_strings(&tags);
                    own.push(concat("otx_type:", item.indicator_type.as_str()));
                    assert(strs(own@) =~= base.push("otx_type:"@ + item.indicator_type@));
                    let request = CreateIndicatorRequest {
                        value: item.indicator.clone(),
                        ioc_type: Some(kind),
                        severity: Some(Severity::Medium),
                        confidence: Some(CONFIDENCE),
                        tlp: Some(tlp),
                        tags: Some(own),
                        source: Some(NAME.to_owned()),
                        expiration_days: Some(EXPIRATION_DAYS),
                    };
                    assert(Some(request@) == pulse_request(base, tlp, *item));
                    indicators.push(request);
                    assert(request_views(indicators@) =~= before.push(request@));
                },
                None => {},
            }
            i = i + 1;
        }
        assert(pulse.indicators@.take(pulse.indicators@.len() as int) =~= pulse.indicators@);
        p = p + 1;
    }
    assert(pulses@.take(pulses@.len() as int) =~= pulses@);
    indicators
}

} // verus!
