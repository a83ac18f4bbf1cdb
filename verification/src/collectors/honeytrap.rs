//! Events of the honeypots: who attacked, over which protocol, and what
//! the attacker tried.

use crate::collectors::request_views;
use crate::models::{CreateIndicatorRequest, CreateIndicatorRequestView, IocType, Severity, Tlp};
use crate::text::{
    concat, contains_sub, has_sub, lines, lowercase, split_lines, str_eq, string_from_chars, strs, to_chars,
    to_lowercase, trim, trim_chars, views,
};
use vstd::prelude::*;

verus! {

/// The name of the feed.
pub const NAME: &'static str = "honeytrap";

/// For how many days an attacker is kept.
pub const EXPIRATION_DAYS: i32 = 30;

/// How sure an observation of our own is.
pub const CONFIDENCE: i32 = 90;

/// Where an attack came from.
#[derive(Debug)]
pub struct HoneytrapSource {
    pub ip: String,
    pub port: u16,
}

/// The credentials that an attacker tried.
#[derive(Debug)]
pub struct HoneytrapCredentials {
    pub username: String,
    pub password: String,
}

/// A command that an attacker ran.
#[derive(Debug)]
pub struct HoneytrapCommand {
    pub command: String,
}

/// One event of a honeypot.
#[derive(Debug)]
pub struct HoneytrapEvent {
    pub session_id: String,
    pub protocol: String,
    pub category: String,
    pub severity: String,
    pub source: HoneytrapSource,
    pub credentials: Option<HoneytrapCredentials>,
    pub command: Option<HoneytrapCommand>,
}

/// The severity that an event names: medium where it names none that is
/// known.
pub open spec fn severity_of(name: Seq<char>) -> Severity {
    if name == "critical"@ {
        Severity::Critical
    } else if name == "high"@ {
        Severity::High
    } else if name == "medium"@ {
        Severity::Medium
    } else if name == "low"@ {
        Severity::Low
    } else {
        Severity::Medium
    }
}

/// The severity that an event names.
pub fn convert_severity(name: &str) -> (r: Severity)
    ensures
        r == severity_of(name@),
{
    if str_eq(name, "critical") {
        Severity::Critical
    } else if str_eq(name, "high") {
        Severity::High
    } else if str_eq(name, "medium") {
        Severity::Medium
    } else if str_eq(name, "low") {
        Severity::Low
    } else {
        Severity::Medium
    }
}

/// The tags that every event carries: its protocol and its category.
pub open spec fn plain_tags(e: HoneytrapEvent) -> Seq<Seq<char>> {
    seq!["honeypot:"@ + e.protocol@, "category:"@ + e.category@]
}

/// The tags that tell of credentials: that some were tried, and that they
/// were those of an administrator.
pub open spec fn credential_tags(c: Option<HoneytrapCredentials>) -> Seq<Seq<char>> {
    match c {
        Some(c) => if c.username@ == "root"@ || c.username@ == "admin"@ {
            seq!["has_credentials"@, "targets_admin"@]
        } else {
            seq!["has_credentials"@]
        },
        None => Seq::empty(),
    }
}

/// The command tries to download something.
pub open spec fn downloads(low: Seq<char>) -> bool {
    has_sub(low, "wget"@) || has_sub(low, "curl"@)
}

/// The command makes something executable.
pub open spec fn makes_executable(low: Seq<char>) -> bool {
    has_sub(low, "chmod"@) && has_sub(low, "+x"@)
}

/// The command reads the accounts of the machine.
pub open spec fn reads_accounts(low: Seq<char>) -> bool {
    has_sub(low, "/etc/passwd"@) || has_sub(low, "/etc/shadow"@)
}

pub open spec fn tag_if(condition: bool, tag: Seq<char>) -> Seq<Seq<char>> {
    if condition {
        seq![tag]
    } else {
        Seq::empty()
    }
}

/// The tags that tell of a command: that one was run, and what it tried,
/// judged by the command in lower case.
pub open spec fn command_tags(c: Option<HoneytrapCommand>) -> Seq<Seq<char>> {
    match c {
        Some(c) => {
            let low = lowercase(c.command@);
            seq!["executed_commands"@] + tag_if(downloads(low), "download_attempt"@) + tag_if(
                makes_executable(low),
                "made_executable"@,
            ) + tag_if(reads_accounts(low), "credential_access"@)
        },
        None => Seq::empty(),
    }
}

/// The request that an event read from the event log stands for.
pub open spec fn observed_request(e: HoneytrapEvent) -> CreateIndicatorRequestView {
    CreateIndicatorRequestView {
        value: e.source.ip@,
        ioc_type: Some(IocType::Ip),
        severity: Some(severity_of(e.severity@)),
        confidence: Some(CONFIDENCE),
        tlp: Some(Tlp::Green),
        tags: Some(plain_tags(e) + credential_tags(e.credentials) + command_tags(e.command)),
        source: Some(NAME@),
        expiration_days: Some(EXPIRATION_DAYS),
    }
}

/// The request that an event reported by the honeypots' own service stands
/// for.
pub open spec fn reported_request(e: HoneytrapEvent) -> CreateIndicatorRequestView {
    CreateIndicatorRequestView {
        value: e.source.ip@,
        ioc_type: Some(IocType::Ip),
        severity: Some(Severity::High),
        confidence: Some(CONFIDENCE),
        tlp: Some(Tlp::Green),
        tags: Some(plain_tags(e)),
        source: Some(NAME@),
        expiration_days: Some(EXPIRATION_DAYS),
    }
}

/// One of the events came from this address.
pub open spec fn seen(events: Seq<HoneytrapEvent>, ip: Seq<char>) -> bool {
    exists|k: int| 0 <= k < events.len() && (#[trigger] events[k]).source.ip@ == ip
}

/// The requests that the events of a log stand for: one for the first
/// event of each address.
pub open spec fn observed_requests(events: Seq<HoneytrapEvent>) -> Seq<CreateIndicatorRequestView>
    decreases events.len(),
{
    if events.len() == 0 {
        Seq::empty()
    } else {
        let front = observed_requests(events.drop_last());
        if seen(events.drop_last(), events.last().source.ip@) {
            front
        } else {
            front.push(observed_request(events.last()))
        }
    }
}

/// The requests that reported events stand for: one for each.
pub open spec fn reported_requests(events: Seq<HoneytrapEvent>) -> Seq<CreateIndicatorRequestView> {
    Seq::new(events.len(), |k: int| reported_request(events[k]))
}

fn basic_tags(event: &HoneytrapEvent) -> (tags: Vec<String>)
    ensures
        strs(tags@) == plain_tags(*event),
{
    let mut tags: Vec<String> = Vec::new();
    tags.push(concat("honeypot:", event.protocol.as_str()));
    tags.push(concat("category:", event.category.as_str()));
    assert(strs(tags@) =~= plain_tags(*event));
    tags
}

fn has_text(hay: &Vec<char>, needle: &str) -> (b: bool)
    ensures
        b == has_sub(hay@, needle@),
{
    let pat = to_chars(needle);
    contains_sub(hay, &pat)
}

fn push_tag(tags: &mut Vec<String>, condition: bool, tag: &str)
    ensures
        strs(final(tags)@) == strs(old(tags)@) + tag_if(condition, tag@),
{
    let ghost before = strs(tags@);
    if condition {
        tags.push(tag.to_owned());
        assert(strs(tags@) =~= before + seq![tag@]);
    } else {
        assert(before + Seq::<Seq<char>>::empty() =~= before);
    }
}

/// The tags of an event read from the event log.
pub fn event_tags(event: &HoneytrapEvent) -> (tags: Vec<String>)
    ensures
        strs(tags@) == plain_tags(*event) + credential_tags(event.credentials) + command_tags(
            event.command,
        ),
{
    let mut tags = basic_tags(event);
    let ghost plain = strs(tags@);
    match &event.credentials {
        Some(c) => {
            let admin = str_eq(c.username.as_str(), "root") || str_eq(c.username.as_str(), "admin");
            push_tag(&mut tags, true, "has_credentials");
            push_tag(&mut tags, admin, "targets_admin");
            assert(strs(tags@) =~= plain + credential_tags(event.credentials));
        },
        None => {
            assert(plain + credential_tags(event.credentials) =~= plain);
        },
    }
    let ghost with_credentials = strs(tags@);
    match &event.command {
        Some(c) => {
            let low = to_lowercase(c.command.as_str());
            let hay = to_chars(low.as_str());
            let a = has_text(&hay, "wget") || has_text(&hay, "curl");
            let b = has_text(&hay, "chmod") && has_text(&hay, "+x");
            let d = has_text(&hay, "/etc/passwd") || has_text(&hay, "/etc/shadow");
            push_tag(&mut tags, true, "executed_commands");
            push_tag(&mut tags, a, "download_attempt");
            push_tag(&mut tags, b, "made_executable");
            push_tag(&mut tags, d, "credential_access");
            assert(strs(tags@) =~= with_credentials + command_tags(event.command));
        },
        None => {
            assert(with_credentials + command_tags(event.command) =~= with_credentials);
        },
    }
    tags
}

/// Whether one of the first `upto` events names the address. The events
/// are themselves the record of what was seen: they are scanned, since of a
/// hashed set of strings nothing could be proved.
fn is_seen(events: &Vec<HoneytrapEvent>, upto: usize, ip: &str) -> (b: bool)
    requires
        upto <= events@.len(),
    ensures
        b == seen(events@.take(upto as int), ip@),
{
    let mut k: usize = 0;
    while k < upto
        invariant
            k <= upto <= events@.len(),
            forall|j: int| 0 <= j < k ==> (#[trigger] events@[j]).source.ip@ != ip@,
        decreases upto - k,
    {
        if str_eq(events[k].source.ip.as_str(), ip) {
            assert(events@.take(upto as int)[k as int].source.ip@ == ip@);
            return true;
        }
        k = k + 1;
    }
    assert forall|j: int| 0 <= j < events@.take(upto as int).len() implies (
    #[trigger] events@.take(upto as int)[j]).source.ip@ != ip@ by {
        assert(events@.take(upto as int)[j] == events@[j]);
    }
    false
}

/// The requests that the events of a log stand for: one for the first
/// event of each address, with the severity that the event names, and with
/// tags for its protocol and category, for credentials and for commands.
pub fn events_to_indicators(events: &Vec<HoneytrapEvent>) -> (indicators: Vec<
    CreateIndicatorRequest,
>)
    ensures
        request_views(indicators@) == observed_requests(events@),
{
    let mut indicators: Vec<CreateIndicatorRequest> = Vec::new();
    let mut i: usize = 0;
    assert(events@.take(0) =~= Seq::empty());
    assert(request_views(indicators@) =~= Seq::empty());
    while i < events.len()
        invariant
            i <= events@.len(),
            request_views(indicators@) == observed_requests(events@.take(i as int)),
        decreases events.len() - i,
    {
        let event = &events[i];
        proof {
            let next = events@.take(i + 1);
            assert(next.drop_last() =~= events@.take(i as int));
            assert(next.last() == *event);
        }
        if !is_seen(events, i, event.source.ip.as_str()) {
            let ghost before = request_views(indicators@);
            let request = CreateIndicatorRequest {
                value: event.source.ip.clone(),
                ioc_type: Some(IocType::Ip),
                severity: Some(convert_severity(event.severity.as_str())),
                confidence: Some(CONFIDENCE),
                tlp: Some(Tlp::Green),
                tags: Some(event_tags(event)),
                source: Some(NAME.to_owned()),
                expiration_days: Some(EXPIRATION_DAYS),
            };
            assert(request@ == observed_request(*event));
            indicators.push(request);
            assert(request_views(indicators@) =~= before.push(request@));
        }
        i = i + 1;
    }
    assert(events@.take(events@.len() as int) =~= events@);
    indicators
}

/// The requests that reported events stand for: one for each, of high
/// severity, with tags for its protocol and category.
pub fn reported_to_indicators(events: &Vec<HoneytrapEvent>) -> (indicators: Vec<
    CreateIndicatorRequest,
>)
    ensures
        request_views(indicators@) == reported_requests(events@),
{
    let mut indicators: Vec<CreateIndicatorRequest> = Vec::new();
    let mut i: usize = 0;
    while i < events.len()
        invariant
            i <= events@.len(),
            indicators@.len() == i,
            forall|k: int| 0 <= k < i ==> (#[trigger] indicators@[k])@ == reported_request(events@[k]),
        decreases events.len() - i,
    {
        let event = &events[i];
        let request = CreateIndicatorRequest {
            value: event.source.ip.clone(),
            ioc_type: Some(IocType::Ip),
            severity: Some(Severity::High),
            confidence: Some(CONFIDENCE),
            tlp: Some(Tlp::Green),
            tags: Some(basic_tags(event)),
            source: Some(NAME.to_owned()),
            expiration_days: Some(EXPIRATION_DAYS),
        };
        indicators.push(request);
        i = i + 1;
    }
    assert(request_views(indicators@) =~= reported_requests(events@));
    indicators
}

/// The lines of an event log that hold an event: those that are not blank.
pub open spec fn filled_lines(content: Seq<char>) -> Seq<Seq<char>> {
    lines(content).filter(|l: Seq<char>| trim(l).len() > 0)
}

/// The lines of an event log that hold an event, each to be read as one
/// event.
pub fn event_lines(content: &str) -> (r: Vec<String>)
    ensures
        strs(r@) == filled_lines(content@),
{
    let chars = to_chars(content);
    let all = split_lines(&chars);
    let ghost model = lines(content@);
    let ghost pred = |l: Seq<char>| trim(l).len() > 0;
    let mut r: Vec<String> = Vec::new();
    let mut i: usize = 0;
    assert(model.take(0).filter(pred) =~= Seq::empty()) by {
        reveal(Seq::filter);
    }
    assert(strs(r@) =~= Seq::empty());
    while i < all.len()
        invariant
            i <= all@.len(),
            views(all@) == model,
            pred == (|l: Seq<char>| trim(l).len() > 0),
            strs(r@) == model.take(i as int).filter(pred),
        decreases all.len() - i,
    {
        proof {
            assert(model[i as int] == all@[i as int]@) by {
                assert(views(all@)[i as int] == all@[i as int]@);
            }
            assert(model.take(i + 1) =~= model.take(i as int).push(model[i as int]));
            model.take(i as int).lemma_filter_push(model[i as int], pred);
        }
        if trim_chars(&all[i]).len() > 0 {
            let ghost before = strs(r@);
            r.push(string_from_chars(&all[i]));
            assert(strs(r@) =~= before.push(model[i as int]));
        }
        i = i + 1;
    }
    assert(model.take(all@.len() as int) =~= model);
    r
}

} // verus!
