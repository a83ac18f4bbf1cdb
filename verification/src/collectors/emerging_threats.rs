//! Block lists: plain text with one IPv4 address to a line.

use crate::address::{check_ipv4, is_ipv4};
use crate::collectors::request_views;
use crate::models::{CreateIndicatorRequest, CreateIndicatorRequestView, IocType, Severity, Tlp};
use crate::text::{
    clone_strings, first_token, first_token_chars, lines, split_lines, string_from_chars, strs,
    to_chars, trim, trim_chars, views,
};
use vstd::prelude::*;

verus! {

/// The list of compromised hosts.
pub const ET_COMPROMISED_IPS: &'static str =
    "https://rules.emergingthreats.net/blockrules/compromised-ips.txt";

/// The list of botnet command servers.
pub const FEODO_TRACKER_IPS: &'static str = "https://feodotracker.abuse.ch/downloads/ipblocklist.txt";

/// The list of URLs that serve malware.
pub const URLHAUS_URLS: &'static str = "https://urlhaus.abuse.ch/downloads/text_online/";

/// The name of the feed.
pub const NAME: &'static str = "emerging_threats";

/// For how many days an address from a block list is kept.
pub const EXPIRATION_DAYS: i32 = 30;

/// How sure a block list is.
pub const CONFIDENCE: i32 = 80;

/// The address that a line lists: the first word of the line, where the
/// line is neither empty nor a comment and the word is an IPv4 address.
pub open spec fn listed_address(line: Seq<char>) -> Option<Seq<char>> {
    let l = trim(line);
    if l.len() == 0 || l[0] == '#' {
        None
    } else if is_ipv4(first_token(l)) {
        Some(first_token(l))
    } else {
        None
    }
}

/// The request that a listed address stands for.
pub open spec fn listed_request(ip: Seq<char>, source: Seq<char>, tags: Seq<Seq<char>>) -> CreateIndicatorRequestView {
    CreateIndicatorRequestView {
        value: ip,
        ioc_type: Some(IocType::Ip),
        severity: Some(Severity::High),
        confidence: Some(CONFIDENCE),
        tlp: Some(Tlp::White),
        tags: Some(tags),
        source: Some(source),
        expiration_days: Some(EXPIRATION_DAYS),
    }
}

/// The requests that the lines of a list stand for, in their order.
pub open spec fn listed_requests(
    all: Seq<Seq<char>>,
    source: Seq<char>,
    tags: Seq<Seq<char>>,
) -> Seq<CreateIndicatorRequestView>
    decreases all.len(),
{
    if all.len() == 0 {
        Seq::empty()
    } else {
        let front = listed_requests(all.drop_last(), source, tags);
        match listed_address(all.last()) {
            Some(ip) => front.push(listed_request(ip, source, tags)),
            None => front,
        }
    }
}

/// The address that a line lists.
pub fn parse_line(line: &Vec<char>) -> (r: Option<String>)
    ensures
        match r {
            Some(ip) => listed_address(line@) == Some(ip@),
            None => listed_address(line@) is None,
        },
{
    let l = trim_chars(line);
    if l.len() == 0 || l[0] == '#' {
        return None;
    }
    let word = first_token_chars(&l);
    if check_ipv4(&word) {
        Some(string_from_chars(&word))
    } else {
        None
    }
}

/// The requests that a block list stands for: one for each line that lists
/// an IPv4 address, of high severity, free to share, under the given source
/// and tags. Empty lines, comments and anything else are passed over.
pub fn parse_ip_list(text: &str, source: &str, tags: &Vec<String>) -> (indicators: Vec<
    CreateIndicatorRequest,
>)
    ensures
        request_views(indicators@) == listed_requests(lines(text@), source@, strs(tags@)),
{
    let chars = to_chars(text);
    let all = split_lines(&chars);
    let mut indicators: Vec<CreateIndicatorRequest> = Vec::new();
    let mut i: usize = 0;
    assert(lines(text@).take(0) =~= Seq::empty());
    assert(request_views(indicators@) =~= Seq::empty());
    while i < all.len()
        invariant
            i <= all@.len(),
            views(all@) == lines(text@),
            request_views(indicators@) == listed_requests(
                lines(text@).take(i as int),
                source@,
                strs(tags@),
            ),
        decreases all.len() - i,
    {
        proof {
            let next = lines(text@).take(i + 1);
            assert(next.drop_last() =~= lines(text@).take(i as int));
            assert(next.last() == all@[i as int]@) by {
                assert(views(all@)[i as int] == all@[i as int]@);
            }
        }
        match parse_line(&all[i]) {
            Some(ip) => {
                let ghost before = request_views(indicators@);
                let request = CreateIndicatorRequest {
                    value: ip,
                    ioc_type: Some(IocType::Ip),
                    severity: Some(Severity::High),
                    confidence: Some(CONFIDENCE),
                    tlp: Some(Tlp::White),
                    tags: Some(clone_strings(tags)),
                    source: Some(source.to_owned()),
                    expiration_days: Some(EXPIRATION_DAYS),
                };
                assert(request@ == listed_request(ip@, source@, strs(tags@)));
                indicators.push(request);
                assert(request_views(indicators@) =~= before.push(request@));
            },
            None => {},
        }
        i = i + 1;
    }
    assert(lines(text@).take(all@.len() as int) =~= lines(text@));
    indicators
}

/// The tags of the addresses on the list of compromised hosts.
pub fn compromised_tags() -> (tags: Vec<String>)
    ensures
        strs(tags@) == seq!["compromised"@, "et_rules"@],
{
    let mut tags: Vec<String> = Vec::new();
    tags.push("compromised".to_owned());
    tags.push("et_rules".to_owned());
    assert(strs(tags@) =~= seq!["compromised"@, "et_rules"@]);
    tags
}

/// The tags of the addresses on the list of botnet command servers.
pub fn botnet_tags() -> (tags: Vec<String>)
    ensures
        strs(tags@) == seq!["botnet"@, "banking_trojan"@],
{
    let mut tags: Vec<String> = Vec::new();
    tags.push("botnet".to_owned());
    tags.push("banking_trojan".to_owned());
    assert(strs(tags@) =~= seq!["botnet"@, "banking_trojan"@]);
    tags
}

} // verus!
