//! Enrichment: what providers find out about an indicator.
//!
//! A provider says which kinds of indicator it supports and, asked about an
//! indicator, answers with a document, with nothing, or with a failure. The
//! engine asks every provider that supports the kind of an indicator and
//! collects the documents; what one provider answers never changes what is
//! collected from another.

pub mod abuseipdb;
pub mod dns;
pub mod geoip;
pub mod virustotal;
pub mod whois;

use crate::json::{JsonModel, JsonValue};
use crate::models::{Indicator, IocType};
use vstd::prelude::*;

verus! {

/// For how many hours a result is good where its provider names no time.
pub const DEFAULT_TTL_HOURS: i64 = 24;

/// A source of enrichment.
pub trait EnrichmentProvider {
    /// The name of the provider.
    fn name(&self) -> &'static str;

    /// The type of the enrichment: `geoip`, `whois`, `dns`, `reputation`.
    fn enrichment_type(&self) -> &'static str;

    /// Whether the provider can enrich indicators of this kind.
    fn supports(&self, ioc_type: &IocType) -> bool;

    /// What the provider finds out about the indicator: a document, `None`
    /// where it finds nothing, or the reason why it failed.
    fn enrich(&self, indicator: &Indicator) -> Result<Option<JsonValue>, String>;

    /// For how many hours a result is good: a day, for a provider that
    /// does not say otherwise.
    fn ttl_hours(&self) -> (hours: i64)
        default_ensures
            hours == DEFAULT_TTL_HOURS,
    {
        DEFAULT_TTL_HOURS
    }
}

/// The providers that are known, with the rules that the table of
/// providers lays down for each.
#[derive(Debug, Clone, Copy, PartialEq, Eq, Structural)]
pub enum ProviderKind {
    GeoIp,
    Dns,
    Whois,
    AbuseIpDb,
    VirusTotal,
}

impl ProviderKind {
    pub open spec fn name_spec(self) -> Seq<char> {
        match self {
            ProviderKind::GeoIp => "maxmind"@,
            ProviderKind::Dns => "dns"@,
            ProviderKind::Whois => "whois"@,
            ProviderKind::AbuseIpDb => "abuseipdb"@,
            ProviderKind::VirusTotal => "virustotal"@,
        }
    }

    pub open spec fn type_spec(self) -> Seq<char> {
        match self {
            ProviderKind::GeoIp => "geoip"@,
            ProviderKind::Dns => "dns"@,
            ProviderKind::Whois => "whois"@,
            ProviderKind::AbuseIpDb => "reputation"@,
            ProviderKind::VirusTotal => "reputation"@,
        }
    }

    pub open spec fn supports_spec(self, ioc_type: IocType) -> bool {
        match self {
            ProviderKind::GeoIp => ioc_type == IocType::Ip,
            ProviderKind::Dns => ioc_type == IocType::Domain || ioc_type == IocType::Ip,
            ProviderKind::Whois => ioc_type == IocType::Domain,
            ProviderKind::AbuseIpDb => ioc_type == IocType::Ip,
            ProviderKind::VirusTotal => ioc_type == IocType::Ip || ioc_type == IocType::Domain
                || ioc_type == IocType::Hash || ioc_type == IocType::Url,
        }
    }

    pub open spec fn ttl_spec(self) -> i64 {
        match self {
            ProviderKind::GeoIp => 168,
            ProviderKind::Dns => 24,
            ProviderKind::Whois => 168,
            ProviderKind::AbuseIpDb => 12,
            ProviderKind::VirusTotal => 12,
        }
    }

    pub fn name(&self) -> (r: &'static str)
        ensures
            r@ == self.name_spec(),
    {
        match self {
            ProviderKind::GeoIp => "maxmind",
            ProviderKind::Dns => "dns",
            ProviderKind::Whois => "whois",
            ProviderKind::AbuseIpDb => "abuseipdb",
            ProviderKind::VirusTotal => "virustotal",
        }
    }

    pub fn enrichment_type(&self) -> (r: &'static str)
        ensures
            r@ == self.type_spec(),
    {
        match self {
            ProviderKind::GeoIp => "geoip",
            ProviderKind::Dns => "dns",
            ProviderKind::Whois => "whois",
            ProviderKind::AbuseIpDb => "reputation",
            ProviderKind::VirusTotal => "reputation",
        }
    }

    pub fn supports(&self, ioc_type: &IocType) -> (b: bool)
        ensures
            b == self.supports_spec(*ioc_type),
    {
        match self {
            ProviderKind::GeoIp => *ioc_type == IocType::Ip,
            ProviderKind::Dns => *ioc_type == IocType::Domain || *ioc_type == IocType::Ip,
            ProviderKind::Whois => *ioc_type == IocType::Domain,
            ProviderKind::AbuseIpDb => *ioc_type == IocType::Ip,
            ProviderKind::VirusTotal => *ioc_type == IocType::Ip || *ioc_type == IocType::Domain
                || *ioc_type == IocType::Hash || *ioc_type == IocType::Url,
        }
    }

    /// For how many hours a result is good: a week for what changes rarely,
    /// a day for name records, half a day for reputation.
    pub fn ttl_hours(&self) -> (r: i64)
        ensures
            r == self.ttl_spec(),
    {
        match self {
            ProviderKind::GeoIp => 168,
            ProviderKind::Dns => 24,
            ProviderKind::Whois => 168,
            ProviderKind::AbuseIpDb => 12,
            ProviderKind::VirusTotal => 12,
        }
    }
}

/// What a provider answered.
#[derive(Debug)]
pub enum Outcome {
    /// The provider does not support the kind and was not asked.
    NotAsked,
    /// The provider found this.
    Data(JsonValue),
    /// The provider found nothing.
    Empty,
    /// The provider failed, for this reason.
    Failed(String),
}

/// What a provider answered, as a value.
pub enum OutcomeView {
    NotAsked,
    Data(JsonModel),
    Empty,
    Failed(Seq<char>),
}

impl View for Outcome {
    type V = OutcomeView;

    open spec fn view(&self) -> OutcomeView {
        match self {
            Outcome::NotAsked => OutcomeView::NotAsked,
            Outcome::Data(d) => OutcomeView::Data(d@),
            Outcome::Empty => OutcomeView::Empty,
            Outcome::Failed(e) => OutcomeView::Failed(e@),
        }
    }
}

/// One provider's part in one pass over an indicator.
#[derive(Debug)]
pub struct ProviderRun {
    pub provider: String,
    pub enrichment_type: String,
    pub ttl_hours: i64,
    /// What the provider said of the kind of the indicator.
    pub supported: bool,
    pub outcome: Outcome,
}

pub struct ProviderRunView {
    pub provider: Seq<char>,
    pub enrichment_type: Seq<char>,
    pub ttl_hours: i64,
    pub supported: bool,
    pub outcome: OutcomeView,
}

impl View for ProviderRun {
    type V = ProviderRunView;

    open spec fn view(&self) -> ProviderRunView {
        ProviderRunView {
            provider: self.provider@,
            enrichment_type: self.enrichment_type@,
            ttl_hours: self.ttl_hours,
            supported: self.supported,
            outcome: self.outcome@,
        }
    }
}

/// A collected result: the type of the enrichment, the name of the
/// provider, the document, and the hours for which it is good.
pub type EnrichmentResult = (String, String, JsonValue, i64);

pub type EnrichmentResultView = (Seq<char>, Seq<char>, JsonModel, i64);

/// What the runs of a pass hold.
pub open spec fn run_views(runs: Seq<ProviderRun>) -> Seq<ProviderRunView> {
    runs.map_values(|r: ProviderRun| r@)
}

/// What the results of a pass hold.
pub open spec fn result_views(results: Seq<EnrichmentResult>) -> Seq<EnrichmentResultView> {
    results.map_values(|r: EnrichmentResult| (r.0@, r.1@, r.2@, r.3))
}

/// The run contributes a result: the provider supports the kind and found
/// something.
pub open spec fn contributes(run: ProviderRunView) -> bool {
    run.supported && run.outcome is Data
}

/// The result that a contributing run stands for.
pub open spec fn result_of(run: ProviderRunView) -> EnrichmentResultView {
    (run.enrichment_type, run.provider, run.outcome->Data_0, run.ttl_hours)
}

/// The results of a pass: one for each run that contributes, in the order
/// of the runs.
pub open spec fn collected(runs: Seq<ProviderRunView>) -> Seq<EnrichmentResultView> {
    runs.filter(|r: ProviderRunView| contributes(r)).map_values(|r: ProviderRunView| result_of(r))
}

/// In a pass, a provider that does not support the kind is not asked.
pub open spec fn is_pass(runs: Seq<ProviderRunView>) -> bool {
    forall|i: int| 0 <= i < runs.len() ==> !(#[trigger] runs[i]).supported ==> runs[i].outcome is NotAsked
}

/// The results of a pass: the documents of the providers that support the
/// kind and found something. A failure, or an empty answer, of one provider
/// leaves the results of the others as they are.
pub fn collect_results(runs: Vec<ProviderRun>) -> (results: Vec<EnrichmentResult>)
    ensures
        result_views(results@) == collected(run_views(runs@)),
{
    let ghost model = run_views(runs@);
    let ghost pred = |r: ProviderRunView| contributes(r);
    let ghost conv = |r: ProviderRunView| result_of(r);
    let mut results: Vec<EnrichmentResult> = Vec::new();
    let mut rest = runs;
    // runs are taken from the end, results are put in at the front
    assert(model.skip(model.len() as int) =~= Seq::empty());
    assert(model.skip(model.len() as int).filter(pred) =~= Seq::empty()) by {
        reveal(Seq::filter);
    }
    assert(result_views(results@) =~= Seq::<ProviderRunView>::empty().map_values(conv));
    while rest.len() > 0
        invariant
            rest@.len() <= runs@.len(),
            model == run_views(runs@),
            pred == (|r: ProviderRunView| contributes(r)),
            conv == (|r: ProviderRunView| result_of(r)),
            run_views(rest@) == model.take(rest@.len() as int),
            result_views(results@) == model.skip(rest@.len() as int).filter(pred).map_values(conv),
        decreases rest.len(),
    {
        let ghost n = rest@.len() as int;
        let ghost before = result_views(results@);
        let ghost had = rest@;
        let run = rest.pop().unwrap();
        proof {
            assert(run@ == model[n - 1]) by {
                assert(run_views(had)[n - 1] == run@);
                assert(model.take(n)[n - 1] == model[n - 1]);
            }
            assert(run_views(rest@) =~= model.take(n - 1));
            model.skip(n).lemma_filter_prepend(model[n - 1], pred);
            assert(seq![model[n - 1]] + model.skip(n) =~= model.skip(n - 1));
            if !pred(model[n - 1]) {
                assert(Seq::<ProviderRunView>::empty() + model.skip(n).filter(pred) =~= model.skip(
                    n,
                ).filter(pred));
            }
        }
        if run.supported {
            match run.outcome {
                Outcome::Data(data) => {
                    results.insert(0, (run.enrichment_type, run.provider, data, run.ttl_hours));
                    assert(result_views(results@) =~= seq![result_of(model[n - 1])] + before);
                    assert(result_views(results@) =~= (seq![model[n - 1]] + model.skip(n).filter(
                        pred,
                    )).map_values(conv));
                },
                _ => {},
            }
        }
    }
    assert(model.skip(0) =~= model);
    results
}

/// No result comes from a provider that does not support the kind of the
/// indicator: every result is the result of a run that contributes.
pub proof fn lemma_results_supported(runs: Seq<ProviderRunView>, k: int)
    requires
        0 <= k < collected(runs).len(),
    ensures
        exists|i: int|
            0 <= i < runs.len() && (#[trigger] runs[i]).supported && runs[i].outcome is Data
                && collected(runs)[k] == result_of(runs[i]),
{
    let pred = |r: ProviderRunView| contributes(r);
    let idx = crate::text::lemma_filter_subsequence(runs, pred);
    let i = idx[k];
    assert(runs.filter(pred)[k] == runs[i]);
    assert(runs[i].supported && runs[i].outcome is Data && collected(runs)[k] == result_of(runs[i]));
}

/// What a provider found is among the results, whatever the other
/// providers answered: a failure of one does not suppress the document of
/// another.
pub proof fn lemma_failure_is_isolated(runs: Seq<ProviderRunView>, i: int)
    requires
        0 <= i < runs.len(),
        contributes(runs[i]),
    ensures
        collected(runs).contains(result_of(runs[i])),
        forall|others: Seq<ProviderRunView>|
            others.len() == runs.len() && others[i] == runs[i] ==> #[trigger] collected(
                others,
            ).contains(result_of(runs[i])),
{
    lemma_contributes_collected(runs, i);
    assert forall|others: Seq<ProviderRunView>|
        others.len() == runs.len() && others[i] == runs[i] implies #[trigger] collected(
        others,
    ).contains(result_of(runs[i])) by {
        lemma_contributes_collected(others, i);
    }
}

/// The result of a run that contributes is among the results.
pub proof fn lemma_contributes_collected(runs: Seq<ProviderRunView>, i: int)
    requires
        0 <= i < runs.len(),
        contributes(runs[i]),
    ensures
        collected(runs).contains(result_of(runs[i])),
{
    let pred = |r: ProviderRunView| contributes(r);
    let idx = crate::text::lemma_filter_subsequence(runs, pred);
    assert(pred(runs[i]));
    assert(idx.contains(i));
    let k = choose|k: int| 0 <= k < idx.len() && idx[k] == i;
    assert(runs.filter(pred)[k] == runs[i]);
    assert(collected(runs)[k] == result_of(runs[i]));
}

/// What an answer of a provider is noted as.
pub open spec fn outcome_of(answer: Result<Option<JsonValue>, String>) -> OutcomeView {
    match answer {
        Ok(Some(data)) => OutcomeView::Data(data@),
        Ok(None) => OutcomeView::Empty,
        Err(reason) => OutcomeView::Failed(reason@),
    }
}

/// Notes an answer of a provider: a document as found, nothing as empty, a
/// failure with its reason.
pub fn note_answer(answer: Result<Option<JsonValue>, String>) -> (outcome: Outcome)
    ensures
        outcome@ == outcome_of(answer),
{
    match answer {
        Ok(Some(data)) => Outcome::Data(data),
        Ok(None) => Outcome::Empty,
        Err(reason) => Outcome::Failed(reason),
    }
}

/// The run is what this provider answered about this indicator. Its name,
/// its type and its hours are those that the provider gave; whether it
/// supports the kind is what the provider said of the kind of this
/// indicator; and where it supports the kind, the outcome is what the
/// provider answered when it was asked to enrich this indicator. A provider
/// that does not support the kind was not asked.
pub open spec fn answered<P: EnrichmentProvider>(
    provider: &P,
    indicator: &Indicator,
    run: ProviderRunView,
) -> bool {
    &&& exists|name: &'static str|
        #[trigger] call_ensures(P::name, (provider,), name) && run.provider == name@
    &&& exists|kind: &'static str|
        #[trigger] call_ensures(P::enrichment_type, (provider,), kind) && run.enrichment_type
            == kind@
    &&& call_ensures(P::ttl_hours, (provider,), run.ttl_hours)
    &&& call_ensures(P::supports, (provider, &indicator.ioc_type), run.supported)
    &&& if run.supported {
        exists|answer: Result<Option<JsonValue>, String>|
            #[trigger] call_ensures(P::enrich, (provider, indicator), answer) && run.outcome
                == outcome_of(answer)
    } else {
        run.outcome is NotAsked
    }
}

/// The runs are a pass of these providers over this indicator: one run for
/// each provider, in their order, each what its provider answered.
pub open spec fn pass_over<P: EnrichmentProvider>(
    providers: Seq<P>,
    indicator: &Indicator,
    runs: Seq<ProviderRunView>,
) -> bool {
    &&& runs.len() == providers.len()
    &&& forall|i: int|
        0 <= i < runs.len() ==> answered(&providers[i], indicator, #[trigger] runs[i])
}

/// In a pass over providers, one that does not support the kind is not
/// asked.
pub proof fn lemma_pass_over_is_pass<P: EnrichmentProvider>(
    providers: Seq<P>,
    indicator: &Indicator,
    runs: Seq<ProviderRunView>,
)
    requires
        pass_over(providers, indicator, runs),
    ensures
        is_pass(runs),
{
    assert forall|i: int| 0 <= i < runs.len() && !(#[trigger] runs[i]).supported implies runs[i].outcome is NotAsked by {
        assert(answered(&providers[i], indicator, runs[i]));
    }
}

/// The engine: the providers, in the order in which they were added.
pub struct EnrichmentEngine<P: EnrichmentProvider> {
    providers: Vec<P>,
}

impl<P: EnrichmentProvider> EnrichmentEngine<P> {
    /// The providers of the engine, in the order in which they were added.
    pub closed spec fn providers(&self) -> Seq<P> {
        self.providers@
    }

    /// How many providers the engine has.
    pub open spec fn provider_count(&self) -> nat {
        self.providers().len()
    }

    /// An engine without providers.
    pub fn new() -> (r: Self)
        ensures
            r.providers() == Seq::<P>::empty(),
            r.provider_count() == 0,
    {
        EnrichmentEngine { providers: Vec::new() }
    }

    /// Adds a provider after those that the engine has.
    pub fn add_provider(&mut self, provider: P)
        ensures
            final(self).providers() == old(self).providers().push(provider),
            final(self).provider_count() == old(self).provider_count() + 1,
    {
        self.providers.push(provider);
    }

    /// Asks every provider of the engine about the indicator, in their
    /// order: whether it supports the kind of the indicator and, where it
    /// does, what it finds out about the indicator. Notes for each what it
    /// answered, under the name, the type and the hours that it gives.
    pub fn run_providers(&self, indicator: &Indicator) -> (runs: Vec<ProviderRun>)
        ensures
            runs@.len() == self.provider_count(),
            pass_over(self.providers(), indicator, run_views(runs@)),
            is_pass(run_views(runs@)),
    {
        let mut runs: Vec<ProviderRun> = Vec::new();
        let mut i: usize = 0;
        while i < self.providers.len()
            invariant
                i <= self.providers@.len(),
                runs@.len() == i,
                forall|k: int|
                    0 <= k < i ==> answered(
                        &self.providers()[k],
                        indicator,
                        #[trigger] run_views(runs@)[k],
                    ),
            decreases self.providers.len() - i,
        {
            let provider = &self.providers[i];
            let supported = provider.supports(&indicator.ioc_type);
            let outcome = if supported {
                note_answer(provider.enrich(indicator))
            } else {
                Outcome::NotAsked
            };
            let name = provider.name();
            let kind = provider.enrichment_type();
            let hours = provider.ttl_hours();
            let run = ProviderRun {
                provider: name.to_owned(),
                enrichment_type: kind.to_owned(),
                ttl_hours: hours,
                supported,
                outcome,
            };
            let ghost before = run_views(runs@);
            runs.push(run);
            proof {
                let after = run_views(runs@);
                assert(after =~= before.push(run@));
                assert(answered(provider, indicator, run@));
                assert forall|k: int| 0 <= k < i + 1 implies answered(
                    &self.providers()[k],
                    indicator,
                    #[trigger] after[k],
                ) by {
                    if k < i {
                        assert(after[k] == before[k]);
                    }
                }
            }
            i = i + 1;
        }
        proof {
            lemma_pass_over_is_pass(self.providers(), indicator, run_views(runs@));
        }
        runs
    }

    /// Enriches an indicator with every provider that supports its kind.
    /// The results are those of a pass of the providers of the engine over
    /// this indicator: each provider is asked whether it supports the kind
    /// of the indicator; one that does not is not asked further and
    /// contributes nothing; one that does is asked to enrich the indicator,
    /// and contributes the document that it finds, if it finds one, under
    /// its name and type and with its hours.
    pub fn enrich_all(&self, indicator: &Indicator) -> (results: Vec<EnrichmentResult>)
        ensures
            exists|runs: Seq<ProviderRunView>|
                pass_over(self.providers(), indicator, runs) && is_pass(runs) && result_views(
                    results@,
                ) == #[trigger] collected(runs),
            self.provider_count() == 0 ==> results@.len() == 0,
    {
        let runs = self.run_providers(indicator);
        let ghost model = run_views(runs@);
        let results = collect_results(runs);
        proof {
            assert(result_views(results@) == collected(model));
            model.lemma_filter_len(|r: ProviderRunView| contributes(r));
            assert(result_views(results@).len() == results@.len());
        }
        results
    }
}

impl<P: EnrichmentProvider> Default for EnrichmentEngine<P> {
    fn default() -> (r: Self)
        ensures
            r.providers() == Seq::<P>::empty(),
            r.provider_count() == 0,
    {
        EnrichmentEngine::new()
    }
}

} // verus!
