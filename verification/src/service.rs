//! Service status records and their two sources: a scan of the
//! orchestrator's structured status lines, and an individual-probe
//! fallback used when that scan yields nothing. Also the health
//! aggregator, which folds independent probe outcomes into a best-effort
//! report plus a list of per-service failures.

use vstd::prelude::*;
use vstd::string::*;
use crate::text::{contains_seq, contains_str};

verus! {

/// The status of one named service, as read from the container runtime.
#[derive(Debug, Clone)]
pub struct ServiceStatus {
    pub name: String,
    pub running: bool,
    pub status: String,
}

/// The mathematical view of a `ServiceStatus`.
pub struct ServiceModel {
    pub name: Seq<char>,
    pub running: bool,
    pub status: Seq<char>,
}

impl View for ServiceStatus {
    type V = ServiceModel;

    open spec fn view(&self) -> ServiceModel {
        ServiceModel { name: self.name@, running: self.running, status: self.status@ }
    }
}

impl DeepView for ServiceStatus {
    type V = ServiceModel;

    open spec fn deep_view(&self) -> ServiceModel {
        self.view()
    }
}

/// The tri-state a structured status line reads as: `running` when the
/// line says so, else `exited` when it says that, else `unknown`.
pub open spec fn status_of_line(l: Seq<char>) -> Seq<char> {
    if contains_seq(l, "running"@) {
        "running"@
    } else if contains_seq(l, "exited"@) {
        "exited"@
    } else {
        "unknown"@
    }
}

/// The record a structured status line yields, when it names one of the
/// known services.
pub open spec fn record_of_line(l: Seq<char>) -> Option<ServiceModel> {
    if contains_seq(l, "execution-layer"@) {
        Some(
            ServiceModel {
                name: "execution-layer"@,
                running: contains_seq(l, "running"@),
                status: status_of_line(l),
            },
        )
    } else if contains_seq(l, "block-builder"@) {
        Some(
            ServiceModel {
                name: "block-builder"@,
                running: contains_seq(l, "running"@),
                status: status_of_line(l),
            },
        )
    } else if contains_seq(l, "viaduct"@) {
        Some(
            ServiceModel {
                name: "viaduct"@,
                running: contains_seq(l, "running"@),
                status: status_of_line(l),
            },
        )
    } else {
        None
    }
}

/// The records of all status lines naming a known service, in line order.
pub open spec fn parsed_records(lines: Seq<Seq<char>>) -> Seq<ServiceModel>
    decreases lines.len(),
{
    if lines.len() == 0 {
        Seq::empty()
    } else {
        parsed_records(lines.drop_last()) + match record_of_line(lines.last()) {
            Some(m) => seq![m],
            None => Seq::empty(),
        }
    }
}

/// The tri-state status text a structured status line reads as.
pub fn extract_status(json_line: &str) -> (r: String)
    ensures
        r@ == status_of_line(json_line@),
{
    if contains_str(json_line, "running") {
        "running".to_owned()
    } else if contains_str(json_line, "exited") {
        "exited".to_owned()
    } else {
        "unknown".to_owned()
    }
}

/// Scans structured status lines for the known service names and returns
/// one record per line that names one, in line order. An empty result
/// means the blob was empty, malformed, or of an unexpected shape.
pub fn parse_compose_ps(lines: &Vec<String>) -> (r: Vec<ServiceStatus>)
    ensures
        r.deep_view() == parsed_records(lines.deep_view()),
{
    let ghost dv = lines.deep_view();
    let mut out: Vec<ServiceStatus> = Vec::new();
    let mut i: usize = 0;
    proof {
        assert(dv.take(0) =~= Seq::<Seq<char>>::empty());
        assert(out.deep_view() =~= parsed_records(dv.take(0)));
    }
    while i < lines.len()
        invariant
            dv == lines.deep_view(),
            dv.len() == lines@.len(),
            0 <= i <= lines@.len(),
            out.deep_view() == parsed_records(dv.take(i as int)),
        decreases lines@.len() - i,
    {
        proof {
            assert(dv[i as int] == lines@[i as int]@);
            assert(dv.take(i + 1).drop_last() =~= dv.take(i as int));
            assert(dv.take(i + 1).last() == dv[i as int]);
        }
        let line = &lines[i];
        if contains_str(line.as_str(), "execution-layer") {
            let rec = ServiceStatus {
                name: "execution-layer".to_owned(),
                running: contains_str(line.as_str(), "running"),
                status: extract_status(line.as_str()),
            };
            out.push(rec);
        } else if contains_str(line.as_str(), "block-builder") {
            let rec = ServiceStatus {
                name: "block-builder".to_owned(),
                running: contains_str(line.as_str(), "running"),
                status: extract_status(line.as_str()),
            };
            out.push(rec);
        } else if contains_str(line.as_str(), "viaduct") {
            let rec = ServiceStatus {
                name: "viaduct".to_owned(),
                running: contains_str(line.as_str(), "running"),
                status: extract_status(line.as_str()),
            };
            out.push(rec);
        }
        proof {
            assert(out.deep_view() =~= parsed_records(dv.take(i + 1)));
        }
        i += 1;
    }
    proof {
        assert(dv.take(lines@.len() as int) =~= dv);
    }
    out
}

/// The record the individual-probe fallback produces for one service:
/// binary running/stopped, never `exited`.
pub open spec fn fallback_record(name: Seq<char>, running: bool) -> ServiceModel {
    ServiceModel {
        name: name,
        running: running,
        status: if running {
            "running"@
        } else {
            "stopped"@
        },
    }
}

/// The spec-level view of a list of probe outcomes.
pub open spec fn probes_view(probes: Seq<(String, bool)>) -> Seq<(Seq<char>, bool)> {
    probes.map_values(|p: (String, bool)| (p.0@, p.1))
}

/// One fallback record per probe outcome, in probe order.
pub open spec fn fallback_models(probes: Seq<(Seq<char>, bool)>) -> Seq<ServiceModel> {
    Seq::new(probes.len(), |i: int| fallback_record(probes[i].0, probes[i].1))
}

/// Builds one record per probed service from its running flag alone.
pub fn fallback_records(probes: &Vec<(String, bool)>) -> (r: Vec<ServiceStatus>)
    ensures
        r.deep_view() == fallback_models(probes_view(probes@)),
{
    let mut out: Vec<ServiceStatus> = Vec::new();
    let mut i: usize = 0;
    while i < probes.len()
        invariant
            0 <= i <= probes@.len(),
            out.deep_view().len() == i,
            forall|k: int|
                0 <= k < i ==> out.deep_view()[k] == fallback_record(
                    probes@[k].0@,
                    probes@[k].1,
                ),
        decreases probes@.len() - i,
    {
        let entry = &probes[i];
        let rec = ServiceStatus {
            name: entry.0.clone(),
            running: entry.1,
            status: if entry.1 {
                "running".to_owned()
            } else {
                "stopped".to_owned()
            },
        };
        let ghost prev = out@;
        let ghost prev_dv = out.deep_view();
        out.push(rec);
        proof {
            assert forall|k: int|
                0 <= k < i + 1 implies out.deep_view()[k] == fallback_record(
                probes@[k].0@,
                probes@[k].1,
            ) by {
                assert(out.deep_view()[k] == out@[k].deep_view());
                if k < i {
                    assert(out@[k] == prev[k]);
                    assert(prev_dv[k] == prev[k].deep_view());
                } else {
                    assert(out@[k] == rec);
                    assert(rec.deep_view() == fallback_record(probes@[k].0@, probes@[k].1));
                }
            }
        }
        i += 1;
    }
    proof {
        assert(out.deep_view() =~= fallback_models(probes_view(probes@)));
    }
    out
}

/// The reconciled records: those parsed from the structured status lines
/// when that scan yields any, else one record per individual probe.
pub open spec fn reconciled(
    primary: Seq<Seq<char>>,
    probes: Seq<(Seq<char>, bool)>,
) -> Seq<ServiceModel> {
    if parsed_records(primary).len() > 0 {
        parsed_records(primary)
    } else {
        fallback_models(probes)
    }
}

/// Two-tier status derivation: scan the structured status lines first;
/// when that scan yields no record, fall back to the supplied individual
/// probe outcomes, one record per probed service.
pub fn reconcile(primary: &Vec<String>, probes: &Vec<(String, bool)>) -> (r: Vec<ServiceStatus>)
    ensures
        r.deep_view() == reconciled(primary.deep_view(), probes_view(probes@)),
{
    let parsed = parse_compose_ps(primary);
    if parsed.len() > 0 {
        parsed
    } else {
        fallback_records(probes)
    }
}

/// A record's status text is consistent with its running flag: it reads
/// `"running"` exactly when the service is running.
pub open spec fn record_consistent(m: ServiceModel) -> bool {
    m.running <==> m.status == "running"@
}

/// Every record parsed from structured status lines is consistent: its
/// status text reads `"running"` exactly when its running flag is set,
/// and an `unknown` status implies not running.
pub proof fn lemma_parsed_records_consistent(lines: Seq<Seq<char>>)
    ensures
        forall|i: int|
            0 <= i < parsed_records(lines).len() ==> record_consistent(
                #[trigger] parsed_records(lines)[i],
            ),
    decreases lines.len(),
{
    reveal_strlit("running");
    reveal_strlit("exited");
    reveal_strlit("unknown");
    assert("exited"@ != "running"@) by {
        assert("exited"@.len() == 6 && "running"@.len() == 7);
    }
    assert("unknown"@ != "running"@) by {
        assert("unknown"@[0] == 'u' && "running"@[0] == 'r');
    }
    if lines.len() > 0 {
        lemma_parsed_records_consistent(lines.drop_last());
        let prev = parsed_records(lines.drop_last());
        assert forall|i: int|
            0 <= i < parsed_records(lines).len() implies record_consistent(
            #[trigger] parsed_records(lines)[i],
        ) by {
            if i < prev.len() {
                assert(parsed_records(lines)[i] == prev[i]);
            } else {
                let l = lines.last();
                assert(parsed_records(lines)[i] == record_of_line(l)->Some_0);
            }
        }
    }
}

/// Fallback records never read `exited`: that distinction is unavailable
/// from individual probes. Each reads `"running"` or `"stopped"`, is
/// consistent with its running flag, and keeps its probe's name.
pub proof fn lemma_fallback_models_form(probes: Seq<(Seq<char>, bool)>)
    ensures
        fallback_models(probes).len() == probes.len(),
        forall|i: int|
            0 <= i < probes.len() ==> (#[trigger] fallback_models(probes)[i]).name == probes[i].0,
        forall|i: int|
            0 <= i < probes.len() ==> ((#[trigger] fallback_models(probes)[i]).status == "running"@
                || fallback_models(probes)[i].status == "stopped"@),
        forall|i: int|
            0 <= i < probes.len() ==> (#[trigger] fallback_models(probes)[i]).status != "exited"@,
        forall|i: int|
            0 <= i < probes.len() ==> record_consistent(#[trigger] fallback_models(probes)[i]),
{
    reveal_strlit("running");
    reveal_strlit("stopped");
    reveal_strlit("exited");
    assert("running"@ != "exited"@) by {
        assert("running"@.len() == 7 && "exited"@.len() == 6);
    }
    assert("stopped"@ != "exited"@) by {
        assert("stopped"@.len() == 7 && "exited"@.len() == 6);
    }
    assert("stopped"@ != "running"@) by {
        assert("stopped"@[0] == 's' && "running"@[0] == 'r');
    }
}

/// The health entries of the outcomes whose probe succeeded, in input
/// order.
pub open spec fn health_report_of(o: Seq<(String, Result<bool, String>)>) -> Seq<(Seq<char>, bool)>
    decreases o.len(),
{
    if o.len() == 0 {
        Seq::empty()
    } else {
        health_report_of(o.drop_last()) + match o.last().1 {
            Ok(b) => seq![(o.last().0@, b)],
            Err(_) => Seq::empty(),
        }
    }
}

/// The failed probes, each with its error text, in input order.
pub open spec fn failures_of(
    o: Seq<(String, Result<bool, String>)>,
) -> Seq<(Seq<char>, Seq<char>)>
    decreases o.len(),
{
    if o.len() == 0 {
        Seq::empty()
    } else {
        failures_of(o.drop_last()) + match o.last().1 {
            Ok(_) => Seq::empty(),
            Err(e) => seq![(o.last().0@, e@)],
        }
    }
}

/// Folds per-service probe outcomes into a best-effort health report and
/// a failure list. A failed probe never aborts the aggregation of its
/// siblings: it moves to the failure list with its error text, and both
/// outputs keep the caller's probe order.
pub fn aggregate_health(
    outcomes: &Vec<(String, Result<bool, String>)>,
) -> (r: (Vec<(String, bool)>, Vec<(String, String)>))
    ensures
        r.0.deep_view() == health_report_of(outcomes@),
        r.1.deep_view() == failures_of(outcomes@),
{
    let mut report: Vec<(String, bool)> = Vec::new();
    let mut failures: Vec<(String, String)> = Vec::new();
    let mut i: usize = 0;
    proof {
        assert(outcomes@.take(0) =~= Seq::<(String, Result<bool, String>)>::empty());
        assert(report.deep_view() =~= health_report_of(outcomes@.take(0)));
        assert(failures.deep_view() =~= failures_of(outcomes@.take(0)));
    }
    while i < outcomes.len()
        invariant
            0 <= i <= outcomes@.len(),
            report.deep_view() == health_report_of(outcomes@.take(i as int)),
            failures.deep_view() == failures_of(outcomes@.take(i as int)),
        decreases outcomes@.len() - i,
    {
        proof {
            assert(outcomes@.take(i + 1).drop_last() =~= outcomes@.take(i as int));
            assert(outcomes@.take(i + 1).last() == outcomes@[i as int]);
        }
        let entry = &outcomes[i];
        match &entry.1 {
            Ok(b) => {
                report.push((entry.0.clone(), *b));
            },
            Err(e) => {
                failures.push((entry.0.clone(), e.clone()));
            },
        }
        proof {
            assert(report.deep_view() =~= health_report_of(outcomes@.take(i + 1)));
            assert(failures.deep_view() =~= failures_of(outcomes@.take(i + 1)));
        }
        i += 1;
    }
    proof {
        assert(outcomes@.take(outcomes@.len() as int) =~= outcomes@);
    }
    (report, failures)
}

/// Every probed service lands in exactly one of the two outputs: the
/// report and the failure list partition the probe outcomes.
pub proof fn lemma_health_partition(o: Seq<(String, Result<bool, String>)>)
    ensures
        health_report_of(o).len() + failures_of(o).len() == o.len(),
    decreases o.len(),
{
    if o.len() > 0 {
        lemma_health_partition(o.drop_last());
    }
}

} // verus!
