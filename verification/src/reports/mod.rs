//! Reports as they come out of the compilation step, and the rules by which
//! they are read and accepted.
//!
//! A report comes in one of two layouts. The current one lists boards; the
//! older one speaks of a single board. A text is first read in the current
//! layout. Only where that fails because the data has another shape is the
//! older layout tried, and where both fail the first failure is the one that
//! is reported.
use crate::error::{CommentAssemblyError, JsonError};
use crate::text::{comes_before, lemma_text_order_total};
use crate::vectors::reversed;
use vstd::prelude::*;

pub mod structs;

use structs::{Report, ReportOld};

verus! {

/// What `serde_json::Error::is_data` answers for a failure: whether reading
/// failed because the data has another shape than was asked for, and not
/// because the text is no JSON or ended early. The answer depends on the
/// failure alone.
pub uninterp spec fn structural_fault(fault: serde_json::Error) -> bool;

/// Calls `serde_json::Error::is_data`. The contract gives the answer its
/// name and claims nothing else of it; the call neither fails nor changes
/// the failure.
#[verifier::external_body]
fn is_data_fault(fault: &serde_json::Error) -> (structural: bool)
    ensures
        structural == structural_fault(*fault),
{
    fault.is_data()
}

/// Whether `result` is what reading comes to after the first reading failed
/// with `fault` for the shape of the data and the older layout gave `second`:
/// the rewritten report, or else the first failure.
pub open spec fn resolved(
    fault: serde_json::Error,
    second: Result<ReportOld, serde_json::Error>,
    result: Result<Report, JsonError>,
) -> bool {
    match second {
        Ok(old) => result matches Ok(report) && old.upgraded(report),
        Err(_) => result == Err::<Report, JsonError>(JsonError::Serde(fault)),
    }
}

/// Decides what reading a text as a report comes to.
///
/// `canonical` is the outcome of reading the text in the current layout,
/// `structural` tells whether a failure of it lies in the shape of the data,
/// and `legacy` reads the same text in the older layout when it is called.
/// A report in the current layout is taken as it is. After a failure that
/// lies in the shape of the data the older layout is tried, and a report in
/// it is taken and rewritten. In every other case the failure of the first
/// reading is returned.
pub fn resolve<F: FnOnce() -> Result<ReportOld, serde_json::Error>>(
    canonical: Result<Report, serde_json::Error>,
    structural: bool,
    legacy: F,
) -> (result: Result<Report, JsonError>)
    requires
        legacy.requires(()),
    ensures
        canonical matches Ok(report) ==> result == Ok::<Report, JsonError>(report),
        canonical matches Err(fault) ==> if structural {
            exists|second: Result<ReportOld, serde_json::Error>|
                legacy.ensures((), second) && resolved(fault, second, result)
        } else {
            result == Err::<Report, JsonError>(JsonError::Serde(fault))
        },
{
    match canonical {
        Ok(report) => Ok(report),
        Err(fault) => {
            if structural {
                let second = legacy();
                let result = match second {
                    Ok(old) => Ok(Report::from(old)),
                    Err(_) => Err(JsonError::Serde(fault)),
                };
                assert(resolved(fault, second, result));
                result
            } else {
                Err(JsonError::Serde(fault))
            }
        },
    }
}

/// Decides what reading a text as a report comes to, from the outcome of
/// reading it in the current layout; `legacy` reads it in the older layout
/// when it is called.
///
/// A report in the current layout is taken as it is. After a failure that
/// lies in the shape of the data the older layout is tried: a report in it is
/// taken and rewritten, and where it fails too the failure of the first
/// reading is returned. After any other failure the older layout is not
/// tried, and that failure is returned.
pub fn parse_json<F: FnOnce() -> Result<ReportOld, serde_json::Error>>(
    canonical: Result<Report, serde_json::Error>,
    legacy: F,
) -> (result: Result<Report, JsonError>)
    requires
        legacy.requires(()),
    ensures
        canonical matches Ok(report) ==> result == Ok::<Report, JsonError>(report),
        canonical matches Err(fault) ==> if structural_fault(fault) {
            exists|second: Result<ReportOld, serde_json::Error>|
                legacy.ensures((), second) && resolved(fault, second, result)
        } else {
            result == Err::<Report, JsonError>(JsonError::Serde(fault))
        },
        canonical matches Err(fault) ==> {
            ||| result == Err::<Report, JsonError>(JsonError::Serde(fault))
            ||| exists|old: ReportOld|
                legacy.ensures((), Ok(old)) && (result matches Ok(report) && old.upgraded(report))
        },
{
    let structural = match &canonical {
        Ok(_) => false,
        Err(fault) => is_data_fault(fault),
    };
    resolve(canonical, structural, legacy)
}

/// What is done with an entry of a directory of reports.
#[derive(Debug, PartialEq, Eq, Clone, Copy)]
pub enum Visit {
    /// The entry is a directory: its entries are visited in turn.
    Descend,
    /// The entry is a file that should hold a report: it is read.
    Parse,
    /// The entry is some other file: it is passed over.
    Ignore,
}

/// What is done with an entry: directories are searched, files whose names
/// end in `.json` are read, and all others are passed over.
pub open spec fn visit_of(is_dir: bool, extension: Option<Seq<char>>) -> Visit {
    if is_dir {
        Visit::Descend
    } else if extension == Some("json"@) {
        Visit::Parse
    } else {
        Visit::Ignore
    }
}

/// Decides what is done with an entry of a directory, from whether it is a
/// directory itself and from the extension of its name.
pub fn visit(is_dir: bool, extension: Option<&str>) -> (action: Visit)
    ensures
        action == visit_of(
            is_dir,
            match extension {
                Some(text) => Some(text@),
                None => None,
            },
        ),
{
    if is_dir {
        return Visit::Descend;
    }
    match extension {
        Some(text) => {
            proof {
                lemma_text_order_total(text@, "json"@);
            }
            if !comes_before(text, "json") && !comes_before("json", text) {
                Visit::Parse
            } else {
                Visit::Ignore
            }
        },
        None => Visit::Ignore,
    }
}

/// The place of the first failure among the outcomes from `i` on, or the
/// number of outcomes if there is none.
pub open spec fn first_failure_from(outcomes: Seq<Result<Report, JsonError>>, i: int) -> int
    decreases outcomes.len() - i,
{
    if i < 0 || i >= outcomes.len() || outcomes[i] is Err {
        i
    } else {
        first_failure_from(outcomes, i + 1)
    }
}

/// The reports among the outcomes that hold what a summary needs, in their order.
pub open spec fn accepted(outcomes: Seq<Result<Report, JsonError>>) -> Seq<Report>
    decreases outcomes.len(),
{
    if outcomes.len() == 0 {
        Seq::empty()
    } else {
        let earlier = accepted(outcomes.drop_last());
        match outcomes.last() {
            Ok(report) => if report.valid() {
                earlier.push(report)
            } else {
                earlier
            },
            Err(_) => earlier,
        }
    }
}

/// Gathers the reports of a directory from the outcomes of reading its files,
/// which are given in the order in which the files were found.
///
/// The first file that could not be read as a report fails the whole: its
/// failure is returned. Otherwise the reports that hold what a summary needs
/// are returned in their order, and the others are left out.
pub fn parse_artifacts(outcomes: Vec<Result<Report, JsonError>>) -> (result: Result<
    Vec<Report>,
    CommentAssemblyError,
>)
    ensures
        first_failure_from(outcomes@, 0) < outcomes@.len() ==> result == Err::<
            Vec<Report>,
            CommentAssemblyError,
        >(CommentAssemblyError::Json(outcomes@[first_failure_from(outcomes@, 0)]->Err_0)),
        first_failure_from(outcomes@, 0) >= outcomes@.len() ==> (result matches Ok(reports)
            && reports@ == accepted(outcomes@)),
        result matches Ok(reports) ==> forall|i: int|
            0 <= i < reports@.len() ==> (#[trigger] reports@[i]).valid(),
{
    let ghost given = outcomes@;
    let mut waiting = reversed(outcomes);
    let mut reports: Vec<Report> = Vec::new();
    while waiting.len() > 0
        invariant
            given == outcomes@,
            waiting@.len() <= given.len(),
            forall|k: int|
                0 <= k < waiting@.len() ==> #[trigger] waiting@[k] == given[given.len() - 1 - k],
            first_failure_from(given, 0) == first_failure_from(
                given,
                given.len() - waiting@.len(),
            ),
            reports@ == accepted(given.take(given.len() - waiting@.len())),
        decreases waiting@.len(),
    {
        let ghost done = given.len() - waiting@.len();
        let outcome = waiting.pop().unwrap();
        proof {
            assert(outcome == given[done]);
            assert(given.take(done + 1).drop_last() == given.take(done));
        }
        match outcome {
            Ok(report) => {
                if report.is_valid() {
                    reports.push(report);
                }
            },
            Err(fault) => {
                return Err(CommentAssemblyError::Json(fault));
            },
        }
    }
    proof {
        assert(given.take(given.len() as int) == given);
        lemma_accepted_are_valid(given);
    }
    Ok(reports)
}

/// Every report that is accepted holds what a summary needs.
pub proof fn lemma_accepted_are_valid(outcomes: Seq<Result<Report, JsonError>>)
    ensures
        forall|i: int|
            0 <= i < accepted(outcomes).len() ==> (#[trigger] accepted(outcomes)[i]).valid(),
    decreases outcomes.len(),
{
    if outcomes.len() > 0 {
        let earlier = accepted(outcomes.drop_last());
        lemma_accepted_are_valid(outcomes.drop_last());
        assert forall|i: int| 0 <= i < accepted(outcomes).len() implies (#[trigger] accepted(
            outcomes,
        )[i]).valid() by {
            if i < earlier.len() {
                assert(accepted(outcomes)[i] == earlier[i]);
            }
        }
    }
}

} // verus!
