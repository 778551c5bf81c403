//! The order in which reports are written: that of the names of their first boards.
use crate::reports::structs::Report;
use crate::text::{comes_before, lemma_text_order_total, lemma_text_order_transitive, text_before};
use crate::vectors::reversed;
use vstd::prelude::*;

verus! {

/// The name by which a report is ordered: that of its first board.
pub open spec fn first_board(report: Report) -> Seq<char>
    recommends
        report.boards@.len() > 0,
{
    report.boards@[0].board@
}

/// The first place from `i` on whose report is ordered after the name `key`.
pub open spec fn place_from(sorted: Seq<Report>, key: Seq<char>, i: int) -> int
    decreases sorted.len() - i,
{
    if i < 0 || i >= sorted.len() || text_before(key, first_board(sorted[i])) {
        i
    } else {
        place_from(sorted, key, i + 1)
    }
}

/// The reports in the order of the names of their first boards. Reports whose
/// first boards have the same name keep the order in which they came.
pub open spec fn ordered(reports: Seq<Report>) -> Seq<Report>
    decreases reports.len(),
{
    if reports.len() == 0 {
        reports
    } else {
        let sorted = ordered(reports.drop_last());
        sorted.insert(place_from(sorted, first_board(reports.last()), 0), reports.last())
    }
}

/// Whether every report names at least one board.
pub open spec fn all_name_a_board(reports: Seq<Report>) -> bool {
    forall|i: int| 0 <= i < reports.len() ==> (#[trigger] reports[i]).boards@.len() > 0
}

/// Puts the reports in the order of the names of their first boards.
pub fn sort_reports(reports: Vec<Report>) -> (sorted: Vec<Report>)
    requires
        all_name_a_board(reports@),
    ensures
        sorted@ == ordered(reports@),
{
    let ghost given = reports@;
    let mut waiting = reversed(reports);
    let mut sorted: Vec<Report> = Vec::new();
    while waiting.len() > 0
        invariant
            all_name_a_board(given),
            waiting@.len() <= given.len(),
            forall|k: int|
                0 <= k < waiting@.len() ==> #[trigger] waiting@[k] == given[given.len() - 1 - k],
            sorted@ == ordered(given.take(given.len() - waiting@.len())),
            all_name_a_board(sorted@),
        decreases waiting@.len(),
    {
        let ghost done = given.len() - waiting@.len();
        let report = waiting.pop().unwrap();
        proof {
            assert(report == given[done]);
            assert(given.take(done + 1).drop_last() == given.take(done));
        }
        let mut at: usize = 0;
        while at < sorted.len() && !comes_before(
            report.boards[0].board.as_str(),
            sorted[at].boards[0].board.as_str(),
        )
            invariant
                at <= sorted@.len(),
                report.boards@.len() > 0,
                all_name_a_board(sorted@),
                place_from(sorted@, first_board(report), 0) == place_from(
                    sorted@,
                    first_board(report),
                    at as int,
                ),
            decreases sorted@.len() - at,
        {
            at += 1;
        }
        sorted.insert(at, report);
    }
    proof {
        assert(given.take(given.len() as int) == given);
    }
    sorted
}

/// Ordering keeps the number of reports.
pub proof fn lemma_ordered_len(reports: Seq<Report>)
    ensures
        ordered(reports).len() == reports.len(),
    decreases reports.len(),
{
    if reports.len() > 0 {
        lemma_ordered_len(reports.drop_last());
        lemma_place_in_range(ordered(reports.drop_last()), first_board(reports.last()), 0);
    }
}

/// The place of a name lies between the place where the search starts and the end.
pub proof fn lemma_place_in_range(sorted: Seq<Report>, key: Seq<char>, i: int)
    requires
        0 <= i <= sorted.len(),
    ensures
        i <= place_from(sorted, key, i) <= sorted.len(),
    decreases sorted.len() - i,
{
    if i < sorted.len() && !text_before(key, first_board(sorted[i])) {
        lemma_place_in_range(sorted, key, i + 1);
    }
}

/// Whether no report is ordered before one that stands in front of it.
pub open spec fn ascending(reports: Seq<Report>) -> bool {
    forall|i: int, j: int|
        0 <= i < j < reports.len() ==> !text_before(
            first_board(#[trigger] reports[j]),
            first_board(#[trigger] reports[i]),
        )
}

/// No report before the place of a name is ordered after that name.
pub proof fn lemma_before_place(sorted: Seq<Report>, key: Seq<char>, i: int, k: int)
    requires
        0 <= i <= k < place_from(sorted, key, i),
    ensures
        k < sorted.len(),
        !text_before(key, first_board(sorted[k])),
    decreases sorted.len() - i,
{
    if i < sorted.len() && !text_before(key, first_board(sorted[i])) {
        if i < k {
            lemma_before_place(sorted, key, i + 1, k);
        }
    }
}

/// The report at the place of a name, if there is one, is ordered after that name.
pub proof fn lemma_at_place(sorted: Seq<Report>, key: Seq<char>, i: int)
    requires
        0 <= i <= sorted.len(),
    ensures
        place_from(sorted, key, i) < sorted.len() ==> text_before(
            key,
            first_board(sorted[place_from(sorted, key, i)]),
        ),
    decreases sorted.len() - i,
{
    if i < sorted.len() && !text_before(key, first_board(sorted[i])) {
        lemma_at_place(sorted, key, i + 1);
    }
}

/// In the output the reports stand by the names of their first boards, in
/// ascending order.
pub proof fn lemma_ordered_ascending(reports: Seq<Report>)
    ensures
        ascending(ordered(reports)),
    decreases reports.len(),
{
    if reports.len() > 0 {
        let sorted = ordered(reports.drop_last());
        let last = reports.last();
        let key = first_board(last);
        let at = place_from(sorted, key, 0);
        let result = ordered(reports);
        lemma_ordered_ascending(reports.drop_last());
        lemma_place_in_range(sorted, key, 0);
        lemma_at_place(sorted, key, 0);
        assert forall|i: int, j: int| 0 <= i < j < result.len() implies !text_before(
            first_board(#[trigger] result[j]),
            first_board(#[trigger] result[i]),
        ) by {
            if j == at {
                lemma_before_place(sorted, key, 0, i);
            } else if i == at {
                let later = first_board(sorted[j - 1]);
                assert(result[j] == sorted[j - 1]);
                if text_before(later, key) {
                    lemma_text_order_transitive(later, key, first_board(sorted[at]));
                    if at < j - 1 {
                        assert(!text_before(first_board(sorted[j - 1]), first_board(sorted[at])));
                    } else {
                        lemma_text_order_total(later, later);
                    }
                }
            } else {
                let a = if i < at { i } else { i - 1 };
                let b = if j < at { j } else { j - 1 };
                assert(result[i] == sorted[a]);
                assert(result[j] == sorted[b]);
                assert(!text_before(first_board(sorted[b]), first_board(sorted[a])));
            }
        }
    }
}

/// Ordering neither drops a report nor adds one: each report stands in the
/// output as often as it was given.
pub proof fn lemma_ordered_permutes(reports: Seq<Report>)
    ensures
        ordered(reports).to_multiset() == reports.to_multiset(),
    decreases reports.len(),
{
    broadcast use vstd::seq_lib::group_to_multiset_ensures;

    if reports.len() > 0 {
        let sorted = ordered(reports.drop_last());
        let last = reports.last();
        let at = place_from(sorted, first_board(last), 0);
        let result = sorted.insert(at, last);
        lemma_ordered_permutes(reports.drop_last());
        lemma_place_in_range(sorted, first_board(last), 0);
        assert(result.remove(at) == sorted);
        assert(result[at] == last);
        assert(result.remove(at).to_multiset() == result.to_multiset().remove(last));
        assert(result.contains(last));
        assert(result.to_multiset() == sorted.to_multiset().insert(last));
        assert(reports.drop_last().push(last) == reports);
    }
}

/// The reports whose first boards have the given name, in their order.
pub open spec fn with_first_board(reports: Seq<Report>, name: Seq<char>) -> Seq<Report>
    decreases reports.len(),
{
    if reports.len() == 0 {
        reports
    } else {
        let earlier = with_first_board(reports.drop_last(), name);
        if first_board(reports.last()) == name {
            earlier.push(reports.last())
        } else {
            earlier
        }
    }
}

/// Picking the reports of a name from two runs of reports gives what picking
/// from each of them gives, one after the other.
pub proof fn lemma_with_first_board_of_two(a: Seq<Report>, b: Seq<Report>, name: Seq<char>)
    ensures
        with_first_board(a + b, name) == with_first_board(a, name) + with_first_board(b, name),
    decreases b.len(),
{
    if b.len() == 0 {
        assert(a + b == a);
    } else {
        assert((a + b).drop_last() == a + b.drop_last());
        lemma_with_first_board_of_two(a, b.drop_last(), name);
    }
}

/// Among reports in ascending order, those from the place of a name on are
/// ordered after that name, so none of them has it.
pub proof fn lemma_from_place_on(sorted: Seq<Report>, key: Seq<char>, from: int)
    requires
        ascending(sorted),
        place_from(sorted, key, 0) <= from <= sorted.len(),
    ensures
        forall|j: int|
            from <= j < sorted.len() ==> text_before(key, first_board(#[trigger] sorted[j])),
        with_first_board(sorted.skip(from), key) == Seq::<Report>::empty(),
    decreases sorted.len() - from,
{
    let at = place_from(sorted, key, 0);
    lemma_place_in_range(sorted, key, 0);
    lemma_at_place(sorted, key, 0);
    if from < sorted.len() {
        lemma_from_place_on(sorted, key, from + 1);
        let here = first_board(sorted[from]);
        let first = first_board(sorted[at]);
        if from > at && here != first {
            assert(!text_before(first_board(sorted[from]), first_board(sorted[at])));
            lemma_text_order_total(first, here);
            lemma_text_order_transitive(key, first, here);
        }
        assert(text_before(key, here));
        lemma_text_order_total(key, key);
        let tail = sorted.skip(from);
        let one = seq![sorted[from]];
        assert(tail == one + sorted.skip(from + 1));
        lemma_with_first_board_of_two(one, sorted.skip(from + 1), key);
        assert(one.drop_last() == Seq::<Report>::empty());
        assert(one.last() == sorted[from]);
        assert(here != key);
        assert(with_first_board(one.drop_last(), key) == Seq::<Report>::empty());
        assert(with_first_board(one, key) == Seq::<Report>::empty());
    } else {
        assert(sorted.skip(from) == Seq::<Report>::empty());
    }
}

/// Reports whose first boards have the same name keep the order in which
/// they were given.
pub proof fn lemma_ordered_stable(reports: Seq<Report>, name: Seq<char>)
    ensures
        with_first_board(ordered(reports), name) == with_first_board(reports, name),
    decreases reports.len(),
{
    if reports.len() > 0 {
        let sorted = ordered(reports.drop_last());
        let last = reports.last();
        let key = first_board(last);
        let at = place_from(sorted, key, 0);
        lemma_ordered_stable(reports.drop_last(), name);
        lemma_ordered_ascending(reports.drop_last());
        lemma_place_in_range(sorted, key, 0);
        let front = sorted.take(at);
        let back = sorted.skip(at);
        assert(sorted == front + back);
        assert(sorted.insert(at, last) == front.push(last) + back);
        lemma_with_first_board_of_two(front, back, name);
        lemma_with_first_board_of_two(front.push(last), back, name);
        assert(front.push(last).drop_last() == front);
        if key == name {
            lemma_from_place_on(sorted, key, at);
            assert(with_first_board(front, name) + Seq::<Report>::empty() == with_first_board(
                front,
                name,
            ));
            assert(with_first_board(front, name).push(last) + Seq::<Report>::empty()
                == with_first_board(front, name).push(last));
        }
    }
}

} // verus!
