//! The rows of the general table: one for each name of a board, in the order
//! of the names, with the ranges of all sketches that were compiled for it.
use crate::reports::structs::{Board, Report, Sketch, SketchSizeKind};
use crate::summarize::structs::{SizeSummary, SummaryView};
use crate::text::{
    comes_before, lemma_text_order_total, lemma_text_order_transitive, text_before,
};
use vstd::prelude::*;

verus! {

/// The summary after the size records of a sketch were seen, in their order.
pub open spec fn sizes_into(summary: SummaryView, sizes: Seq<SketchSizeKind>) -> SummaryView
    decreases sizes.len(),
{
    if sizes.len() == 0 {
        summary
    } else {
        sizes_into(summary, sizes.drop_last()).with_size(sizes.last())
    }
}

/// The summary after the sketches of a board were seen, in their order.
pub open spec fn sketches_into(summary: SummaryView, sketches: Seq<Sketch>) -> SummaryView
    decreases sketches.len(),
{
    if sketches.len() == 0 {
        summary
    } else {
        sizes_into(sketches_into(summary, sketches.drop_last()), sketches.last().sizes@)
    }
}

/// Takes the size records of a sketch into the summary.
pub fn add_sizes(summary: &mut SizeSummary, sizes: &Vec<SketchSizeKind>)
    ensures
        final(summary)@ == sizes_into(old(summary)@, sizes@),
        final(summary).keeps_missing(*old(summary)),
{
    let mut i: usize = 0;
    while i < sizes.len()
        invariant
            i <= sizes@.len(),
            summary@ == sizes_into(old(summary)@, sizes@.take(i as int)),
            summary.keeps_missing(*old(summary)),
        decreases sizes@.len() - i,
    {
        proof {
            assert(sizes@.take(i + 1).drop_last() == sizes@.take(i as int));
        }
        summary.add(&sizes[i]);
        i += 1;
    }
    proof {
        assert(sizes@.take(i as int) == sizes@);
    }
}

/// Takes the sketches of a board into the summary.
pub fn add_sketches(summary: &mut SizeSummary, sketches: &Vec<Sketch>)
    ensures
        final(summary)@ == sketches_into(old(summary)@, sketches@),
        final(summary).keeps_missing(*old(summary)),
{
    let mut i: usize = 0;
    while i < sketches.len()
        invariant
            i <= sketches@.len(),
            summary@ == sketches_into(old(summary)@, sketches@.take(i as int)),
            summary.keeps_missing(*old(summary)),
        decreases sketches@.len() - i,
    {
        proof {
            assert(sketches@.take(i + 1).drop_last() == sketches@.take(i as int));
        }
        add_sizes(summary, &sketches[i].sizes);
        i += 1;
    }
    proof {
        assert(sketches@.take(i as int) == sketches@);
    }
}

/// A row of the general table as a plain value: the name of a board and the
/// ranges of its sketches.
pub struct BoardRow {
    pub board: Seq<char>,
    pub summary: SummaryView,
}

/// A row of the general table: a board and the ranges of its sketches.
#[derive(Debug)]
pub struct BoardSummary {
    /// The name of the board.
    pub board: String,
    /// The ranges of the sketches that were compiled for the board.
    pub summary: SizeSummary,
}

impl View for BoardSummary {
    type V = BoardRow;

    open spec fn view(&self) -> BoardRow {
        BoardRow { board: self.board@, summary: self.summary@ }
    }
}

/// Whether in every row each bound that is missing is noted by the usual text.
pub open spec fn all_tidy(rows: Seq<BoardSummary>) -> bool {
    forall|i: int| 0 <= i < rows.len() ==> (#[trigger] rows[i]).summary.tidy()
}

/// The rows of a table as plain values.
pub open spec fn row_views(rows: Seq<BoardSummary>) -> Seq<BoardRow> {
    rows.map_values(|row: BoardSummary| row@)
}

/// The first place from `i` on whose board does not come before `board`.
pub open spec fn slot_from(rows: Seq<BoardRow>, board: Seq<char>, i: int) -> int
    decreases rows.len() - i,
{
    if i < 0 || i >= rows.len() || !text_before(rows[i].board, board) {
        i
    } else {
        slot_from(rows, board, i + 1)
    }
}

/// The rows after a board was seen. The rows of boards whose names come
/// before the name of this board stay in front. If the next row has the name
/// of this board, the sketches of the board go into its ranges; if not, a row
/// that starts from blank ranges is put in at that place.
pub open spec fn with_board(rows: Seq<BoardRow>, board: Board) -> Seq<BoardRow> {
    let at = slot_from(rows, board.board@, 0);
    let known = at < rows.len() && rows[at].board == board.board@;
    let rest = if known {
        rows.remove(at)
    } else {
        rows
    };
    let seed = if known {
        rows[at].summary
    } else {
        SummaryView::blank()
    };
    rest.insert(
        at,
        BoardRow { board: board.board@, summary: sketches_into(seed, board.sketches@) },
    )
}

/// The rows after the boards of a report were seen, in their order.
pub open spec fn with_boards(rows: Seq<BoardRow>, boards: Seq<Board>) -> Seq<BoardRow>
    decreases boards.len(),
{
    if boards.len() == 0 {
        rows
    } else {
        with_board(with_boards(rows, boards.drop_last()), boards.last())
    }
}

/// The rows after the reports were seen, in their order.
pub open spec fn with_reports(rows: Seq<BoardRow>, reports: Seq<Report>) -> Seq<BoardRow>
    decreases reports.len(),
{
    if reports.len() == 0 {
        rows
    } else {
        with_boards(with_reports(rows, reports.drop_last()), reports.last().boards@)
    }
}

/// The rows of the general table: one for each name of a board, in the order
/// of the names, with the ranges of all sketches compiled for that name.
pub open spec fn board_rows(reports: Seq<Report>) -> Seq<BoardRow> {
    with_reports(Seq::empty(), reports)
}

/// Takes a board into the rows of the general table.
pub fn add_board(rows: &mut Vec<BoardSummary>, board: &Board)
    ensures
        row_views(final(rows)@) == with_board(row_views(old(rows)@), *board),
        all_tidy(old(rows)@) ==> all_tidy(final(rows)@),
{
    let ghost before = row_views(rows@);
    let mut at: usize = 0;
    while at < rows.len() && comes_before(rows[at].board.as_str(), board.board.as_str())
        invariant
            at <= rows@.len(),
            row_views(rows@) == before,
            slot_from(before, board.board@, 0) == slot_from(before, board.board@, at as int),
        decreases rows@.len() - at,
    {
        at += 1;
    }
    let known = at < rows.len() && rows[at].board == board.board;
    let mut summary = if known {
        let row = rows.remove(at);
        row.summary
    } else {
        SizeSummary::default()
    };
    add_sketches(&mut summary, &board.sketches);
    let ghost rest = row_views(rows@);
    assert(rest == if known {
        before.remove(at as int)
    } else {
        before
    });
    let row = BoardSummary { board: board.board.clone(), summary };
    rows.insert(at, row);
    assert(row_views(rows@) == rest.insert(at as int, row@));
}

/// The rows of the general table for the given reports.
pub fn summarize_boards(reports: &Vec<Report>) -> (rows: Vec<BoardSummary>)
    ensures
        row_views(rows@) == board_rows(reports@),
        all_tidy(rows@),
{
    let mut rows: Vec<BoardSummary> = Vec::new();
    assert(row_views(rows@) == Seq::<BoardRow>::empty());
    let mut i: usize = 0;
    while i < reports.len()
        invariant
            i <= reports@.len(),
            row_views(rows@) == with_reports(Seq::empty(), reports@.take(i as int)),
            all_tidy(rows@),
        decreases reports@.len() - i,
    {
        let boards = &reports[i].boards;
        let ghost start = row_views(rows@);
        let mut j: usize = 0;
        while j < boards.len()
            invariant
                j <= boards@.len(),
                row_views(rows@) == with_boards(start, boards@.take(j as int)),
                all_tidy(rows@),
            decreases boards@.len() - j,
        {
            proof {
                assert(boards@.take(j + 1).drop_last() == boards@.take(j as int));
            }
            add_board(&mut rows, &boards[j]);
            j += 1;
        }
        proof {
            assert(boards@.take(j as int) == boards@);
            assert(reports@.take(i + 1).drop_last() == reports@.take(i as int));
        }
        i += 1;
    }
    proof {
        assert(reports@.take(i as int) == reports@);
    }
    rows
}

/// Whether each row stands before all rows whose names come after its own.
pub open spec fn strictly_ascending(rows: Seq<BoardRow>) -> bool {
    forall|i: int, j: int|
        0 <= i < j < rows.len() ==> text_before(
            (#[trigger] rows[i]).board,
            (#[trigger] rows[j]).board,
        )
}

/// Whether a row has the given name.
pub open spec fn has_row(rows: Seq<BoardRow>, name: Seq<char>) -> bool {
    exists|i: int| 0 <= i < rows.len() && (#[trigger] rows[i]).board == name
}

/// Whether a board has the given name.
pub open spec fn has_board(boards: Seq<Board>, name: Seq<char>) -> bool {
    exists|i: int| 0 <= i < boards.len() && (#[trigger] boards[i]).board@ == name
}

/// Whether a board of a report has the given name.
pub open spec fn names_a_board(reports: Seq<Report>, name: Seq<char>) -> bool {
    exists|i: int| 0 <= i < reports.len() && has_board((#[trigger] reports[i]).boards@, name)
}

/// The summary after the sketches of those boards that have the given name
/// were seen, board by board.
pub open spec fn board_total(total: SummaryView, boards: Seq<Board>, name: Seq<char>) -> SummaryView
    decreases boards.len(),
{
    if boards.len() == 0 {
        total
    } else {
        let earlier = board_total(total, boards.drop_last(), name);
        if boards.last().board@ == name {
            sketches_into(earlier, boards.last().sketches@)
        } else {
            earlier
        }
    }
}

/// The summary after the sketches of all boards of the given name were seen,
/// report by report.
pub open spec fn report_total(reports: Seq<Report>, name: Seq<char>) -> SummaryView
    decreases reports.len(),
{
    if reports.len() == 0 {
        SummaryView::blank()
    } else {
        board_total(report_total(reports.drop_last(), name), reports.last().boards@, name)
    }
}

/// Whether the rows are those for the reports `prior` and, after them, the
/// boards `boards`: they stand in order, there is a row for a name exactly if
/// one of these boards has it, and each row holds the summary for its name.
pub open spec fn agrees(rows: Seq<BoardRow>, prior: Seq<Report>, boards: Seq<Board>) -> bool {
    &&& strictly_ascending(rows)
    &&& forall|name: Seq<char>| #[trigger]
        has_row(rows, name) <==> names_a_board(prior, name) || has_board(boards, name)
    &&& forall|i: int|
        0 <= i < rows.len() ==> (#[trigger] rows[i]).summary == board_total(
            report_total(prior, rows[i].board),
            boards,
            rows[i].board,
        )
}

/// The slot of a name lies within the rows; the rows before it have names
/// that come before the name, and the row at the slot has not.
pub proof fn lemma_slot(rows: Seq<BoardRow>, name: Seq<char>, i: int)
    requires
        0 <= i <= rows.len(),
    ensures
        i <= slot_from(rows, name, i) <= rows.len(),
        forall|k: int| i <= k < slot_from(rows, name, i) ==> text_before(
            (#[trigger] rows[k]).board,
            name,
        ),
        slot_from(rows, name, i) < rows.len() ==> !text_before(
            rows[slot_from(rows, name, i)].board,
            name,
        ),
    decreases rows.len() - i,
{
    if i < rows.len() && text_before(rows[i].board, name) {
        lemma_slot(rows, name, i + 1);
    }
}

/// Among rows in order, a name has a row exactly if the row at its slot has it.
pub proof fn lemma_slot_finds(rows: Seq<BoardRow>, name: Seq<char>)
    requires
        strictly_ascending(rows),
    ensures
        has_row(rows, name) <==> (slot_from(rows, name, 0) < rows.len() && rows[slot_from(
            rows,
            name,
            0,
        )].board == name),
{
    let at = slot_from(rows, name, 0);
    lemma_slot(rows, name, 0);
    if has_row(rows, name) {
        let i = choose|i: int| 0 <= i < rows.len() && (#[trigger] rows[i]).board == name;
        lemma_text_order_total(name, name);
        if i < at {
            assert(text_before(rows[i].board, name));
        } else if i > at {
            assert(text_before(rows[at].board, rows[i].board));
        }
    }
}

/// A board has a name exactly if it is the last board or one of those before it.
pub proof fn lemma_has_board_step(boards: Seq<Board>, name: Seq<char>)
    requires
        boards.len() > 0,
    ensures
        has_board(boards, name) <==> has_board(boards.drop_last(), name) || boards.last().board@
            == name,
{
    let earlier = boards.drop_last();
    if has_board(boards, name) {
        let i = choose|i: int| 0 <= i < boards.len() && (#[trigger] boards[i]).board@ == name;
        if i < earlier.len() {
            assert(earlier[i].board@ == name);
        }
    }
    if has_board(earlier, name) {
        let i = choose|i: int| 0 <= i < earlier.len() && (#[trigger] earlier[i]).board@ == name;
        assert(boards[i].board@ == name);
    }
    if boards.last().board@ == name {
        assert(boards[boards.len() - 1].board@ == name);
    }
}

/// A board of the reports has a name exactly if a board of the last report
/// has it or a board of the reports before it.
pub proof fn lemma_names_a_board_step(reports: Seq<Report>, name: Seq<char>)
    requires
        reports.len() > 0,
    ensures
        names_a_board(reports, name) <==> names_a_board(reports.drop_last(), name) || has_board(
            reports.last().boards@,
            name,
        ),
{
    let earlier = reports.drop_last();
    if names_a_board(reports, name) {
        let i = choose|i: int|
            0 <= i < reports.len() && has_board((#[trigger] reports[i]).boards@, name);
        if i < earlier.len() {
            assert(has_board(earlier[i].boards@, name));
        }
    }
    if names_a_board(earlier, name) {
        let i = choose|i: int|
            0 <= i < earlier.len() && has_board((#[trigger] earlier[i]).boards@, name);
        assert(has_board(reports[i].boards@, name));
    }
    if has_board(reports.last().boards@, name) {
        assert(has_board(reports[reports.len() - 1].boards@, name));
    }
}

/// The summary for a name that no board has is blank.
pub proof fn lemma_unnamed_is_blank(prior: Seq<Report>, boards: Seq<Board>, name: Seq<char>)
    requires
        !names_a_board(prior, name),
        !has_board(boards, name),
    ensures
        board_total(report_total(prior, name), boards, name) == SummaryView::blank(),
    decreases prior.len(), boards.len(),
{
    if boards.len() > 0 {
        lemma_has_board_step(boards, name);
        lemma_unnamed_is_blank(prior, boards.drop_last(), name);
    } else if prior.len() > 0 {
        lemma_names_a_board_step(prior, name);
        lemma_unnamed_is_blank(prior.drop_last(), prior.last().boards@, name);
    }
}

/// Taking one more board keeps the rows in agreement with what was seen.
pub proof fn lemma_with_board_agrees(rows: Seq<BoardRow>, prior: Seq<Report>, boards: Seq<Board>)
    requires
        boards.len() > 0,
        agrees(rows, prior, boards.drop_last()),
    ensures
        agrees(with_board(rows, boards.last()), prior, boards),
{
    let board = boards.last();
    let earlier = boards.drop_last();
    let name = board.board@;
    let at = slot_from(rows, name, 0);
    let known = at < rows.len() && rows[at].board == name;
    let rest = if known {
        rows.remove(at)
    } else {
        rows
    };
    let seed = if known {
        rows[at].summary
    } else {
        SummaryView::blank()
    };
    let row = BoardRow { board: name, summary: sketches_into(seed, board.sketches@) };
    let out = rest.insert(at, row);
    assert(out == with_board(rows, board));
    lemma_slot(rows, name, 0);
    lemma_slot_finds(rows, name);
    // Where a row of the rest comes from.
    assert forall|k: int| 0 <= k < rest.len() implies #[trigger] rest[k] == rows[if known && k
        >= at {
        k + 1
    } else {
        k
    }] by {}
    assert forall|i: int, j: int| 0 <= i < j < out.len() implies text_before(
        (#[trigger] out[i]).board,
        (#[trigger] out[j]).board,
    ) by {
        if j == at {
            assert(out[i] == rows[i]);
        } else if i == at {
            let from = if known {
                j
            } else {
                j - 1
            };
            assert(out[j] == rest[j - 1]);
            assert(out[j] == rows[from]);
            if known {
                assert(text_before(rows[at].board, rows[from].board));
            } else {
                lemma_text_order_total(name, rows[at].board);
                if from > at {
                    assert(text_before(rows[at].board, rows[from].board));
                    lemma_text_order_transitive(name, rows[at].board, rows[from].board);
                }
            }
        } else {
            let a = if i < at {
                i
            } else {
                i - 1
            };
            let b = if j < at {
                j
            } else {
                j - 1
            };
            assert(out[i] == rest[a]);
            assert(out[j] == rest[b]);
            let from_a = if known && a >= at {
                a + 1
            } else {
                a
            };
            let from_b = if known && b >= at {
                b + 1
            } else {
                b
            };
            assert(rest[a] == rows[from_a]);
            assert(rest[b] == rows[from_b]);
            assert(text_before(rows[from_a].board, rows[from_b].board));
        }
    }
    assert forall|other: Seq<char>| #[trigger]
        has_row(out, other) <==> names_a_board(prior, other) || has_board(boards, other) by {
        lemma_has_board_step(boards, other);
        if has_row(out, other) {
            let i = choose|i: int| 0 <= i < out.len() && (#[trigger] out[i]).board == other;
            if i != at {
                let a = if i < at {
                    i
                } else {
                    i - 1
                };
                assert(out[i] == rest[a]);
                let from = if known && a >= at {
                    a + 1
                } else {
                    a
                };
                assert(rows[from].board == other);
                assert(has_row(rows, other));
            }
        }
        if has_row(rows, other) && other != name {
            let i = choose|i: int| 0 <= i < rows.len() && (#[trigger] rows[i]).board == other;
            let a = if known && i > at {
                i - 1
            } else {
                i
            };
            assert(rest[a] == rows[i]);
            let b = if a < at {
                a
            } else {
                a + 1
            };
            assert(out[b] == rest[a]);
            assert(out[b].board == other);
        }
        if other == name {
            assert(out[at].board == other);
        }
    }
    assert forall|i: int| 0 <= i < out.len() implies (#[trigger] out[i]).summary == board_total(
        report_total(prior, out[i].board),
        boards,
        out[i].board,
    ) by {
        if i == at {
            if known {
                assert(rows[at].summary == board_total(report_total(prior, name), earlier, name));
            } else {
                assert(!has_row(rows, name));
                lemma_unnamed_is_blank(prior, earlier, name);
            }
        } else {
            let a = if i < at {
                i
            } else {
                i - 1
            };
            assert(out[i] == rest[a]);
            let from = if known && a >= at {
                a + 1
            } else {
                a
            };
            assert(out[i] == rows[from]);
            if rows[from].board == name {
                assert(has_row(rows, name));
                lemma_text_order_total(name, name);
                if from < at {
                    assert(text_before(rows[from].board, name));
                } else {
                    assert(text_before(rows[at].board, rows[from].board));
                }
            }
        }
    }
}

/// Taking the boards of one more report keeps the rows in agreement with what was seen.
pub proof fn lemma_with_boards_agrees(rows: Seq<BoardRow>, prior: Seq<Report>, boards: Seq<Board>)
    requires
        agrees(rows, prior, Seq::empty()),
    ensures
        agrees(with_boards(rows, boards), prior, boards),
    decreases boards.len(),
{
    if boards.len() > 0 {
        lemma_with_boards_agrees(rows, prior, boards.drop_last());
        lemma_with_board_agrees(with_boards(rows, boards.drop_last()), prior, boards);
    } else {
        assert(boards == Seq::<Board>::empty());
    }
}

/// The rows of the general table stand in the order of the names of the
/// boards, each name once. There is a row for a name exactly if a board of
/// the reports has that name, and the row holds the ranges of the sketches of
/// all boards of that name, in the order in which the reports list them.
pub proof fn lemma_board_rows(reports: Seq<Report>)
    ensures
        strictly_ascending(board_rows(reports)),
        forall|name: Seq<char>| #[trigger]
            has_row(board_rows(reports), name) <==> names_a_board(reports, name),
        forall|i: int|
            0 <= i < board_rows(reports).len() ==> (#[trigger] board_rows(reports)[i]).summary
                == report_total(reports, board_rows(reports)[i].board),
    decreases reports.len(),
{
    let none = Seq::<Board>::empty();
    if reports.len() == 0 {
        assert forall|name: Seq<char>| !(#[trigger] has_row(board_rows(reports), name)) by {}
    } else {
        let prior = reports.drop_last();
        let rows = board_rows(prior);
        lemma_board_rows(prior);
        assert(agrees(rows, prior, none));
        lemma_with_boards_agrees(rows, prior, reports.last().boards@);
        assert forall|name: Seq<char>| #[trigger]
            has_row(board_rows(reports), name) <==> names_a_board(reports, name) by {
            lemma_names_a_board_step(reports, name);
        }
    }
}

} // verus!
