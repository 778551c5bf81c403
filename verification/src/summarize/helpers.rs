//! The parts of the comment, and the budget of bytes that they are written under.
use crate::reports::structs::{Board, Report, Sketch, SketchSizeKind};
use crate::summarize::draft::{lemma_put_run_cuts_between_units, Draft};
use crate::summarize::rows::{board_rows, summarize_boards, BoardRow, BoardSummary};
use crate::summarize::structs::SizeKind;
use crate::text::{byte_len, lemma_byte_len_concat, lemma_unit_not_empty, text_len};
use vstd::prelude::*;
use vstd::string::*;

verus! {

/// The line by which a comment of this library is told from other comments.
pub const COMMENT_MARKER: &'static str = "<!-- 2bndy5/arduino-report-size-deltas -->\n";

/// The greatest length in bytes that a comment may have.
pub const MAX_COMMENT_LEN: usize = 65536;

/// The line that separates the head of a table of five columns from its rows.
pub const TABLE_DIVIDER: &'static str = "|---|---|---|---|---|\n";

/// The opening of the folded part of the comment.
pub const START_DETAILS: &'static str =
    "\n<details><summary>Click for full report per board</summary>\n";

/// The closing of the folded part of the comment.
pub const END_DETAILS: &'static str = "\n</details>\n";

/// The bytes that a comment of the given text may still grow by.
pub open spec fn budget(text: Seq<char>) -> nat {
    if byte_len(text) <= MAX_COMMENT_LEN {
        (MAX_COMMENT_LEN - byte_len(text)) as nat
    } else {
        0
    }
}

/// The bytes that the comment may still grow by.
pub fn remaining_capacity(comment: &String) -> (capacity: usize)
    ensures
        capacity == budget(comment@),
{
    let len = text_len(comment.as_str());
    if len <= MAX_COMMENT_LEN {
        MAX_COMMENT_LEN - len
    } else {
        0
    }
}

/// Adds `new_data` to the comment if it fits in `len_limit` bytes, and
/// returns the bytes that are left after that. A text that does not fit
/// leaves the comment and the limit as they are.
pub fn append_to_comment(existing_comment: &mut String, new_data: &str, len_limit: usize) -> (left:
    usize)
    ensures
        byte_len(new_data@) <= len_limit ==> final(existing_comment)@ == old(existing_comment)@
            + new_data@ && left == len_limit - byte_len(new_data@),
        byte_len(new_data@) > len_limit ==> final(existing_comment)@ == old(existing_comment)@
            && left == len_limit,
        (Draft { text: final(existing_comment)@, capacity: left as nat }) == (Draft {
            text: old(existing_comment)@,
            capacity: len_limit as nat,
        }).put(new_data@),
{
    let new_len = text_len(new_data);
    if new_len <= len_limit {
        existing_comment.append(new_data);
        len_limit - new_len
    } else {
        len_limit
    }
}

/// A row of a table of five columns.
pub open spec fn row_text(
    first: Seq<char>,
    second: Seq<char>,
    third: Seq<char>,
    fourth: Seq<char>,
    fifth: Seq<char>,
) -> Seq<char> {
    "| "@ + first + " | "@ + second + " | "@ + third + " | "@ + fourth + " | "@ + fifth + " |\n"@
}

/// Writes a row of a table of five columns.
pub fn table_row(first: &str, second: &str, third: &str, fourth: &str, fifth: &str) -> (row: String)
    ensures
        row@ == row_text(first@, second@, third@, fourth@, fifth@),
{
    let mut row = String::from_str("| ");
    row.append(first);
    row.append(" | ");
    row.append(second);
    row.append(" | ");
    row.append(third);
    row.append(" | ");
    row.append(fourth);
    row.append(" | ");
    row.append(fifth);
    row.append(" |\n");
    row
}

/// The head of a table whose first column has the given title.
pub open spec fn table_head(title: Seq<char>) -> Seq<char> {
    row_text(title, "Flash"@, "%"@, "RAM for global variables"@, "%"@) + TABLE_DIVIDER@
}

/// Writes the head of a table whose first column has the given title.
pub fn table_header(title: &str) -> (head: String)
    ensures
        head@ == table_head(title@),
{
    let mut head = table_row(title, "Flash", "%", "RAM for global variables", "%");
    head.append(TABLE_DIVIDER);
    head
}

/// The row of the general table for a board.
pub open spec fn general_row(row: BoardRow) -> Seq<char> {
    row_text(
        row.board,
        row.summary.flash.absolute_text(),
        row.summary.flash.relative_text(),
        row.summary.ram.absolute_text(),
        row.summary.ram.relative_text(),
    )
}

/// The general table, unit by unit: its head, then a row for each board.
pub open spec fn general_units(reports: Seq<Report>) -> Seq<Seq<char>> {
    seq![table_head("Board"@)] + board_rows(reports).map_values(|row: BoardRow| general_row(row))
}

/// The comment after the general table was written at its end, under the
/// budget that the comment leaves.
pub open spec fn with_general_table(comment: Seq<char>, reports: Seq<Report>) -> Seq<char> {
    (Draft { text: comment, capacity: budget(comment) }).put_run(general_units(reports)).text
}

/// Writes the row of the general table for a board.
pub fn general_row_text(row: &BoardSummary) -> (text: String)
    ensures
        text@ == general_row(row@),
{
    let flash = row.summary.flash.summarize_absolute();
    let flash_relative = row.summary.flash.summarize_relative();
    let ram = row.summary.ram.summarize_absolute();
    let ram_relative = row.summary.ram.summarize_relative();
    table_row(
        row.board.as_str(),
        flash.as_str(),
        flash_relative.as_str(),
        ram.as_str(),
        ram_relative.as_str(),
    )
}

/// Writes the general table at the end of the comment: a row for each board
/// with the ranges of its sketches. What does not fit in the length that a
/// comment may have is left out, row by row.
pub fn generate_general_table(reports: &Vec<Report>, comment: &mut String)
    ensures
        final(comment)@ == with_general_table(old(comment)@, reports@),
{
    let rows = summarize_boards(reports);
    let mut len_limit = remaining_capacity(comment);
    let ghost texts = board_rows(reports@).map_values(|row: BoardRow| general_row(row));
    let ghost units = general_units(reports@);
    let ghost start = Draft { text: comment@, capacity: len_limit as nat };
    let ghost goal = start.put_run(units);
    let head = table_header("Board");
    proof {
        assert(units[0] == head@);
        assert(units.drop_first() == texts);
    }
    if text_len(head.as_str()) > len_limit {
        return ;
    }
    len_limit = append_to_comment(comment, head.as_str(), len_limit);
    proof {
        assert(goal == start.put(head@).put_run(texts));
        assert(texts.skip(0) == texts);
    }
    let mut i: usize = 0;
    let mut fitting = true;
    while fitting && i < rows.len()
        invariant
            i <= rows@.len(),
            texts.len() == rows@.len(),
            forall|k: int| 0 <= k < rows@.len() ==> texts[k] == general_row(#[trigger] rows@[k]@),
            fitting ==> (Draft { text: comment@, capacity: len_limit as nat }).put_run(
                texts.skip(i as int),
            ) == goal,
            !fitting ==> comment@ == goal.text,
        decreases rows@.len() - i, if fitting { 1nat } else { 0nat },
    {
        let line = general_row_text(&rows[i]);
        proof {
            assert(texts.skip(i as int)[0] == line@);
            assert(texts.skip(i as int).drop_first() == texts.skip(i + 1));
        }
        if text_len(line.as_str()) > len_limit {
            fitting = false;
        } else {
            len_limit = append_to_comment(comment, line.as_str(), len_limit);
            i += 1;
        }
    }
}

/// The four figures of a row of a detailed table.
pub struct Cells {
    pub flash: Seq<char>,
    pub flash_relative: Seq<char>,
    pub ram: Seq<char>,
    pub ram_relative: Seq<char>,
}

impl Cells {
    /// Four empty cells.
    pub open spec fn blank() -> Cells {
        Cells {
            flash: Seq::empty(),
            flash_relative: Seq::empty(),
            ram: Seq::empty(),
            ram_relative: Seq::empty(),
        }
    }

    /// The cells after a size record was seen. The figure that counts for the
    /// record fills the cells of its kind of memory; the relative cell keeps
    /// what it held where the figure has no relative size.
    pub open spec fn with_size(self, size: SketchSizeKind) -> Cells {
        let delta = size.record().effective_delta();
        let absolute = SizeKind::shown(delta.absolute);
        match size {
            SketchSizeKind::Ram { .. } => Cells {
                ram: absolute,
                ram_relative: match delta.relative {
                    Some(relative) => SizeKind::shown_relative(relative),
                    None => self.ram_relative,
                },
                ..self
            },
            SketchSizeKind::Flash { .. } => Cells {
                flash: absolute,
                flash_relative: match delta.relative {
                    Some(relative) => SizeKind::shown_relative(relative),
                    None => self.flash_relative,
                },
                ..self
            },
        }
    }

    /// The cells after the size records of a sketch were seen, in their order.
    pub open spec fn of(sizes: Seq<SketchSizeKind>) -> Cells
        decreases sizes.len(),
    {
        if sizes.len() == 0 {
            Cells::blank()
        } else {
            Cells::of(sizes.drop_last()).with_size(sizes.last())
        }
    }
}

/// The row of a detailed table for a sketch: its name and its own figures.
pub open spec fn detail_row(sketch: Sketch) -> Seq<char> {
    let cells = Cells::of(sketch.sizes@);
    row_text(sketch.name@, cells.flash, cells.flash_relative, cells.ram, cells.ram_relative)
}

/// The heading over the detailed table of a board.
pub open spec fn board_heading(board: Seq<char>) -> Seq<char> {
    "\n### `"@ + board + "`\n\n"@
}

/// The detailed part for a board, unit by unit: the heading, the head of the
/// table, then a row for each sketch.
pub open spec fn board_units(board: Board) -> Seq<Seq<char>> {
    seq![board_heading(board.board@), table_head("Sketch"@)] + board.sketches@.map_values(
        |sketch: Sketch| detail_row(sketch),
    )
}

/// The draft after the detailed parts of the given boards were offered, board
/// by board: of each board the units up to the first that does not fit.
pub open spec fn put_boards(draft: Draft, boards: Seq<Board>) -> Draft
    decreases boards.len(),
{
    if boards.len() == 0 {
        draft
    } else {
        put_boards(draft, boards.drop_last()).put_run(board_units(boards.last()))
    }
}

/// The draft after the detailed parts of the boards of the given reports
/// were offered, report by report.
pub open spec fn put_reports(draft: Draft, reports: Seq<Report>) -> Draft
    decreases reports.len(),
{
    if reports.len() == 0 {
        draft
    } else {
        put_boards(put_reports(draft, reports.drop_last()), reports.last().boards@)
    }
}

/// The comment after the folded part was written at its end. The part is
/// written only if its opening and its closing both fit in the budget that
/// the comment leaves; the closing is set aside before anything else is written.
pub open spec fn with_detailed_table(comment: Seq<char>, reports: Seq<Report>) -> Seq<char> {
    let frame = byte_len(START_DETAILS@) + byte_len(END_DETAILS@);
    if budget(comment) >= frame {
        put_reports(
            Draft { text: comment + START_DETAILS@, capacity: (budget(comment) - frame) as nat },
            reports,
        ).text + END_DETAILS@
    } else {
        comment
    }
}

/// Writes the row of a detailed table for a sketch.
pub fn detail_row_text(sketch: &Sketch) -> (row: String)
    ensures
        row@ == detail_row(*sketch),
{
    let mut flash = String::new();
    let mut flash_relative = String::new();
    let mut ram = String::new();
    let mut ram_relative = String::new();
    let sizes = &sketch.sizes;
    let mut i: usize = 0;
    while i < sizes.len()
        invariant
            i <= sizes@.len(),
            (Cells {
                flash: flash@,
                flash_relative: flash_relative@,
                ram: ram@,
                ram_relative: ram_relative@,
            }) == Cells::of(sizes@.take(i as int)),
        decreases sizes@.len() - i,
    {
        proof {
            assert(sizes@.take(i + 1).drop_last() == sizes@.take(i as int));
        }
        match &sizes[i] {
            SketchSizeKind::Ram { size } => {
                let delta = size.get_delta();
                ram = SizeKind::fmt(&delta.absolute);
                if let Some(relative) = &delta.relative {
                    ram_relative = SizeKind::fmt_relative(relative);
                }
            },
            SketchSizeKind::Flash { size } => {
                let delta = size.get_delta();
                flash = SizeKind::fmt(&delta.absolute);
                if let Some(relative) = &delta.relative {
                    flash_relative = SizeKind::fmt_relative(relative);
                }
            },
        }
        i += 1;
    }
    proof {
        assert(sizes@.take(i as int) == sizes@);
    }
    table_row(
        sketch.name.as_str(),
        flash.as_str(),
        flash_relative.as_str(),
        ram.as_str(),
        ram_relative.as_str(),
    )
}

/// Writes the heading over the detailed table of a board.
pub fn board_heading_text(board: &str) -> (heading: String)
    ensures
        heading@ == board_heading(board@),
{
    let mut heading = String::from_str("\n### `");
    heading.append(board);
    heading.append("`\n\n");
    heading
}

/// Writes the detailed part for a board at the end of the comment, as far as
/// it fits in `len_limit` bytes, and returns the bytes that are left.
pub fn append_board(comment: &mut String, board: &Board, len_limit: usize) -> (left: usize)
    ensures
        (Draft { text: final(comment)@, capacity: left as nat }) == (Draft {
            text: old(comment)@,
            capacity: len_limit as nat,
        }).put_run(board_units(*board)),
{
    let ghost start = Draft { text: comment@, capacity: len_limit as nat };
    let ghost units = board_units(*board);
    let ghost texts = board.sketches@.map_values(|sketch: Sketch| detail_row(sketch));
    let ghost goal = start.put_run(units);
    let mut len_limit = len_limit;
    let heading = board_heading_text(board.board.as_str());
    proof {
        assert(units[0] == heading@);
    }
    if text_len(heading.as_str()) > len_limit {
        return len_limit;
    }
    len_limit = append_to_comment(comment, heading.as_str(), len_limit);
    let head = table_header("Sketch");
    proof {
        assert(units.drop_first()[0] == head@);
        assert(units.drop_first().drop_first() == texts);
        assert(goal == start.put(heading@).put_run(units.drop_first()));
    }
    if text_len(head.as_str()) > len_limit {
        return len_limit;
    }
    len_limit = append_to_comment(comment, head.as_str(), len_limit);
    proof {
        assert(goal == start.put(heading@).put(head@).put_run(texts));
        assert(texts.skip(0) == texts);
    }
    let sketches = &board.sketches;
    let mut i: usize = 0;
    let mut fitting = true;
    while fitting && i < sketches.len()
        invariant
            i <= sketches@.len(),
            texts.len() == sketches@.len(),
            forall|k: int| 0 <= k < sketches@.len() ==> texts[k] == detail_row(#[trigger] sketches@[k]),
            fitting ==> (Draft { text: comment@, capacity: len_limit as nat }).put_run(
                texts.skip(i as int),
            ) == goal,
            !fitting ==> (Draft { text: comment@, capacity: len_limit as nat }) == goal,
        decreases sketches@.len() - i, if fitting { 1nat } else { 0nat },
    {
        let line = detail_row_text(&sketches[i]);
        proof {
            assert(texts.skip(i as int)[0] == line@);
            assert(texts.skip(i as int).drop_first() == texts.skip(i + 1));
        }
        if text_len(line.as_str()) > len_limit {
            fitting = false;
        } else {
            len_limit = append_to_comment(comment, line.as_str(), len_limit);
            i += 1;
        }
    }
    len_limit
}

/// Writes the folded part at the end of the comment: for each board of each
/// report a heading and a table with a row for each sketch. What does not fit
/// in the length that a comment may have is left out, row by row; where not
/// even the opening and the closing fit, the whole part is left out.
pub fn generate_detailed_table(reports: &Vec<Report>, comment: &mut String)
    ensures
        final(comment)@ == with_detailed_table(old(comment)@, reports@),
{
    let capacity = remaining_capacity(comment);
    let opening = text_len(START_DETAILS);
    let closing = text_len(END_DETAILS);
    if capacity < opening || capacity - opening < closing {
        return ;
    }
    let ghost frame = byte_len(START_DETAILS@) + byte_len(END_DETAILS@);
    let ghost start = Draft {
        text: comment@ + START_DETAILS@,
        capacity: (budget(comment@) - frame) as nat,
    };
    let left = append_to_comment(comment, START_DETAILS, capacity);
    let mut len_limit = left - closing;
    let mut i: usize = 0;
    while i < reports.len()
        invariant
            i <= reports@.len(),
            (Draft { text: comment@, capacity: len_limit as nat }) == put_reports(
                start,
                reports@.take(i as int),
            ),
        decreases reports@.len() - i,
    {
        let boards = &reports[i].boards;
        let ghost before = Draft { text: comment@, capacity: len_limit as nat };
        let mut j: usize = 0;
        while j < boards.len()
            invariant
                j <= boards@.len(),
                (Draft { text: comment@, capacity: len_limit as nat }) == put_boards(
                    before,
                    boards@.take(j as int),
                ),
            decreases boards@.len() - j,
        {
            proof {
                assert(boards@.take(j + 1).drop_last() == boards@.take(j as int));
            }
            len_limit = append_board(comment, &boards[j], len_limit);
            j += 1;
        }
        proof {
            assert(boards@.take(j as int) == boards@);
            assert(reports@.take(i + 1).drop_last() == reports@.take(i as int));
        }
        i += 1;
    }
    proof {
        assert(reports@.take(i as int) == reports@);
    }
    comment.append(END_DETAILS);
}

/// The detailed parts of boards never make the text longer than it could get before.
pub proof fn lemma_put_boards_keeps_reach(draft: Draft, boards: Seq<Board>)
    ensures
        put_boards(draft, boards).reach() == draft.reach(),
    decreases boards.len(),
{
    if boards.len() > 0 {
        lemma_put_boards_keeps_reach(draft, boards.drop_last());
        lemma_put_run_cuts_between_units(
            put_boards(draft, boards.drop_last()),
            board_units(boards.last()),
        );
    }
}

/// The detailed parts of reports never make the text longer than it could get before.
pub proof fn lemma_put_reports_keeps_reach(draft: Draft, reports: Seq<Report>)
    ensures
        put_reports(draft, reports).reach() == draft.reach(),
    decreases reports.len(),
{
    if reports.len() > 0 {
        lemma_put_reports_keeps_reach(draft, reports.drop_last());
        lemma_put_boards_keeps_reach(
            put_reports(draft, reports.drop_last()),
            reports.last().boards@,
        );
    }
}

/// The general table never takes a comment over the greatest length: a
/// comment within that length stays within it, and a longer one is left as it is.
pub proof fn lemma_general_table_bounded(comment: Seq<char>, reports: Seq<Report>)
    ensures
        byte_len(comment) <= MAX_COMMENT_LEN ==> byte_len(with_general_table(comment, reports))
            <= MAX_COMMENT_LEN,
        byte_len(comment) >= MAX_COMMENT_LEN ==> with_general_table(comment, reports) == comment,
{
    let start = Draft { text: comment, capacity: budget(comment) };
    let units = general_units(reports);
    lemma_put_run_cuts_between_units(start, units);
    if byte_len(comment) >= MAX_COMMENT_LEN {
        reveal_strlit("| ");
        assert(units[0].len() > 0);
        lemma_unit_not_empty(units[0]);
    }
}

/// The folded part never takes a comment over the greatest length: a comment
/// within that length stays within it, and a longer one is left as it is.
pub proof fn lemma_detailed_table_bounded(comment: Seq<char>, reports: Seq<Report>)
    ensures
        byte_len(comment) <= MAX_COMMENT_LEN ==> byte_len(with_detailed_table(comment, reports))
            <= MAX_COMMENT_LEN,
        byte_len(comment) >= MAX_COMMENT_LEN ==> with_detailed_table(comment, reports) == comment,
{
    let frame = byte_len(START_DETAILS@) + byte_len(END_DETAILS@);
    reveal_strlit("\n<details><summary>Click for full report per board</summary>\n");
    lemma_unit_not_empty(START_DETAILS@);
    if budget(comment) >= frame {
        let start = Draft {
            text: comment + START_DETAILS@,
            capacity: (budget(comment) - frame) as nat,
        };
        lemma_byte_len_concat(comment, START_DETAILS@);
        lemma_put_reports_keeps_reach(start, reports);
        lemma_byte_len_concat(put_reports(start, reports).text, END_DETAILS@);
    }
}

} // verus!
