//! The markdown comment that summarizes a set of reports.
use crate::error::CommentAssemblyError;
use crate::reports::structs::Report;
use vstd::prelude::*;
use vstd::string::*;

pub mod draft;
pub mod helpers;
pub mod order;
pub mod rows;
pub mod structs;

pub use helpers::COMMENT_MARKER;
use crate::text::byte_len;
use order::{all_name_a_board, lemma_ordered_len, ordered, sort_reports};
use helpers::{
    generate_detailed_table, generate_general_table, lemma_detailed_table_bounded,
    lemma_general_table_bounded, with_detailed_table, with_general_table, MAX_COMMENT_LEN,
};

verus! {

/// The lines with which a comment on the given commit begins.
pub open spec fn preamble(commit_hash: Seq<char>) -> Seq<char> {
    COMMENT_MARKER@ + "### Memory usage change @ "@ + commit_hash + "\n\n"@
}

/// The comment on reports that are in order: the marker and the heading with
/// the commit of the first report, the general table, and the folded part
/// with the table of each board.
pub open spec fn comment_text(reports: Seq<Report>) -> Seq<char>
    recommends
        reports.len() > 0,
{
    with_detailed_table(
        with_general_table(preamble(reports[0].commit_hash@), reports),
        reports,
    )
}

/// Writes the comment that summarizes the given reports.
///
/// The reports are taken in the order of the names of their first boards.
/// Without any report there is nothing to summarize.
pub fn generate_comment(reports: Vec<Report>) -> (result: Result<String, CommentAssemblyError>)
    requires
        all_name_a_board(reports@),
    ensures
        reports@.len() == 0 ==> result matches Err(CommentAssemblyError::NotFound),
        reports@.len() > 0 ==> (result matches Ok(comment) && comment@ == comment_text(
            ordered(reports@),
        )),
        result matches Ok(comment) ==> byte_len(comment@) <= MAX_COMMENT_LEN || comment@
            == preamble(ordered(reports@)[0].commit_hash@),
{
    if reports.len() == 0 {
        return Err(CommentAssemblyError::NotFound);
    }
    let ghost given = reports@;
    let reports = sort_reports(reports);
    proof {
        lemma_ordered_len(given);
        lemma_comment_bounded(reports@);
    }
    let mut comment = String::from_str(COMMENT_MARKER);
    comment.append("### Memory usage change @ ");
    comment.append(reports[0].commit_hash.as_str());
    comment.append("\n\n");
    generate_general_table(&reports, &mut comment);
    generate_detailed_table(&reports, &mut comment);
    Ok(comment)
}

/// A comment never grows over the greatest length. Where the lines that it
/// begins with fit in that length, so does the whole comment; where they do
/// not, nothing is added to them.
pub proof fn lemma_comment_bounded(reports: Seq<Report>)
    ensures
        byte_len(preamble(reports[0].commit_hash@)) <= MAX_COMMENT_LEN ==> byte_len(
            comment_text(reports),
        ) <= MAX_COMMENT_LEN,
        byte_len(preamble(reports[0].commit_hash@)) >= MAX_COMMENT_LEN ==> comment_text(reports)
            == preamble(reports[0].commit_hash@),
{
    let begun = preamble(reports[0].commit_hash@);
    lemma_general_table_bounded(begun, reports);
    lemma_detailed_table_bounded(with_general_table(begun, reports), reports);
}

} // verus!
