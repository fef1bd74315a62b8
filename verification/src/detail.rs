//! Assembling a question aggregate from independently fetched rows.
//!
//! The persistent adapter reads a question, its direct comments, its
//! answers and their comments in four independent lookups and hands the
//! decoded rows to [`assemble_question_detail`], which merges them into one
//! [`QuestionResult`]. The backing store leaves the tie-break for equal
//! creation timestamps unspecified, so the assembly orders every sequence
//! itself: newest first, with the identifier descending as the documented
//! stable secondary key. The four lookups are not atomic; an aggregate may
//! reflect a mix of states (read skew), which is a documented trade-off of
//! this composition, not of the ordering done here.

use vstd::prelude::*;

use crate::answer::AnswerResult;
use crate::comment::{clone_comment_result, CommentResult, CommentResultV};
use crate::question::{Question, QuestionResult};

verus! {

/// Whether comment row `a` sorts no later than `b`: the newer row first,
/// and the larger identifier first among equal timestamps.
pub open spec fn comment_precedes(a: CommentResultV, b: CommentResultV) -> bool {
    a.created_on > b.created_on || (a.created_on == b.created_on && a.id >= b.id)
}

/// A comment sequence ordered newest first, identifier descending on ties.
pub open spec fn comments_newest_first(s: Seq<CommentResultV>) -> bool {
    forall|i: int, j: int|
        0 <= i < j < s.len() ==> comment_precedes(#[trigger] s[i], #[trigger] s[j])
}

/// One answer row as fetched from the store, before its comments are
/// attached.
#[derive(Clone, Debug)]
pub struct AnswerRow {
    pub id: i32,
    pub content: String,
    pub created_on: i64,
}

/// The mathematical value of an [`AnswerRow`].
pub struct AnswerRowV {
    pub id: int,
    pub content: Seq<char>,
    pub created_on: int,
}

impl View for AnswerRow {
    type V = AnswerRowV;

    open spec fn view(&self) -> AnswerRowV {
        AnswerRowV {
            id: self.id as int,
            content: self.content@,
            created_on: self.created_on as int,
        }
    }
}

impl DeepView for AnswerRow {
    type V = AnswerRowV;

    open spec fn deep_view(&self) -> AnswerRowV {
        self.view()
    }
}

/// Whether answer row `a` sorts no later than `b`.
pub open spec fn answer_row_precedes(a: AnswerRowV, b: AnswerRowV) -> bool {
    a.created_on > b.created_on || (a.created_on == b.created_on && a.id >= b.id)
}

/// An answer-row sequence ordered newest first, identifier descending on
/// ties.
pub open spec fn answer_rows_newest_first(s: Seq<AnswerRowV>) -> bool {
    forall|i: int, j: int|
        0 <= i < j < s.len() ==> answer_row_precedes(#[trigger] s[i], #[trigger] s[j])
}

/// Whether assembled answer `a` sorts no later than `b`.
pub open spec fn answer_result_precedes(
    a: crate::answer::AnswerResultV,
    b: crate::answer::AnswerResultV,
) -> bool {
    a.created_on > b.created_on || (a.created_on == b.created_on && a.id >= b.id)
}

/// An assembled answer sequence ordered newest first, identifier
/// descending on ties.
pub open spec fn answer_results_newest_first(s: Seq<crate::answer::AnswerResultV>) -> bool {
    forall|i: int, j: int|
        0 <= i < j < s.len() ==> answer_result_precedes(#[trigger] s[i], #[trigger] s[j])
}

/// One comment row fetched for an answer, tagged with the answer it is
/// applied to.
#[derive(Clone, Debug)]
pub struct AnswerCommentRow {
    pub answer_id: i32,
    pub comment: CommentResult,
}

/// The mathematical value of an [`AnswerCommentRow`].
pub struct AnswerCommentRowV {
    pub answer_id: int,
    pub comment: CommentResultV,
}

impl View for AnswerCommentRow {
    type V = AnswerCommentRowV;

    open spec fn view(&self) -> AnswerCommentRowV {
        AnswerCommentRowV { answer_id: self.answer_id as int, comment: self.comment@ }
    }
}

impl DeepView for AnswerCommentRow {
    type V = AnswerCommentRowV;

    open spec fn deep_view(&self) -> AnswerCommentRowV {
        self.view()
    }
}

/// The comment rows tagged for answer `aid`, in fetched order.
pub open spec fn rows_for_answer(rows: Seq<AnswerCommentRowV>, aid: int) -> Seq<CommentResultV>
    decreases rows.len(),
{
    if rows.len() == 0 {
        Seq::empty()
    } else {
        let rest = rows_for_answer(rows.drop_last(), aid);
        if rows.last().answer_id == aid {
            rest.push(rows.last().comment)
        } else {
            rest
        }
    }
}

/// Where to insert `x` to keep `rows` ordered newest first: the first
/// position whose row does not precede `x`.
fn comment_insertion_point(rows: &Vec<CommentResult>, x: &CommentResult) -> (k: usize)
    ensures
        k <= rows@.len(),
        forall|j: int| 0 <= j < k ==> comment_precedes(rows.deep_view()[j], x@),
        k < rows@.len() ==> !comment_precedes(rows.deep_view()[k as int], x@),
{
    let mut k: usize = 0;
    while k < rows.len()
        invariant
            0 <= k <= rows.len(),
            forall|j: int| 0 <= j < k ==> comment_precedes(rows.deep_view()[j], x@),
        decreases rows.len() - k,
    {
        let earlier = rows[k].created_on > x.created_on || (rows[k].created_on == x.created_on
            && rows[k].id >= x.id);
        if !earlier {
            return k;
        }
        k += 1;
    }
    k
}

/// Sorts comment rows newest first, identifier descending among equal
/// timestamps; the result holds exactly the given rows.
pub fn sort_comments_newest_first(rows: Vec<CommentResult>) -> (r: Vec<CommentResult>)
    ensures
        comments_newest_first(r.deep_view()),
        r.deep_view().to_multiset() == rows.deep_view().to_multiset(),
        r.deep_view().len() == rows.deep_view().len(),
{
    let mut out: Vec<CommentResult> = Vec::new();
    let mut i: usize = 0;
    proof {
        assert(out.deep_view() =~= rows.deep_view().take(0));
    }
    while i < rows.len()
        invariant
            0 <= i <= rows.len(),
            out@.len() == i,
            rows.deep_view().len() == rows@.len(),
            comments_newest_first(out.deep_view()),
            out.deep_view().to_multiset() == rows.deep_view().take(i as int).to_multiset(),
        decreases rows.len() - i,
    {
        let x = clone_comment_result(&rows[i]);
        let k = comment_insertion_point(&out, &x);
        let ghost pre = out.deep_view();
        out.insert(k, x);
        proof {
            broadcast use vstd::seq_lib::group_to_multiset_ensures;

            pre.insert_ensures(k as int, x@);
            assert(out.deep_view() =~= pre.insert(k as int, x@));
            assert(rows.deep_view().take(i + 1 as int) =~= rows.deep_view().take(i as int).push(
                rows.deep_view()[i as int],
            ));
            let n = pre.insert(k as int, x@);
            assert forall|j1: int, j2: int| 0 <= j1 < j2 < n.len() implies comment_precedes(
                n[j1],
                n[j2],
            ) by {
                if j1 == k as int {
                    if j2 > k as int {
                        assert(!comment_precedes(pre[k as int], x@));
                        assert(n[j2] == pre[j2 - 1]);
                        if (k as int) < j2 - 1 {
                            assert(comment_precedes(pre[k as int], pre[j2 - 1]));
                        }
                    }
                } else if j1 < k as int && j2 == k as int {
                    assert(comment_precedes(pre[j1], x@));
                } else if j1 < k as int && j2 > k as int {
                    assert(n[j1] == pre[j1] && n[j2] == pre[j2 - 1]);
                    assert(comment_precedes(pre[j1], x@));
                    if j1 < j2 - 1 {
                        assert(comment_precedes(pre[j1], pre[j2 - 1]));
                    }
                } else if j1 > k as int {
                    assert(n[j1] == pre[j1 - 1] && n[j2] == pre[j2 - 1]);
                    assert(comment_precedes(pre[j1 - 1], pre[j2 - 1]));
                }
            }
        }
        i += 1;
    }
    proof {
        assert(rows.deep_view().take(rows@.len() as int) =~= rows.deep_view());
        broadcast use vstd::seq_lib::group_to_multiset_ensures;

    }
    out
}

/// Where to insert answer row `x` to keep `rows` ordered newest first.
fn answer_row_insertion_point(rows: &Vec<AnswerRow>, x: &AnswerRow) -> (k: usize)
    ensures
        k <= rows@.len(),
        forall|j: int| 0 <= j < k ==> answer_row_precedes(rows.deep_view()[j], x@),
        k < rows@.len() ==> !answer_row_precedes(rows.deep_view()[k as int], x@),
{
    let mut k: usize = 0;
    while k < rows.len()
        invariant
            0 <= k <= rows.len(),
            forall|j: int| 0 <= j < k ==> answer_row_precedes(rows.deep_view()[j], x@),
        decreases rows.len() - k,
    {
        let earlier = rows[k].created_on > x.created_on || (rows[k].created_on == x.created_on
            && rows[k].id >= x.id);
        if !earlier {
            return k;
        }
        k += 1;
    }
    k
}

/// Sorts answer rows newest first, identifier descending among equal
/// timestamps; the result holds exactly the given rows.
pub fn sort_answer_rows_newest_first(rows: Vec<AnswerRow>) -> (r: Vec<AnswerRow>)
    ensures
        answer_rows_newest_first(r.deep_view()),
        r.deep_view().to_multiset() == rows.deep_view().to_multiset(),
        r.deep_view().len() == rows.deep_view().len(),
{
    let mut out: Vec<AnswerRow> = Vec::new();
    let mut i: usize = 0;
    proof {
        assert(out.deep_view() =~= rows.deep_view().take(0));
    }
    while i < rows.len()
        invariant
            0 <= i <= rows.len(),
            out@.len() == i,
            rows.deep_view().len() == rows@.len(),
            answer_rows_newest_first(out.deep_view()),
            out.deep_view().to_multiset() == rows.deep_view().take(i as int).to_multiset(),
        decreases rows.len() - i,
    {
        let x = AnswerRow {
            id: rows[i].id,
            content: rows[i].content.clone(),
            created_on: rows[i].created_on,
        };
        let k = answer_row_insertion_point(&out, &x);
        let ghost pre = out.deep_view();
        out.insert(k, x);
        proof {
            broadcast use vstd::seq_lib::group_to_multiset_ensures;

            pre.insert_ensures(k as int, x@);
            assert(out.deep_view() =~= pre.insert(k as int, x@));
            assert(rows.deep_view().take(i + 1 as int) =~= rows.deep_view().take(i as int).push(
                rows.deep_view()[i as int],
            ));
            let n = pre.insert(k as int, x@);
            assert forall|j1: int, j2: int| 0 <= j1 < j2 < n.len() implies answer_row_precedes(
                n[j1],
                n[j2],
            ) by {
                if j1 == k as int {
                    if j2 > k as int {
                        assert(!answer_row_precedes(pre[k as int], x@));
                        assert(n[j2] == pre[j2 - 1]);
                        if (k as int) < j2 - 1 {
                            assert(answer_row_precedes(pre[k as int], pre[j2 - 1]));
                        }
                    }
                } else if j1 < k as int && j2 == k as int {
                    assert(answer_row_precedes(pre[j1], x@));
                } else if j1 < k as int && j2 > k as int {
                    assert(n[j1] == pre[j1] && n[j2] == pre[j2 - 1]);
                    assert(answer_row_precedes(pre[j1], x@));
                    if j1 < j2 - 1 {
                        assert(answer_row_precedes(pre[j1], pre[j2 - 1]));
                    }
                } else if j1 > k as int {
                    assert(n[j1] == pre[j1 - 1] && n[j2] == pre[j2 - 1]);
                    assert(answer_row_precedes(pre[j1 - 1], pre[j2 - 1]));
                }
            }
        }
        i += 1;
    }
    proof {
        assert(rows.deep_view().take(rows@.len() as int) =~= rows.deep_view());
    }
    out
}

/// Collects the comment rows tagged for one answer, in fetched order.
fn collect_comments_for_answer(rows: &Vec<AnswerCommentRow>, answer_id: i32) -> (r: Vec<
    CommentResult,
>)
    ensures
        r.deep_view() == rows_for_answer(rows.deep_view(), answer_id as int),
{
    let ghost table = rows.deep_view();
    let mut out: Vec<CommentResult> = Vec::new();
    let mut i: usize = 0;
    while i < rows.len()
        invariant
            0 <= i <= rows.len(),
            table == rows.deep_view(),
            table.len() == rows@.len(),
            out.deep_view() == rows_for_answer(table.take(i as int), answer_id as int),
        decreases rows.len() - i,
    {
        proof {
            assert(table.take(i + 1 as int).drop_last() =~= table.take(i as int));
            assert(table.take(i + 1 as int).last() == table[i as int]);
        }
        let ghost pre = out.deep_view();
        if rows[i].answer_id == answer_id {
            out.push(clone_comment_result(&rows[i].comment));
            proof {
                assert(out.deep_view() =~= pre.push(table[i as int].comment));
            }
        }
        i += 1;
    }
    proof {
        assert(table.take(rows@.len() as int) =~= table);
    }
    out
}

/// The row part of each assembled answer, in order.
pub open spec fn answer_entries(s: Seq<crate::answer::AnswerResultV>) -> Seq<AnswerRowV> {
    Seq::new(
        s.len(),
        |i: int| AnswerRowV { id: s[i].id, content: s[i].content, created_on: s[i].created_on },
    )
}

/// Merges the four independent lookups of a question aggregate: the
/// question row itself, the comments applied directly to it, its answer
/// rows, and the comments fetched for those answers. Every sequence in the
/// result is ordered newest first with the identifier descending as the
/// stable tie-break; each answer carries exactly the comment rows tagged
/// with its identifier.
pub fn assemble_question_detail(
    question: Question,
    created_on: i64,
    question_comments: Vec<CommentResult>,
    answers: Vec<AnswerRow>,
    answer_comments: Vec<AnswerCommentRow>,
) -> (r: QuestionResult)
    ensures
        r@.id == question@.id,
        r@.title == question@.title,
        r@.content == question@.content,
        r@.tags == question@.tags,
        r@.created_on == created_on as int,
        comments_newest_first(r@.comments),
        r@.comments.to_multiset() == question_comments.deep_view().to_multiset(),
        r@.answers.len() == answers@.len(),
        answer_rows_newest_first(answer_entries(r@.answers)),
        answer_entries(r@.answers).to_multiset() == answers.deep_view().to_multiset(),
        forall|i: int|
            0 <= i < r@.answers.len() ==> {
                &&& comments_newest_first((#[trigger] r@.answers[i]).comments)
                &&& r@.answers[i].comments.to_multiset() == rows_for_answer(
                    answer_comments.deep_view(),
                    r@.answers[i].id,
                ).to_multiset()
            },
{
    let sorted_comments = sort_comments_newest_first(question_comments);
    let sorted_answers = sort_answer_rows_newest_first(answers);
    let mut assembled: Vec<AnswerResult> = Vec::new();
    let mut i: usize = 0;
    while i < sorted_answers.len()
        invariant
            0 <= i <= sorted_answers.len(),
            sorted_answers.deep_view().len() == sorted_answers@.len(),
            assembled@.len() == i,
            forall|j: int|
                0 <= j < i ==> {
                    let e = (#[trigger] assembled@[j])@;
                    &&& e.id == sorted_answers.deep_view()[j].id
                    &&& e.content == sorted_answers.deep_view()[j].content
                    &&& e.created_on == sorted_answers.deep_view()[j].created_on
                    &&& comments_newest_first(e.comments)
                    &&& e.comments.to_multiset() == rows_for_answer(
                        answer_comments.deep_view(),
                        e.id,
                    ).to_multiset()
                },
        decreases sorted_answers.len() - i,
    {
        let collected = collect_comments_for_answer(&answer_comments, sorted_answers[i].id);
        let sorted = sort_comments_newest_first(collected);
        assembled.push(
            AnswerResult {
                id: sorted_answers[i].id,
                content: sorted_answers[i].content.clone(),
                created_on: sorted_answers[i].created_on,
                comments: sorted,
            },
        );
        i += 1;
    }
    let result = QuestionResult {
        id: question.id.0,
        title: question.title,
        content: question.content,
        tags: question.tags,
        created_on,
        comments: sorted_comments,
        answers: assembled,
    };
    proof {
        assert(answer_entries(result@.answers) =~= sorted_answers.deep_view());
    }
    result
}

} // verus!
