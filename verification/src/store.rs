//! The relational store: the sole authority for identifier and timestamp
//! assignment, keeping questions, answers and comments consistent.
//!
//! The store keeps three tables in memory. Identifiers are assigned from
//! monotonically increasing counters starting at 1, one counter per table;
//! creation timestamps come from a single monotonically increasing clock, so
//! that record order, identifier order and timestamp order agree within each
//! table. Referential integrity is an invariant: every answer points at an
//! existing question and every comment at an existing question or answer.
//! Deleting a question also deletes its answers and their comments —
//! cascading is this store's documented choice, which is what keeps the
//! invariant.

use vstd::prelude::*;

use crate::answer::{clone_answer, Answer, AnswerId, AnswerResult, AnswerResultV, AnswerV};
use crate::comment::{clone_comment, Comment, CommentId, CommentResult, CommentResultV, CommentV};
use crate::error::StoreError;
use crate::question::{
    clone_question, clone_tags, IntoQuestionId, Question, QuestionId, QuestionResult,
    QuestionResultV, QuestionV, UpdateQuestion,
};

verus! {

// ---------------------------------------------------------------------------
// Records: entities plus their store-assigned creation time
// ---------------------------------------------------------------------------

/// One persisted question row: the entity plus its creation time.
#[derive(Clone, Debug)]
pub struct QuestionRecord {
    pub question: Question,
    pub created_on: i64,
}

/// The mathematical value of a [`QuestionRecord`].
pub struct QuestionRecordV {
    pub question: QuestionV,
    pub created_on: int,
}

impl View for QuestionRecord {
    type V = QuestionRecordV;

    open spec fn view(&self) -> QuestionRecordV {
        QuestionRecordV { question: self.question@, created_on: self.created_on as int }
    }
}

impl DeepView for QuestionRecord {
    type V = QuestionRecordV;

    open spec fn deep_view(&self) -> QuestionRecordV {
        self.view()
    }
}

/// One persisted answer row.
#[derive(Clone, Debug)]
pub struct AnswerRecord {
    pub answer: Answer,
    pub created_on: i64,
}

/// The mathematical value of an [`AnswerRecord`].
pub struct AnswerRecordV {
    pub answer: AnswerV,
    pub created_on: int,
}

impl View for AnswerRecord {
    type V = AnswerRecordV;

    open spec fn view(&self) -> AnswerRecordV {
        AnswerRecordV { answer: self.answer@, created_on: self.created_on as int }
    }
}

impl DeepView for AnswerRecord {
    type V = AnswerRecordV;

    open spec fn deep_view(&self) -> AnswerRecordV {
        self.view()
    }
}

/// One persisted comment row.
#[derive(Clone, Debug)]
pub struct CommentRecord {
    pub comment: Comment,
    pub created_on: i64,
}

/// The mathematical value of a [`CommentRecord`].
pub struct CommentRecordV {
    pub comment: CommentV,
    pub created_on: int,
}

impl View for CommentRecord {
    type V = CommentRecordV;

    open spec fn view(&self) -> CommentRecordV {
        CommentRecordV { comment: self.comment@, created_on: self.created_on as int }
    }
}

impl DeepView for CommentRecord {
    type V = CommentRecordV;

    open spec fn deep_view(&self) -> CommentRecordV {
        self.view()
    }
}

// ---------------------------------------------------------------------------
// First-match lookup over a table
// ---------------------------------------------------------------------------

/// Index of the first element of `s` whose key under `id_of` is `id`, or
/// `s.len()` when there is none.
pub open spec fn index_of_by<T>(s: Seq<T>, id_of: spec_fn(T) -> int, id: int) -> int
    decreases s.len(),
{
    if s.len() == 0 {
        0
    } else if id_of(s.first()) == id {
        0
    } else {
        1 + index_of_by(s.drop_first(), id_of, id)
    }
}

/// What [`index_of_by`] returns: a position in bounds, holding a match,
/// with no match before it; or the length when nothing matches.
pub proof fn lemma_index_of_by_ensures<T>(s: Seq<T>, id_of: spec_fn(T) -> int, id: int)
    ensures
        0 <= index_of_by(s, id_of, id) <= s.len(),
        index_of_by(s, id_of, id) < s.len() ==> id_of(s[index_of_by(s, id_of, id)]) == id,
        forall|j: int| 0 <= j < index_of_by(s, id_of, id) ==> id_of(#[trigger] s[j]) != id,
        index_of_by(s, id_of, id) == s.len() ==> forall|j: int|
            0 <= j < s.len() ==> id_of(#[trigger] s[j]) != id,
    decreases s.len(),
{
    if s.len() == 0 {
    } else if id_of(s.first()) == id {
    } else {
        lemma_index_of_by_ensures(s.drop_first(), id_of, id);
        assert(forall|j: int| 1 <= j < s.len() ==> #[trigger] s[j] == s.drop_first()[j - 1]);
    }
}

/// How [`index_of_by`] behaves when one element is appended.
pub proof fn lemma_index_of_by_push<T>(s: Seq<T>, id_of: spec_fn(T) -> int, x: T, id: int)
    ensures
        index_of_by(s, id_of, id) < s.len() ==> index_of_by(s.push(x), id_of, id) == index_of_by(
            s,
            id_of,
            id,
        ),
        index_of_by(s, id_of, id) == s.len() && id_of(x) == id ==> index_of_by(
            s.push(x),
            id_of,
            id,
        ) == s.len(),
        index_of_by(s, id_of, id) == s.len() && id_of(x) != id ==> index_of_by(
            s.push(x),
            id_of,
            id,
        ) == s.len() + 1,
{
    lemma_index_of_by_ensures(s, id_of, id);
    lemma_index_of_by_ensures(s.push(x), id_of, id);
    let i = index_of_by(s, id_of, id);
    let k = index_of_by(s.push(x), id_of, id);
    assert(forall|j: int| 0 <= j < s.len() ==> #[trigger] s.push(x)[j] == s[j]);
    assert(s.push(x)[s.len() as int] == x);
    if i < s.len() {
        assert(id_of(s.push(x)[i]) == id);
        if k < i {
            assert(id_of(s[k]) != id);
            assert(false);
        }
        if k > i {
            assert(false);
        }
    } else {
        assert(forall|j: int| 0 <= j < s.len() ==> id_of(#[trigger] s.push(x)[j]) != id);
        if id_of(x) == id {
            assert(id_of(s.push(x)[s.len() as int]) == id);
            assert(k == s.len());
        } else {
            assert(forall|j: int| 0 <= j < s.push(x).len() ==> id_of(#[trigger] s.push(x)[j]) != id);
            assert(k == s.len() + 1);
        }
    }
}

/// The first element of `s` whose key under `id_of` is `id`.
pub open spec fn find_by<T>(s: Seq<T>, id_of: spec_fn(T) -> int, id: int) -> Option<T> {
    let i = index_of_by(s, id_of, id);
    if i < s.len() {
        Some(s[i])
    } else {
        None
    }
}

/// The key of a question record.
pub open spec fn question_key() -> spec_fn(QuestionRecordV) -> int {
    |r: QuestionRecordV| r.question.id
}

/// The key of an answer record.
pub open spec fn answer_key() -> spec_fn(AnswerRecordV) -> int {
    |r: AnswerRecordV| r.answer.id
}

/// Matches found by key, stated as an existential: `find_by` returns a
/// record exactly when some position holds the key.
pub proof fn lemma_has_match<T>(s: Seq<T>, id_of: spec_fn(T) -> int, id: int)
    ensures
        (exists|j: int| 0 <= j < s.len() && id_of(#[trigger] s[j]) == id) <==> find_by(
            s,
            id_of,
            id,
        ) is Some,
{
    lemma_index_of_by_ensures(s, id_of, id);
    let i = index_of_by(s, id_of, id);
    if i < s.len() {
        assert(id_of(s[i]) == id);
    }
}

/// Two tables with pointwise-equal keys are searched at the same position.
pub proof fn lemma_index_of_by_same_keys<T>(
    s1: Seq<T>,
    s2: Seq<T>,
    id_of: spec_fn(T) -> int,
    id: int,
)
    requires
        s1.len() == s2.len(),
        forall|j: int| 0 <= j < s1.len() ==> id_of(#[trigger] s1[j]) == id_of(#[trigger] s2[j]),
    ensures
        index_of_by(s1, id_of, id) == index_of_by(s2, id_of, id),
{
    lemma_index_of_by_ensures(s1, id_of, id);
    lemma_index_of_by_ensures(s2, id_of, id);
    let i1 = index_of_by(s1, id_of, id);
    let i2 = index_of_by(s2, id_of, id);
    if i1 < i2 {
        assert(id_of(s2[i1]) != id);
        assert(false);
    }
    if i2 < i1 {
        assert(id_of(s1[i2]) != id);
        assert(false);
    }
}

/// The subsequence of `s` whose elements satisfy `keep`, in order.
pub open spec fn filtered<T>(s: Seq<T>, keep: spec_fn(T) -> bool) -> Seq<T>
    decreases s.len(),
{
    if s.len() == 0 {
        Seq::empty()
    } else {
        let rest = filtered(s.drop_last(), keep);
        if keep(s.last()) {
            rest.push(s.last())
        } else {
            rest
        }
    }
}

/// What [`filtered`] keeps: only elements of `s` that satisfy `keep`, and
/// all of them.
pub proof fn lemma_filtered_membership<T>(s: Seq<T>, keep: spec_fn(T) -> bool)
    ensures
        filtered(s, keep).len() <= s.len(),
        forall|k: int|
            0 <= k < filtered(s, keep).len() ==> s.contains(#[trigger] filtered(s, keep)[k])
                && keep(filtered(s, keep)[k]),
        forall|j: int|
            0 <= j < s.len() && keep(#[trigger] s[j]) ==> filtered(s, keep).contains(s[j]),
    decreases s.len(),
{
    if s.len() == 0 {
    } else {
        lemma_filtered_membership(s.drop_last(), keep);
        let res = filtered(s, keep);
        let rest = filtered(s.drop_last(), keep);
        assert(forall|j: int|
            0 <= j < s.len() - 1 ==> #[trigger] s.drop_last()[j] == s[j]);
        assert forall|k: int| 0 <= k < res.len() implies s.contains(#[trigger] res[k]) && keep(
            res[k],
        ) by {
            if k < rest.len() {
                assert(s.drop_last().contains(rest[k]));
                let j = choose|j: int| 0 <= j < s.drop_last().len() && s.drop_last()[j] == rest[k];
                assert(s[j] == rest[k]);
            } else {
                assert(keep(s.last()));
                assert(res[k] == s.last());
                assert(s[s.len() - 1] == s.last());
            }
        }
        assert forall|j: int|
            0 <= j < s.len() && keep(#[trigger] s[j]) implies res.contains(s[j]) by {
            if j < s.len() - 1 {
                assert(s.drop_last()[j] == s[j]);
                assert(rest.contains(s[j]));
                let k = choose|k: int| 0 <= k < rest.len() && rest[k] == s[j];
                assert(res[k] == s[j]);
            } else {
                assert(res[res.len() - 1] == s.last());
            }
        }
    }
}

/// Filtering preserves a strict pairwise ordering.
pub proof fn lemma_filtered_increasing<T>(
    s: Seq<T>,
    keep: spec_fn(T) -> bool,
    lt: spec_fn(T, T) -> bool,
)
    requires
        forall|i: int, j: int| 0 <= i < j < s.len() ==> lt(#[trigger] s[i], #[trigger] s[j]),
    ensures
        forall|k1: int, k2: int|
            0 <= k1 < k2 < filtered(s, keep).len() ==> lt(
                #[trigger] filtered(s, keep)[k1],
                #[trigger] filtered(s, keep)[k2],
            ),
    decreases s.len(),
{
    if s.len() == 0 {
    } else {
        assert(forall|j: int|
            0 <= j < s.len() - 1 ==> #[trigger] s.drop_last()[j] == s[j]);
        lemma_filtered_increasing(s.drop_last(), keep, lt);
        lemma_filtered_membership(s.drop_last(), keep);
        let res = filtered(s, keep);
        let rest = filtered(s.drop_last(), keep);
        assert forall|k1: int, k2: int| 0 <= k1 < k2 < res.len() implies lt(
            #[trigger] res[k1],
            #[trigger] res[k2],
        ) by {
            if k2 < rest.len() {
            } else {
                if keep(s.last()) && k2 == rest.len() {
                    assert(res[k2] == s.last());
                    assert(s.drop_last().contains(rest[k1]));
                    let j = choose|j: int|
                        0 <= j < s.drop_last().len() && s.drop_last()[j] == rest[k1];
                    assert(lt(s[j], s[s.len() - 1]));
                }
            }
        }
    }
}

/// The stored question with identifier `id`, if any.
pub open spec fn find_question(qs: Seq<QuestionRecordV>, id: int) -> Option<QuestionRecordV> {
    find_by(qs, question_key(), id)
}

/// The stored answer with identifier `id`, if any.
pub open spec fn find_answer(ans: Seq<AnswerRecordV>, id: int) -> Option<AnswerRecordV> {
    find_by(ans, answer_key(), id)
}

// ---------------------------------------------------------------------------
// The store model
// ---------------------------------------------------------------------------

/// The full relational state of the store, as one mathematical value.
pub struct StoreV {
    pub questions: Seq<QuestionRecordV>,
    pub answers: Seq<AnswerRecordV>,
    pub comments: Seq<CommentRecordV>,
    pub next_question_id: int,
    pub next_answer_id: int,
    pub next_comment_id: int,
    pub clock: int,
}

impl StoreV {
    /// The state of a freshly created store.
    pub open spec fn empty() -> StoreV {
        StoreV {
            questions: Seq::empty(),
            answers: Seq::empty(),
            comments: Seq::empty(),
            next_question_id: 1,
            next_answer_id: 1,
            next_comment_id: 1,
            clock: 0,
        }
    }

    /// Whether a question with this identifier exists.
    pub open spec fn has_question(self, id: int) -> bool {
        find_question(self.questions, id) is Some
    }

    /// Whether an answer with this identifier exists.
    pub open spec fn has_answer(self, id: int) -> bool {
        find_answer(self.answers, id) is Some
    }

    /// The record a question insertion creates.
    pub open spec fn new_question(
        self,
        title: Seq<char>,
        content: Seq<char>,
        tags: Option<Seq<Seq<char>>>,
    ) -> QuestionRecordV {
        QuestionRecordV {
            question: QuestionV { id: self.next_question_id, title, content, tags },
            created_on: self.clock + 1,
        }
    }

    /// The state after a question insertion.
    pub open spec fn with_question_inserted(
        self,
        title: Seq<char>,
        content: Seq<char>,
        tags: Option<Seq<Seq<char>>>,
    ) -> StoreV {
        StoreV {
            questions: self.questions.push(self.new_question(title, content, tags)),
            next_question_id: self.next_question_id + 1,
            clock: self.clock + 1,
            ..self
        }
    }

    /// The record an answer insertion creates.
    pub open spec fn new_answer(self, content: Seq<char>, question_id: int) -> AnswerRecordV {
        AnswerRecordV {
            answer: AnswerV { id: self.next_answer_id, content, question_id },
            created_on: self.clock + 1,
        }
    }

    /// The state after an answer insertion.
    pub open spec fn with_answer_inserted(self, content: Seq<char>, question_id: int) -> StoreV {
        StoreV {
            answers: self.answers.push(self.new_answer(content, question_id)),
            next_answer_id: self.next_answer_id + 1,
            clock: self.clock + 1,
            ..self
        }
    }

    /// Whether a comment's attachment references are acceptable: exactly one
    /// must be supplied, and it must resolve to an existing record.
    pub open spec fn comment_refs_valid(
        self,
        question_ref: Option<int>,
        answer_ref: Option<int>,
    ) -> bool {
        match (question_ref, answer_ref) {
            (Some(qid), None) => self.has_question(qid),
            (None, Some(aid)) => self.has_answer(aid),
            _ => false,
        }
    }

    /// The record a comment insertion creates.
    pub open spec fn new_comment(
        self,
        content: Seq<char>,
        question_ref: Option<int>,
        answer_ref: Option<int>,
    ) -> CommentRecordV {
        CommentRecordV {
            comment: CommentV {
                id: self.next_comment_id,
                content,
                applied_to_question_id: question_ref,
                applied_to_answer_id: answer_ref,
            },
            created_on: self.clock + 1,
        }
    }

    /// The state after a comment insertion.
    pub open spec fn with_comment_inserted(
        self,
        content: Seq<char>,
        question_ref: Option<int>,
        answer_ref: Option<int>,
    ) -> StoreV {
        StoreV {
            comments: self.comments.push(self.new_comment(content, question_ref, answer_ref)),
            next_comment_id: self.next_comment_id + 1,
            clock: self.clock + 1,
            ..self
        }
    }

    /// The state after a whole-record update of the question with this
    /// identifier: the three mutable fields are replaced, the identifier
    /// and the creation time are kept, every other record is untouched.
    /// Updating an absent identifier changes nothing.
    pub open spec fn with_question_updated(
        self,
        id: int,
        title: Seq<char>,
        content: Seq<char>,
        tags: Option<Seq<Seq<char>>>,
    ) -> StoreV {
        StoreV {
            questions: Seq::new(
                self.questions.len(),
                |i: int|
                    if self.questions[i].question.id == id {
                        QuestionRecordV {
                            question: QuestionV { id, title, content, tags },
                            created_on: self.questions[i].created_on,
                        }
                    } else {
                        self.questions[i]
                    },
            ),
            ..self
        }
    }

    /// The aggregate assembled for a stored question record: its own
    /// fields, the comments applied directly to it and its answers, each
    /// answer with its own comments, every sequence newest first.
    pub open spec fn question_detail(self, qrec: QuestionRecordV) -> QuestionResultV {
        QuestionResultV {
            id: qrec.question.id,
            title: qrec.question.title,
            content: qrec.question.content,
            tags: qrec.question.tags,
            created_on: qrec.created_on,
            comments: comments_on_question_desc(self.comments, qrec.question.id),
            answers: answers_desc(self.answers, self.comments, qrec.question.id),
        }
    }

    /// The state after deleting the question with this identifier: the
    /// question goes, its answers go, and so does every comment attached to
    /// it or to one of its answers. Deleting an absent identifier changes
    /// nothing.
    pub open spec fn with_question_deleted(self, id: int) -> StoreV {
        StoreV {
            questions: filtered(self.questions, question_kept(id)),
            answers: filtered(self.answers, answer_kept(id)),
            comments: filtered(self.comments, comment_kept(id, self.answers)),
            ..self
        }
    }

    // -- well-formedness ----------------------------------------------------

    /// Well-formedness of the question table: identifiers start at 1, stay
    /// below the next free identifier, and increase with position, as do
    /// creation times, which never pass the clock.
    pub open spec fn questions_wf(self) -> bool {
        &&& forall|i: int|
            0 <= i < self.questions.len() ==> {
                &&& 1 <= (#[trigger] self.questions[i]).question.id < self.next_question_id
                &&& 1 <= self.questions[i].created_on <= self.clock
            }
        &&& forall|i: int, j: int|
            0 <= i < j < self.questions.len() ==> {
                &&& (#[trigger] self.questions[i]).question.id < (
                #[trigger] self.questions[j]).question.id
                &&& self.questions[i].created_on < self.questions[j].created_on
            }
    }

    /// Well-formedness of the answer table; every answer also references an
    /// existing question.
    pub open spec fn answers_wf(self) -> bool {
        &&& forall|i: int|
            0 <= i < self.answers.len() ==> {
                &&& 1 <= (#[trigger] self.answers[i]).answer.id < self.next_answer_id
                &&& 1 <= self.answers[i].created_on <= self.clock
                &&& self.has_question(self.answers[i].answer.question_id)
            }
        &&& forall|i: int, j: int|
            0 <= i < j < self.answers.len() ==> {
                &&& (#[trigger] self.answers[i]).answer.id < (#[trigger] self.answers[j]).answer.id
                &&& self.answers[i].created_on < self.answers[j].created_on
            }
    }

    /// Well-formedness of the comment table; every comment is attached to
    /// exactly one existing question or answer.
    pub open spec fn comments_wf(self) -> bool {
        &&& forall|i: int|
            0 <= i < self.comments.len() ==> {
                &&& 1 <= (#[trigger] self.comments[i]).comment.id < self.next_comment_id
                &&& 1 <= self.comments[i].created_on <= self.clock
                &&& ((self.comments[i].comment.applied_to_question_id is Some) <==> (
                self.comments[i].comment.applied_to_answer_id is None))
                &&& match self.comments[i].comment.applied_to_question_id {
                    Some(qid) => self.has_question(qid),
                    None => true,
                }
                &&& match self.comments[i].comment.applied_to_answer_id {
                    Some(aid) => self.has_answer(aid),
                    None => true,
                }
            }
        &&& forall|i: int, j: int|
            0 <= i < j < self.comments.len() ==> {
                &&& (#[trigger] self.comments[i]).comment.id < (
                #[trigger] self.comments[j]).comment.id
                &&& self.comments[i].created_on < self.comments[j].created_on
            }
    }

    /// The store invariant: counters in range and all three tables well
    /// formed.
    pub open spec fn wf(self) -> bool {
        &&& 1 <= self.next_question_id <= i32::MAX
        &&& 1 <= self.next_answer_id <= i32::MAX
        &&& 1 <= self.next_comment_id <= i32::MAX
        &&& 0 <= self.clock <= i64::MAX
        &&& self.questions_wf()
        &&& self.answers_wf()
        &&& self.comments_wf()
    }
}

// ---------------------------------------------------------------------------
// Aggregation: a question with its answers and all applicable comments
// ---------------------------------------------------------------------------

/// The result row of a stored comment.
pub open spec fn comment_result_of(c: CommentRecordV) -> CommentResultV {
    CommentResultV { id: c.comment.id, content: c.comment.content, created_on: c.created_on }
}

/// The comments applied directly to question `qid` (and to no answer),
/// newest first. Record order, identifier order and timestamp order agree
/// in a well-formed table, so reversing record order gives "newest first"
/// with the identifier as the stable tie-break.
pub open spec fn comments_on_question_desc(cs: Seq<CommentRecordV>, qid: int) -> Seq<
    CommentResultV,
>
    decreases cs.len(),
{
    if cs.len() == 0 {
        Seq::empty()
    } else {
        let rest = comments_on_question_desc(cs.drop_first(), qid);
        if cs.first().comment.applied_to_question_id == Some(qid)
            && cs.first().comment.applied_to_answer_id is None {
            rest.push(comment_result_of(cs.first()))
        } else {
            rest
        }
    }
}

/// The comments applied to answer `aid` (and to no question), newest first.
pub open spec fn comments_on_answer_desc(cs: Seq<CommentRecordV>, aid: int) -> Seq<CommentResultV>
    decreases cs.len(),
{
    if cs.len() == 0 {
        Seq::empty()
    } else {
        let rest = comments_on_answer_desc(cs.drop_first(), aid);
        if cs.first().comment.applied_to_answer_id == Some(aid)
            && cs.first().comment.applied_to_question_id is None {
            rest.push(comment_result_of(cs.first()))
        } else {
            rest
        }
    }
}

/// The answers to question `qid`, newest first, each carrying its own
/// comments newest first.
pub open spec fn answers_desc(
    ans: Seq<AnswerRecordV>,
    cs: Seq<CommentRecordV>,
    qid: int,
) -> Seq<AnswerResultV>
    decreases ans.len(),
{
    if ans.len() == 0 {
        Seq::empty()
    } else {
        let rest = answers_desc(ans.drop_first(), cs, qid);
        if ans.first().answer.question_id == qid {
            rest.push(
                AnswerResultV {
                    id: ans.first().answer.id,
                    content: ans.first().answer.content,
                    created_on: ans.first().created_on,
                    comments: comments_on_answer_desc(cs, ans.first().answer.id),
                },
            )
        } else {
            rest
        }
    }
}

/// Whether a question record survives deleting the question `id`.
pub open spec fn question_kept(id: int) -> spec_fn(QuestionRecordV) -> bool {
    |r: QuestionRecordV| r.question.id != id
}

/// Whether an answer record survives deleting the question `question_id`.
pub open spec fn answer_kept(question_id: int) -> spec_fn(AnswerRecordV) -> bool {
    |a: AnswerRecordV| a.answer.question_id != question_id
}

/// Whether a comment survives deleting the question `question_id`: it must
/// not be attached to that question, nor to one of its answers.
pub open spec fn comment_survives(
    c: CommentRecordV,
    question_id: int,
    answers: Seq<AnswerRecordV>,
) -> bool {
    match c.comment.applied_to_question_id {
        Some(qid) => qid != question_id,
        None => match c.comment.applied_to_answer_id {
            Some(aid) => match find_answer(answers, aid) {
                Some(a) => a.answer.question_id != question_id,
                None => true,
            },
            None => true,
        },
    }
}

/// [`comment_survives`] as a keep predicate over the answer table from
/// before the deletion.
pub open spec fn comment_kept(question_id: int, answers: Seq<AnswerRecordV>) -> spec_fn(
    CommentRecordV,
) -> bool {
    |c: CommentRecordV| comment_survives(c, question_id, answers)
}

// ---------------------------------------------------------------------------
// The store
// ---------------------------------------------------------------------------

/// In-memory relational store over the three entity tables.
#[derive(Clone, Debug)]
pub struct Store {
    questions: Vec<QuestionRecord>,
    answers: Vec<AnswerRecord>,
    comments: Vec<CommentRecord>,
    next_question_id: i32,
    next_answer_id: i32,
    next_comment_id: u32,
    clock: i64,
}

impl View for Store {
    type V = StoreV;

    closed spec fn view(&self) -> StoreV {
        StoreV {
            questions: self.questions.deep_view(),
            answers: self.answers.deep_view(),
            comments: self.comments.deep_view(),
            next_question_id: self.next_question_id as int,
            next_answer_id: self.next_answer_id as int,
            next_comment_id: self.next_comment_id as int,
            clock: self.clock as int,
        }
    }
}

impl Store {
    /// Creates an empty store.
    pub fn new() -> (s: Store)
        ensures
            s@ == StoreV::empty(),
            s@.wf(),
    {
        let s = Store {
            questions: Vec::new(),
            answers: Vec::new(),
            comments: Vec::new(),
            next_question_id: 1,
            next_answer_id: 1,
            next_comment_id: 1,
            clock: 0,
        };
        proof {
            assert(s@.questions =~= StoreV::empty().questions);
            assert(s@.answers =~= StoreV::empty().answers);
            assert(s@.comments =~= StoreV::empty().comments);
        }
        s
    }

    /// Whether another question can be inserted: the identifier counter
    /// and the clock both have room. Callers outside verified code test
    /// this before inserting.
    pub fn can_insert_question(&self) -> (b: bool)
        ensures
            b == (self@.next_question_id < i32::MAX && self@.clock < i64::MAX),
    {
        self.next_question_id < i32::MAX && self.clock < i64::MAX
    }

    /// Whether another answer can be inserted.
    pub fn can_insert_answer(&self) -> (b: bool)
        ensures
            b == (self@.next_answer_id < i32::MAX && self@.clock < i64::MAX),
    {
        self.next_answer_id < i32::MAX && self.clock < i64::MAX
    }

    /// Whether another comment can be inserted. Comment identifiers are
    /// kept below `i32::MAX` so result rows can carry them exactly.
    pub fn can_insert_comment(&self) -> (b: bool)
        ensures
            b == (self@.next_comment_id < i32::MAX && self@.clock < i64::MAX),
    {
        self.next_comment_id < i32::MAX as u32 && self.clock < i64::MAX
    }

    /// Persists a new question: the store assigns the identifier and the
    /// creation timestamp and returns the full record.
    pub fn insert_question(&mut self, title: String, content: String, tags: Option<Vec<String>>)
        -> (q: Question)
        requires
            old(self)@.next_question_id < i32::MAX,
            old(self)@.clock < i64::MAX,
        ensures
            final(self)@ == old(self)@.with_question_inserted(title@, content@, tags.deep_view()),
            q@ == old(self)@.new_question(title@, content@, tags.deep_view()).question,
            old(self)@.wf() ==> final(self)@.wf(),
    {
        let id = QuestionId(self.next_question_id);
        self.next_question_id = self.next_question_id + 1;
        self.clock = self.clock + 1;
        let question = Question { id, title, content, tags };
        let record = QuestionRecord { question: clone_question(&question), created_on: self.clock };
        let ghost prior = old(self)@;
        let ghost recv = record@;
        self.questions.push(record);
        proof {
            assert(self.questions.deep_view() =~= prior.questions.push(recv));
            assert(self@ == prior.with_question_inserted(title@, content@, tags.deep_view()));
            if prior.wf() {
                lemma_wf_after_question_insert(prior, title@, content@, tags.deep_view());
            }
        }
        question
    }

    /// Looks up a question by identifier; fails with `NotFound` when no
    /// record matches.
    pub fn get_question<T: IntoQuestionId>(&self, id: T) -> (r: Result<Question, StoreError>)
        ensures
            match find_question(self@.questions, id.question_id_spec()) {
                Some(rec) => r matches Ok(q) && q@ == rec.question,
                None => r matches Err(e) && e == StoreError::NotFound,
            },
    {
        let qid = id.into_question_id();
        let ghost target = qid@;
        let ghost table = self@.questions;
        let mut i: usize = 0;
        while i < self.questions.len()
            invariant
                0 <= i <= self.questions.len(),
                table == self@.questions,
                table.len() == self.questions.len(),
                qid@ == target,
                target == id.question_id_spec(),
                forall|j: int| 0 <= j < i ==> question_key()(#[trigger] table[j]) != target,
            decreases self.questions.len() - i,
        {
            if self.questions[i].question.id.0 == qid.0 {
                proof {
                    lemma_index_of_by_ensures(table, question_key(), target);
                    assert(question_key()(table[i as int]) == target);
                    assert(index_of_by(table, question_key(), target) == i);
                }
                return Ok(clone_question(&self.questions[i].question));
            }
            i += 1;
        }
        proof {
            lemma_index_of_by_ensures(table, question_key(), target);
            assert(index_of_by(table, question_key(), target) == table.len());
        }
        Err(StoreError::NotFound)
    }

    /// Whether a question with this identifier is stored.
    fn contains_question(&self, id: i32) -> (b: bool)
        ensures
            b == self@.has_question(id as int),
    {
        let ghost table = self@.questions;
        let mut i: usize = 0;
        while i < self.questions.len()
            invariant
                0 <= i <= self.questions.len(),
                table == self@.questions,
                table.len() == self.questions.len(),
                forall|j: int| 0 <= j < i ==> question_key()(#[trigger] table[j]) != id as int,
            decreases self.questions.len() - i,
        {
            if self.questions[i].question.id.0 == id {
                proof {
                    lemma_index_of_by_ensures(table, question_key(), id as int);
                    assert(question_key()(table[i as int]) == id as int);
                }
                return true;
            }
            i += 1;
        }
        proof {
            lemma_index_of_by_ensures(table, question_key(), id as int);
        }
        false
    }

    /// Whether an answer with this identifier is stored.
    fn contains_answer(&self, id: i32) -> (b: bool)
        ensures
            b == self@.has_answer(id as int),
    {
        let ghost table = self@.answers;
        let mut i: usize = 0;
        while i < self.answers.len()
            invariant
                0 <= i <= self.answers.len(),
                table == self@.answers,
                table.len() == self.answers.len(),
                forall|j: int| 0 <= j < i ==> answer_key()(#[trigger] table[j]) != id as int,
            decreases self.answers.len() - i,
        {
            if self.answers[i].answer.id.0 == id {
                proof {
                    lemma_index_of_by_ensures(table, answer_key(), id as int);
                    assert(answer_key()(table[i as int]) == id as int);
                }
                return true;
            }
            i += 1;
        }
        proof {
            lemma_index_of_by_ensures(table, answer_key(), id as int);
        }
        false
    }

    /// Returns every stored question in store-natural (insertion) order;
    /// callers must not rely on any ordering guarantee.
    pub fn list_questions(&self) -> (r: Vec<Question>)
        ensures
            r.deep_view().len() == self@.questions.len(),
            forall|i: int|
                0 <= i < self@.questions.len() ==> r.deep_view()[i] == (
                #[trigger] self@.questions[i]).question,
    {
        let mut out: Vec<Question> = Vec::new();
        let mut i: usize = 0;
        while i < self.questions.len()
            invariant
                0 <= i <= self.questions.len(),
                out@.len() == i,
                forall|j: int|
                    0 <= j < i ==> (#[trigger] out@[j])@ == self@.questions[j].question,
            decreases self.questions.len() - i,
        {
            out.push(clone_question(&self.questions[i].question));
            i += 1;
        }
        out
    }

    /// Persists a new answer to an existing question; fails with
    /// `InvalidReference` when the referenced question does not exist.
    pub fn insert_answer(&mut self, content: String, question_id: i32) -> (r: Result<
        Answer,
        StoreError,
    >)
        requires
            old(self)@.next_answer_id < i32::MAX,
            old(self)@.clock < i64::MAX,
        ensures
            old(self)@.has_question(question_id as int) ==> {
                &&& final(self)@ == old(self)@.with_answer_inserted(content@, question_id as int)
                &&& r matches Ok(a) && a@ == old(self)@.new_answer(
                    content@,
                    question_id as int,
                ).answer
            },
            !old(self)@.has_question(question_id as int) ==> {
                &&& final(self)@ == old(self)@
                &&& r matches Err(e) && e == StoreError::InvalidReference
            },
            old(self)@.wf() ==> final(self)@.wf(),
    {
        if !self.contains_question(question_id) {
            return Err(StoreError::InvalidReference);
        }
        let id = AnswerId(self.next_answer_id);
        self.next_answer_id = self.next_answer_id + 1;
        self.clock = self.clock + 1;
        let answer = Answer { id, content, question_id: QuestionId(question_id) };
        let record = AnswerRecord { answer: clone_answer(&answer), created_on: self.clock };
        let ghost prior = old(self)@;
        let ghost recv = record@;
        self.answers.push(record);
        proof {
            assert(self.answers.deep_view() =~= prior.answers.push(recv));
            assert(self@ == prior.with_answer_inserted(content@, question_id as int));
            if prior.wf() {
                lemma_wf_after_answer_insert(prior, content@, question_id as int);
            }
        }
        Ok(answer)
    }

    /// Persists a new comment attached to exactly one existing question or
    /// answer. Fails with `InvalidComment` when zero or two references are
    /// supplied, or when the supplied reference does not resolve to an
    /// existing record.
    pub fn insert_comment(
        &mut self,
        content: String,
        applied_to_question_id: Option<QuestionId>,
        applied_to_answer_id: Option<AnswerId>,
    ) -> (r: Result<Comment, StoreError>)
        requires
            old(self)@.next_comment_id < i32::MAX,
            old(self)@.clock < i64::MAX,
        ensures
            old(self)@.comment_refs_valid(
                applied_to_question_id.deep_view(),
                applied_to_answer_id.deep_view(),
            ) ==> {
                &&& final(self)@ == old(self)@.with_comment_inserted(
                    content@,
                    applied_to_question_id.deep_view(),
                    applied_to_answer_id.deep_view(),
                )
                &&& r matches Ok(c) && c@ == old(self)@.new_comment(
                    content@,
                    applied_to_question_id.deep_view(),
                    applied_to_answer_id.deep_view(),
                ).comment
            },
            !old(self)@.comment_refs_valid(
                applied_to_question_id.deep_view(),
                applied_to_answer_id.deep_view(),
            ) ==> {
                &&& final(self)@ == old(self)@
                &&& r matches Err(e) && e == StoreError::InvalidComment
            },
            old(self)@.wf() ==> final(self)@.wf(),
    {
        let ok = match (&applied_to_question_id, &applied_to_answer_id) {
            (Some(q), None) => self.contains_question(q.0),
            (None, Some(a)) => self.contains_answer(a.0),
            _ => false,
        };
        if !ok {
            return Err(StoreError::InvalidComment);
        }
        let id = CommentId(self.next_comment_id);
        self.next_comment_id = self.next_comment_id + 1;
        self.clock = self.clock + 1;
        let comment = Comment {
            id,
            content,
            applied_to_question_id,
            applied_to_answer_id,
        };
        let record = CommentRecord { comment: clone_comment(&comment), created_on: self.clock };
        let ghost prior = old(self)@;
        let ghost recv = record@;
        self.comments.push(record);
        proof {
            assert(self.comments.deep_view() =~= prior.comments.push(recv));
            assert(self@ == prior.with_comment_inserted(
                content@,
                applied_to_question_id.deep_view(),
                applied_to_answer_id.deep_view(),
            ));
            if prior.wf() {
                lemma_wf_after_comment_insert(
                    prior,
                    content@,
                    applied_to_question_id.deep_view(),
                    applied_to_answer_id.deep_view(),
                );
            }
        }
        Ok(comment)
    }

    /// The question an answer belongs to, if the answer exists.
    fn answer_question_id(&self, id: i32) -> (r: Option<i32>)
        ensures
            match find_answer(self@.answers, id as int) {
                Some(a) => r matches Some(q) && q as int == a.answer.question_id,
                None => r is None,
            },
    {
        let ghost table = self@.answers;
        let mut i: usize = 0;
        while i < self.answers.len()
            invariant
                0 <= i <= self.answers.len(),
                table == self@.answers,
                table.len() == self.answers.len(),
                forall|j: int| 0 <= j < i ==> answer_key()(#[trigger] table[j]) != id as int,
            decreases self.answers.len() - i,
        {
            if self.answers[i].answer.id.0 == id {
                proof {
                    lemma_index_of_by_ensures(table, answer_key(), id as int);
                    assert(answer_key()(table[i as int]) == id as int);
                    assert(index_of_by(table, answer_key(), id as int) == i);
                }
                return Some(self.answers[i].answer.question_id.0);
            }
            i += 1;
        }
        proof {
            lemma_index_of_by_ensures(table, answer_key(), id as int);
        }
        None
    }

    /// Replaces the three mutable fields of an existing question as one
    /// whole-record update and returns the record as storage now holds it;
    /// fails with `NotFound` when the identifier is absent. The identifier
    /// and the creation timestamp are immutable.
    pub fn update_question(&mut self, new_question: UpdateQuestion) -> (r: Result<
        Question,
        StoreError,
    >)
        ensures
            old(self)@.has_question(new_question.id@) ==> {
                &&& final(self)@ == old(self)@.with_question_updated(
                    new_question.id@,
                    new_question.title@,
                    new_question.content@,
                    new_question.tags.deep_view(),
                )
                &&& r matches Ok(q) && q@ == (QuestionV {
                    id: new_question.id@,
                    title: new_question.title@,
                    content: new_question.content@,
                    tags: new_question.tags.deep_view(),
                })
            },
            !old(self)@.has_question(new_question.id@) ==> {
                &&& final(self)@ == old(self)@
                &&& r matches Err(e) && e == StoreError::NotFound
            },
            old(self)@.wf() ==> final(self)@.wf(),
    {
        if !self.contains_question(new_question.id.0) {
            return Err(StoreError::NotFound);
        }
        let UpdateQuestion { id, title, content, tags } = new_question;
        let ghost updated = old(self)@.with_question_updated(
            id@,
            title@,
            content@,
            tags.deep_view(),
        );
        let mut out: Vec<QuestionRecord> = Vec::new();
        let mut i: usize = 0;
        while i < self.questions.len()
            invariant
                0 <= i <= self.questions.len(),
                self@ == old(self)@,
                updated == old(self)@.with_question_updated(
                    id@,
                    title@,
                    content@,
                    tags.deep_view(),
                ),
                updated.questions.len() == self.questions.len(),
                out@.len() == i,
                forall|j: int| 0 <= j < i ==> (#[trigger] out@[j])@ == updated.questions[j],
            decreases self.questions.len() - i,
        {
            if self.questions[i].question.id.0 == id.0 {
                out.push(
                    QuestionRecord {
                        question: Question {
                            id,
                            title: title.clone(),
                            content: content.clone(),
                            tags: clone_tags(&tags),
                        },
                        created_on: self.questions[i].created_on,
                    },
                );
            } else {
                out.push(
                    QuestionRecord {
                        question: clone_question(&self.questions[i].question),
                        created_on: self.questions[i].created_on,
                    },
                );
            }
            i += 1;
        }
        let ghost prior = self@;
        self.questions = out;
        proof {
            assert(self.questions.deep_view() =~= updated.questions);
            assert(self@ == updated);
            if prior.wf() {
                lemma_wf_after_question_update(prior, id@, title@, content@, tags.deep_view());
            }
        }
        Ok(Question { id, title, content, tags })
    }

    /// Deletes a question together with its answers and their comments.
    /// Idempotent: deleting an identifier with no matching record is not an
    /// error and changes nothing.
    pub fn delete_question(&mut self, question_id: i32) -> (r: Result<(), StoreError>)
        ensures
            final(self)@ == old(self)@.with_question_deleted(question_id as int),
            r is Ok,
            old(self)@.wf() ==> final(self)@.wf(),
    {
        let ghost prior = old(self)@;
        let ghost target = question_id as int;

        // Comments first: deciding which comments survive consults the
        // answer table as it stands before the deletion.
        let mut kept_comments: Vec<CommentRecord> = Vec::new();
        let mut i: usize = 0;
        while i < self.comments.len()
            invariant
                0 <= i <= self.comments.len(),
                self@ == prior,
                prior == old(self)@,
                target == question_id as int,
                kept_comments.deep_view() == filtered(
                    prior.comments.take(i as int),
                    comment_kept(target, prior.answers),
                ),
            decreases self.comments.len() - i,
        {
            let keep = match &self.comments[i].comment.applied_to_question_id {
                Some(q) => q.0 != question_id,
                None => match &self.comments[i].comment.applied_to_answer_id {
                    Some(a) => match self.answer_question_id(a.0) {
                        Some(qid) => qid != question_id,
                        None => true,
                    },
                    None => true,
                },
            };
            proof {
                assert(keep == comment_kept(target, prior.answers)(prior.comments[i as int]));
                assert(prior.comments.take(i + 1 as int).drop_last() =~= prior.comments.take(
                    i as int,
                ));
                assert(prior.comments.take(i + 1 as int).last() == prior.comments[i as int]);
            }
            let ghost pre = kept_comments.deep_view();
            if keep {
                kept_comments.push(
                    CommentRecord {
                        comment: clone_comment(&self.comments[i].comment),
                        created_on: self.comments[i].created_on,
                    },
                );
                proof {
                    assert(kept_comments.deep_view() =~= pre.push(prior.comments[i as int]));
                }
            }
            i += 1;
        }

        // Answers to the deleted question go with it.
        let mut kept_answers: Vec<AnswerRecord> = Vec::new();
        let mut i: usize = 0;
        while i < self.answers.len()
            invariant
                0 <= i <= self.answers.len(),
                self@ == prior,
                prior == old(self)@,
                target == question_id as int,
                kept_answers.deep_view() == filtered(
                    prior.answers.take(i as int),
                    answer_kept(target),
                ),
            decreases self.answers.len() - i,
        {
            proof {
                assert(prior.answers.take(i + 1 as int).drop_last() =~= prior.answers.take(
                    i as int,
                ));
                assert(prior.answers.take(i + 1 as int).last() == prior.answers[i as int]);
            }
            let ghost pre = kept_answers.deep_view();
            if self.answers[i].answer.question_id.0 != question_id {
                kept_answers.push(
                    AnswerRecord {
                        answer: clone_answer(&self.answers[i].answer),
                        created_on: self.answers[i].created_on,
                    },
                );
                proof {
                    assert(kept_answers.deep_view() =~= pre.push(prior.answers[i as int]));
                }
            }
            i += 1;
        }

        // Finally the question itself.
        let mut kept_questions: Vec<QuestionRecord> = Vec::new();
        let mut i: usize = 0;
        while i < self.questions.len()
            invariant
                0 <= i <= self.questions.len(),
                self@ == prior,
                prior == old(self)@,
                target == question_id as int,
                kept_questions.deep_view() == filtered(
                    prior.questions.take(i as int),
                    question_kept(target),
                ),
            decreases self.questions.len() - i,
        {
            proof {
                assert(prior.questions.take(i + 1 as int).drop_last() =~= prior.questions.take(
                    i as int,
                ));
                assert(prior.questions.take(i + 1 as int).last() == prior.questions[i as int]);
            }
            let ghost pre = kept_questions.deep_view();
            if self.questions[i].question.id.0 != question_id {
                kept_questions.push(
                    QuestionRecord {
                        question: clone_question(&self.questions[i].question),
                        created_on: self.questions[i].created_on,
                    },
                );
                proof {
                    assert(kept_questions.deep_view() =~= pre.push(prior.questions[i as int]));
                }
            }
            i += 1;
        }

        self.comments = kept_comments;
        self.answers = kept_answers;
        self.questions = kept_questions;
        proof {
            assert(prior.comments.take(prior.comments.len() as int) =~= prior.comments);
            assert(prior.answers.take(prior.answers.len() as int) =~= prior.answers);
            assert(prior.questions.take(prior.questions.len() as int) =~= prior.questions);
            assert(self@ == prior.with_question_deleted(target));
            if prior.wf() {
                lemma_wf_after_question_delete(prior, target);
            }
        }
        Ok(())
    }

    /// Builds the comments applied directly to a question, newest first:
    /// scanning the table backwards puts later (newer) records first, and
    /// in a well-formed table that order agrees with "timestamp descending,
    /// identifier descending as the tie-break".
    fn question_comments_desc(&self, question_id: i32) -> (r: Vec<CommentResult>)
        requires
            self@.wf(),
        ensures
            r.deep_view() == comments_on_question_desc(self@.comments, question_id as int),
    {
        let ghost table = self@.comments;
        let ghost target = question_id as int;
        let mut out: Vec<CommentResult> = Vec::new();
        let mut i: usize = self.comments.len();
        while 0 < i
            invariant
                0 <= i <= self.comments.len(),
                self@.wf(),
                table == self@.comments,
                table.len() == self.comments.len(),
                target == question_id as int,
                out.deep_view() == comments_on_question_desc(table.skip(i as int), target),
            decreases i,
        {
            i -= 1;
            proof {
                assert(table.skip(i as int).drop_first() =~= table.skip(i + 1 as int));
                assert(table.skip(i as int).first() == table[i as int]);
                assert(1 <= table[i as int].comment.id < self@.next_comment_id);
            }
            let c = &self.comments[i];
            let keep = match (&c.comment.applied_to_question_id, &c.comment.applied_to_answer_id) {
                (Some(q), None) => q.0 == question_id,
                _ => false,
            };
            let ghost pre = out.deep_view();
            if keep {
                out.push(
                    CommentResult {
                        id: c.comment.id.0 as i32,
                        content: c.comment.content.clone(),
                        created_on: c.created_on,
                    },
                );
                proof {
                    assert(out.deep_view() =~= pre.push(comment_result_of(table[i as int])));
                }
            }
        }
        proof {
            assert(table.skip(0) =~= table);
        }
        out
    }

    /// Builds the comments applied to one answer, newest first.
    fn answer_comments_desc(&self, answer_id: i32) -> (r: Vec<CommentResult>)
        requires
            self@.wf(),
        ensures
            r.deep_view() == comments_on_answer_desc(self@.comments, answer_id as int),
    {
        let ghost table = self@.comments;
        let ghost target = answer_id as int;
        let mut out: Vec<CommentResult> = Vec::new();
        let mut i: usize = self.comments.len();
        while 0 < i
            invariant
                0 <= i <= self.comments.len(),
                self@.wf(),
                table == self@.comments,
                table.len() == self.comments.len(),
                target == answer_id as int,
                out.deep_view() == comments_on_answer_desc(table.skip(i as int), target),
            decreases i,
        {
            i -= 1;
            proof {
                assert(table.skip(i as int).drop_first() =~= table.skip(i + 1 as int));
                assert(table.skip(i as int).first() == table[i as int]);
                assert(1 <= table[i as int].comment.id < self@.next_comment_id);
            }
            let c = &self.comments[i];
            let keep = match (&c.comment.applied_to_question_id, &c.comment.applied_to_answer_id) {
                (None, Some(a)) => a.0 == answer_id,
                _ => false,
            };
            let ghost pre = out.deep_view();
            if keep {
                out.push(
                    CommentResult {
                        id: c.comment.id.0 as i32,
                        content: c.comment.content.clone(),
                        created_on: c.created_on,
                    },
                );
                proof {
                    assert(out.deep_view() =~= pre.push(comment_result_of(table[i as int])));
                }
            }
        }
        proof {
            assert(table.skip(0) =~= table);
        }
        out
    }

    /// Builds the answers to a question, newest first, each carrying its
    /// own comments.
    fn question_answers_desc(&self, question_id: i32) -> (r: Vec<AnswerResult>)
        requires
            self@.wf(),
        ensures
            r.deep_view() == answers_desc(self@.answers, self@.comments, question_id as int),
    {
        let ghost table = self@.answers;
        let ghost target = question_id as int;
        let mut out: Vec<AnswerResult> = Vec::new();
        let mut i: usize = self.answers.len();
        while 0 < i
            invariant
                0 <= i <= self.answers.len(),
                self@.wf(),
                table == self@.answers,
                table.len() == self.answers.len(),
                target == question_id as int,
                out.deep_view() == answers_desc(table.skip(i as int), self@.comments, target),
            decreases i,
        {
            i -= 1;
            proof {
                assert(table.skip(i as int).drop_first() =~= table.skip(i + 1 as int));
                assert(table.skip(i as int).first() == table[i as int]);
            }
            let ghost pre = out.deep_view();
            if self.answers[i].answer.question_id.0 == question_id {
                let comments = self.answer_comments_desc(self.answers[i].answer.id.0);
                let a = &self.answers[i];
                out.push(
                    AnswerResult {
                        id: a.answer.id.0,
                        content: a.answer.content.clone(),
                        created_on: a.created_on,
                        comments,
                    },
                );
                proof {
                    assert(out.deep_view() =~= pre.push(
                        AnswerResultV {
                            id: table[i as int].answer.id,
                            content: table[i as int].answer.content,
                            created_on: table[i as int].created_on,
                            comments: comments_on_answer_desc(
                                self@.comments,
                                table[i as int].answer.id,
                            ),
                        },
                    ));
                }
            }
        }
        proof {
            assert(table.skip(0) =~= table);
        }
        out
    }

    /// Assembles the aggregate for one question: the question fields, the
    /// comments applied directly to it, and its answers with their own
    /// comments, every sequence newest first with the identifier as the
    /// documented tie-break for equal timestamps. Fails with `NotFound`
    /// when the question does not exist. The lookups are independent; on a
    /// shared store a concurrent write between them is tolerated read skew.
    pub fn get_question_detail(&self, question_id: i32) -> (r: Result<QuestionResult, StoreError>)
        requires
            self@.wf(),
        ensures
            match find_question(self@.questions, question_id as int) {
                Some(qrec) => r matches Ok(qr) && qr@ == self@.question_detail(qrec),
                None => r matches Err(e) && e == StoreError::NotFound,
            },
    {
        let ghost table = self@.questions;
        let ghost target = question_id as int;
        let mut i: usize = 0;
        while i < self.questions.len()
            invariant
                0 <= i <= self.questions.len(),
                self@.wf(),
                table == self@.questions,
                table.len() == self.questions.len(),
                target == question_id as int,
                forall|j: int| 0 <= j < i ==> question_key()(#[trigger] table[j]) != target,
            decreases self.questions.len() - i,
        {
            if self.questions[i].question.id.0 == question_id {
                proof {
                    lemma_index_of_by_ensures(table, question_key(), target);
                    assert(question_key()(table[i as int]) == target);
                    assert(index_of_by(table, question_key(), target) == i);
                }
                let rec = &self.questions[i];
                let comments = self.question_comments_desc(question_id);
                let answers = self.question_answers_desc(question_id);
                return Ok(
                    QuestionResult {
                        id: rec.question.id.0,
                        title: rec.question.title.clone(),
                        content: rec.question.content.clone(),
                        tags: clone_tags(&rec.question.tags),
                        created_on: rec.created_on,
                        comments,
                        answers,
                    },
                );
            }
            i += 1;
        }
        proof {
            lemma_index_of_by_ensures(table, question_key(), target);
            assert(index_of_by(table, question_key(), target) == table.len());
        }
        Err(StoreError::NotFound)
    }
}

/// Inserting a question preserves the store invariant.
proof fn lemma_wf_after_question_insert(
    s: StoreV,
    title: Seq<char>,
    content: Seq<char>,
    tags: Option<Seq<Seq<char>>>,
)
    requires
        s.wf(),
        s.next_question_id < i32::MAX,
        s.clock < i64::MAX,
    ensures
        s.with_question_inserted(title, content, tags).wf(),
{
    let s1 = s.with_question_inserted(title, content, tags);
    let rec = s.new_question(title, content, tags);
    assert(forall|j: int| 0 <= j < s.questions.len() ==> #[trigger] s1.questions[j] == s.questions[j]);
    assert(s1.questions[s.questions.len() as int] == rec);
    assert forall|id: int| s.has_question(id) implies s1.has_question(id) by {
        lemma_index_of_by_push(s.questions, question_key(), rec, id);
    }
    assert forall|i: int| 0 <= i < s1.answers.len() implies s1.has_question(
        (#[trigger] s1.answers[i]).answer.question_id,
    ) by {
        assert(s.has_question(s.answers[i].answer.question_id));
        lemma_index_of_by_push(s.questions, question_key(), rec, s.answers[i].answer.question_id);
    }
    assert forall|i: int| 0 <= i < s1.comments.len() implies match (
    #[trigger] s1.comments[i]).comment.applied_to_question_id {
        Some(qid) => s1.has_question(qid),
        None => true,
    } by {
        match s.comments[i].comment.applied_to_question_id {
            Some(qid) => {
                assert(s.has_question(qid));
                lemma_index_of_by_push(s.questions, question_key(), rec, qid);
            },
            None => {},
        }
    }
}

/// Inserting an answer to an existing question preserves the store
/// invariant.
proof fn lemma_wf_after_answer_insert(s: StoreV, content: Seq<char>, question_id: int)
    requires
        s.wf(),
        s.has_question(question_id),
        s.next_answer_id < i32::MAX,
        s.clock < i64::MAX,
    ensures
        s.with_answer_inserted(content, question_id).wf(),
{
    let s1 = s.with_answer_inserted(content, question_id);
    let rec = s.new_answer(content, question_id);
    assert(forall|j: int| 0 <= j < s.answers.len() ==> #[trigger] s1.answers[j] == s.answers[j]);
    assert(s1.answers[s.answers.len() as int] == rec);
    assert forall|i: int| 0 <= i < s1.comments.len() implies match (
    #[trigger] s1.comments[i]).comment.applied_to_answer_id {
        Some(aid) => s1.has_answer(aid),
        None => true,
    } by {
        match s.comments[i].comment.applied_to_answer_id {
            Some(aid) => {
                assert(s.has_answer(aid));
                lemma_index_of_by_push(s.answers, answer_key(), rec, aid);
            },
            None => {},
        }
    }
}

/// Inserting a validly attached comment preserves the store invariant.
proof fn lemma_wf_after_comment_insert(
    s: StoreV,
    content: Seq<char>,
    question_ref: Option<int>,
    answer_ref: Option<int>,
)
    requires
        s.wf(),
        s.comment_refs_valid(question_ref, answer_ref),
        s.next_comment_id < i32::MAX,
        s.clock < i64::MAX,
    ensures
        s.with_comment_inserted(content, question_ref, answer_ref).wf(),
{
    let s1 = s.with_comment_inserted(content, question_ref, answer_ref);
    let rec = s.new_comment(content, question_ref, answer_ref);
    assert(forall|j: int| 0 <= j < s.comments.len() ==> #[trigger] s1.comments[j] == s.comments[j]);
    assert(s1.comments[s.comments.len() as int] == rec);
}

/// The strict order a question table keeps: by identifier and by creation
/// time together.
spec fn question_order() -> spec_fn(QuestionRecordV, QuestionRecordV) -> bool {
    |a: QuestionRecordV, b: QuestionRecordV|
        a.question.id < b.question.id && a.created_on < b.created_on
}

/// The strict order an answer table keeps.
spec fn answer_order() -> spec_fn(AnswerRecordV, AnswerRecordV) -> bool {
    |a: AnswerRecordV, b: AnswerRecordV| a.answer.id < b.answer.id && a.created_on < b.created_on
}

/// The strict order a comment table keeps.
spec fn comment_order() -> spec_fn(CommentRecordV, CommentRecordV) -> bool {
    |a: CommentRecordV, b: CommentRecordV| a.comment.id < b.comment.id && a.created_on < b.created_on
}

/// A whole-record update preserves the store invariant.
proof fn lemma_wf_after_question_update(
    s: StoreV,
    id: int,
    title: Seq<char>,
    content: Seq<char>,
    tags: Option<Seq<Seq<char>>>,
)
    requires
        s.wf(),
    ensures
        s.with_question_updated(id, title, content, tags).wf(),
{
    let s1 = s.with_question_updated(id, title, content, tags);
    assert(forall|j: int|
        0 <= j < s.questions.len() ==> (#[trigger] s1.questions[j]).question.id
            == s.questions[j].question.id && s1.questions[j].created_on
            == s.questions[j].created_on);
    assert forall|i: int| 0 <= i < s1.answers.len() implies s1.has_question(
        (#[trigger] s1.answers[i]).answer.question_id,
    ) by {
        assert(s.has_question(s.answers[i].answer.question_id));
        lemma_index_of_by_same_keys(
            s.questions,
            s1.questions,
            question_key(),
            s.answers[i].answer.question_id,
        );
    }
    assert forall|i: int| 0 <= i < s1.comments.len() implies match (
    #[trigger] s1.comments[i]).comment.applied_to_question_id {
        Some(qid) => s1.has_question(qid),
        None => true,
    } by {
        match s.comments[i].comment.applied_to_question_id {
            Some(qid) => {
                assert(s.has_question(qid));
                lemma_index_of_by_same_keys(s.questions, s1.questions, question_key(), qid);
            },
            None => {},
        }
    }
}

/// Deleting a question, its answers and their comments preserves the store
/// invariant.
proof fn lemma_wf_after_question_delete(s: StoreV, id: int)
    requires
        s.wf(),
    ensures
        s.with_question_deleted(id).wf(),
{
    let s1 = s.with_question_deleted(id);
    let qkeep = question_kept(id);
    let akeep = answer_kept(id);
    let ckeep = comment_kept(id, s.answers);
    lemma_filtered_membership(s.questions, qkeep);
    lemma_filtered_membership(s.answers, akeep);
    lemma_filtered_membership(s.comments, ckeep);
    assert(forall|i: int, j: int|
        0 <= i < j < s.questions.len() ==> question_order()(
            #[trigger] s.questions[i],
            #[trigger] s.questions[j],
        ));
    lemma_filtered_increasing(s.questions, qkeep, question_order());
    assert(forall|i: int, j: int|
        0 <= i < j < s.answers.len() ==> answer_order()(
            #[trigger] s.answers[i],
            #[trigger] s.answers[j],
        ));
    lemma_filtered_increasing(s.answers, akeep, answer_order());
    assert(forall|i: int, j: int|
        0 <= i < j < s.comments.len() ==> comment_order()(
            #[trigger] s.comments[i],
            #[trigger] s.comments[j],
        ));
    lemma_filtered_increasing(s.comments, ckeep, comment_order());

    assert forall|i: int, j: int| 0 <= i < j < s1.questions.len() implies (
    #[trigger] s1.questions[i]).question.id < (#[trigger] s1.questions[j]).question.id
        && s1.questions[i].created_on < s1.questions[j].created_on by {
        assert(question_order()(s1.questions[i], s1.questions[j]));
    }
    assert forall|i: int, j: int| 0 <= i < j < s1.answers.len() implies (
    #[trigger] s1.answers[i]).answer.id < (#[trigger] s1.answers[j]).answer.id
        && s1.answers[i].created_on < s1.answers[j].created_on by {
        assert(answer_order()(s1.answers[i], s1.answers[j]));
    }
    assert forall|i: int, j: int| 0 <= i < j < s1.comments.len() implies (
    #[trigger] s1.comments[i]).comment.id < (#[trigger] s1.comments[j]).comment.id
        && s1.comments[i].created_on < s1.comments[j].created_on by {
        assert(comment_order()(s1.comments[i], s1.comments[j]));
    }

    assert forall|k: int| 0 <= k < s1.questions.len() implies 1 <= (
    #[trigger] s1.questions[k]).question.id < s1.next_question_id && 1
        <= s1.questions[k].created_on <= s1.clock by {
        assert(s.questions.contains(s1.questions[k]));
        let j = choose|j: int| 0 <= j < s.questions.len() && s.questions[j] == s1.questions[k];
    }
    assert forall|k: int| 0 <= k < s1.answers.len() implies 1 <= (
    #[trigger] s1.answers[k]).answer.id < s1.next_answer_id && 1 <= s1.answers[k].created_on
        <= s1.clock by {
        assert(s.answers.contains(s1.answers[k]));
        let j = choose|j: int| 0 <= j < s.answers.len() && s.answers[j] == s1.answers[k];
    }
    assert forall|k: int| 0 <= k < s1.comments.len() implies 1 <= (
    #[trigger] s1.comments[k]).comment.id < s1.next_comment_id && 1
        <= s1.comments[k].created_on <= s1.clock && ((s1.comments[k].comment.applied_to_question_id
        is Some) <==> (s1.comments[k].comment.applied_to_answer_id is None)) by {
        assert(s.comments.contains(s1.comments[k]));
        let j = choose|j: int| 0 <= j < s.comments.len() && s.comments[j] == s1.comments[k];
    }

    assert forall|k: int| 0 <= k < s1.answers.len() implies s1.has_question(
        (#[trigger] s1.answers[k]).answer.question_id,
    ) by {
        assert(s.answers.contains(s1.answers[k]) && akeep(s1.answers[k]));
        let j = choose|j: int| 0 <= j < s.answers.len() && s.answers[j] == s1.answers[k];
        let qid = s.answers[j].answer.question_id;
        assert(s.has_question(qid));
        lemma_index_of_by_ensures(s.questions, question_key(), qid);
        let m = index_of_by(s.questions, question_key(), qid);
        assert(question_key()(s.questions[m]) == qid);
        assert(qid != id);
        assert(qkeep(s.questions[m]));
        assert(s1.questions.contains(s.questions[m]));
        let k2 = choose|k2: int| 0 <= k2 < s1.questions.len() && s1.questions[k2] == s.questions[m];
        assert(question_key()(#[trigger] s1.questions[k2]) == qid);
        lemma_has_match(s1.questions, question_key(), qid);
    }

    assert forall|k: int| 0 <= k < s1.comments.len() implies match (
    #[trigger] s1.comments[k]).comment.applied_to_question_id {
        Some(qid) => s1.has_question(qid),
        None => true,
    } by {
        assert(s.comments.contains(s1.comments[k]) && ckeep(s1.comments[k]));
        let j = choose|j: int| 0 <= j < s.comments.len() && s.comments[j] == s1.comments[k];
        match s1.comments[k].comment.applied_to_question_id {
            Some(qid) => {
                assert(comment_survives(s1.comments[k], id, s.answers));
                assert(qid != id);
                assert(s.has_question(qid));
                lemma_index_of_by_ensures(s.questions, question_key(), qid);
                let m = index_of_by(s.questions, question_key(), qid);
                assert(question_key()(s.questions[m]) == qid);
                assert(qkeep(s.questions[m]));
                assert(s1.questions.contains(s.questions[m]));
                let k2 = choose|k2: int|
                    0 <= k2 < s1.questions.len() && s1.questions[k2] == s.questions[m];
                assert(question_key()(#[trigger] s1.questions[k2]) == qid);
                lemma_has_match(s1.questions, question_key(), qid);
            },
            None => {},
        }
    }

    assert forall|k: int| 0 <= k < s1.comments.len() implies match (
    #[trigger] s1.comments[k]).comment.applied_to_answer_id {
        Some(aid) => s1.has_answer(aid),
        None => true,
    } by {
        assert(s.comments.contains(s1.comments[k]) && ckeep(s1.comments[k]));
        let j = choose|j: int| 0 <= j < s.comments.len() && s.comments[j] == s1.comments[k];
        match s1.comments[k].comment.applied_to_answer_id {
            Some(aid) => {
                assert(comment_survives(s1.comments[k], id, s.answers));
                assert(s.has_answer(aid));
                lemma_index_of_by_ensures(s.answers, answer_key(), aid);
                let m = index_of_by(s.answers, answer_key(), aid);
                assert(answer_key()(s.answers[m]) == aid);
                assert(find_answer(s.answers, aid) == Some(s.answers[m]));
                assert(s1.comments[k].comment.applied_to_question_id is None);
                assert(s.answers[m].answer.question_id != id);
                assert(akeep(s.answers[m]));
                assert(s1.answers.contains(s.answers[m]));
                let k2 = choose|k2: int|
                    0 <= k2 < s1.answers.len() && s1.answers[k2] == s.answers[m];
                assert(answer_key()(#[trigger] s1.answers[k2]) == aid);
                lemma_has_match(s1.answers, answer_key(), aid);
            },
            None => {},
        }
    }
}

/// Filtering keeps a table unchanged when every element passes.
pub proof fn lemma_filtered_all_kept<T>(s: Seq<T>, keep: spec_fn(T) -> bool)
    requires
        forall|i: int| 0 <= i < s.len() ==> keep(#[trigger] s[i]),
    ensures
        filtered(s, keep) == s,
    decreases s.len(),
{
    if s.len() == 0 {
        assert(filtered(s, keep) =~= s);
    } else {
        assert(forall|j: int| 0 <= j < s.len() - 1 ==> #[trigger] s.drop_last()[j] == s[j]);
        lemma_filtered_all_kept(s.drop_last(), keep);
        assert(keep(s.last()));
        assert(filtered(s, keep) =~= s);
    }
}

/// How the newest-first answer aggregate grows when an answer is appended:
/// a matching answer appears at the front, carrying its own comments, and
/// everything already listed stays, in order.
pub proof fn lemma_answers_desc_push(
    ans: Seq<AnswerRecordV>,
    cs: Seq<CommentRecordV>,
    qid: int,
    rec: AnswerRecordV,
)
    ensures
        answers_desc(ans.push(rec), cs, qid) == (if rec.answer.question_id == qid {
            seq![
                AnswerResultV {
                    id: rec.answer.id,
                    content: rec.answer.content,
                    created_on: rec.created_on,
                    comments: comments_on_answer_desc(cs, rec.answer.id),
                },
            ] + answers_desc(ans, cs, qid)
        } else {
            answers_desc(ans, cs, qid)
        }),
    decreases ans.len(),
{
    let e = AnswerResultV {
        id: rec.answer.id,
        content: rec.answer.content,
        created_on: rec.created_on,
        comments: comments_on_answer_desc(cs, rec.answer.id),
    };
    if ans.len() == 0 {
        assert(ans =~= Seq::<AnswerRecordV>::empty());
        assert(ans.push(rec).drop_first() =~= ans);
        assert(ans.push(rec).first() == rec);
        if rec.answer.question_id == qid {
            assert(answers_desc(ans.push(rec), cs, qid) =~= seq![e] + answers_desc(ans, cs, qid));
        }
    } else {
        assert(ans.push(rec).first() == ans.first());
        assert(ans.push(rec).drop_first() =~= ans.drop_first().push(rec));
        lemma_answers_desc_push(ans.drop_first(), cs, qid, rec);
        if rec.answer.question_id == qid {
            if ans.first().answer.question_id == qid {
                assert((seq![e] + answers_desc(ans.drop_first(), cs, qid)).push(
                    answers_desc(ans, cs, qid).last(),
                ) =~= seq![e] + answers_desc(ans, cs, qid));
            } else {
                assert(answers_desc(ans.push(rec), cs, qid) =~= seq![e] + answers_desc(
                    ans,
                    cs,
                    qid,
                ));
            }
        }
    }
}

/// In a table whose identifiers and timestamps increase with position, the
/// question-comment aggregate is ordered newest first, and every entry
/// comes from some record of the table.
proof fn lemma_comments_on_question_desc_sorted(cs: Seq<CommentRecordV>, qid: int)
    requires
        forall|i: int, j: int|
            0 <= i < j < cs.len() ==> (#[trigger] cs[i]).comment.id < (
            #[trigger] cs[j]).comment.id && cs[i].created_on < cs[j].created_on,
    ensures
        crate::detail::comments_newest_first(comments_on_question_desc(cs, qid)),
        forall|m: int|
            0 <= m < comments_on_question_desc(cs, qid).len() ==> exists|k: int|
                0 <= k < cs.len() && (#[trigger] comments_on_question_desc(cs, qid)[m])
                    == comment_result_of(#[trigger] cs[k]),
    decreases cs.len(),
{
    if cs.len() == 0 {
    } else {
        assert(forall|j: int| 1 <= j < cs.len() ==> #[trigger] cs.drop_first()[j - 1] == cs[j]);
        lemma_comments_on_question_desc_sorted(cs.drop_first(), qid);
        let rest = comments_on_question_desc(cs.drop_first(), qid);
        let res = comments_on_question_desc(cs, qid);
        assert forall|m: int| 0 <= m < res.len() implies exists|k: int|
            0 <= k < cs.len() && (#[trigger] res[m]) == comment_result_of(#[trigger] cs[k]) by {
            if m < rest.len() {
                let k = choose|k: int|
                    0 <= k < cs.drop_first().len() && rest[m] == comment_result_of(
                        #[trigger] cs.drop_first()[k],
                    );
                assert(res[m] == comment_result_of(cs[k + 1]));
            } else {
                assert(res[m] == comment_result_of(cs[0]));
            }
        }
        assert forall|m1: int, m2: int| 0 <= m1 < m2 < res.len() implies
            crate::detail::comment_precedes(res[m1], res[m2]) by {
            if m2 >= rest.len() {
                let k = choose|k: int|
                    0 <= k < cs.drop_first().len() && rest[m1] == comment_result_of(
                        #[trigger] cs.drop_first()[k],
                    );
                assert(rest[m1].created_on == cs[k + 1].created_on);
                assert(cs[0].created_on < cs[k + 1].created_on);
            }
        }
    }
}

/// The counterpart of [`lemma_comments_on_question_desc_sorted`] for the
/// comments of one answer.
proof fn lemma_comments_on_answer_desc_sorted(cs: Seq<CommentRecordV>, aid: int)
    requires
        forall|i: int, j: int|
            0 <= i < j < cs.len() ==> (#[trigger] cs[i]).comment.id < (
            #[trigger] cs[j]).comment.id && cs[i].created_on < cs[j].created_on,
    ensures
        crate::detail::comments_newest_first(comments_on_answer_desc(cs, aid)),
        forall|m: int|
            0 <= m < comments_on_answer_desc(cs, aid).len() ==> exists|k: int|
                0 <= k < cs.len() && (#[trigger] comments_on_answer_desc(cs, aid)[m])
                    == comment_result_of(#[trigger] cs[k]),
    decreases cs.len(),
{
    if cs.len() == 0 {
    } else {
        assert(forall|j: int| 1 <= j < cs.len() ==> #[trigger] cs.drop_first()[j - 1] == cs[j]);
        lemma_comments_on_answer_desc_sorted(cs.drop_first(), aid);
        let rest = comments_on_answer_desc(cs.drop_first(), aid);
        let res = comments_on_answer_desc(cs, aid);
        assert forall|m: int| 0 <= m < res.len() implies exists|k: int|
            0 <= k < cs.len() && (#[trigger] res[m]) == comment_result_of(#[trigger] cs[k]) by {
            if m < rest.len() {
                let k = choose|k: int|
                    0 <= k < cs.drop_first().len() && rest[m] == comment_result_of(
                        #[trigger] cs.drop_first()[k],
                    );
                assert(res[m] == comment_result_of(cs[k + 1]));
            } else {
                assert(res[m] == comment_result_of(cs[0]));
            }
        }
        assert forall|m1: int, m2: int| 0 <= m1 < m2 < res.len() implies
            crate::detail::comment_precedes(res[m1], res[m2]) by {
            if m2 >= rest.len() {
                let k = choose|k: int|
                    0 <= k < cs.drop_first().len() && rest[m1] == comment_result_of(
                        #[trigger] cs.drop_first()[k],
                    );
                assert(rest[m1].created_on == cs[k + 1].created_on);
                assert(cs[0].created_on < cs[k + 1].created_on);
            }
        }
    }
}

/// The entry an answer record contributes to the aggregate.
spec fn answer_entry_of(a: AnswerRecordV, cs: Seq<CommentRecordV>) -> AnswerResultV {
    AnswerResultV {
        id: a.answer.id,
        content: a.answer.content,
        created_on: a.created_on,
        comments: comments_on_answer_desc(cs, a.answer.id),
    }
}

/// The counterpart of [`lemma_comments_on_question_desc_sorted`] for the
/// answer sequence of the aggregate.
proof fn lemma_answers_desc_sorted(ans: Seq<AnswerRecordV>, cs: Seq<CommentRecordV>, qid: int)
    requires
        forall|i: int, j: int|
            0 <= i < j < ans.len() ==> (#[trigger] ans[i]).answer.id < (
            #[trigger] ans[j]).answer.id && ans[i].created_on < ans[j].created_on,
    ensures
        crate::detail::answer_results_newest_first(answers_desc(ans, cs, qid)),
        forall|m: int|
            0 <= m < answers_desc(ans, cs, qid).len() ==> exists|k: int|
                0 <= k < ans.len() && (#[trigger] answers_desc(ans, cs, qid)[m]) == answer_entry_of(
                    #[trigger] ans[k],
                    cs,
                ),
    decreases ans.len(),
{
    if ans.len() == 0 {
    } else {
        assert(forall|j: int| 1 <= j < ans.len() ==> #[trigger] ans.drop_first()[j - 1] == ans[j]);
        lemma_answers_desc_sorted(ans.drop_first(), cs, qid);
        let rest = answers_desc(ans.drop_first(), cs, qid);
        let res = answers_desc(ans, cs, qid);
        assert forall|m: int| 0 <= m < res.len() implies exists|k: int|
            0 <= k < ans.len() && (#[trigger] res[m]) == answer_entry_of(#[trigger] ans[k], cs) by {
            if m < rest.len() {
                let k = choose|k: int|
                    0 <= k < ans.drop_first().len() && rest[m] == answer_entry_of(
                        #[trigger] ans.drop_first()[k],
                        cs,
                    );
                assert(res[m] == answer_entry_of(ans[k + 1], cs));
            } else {
                assert(res[m] == answer_entry_of(ans[0], cs));
            }
        }
        assert forall|m1: int, m2: int| 0 <= m1 < m2 < res.len() implies
            crate::detail::answer_result_precedes(res[m1], res[m2]) by {
            if m2 >= rest.len() {
                let k = choose|k: int|
                    0 <= k < ans.drop_first().len() && rest[m1] == answer_entry_of(
                        #[trigger] ans.drop_first()[k],
                        cs,
                    );
                assert(rest[m1].created_on == ans[k + 1].created_on);
                assert(ans[0].created_on < ans[k + 1].created_on);
            }
        }
    }
}

/// In a well-formed store every sequence of a question's aggregate is
/// ordered newest first — creation timestamps descending, with the
/// identifier (which agrees with them) as the stable tie-break: the
/// comments on the question, the answers, and each answer's own comments.
pub proof fn lemma_question_detail_newest_first(s: StoreV, qrec: QuestionRecordV)
    requires
        s.wf(),
    ensures
        crate::detail::comments_newest_first(s.question_detail(qrec).comments),
        crate::detail::answer_results_newest_first(s.question_detail(qrec).answers),
        forall|m: int|
            0 <= m < s.question_detail(qrec).answers.len() ==> crate::detail::comments_newest_first(
                (#[trigger] s.question_detail(qrec).answers[m]).comments,
            ),
{
    lemma_comments_on_question_desc_sorted(s.comments, qrec.question.id);
    lemma_answers_desc_sorted(s.answers, s.comments, qrec.question.id);
    let det = s.question_detail(qrec);
    assert forall|m: int| 0 <= m < det.answers.len() implies
        crate::detail::comments_newest_first((#[trigger] det.answers[m]).comments) by {
        let k = choose|k: int|
            0 <= k < s.answers.len() && det.answers[m] == answer_entry_of(
                #[trigger] s.answers[k],
                s.comments,
            );
        lemma_comments_on_answer_desc_sorted(s.comments, s.answers[k].answer.id);
    }
}

// ---------------------------------------------------------------------------
// Laws: properties the operations guarantee in combination
// ---------------------------------------------------------------------------

/// Inserting a question and then fetching the identifier it returned
/// yields the freshly created record, equal in every field (title, content,
/// tags, identifier and timestamp).
pub proof fn lemma_insert_question_then_get(
    s: StoreV,
    title: Seq<char>,
    content: Seq<char>,
    tags: Option<Seq<Seq<char>>>,
)
    requires
        s.wf(),
    ensures
        find_question(
            s.with_question_inserted(title, content, tags).questions,
            s.new_question(title, content, tags).question.id,
        ) == Some(s.new_question(title, content, tags)),
{
    let rec = s.new_question(title, content, tags);
    let id = rec.question.id;
    lemma_index_of_by_ensures(s.questions, question_key(), id);
    let idx = index_of_by(s.questions, question_key(), id);
    if idx < s.questions.len() {
        assert(question_key()(s.questions[idx]) == id);
        assert(s.questions[idx].question.id < s.next_question_id);
        assert(false);
    }
    lemma_index_of_by_push(s.questions, question_key(), rec, id);
    assert(s.questions.push(rec)[s.questions.len() as int] == rec);
}

/// Updating an absent identifier changes nothing (the operation reports
/// `NotFound`); updating an existing question and then fetching it yields
/// exactly the new title, content and tags under the original identifier
/// and the original creation timestamp.
pub proof fn lemma_update_question_then_get(
    s: StoreV,
    id: int,
    title: Seq<char>,
    content: Seq<char>,
    tags: Option<Seq<Seq<char>>>,
)
    requires
        s.wf(),
    ensures
        !s.has_question(id) ==> s.with_question_updated(id, title, content, tags) == s,
        s.has_question(id) ==> match (
            find_question(s.questions, id),
            find_question(s.with_question_updated(id, title, content, tags).questions, id),
        ) {
            (Some(orig), Some(updated)) => {
                &&& updated.question == (QuestionV { id, title, content, tags })
                &&& updated.created_on == orig.created_on
            },
            _ => false,
        },
{
    let s1 = s.with_question_updated(id, title, content, tags);
    assert(forall|j: int|
        0 <= j < s.questions.len() ==> question_key()(#[trigger] s1.questions[j]) == question_key()(
            s.questions[j],
        ));
    lemma_index_of_by_same_keys(s.questions, s1.questions, question_key(), id);
    lemma_index_of_by_ensures(s.questions, question_key(), id);
    let m = index_of_by(s.questions, question_key(), id);
    if m == s.questions.len() {
        assert(s1.questions =~= s.questions);
    } else {
        assert(question_key()(s.questions[m]) == id);
        assert(s1.questions[m].created_on == s.questions[m].created_on);
    }
}

/// Deleting a question is idempotent: the operation never errs, a second
/// deletion of the same identifier changes nothing, and the question cannot
/// be found after either call.
pub proof fn lemma_delete_question_idempotent(s: StoreV, id: int)
    requires
        s.wf(),
    ensures
        !s.with_question_deleted(id).has_question(id),
        s.with_question_deleted(id).with_question_deleted(id) == s.with_question_deleted(id),
{
    let s1 = s.with_question_deleted(id);
    let qkeep = question_kept(id);
    let akeep = answer_kept(id);
    lemma_filtered_membership(s.questions, qkeep);
    lemma_filtered_membership(s.answers, akeep);
    lemma_filtered_membership(s.comments, comment_kept(id, s.answers));

    // the deleted identifier matches nothing afterwards
    lemma_has_match(s1.questions, question_key(), id);
    assert(forall|k: int|
        0 <= k < s1.questions.len() ==> question_key()(#[trigger] s1.questions[k]) != id);

    // every surviving record survives a second pass
    lemma_filtered_all_kept(s1.questions, qkeep);
    lemma_filtered_all_kept(s1.answers, akeep);
    assert forall|k: int| 0 <= k < s1.comments.len() implies comment_kept(id, s1.answers)(
        #[trigger] s1.comments[k],
    ) by {
        let c = s1.comments[k];
        assert(s.comments.contains(c) && comment_kept(id, s.answers)(c));
        match c.comment.applied_to_question_id {
            Some(qid) => {},
            None => match c.comment.applied_to_answer_id {
                Some(aid) => {
                    lemma_index_of_by_ensures(s1.answers, answer_key(), aid);
                    let m = index_of_by(s1.answers, answer_key(), aid);
                    if m < s1.answers.len() {
                        assert(akeep(s1.answers[m]));
                    }
                },
                None => {},
            },
        }
    }
    lemma_filtered_all_kept(s1.comments, comment_kept(id, s1.answers));
}

/// Two answers inserted against the same existing question — the
/// linearization of a concurrent pair of callers, in either order since the
/// contents are arbitrary — both succeed, carry distinct identifiers, and
/// the question's aggregate afterwards lists exactly the two new entries,
/// newest first, in front of everything it listed before: both present,
/// nothing duplicated, nothing lost.
pub proof fn lemma_two_answers_both_listed(
    s: StoreV,
    question_id: int,
    c1: Seq<char>,
    c2: Seq<char>,
)
    requires
        s.wf(),
        s.has_question(question_id),
    ensures
        ({
            let s1 = s.with_answer_inserted(c1, question_id);
            let s2 = s1.with_answer_inserted(c2, question_id);
            let e1 = AnswerResultV {
                id: s.next_answer_id,
                content: c1,
                created_on: s.clock + 1,
                comments: comments_on_answer_desc(s.comments, s.next_answer_id),
            };
            let e2 = AnswerResultV {
                id: s.next_answer_id + 1,
                content: c2,
                created_on: s.clock + 2,
                comments: comments_on_answer_desc(s.comments, s.next_answer_id + 1),
            };
            &&& s1.has_question(question_id)
            &&& e1.id != e2.id
            &&& answers_desc(s2.answers, s2.comments, question_id) == seq![e2, e1] + answers_desc(
                s.answers,
                s.comments,
                question_id,
            )
        }),
{
    let s1 = s.with_answer_inserted(c1, question_id);
    let s2 = s1.with_answer_inserted(c2, question_id);
    let r1 = s.new_answer(c1, question_id);
    let r2 = s1.new_answer(c2, question_id);
    assert(s2.answers == s.answers.push(r1).push(r2));
    assert(s2.comments == s.comments);
    lemma_answers_desc_push(s.answers, s.comments, question_id, r1);
    lemma_answers_desc_push(s.answers.push(r1), s.comments, question_id, r2);
    let e1 = AnswerResultV {
        id: s.next_answer_id,
        content: c1,
        created_on: s.clock + 1,
        comments: comments_on_answer_desc(s.comments, s.next_answer_id),
    };
    let e2 = AnswerResultV {
        id: s.next_answer_id + 1,
        content: c2,
        created_on: s.clock + 2,
        comments: comments_on_answer_desc(s.comments, s.next_answer_id + 1),
    };
    assert(seq![e2] + (seq![e1] + answers_desc(s.answers, s.comments, question_id)) =~= seq![
        e2,
        e1,
    ] + answers_desc(s.answers, s.comments, question_id));
}

} // verus!
