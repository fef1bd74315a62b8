//! Answers: responses attached to exactly one question.

use vstd::prelude::*;

use crate::comment::{CommentResult, CommentResultV};
use crate::question::QuestionId;

verus! {

/// Identifier of an [`Answer`].
#[derive(Clone, Copy, Debug, PartialEq, Eq, Hash, Structural)]
pub struct AnswerId(pub i32);

impl View for AnswerId {
    type V = int;

    open spec fn view(&self) -> int {
        self.0 as int
    }
}

impl DeepView for AnswerId {
    type V = int;

    open spec fn deep_view(&self) -> int {
        self.0 as int
    }
}

impl From<i32> for AnswerId {
    fn from(value: i32) -> (r: Self) {
        AnswerId(value)
    }
}

impl vstd::std_specs::convert::FromSpecImpl<i32> for AnswerId {
    open spec fn obeys_from_spec() -> bool {
        true
    }

    open spec fn from_spec(value: i32) -> Self {
        AnswerId(value)
    }
}

/// An answer: its content and the question it responds to. The referenced
/// question must exist when the answer is created; answers are immutable
/// after creation. The creation timestamp is kept by the store.
#[derive(Clone, Debug)]
pub struct Answer {
    pub id: AnswerId,
    pub content: String,
    pub question_id: QuestionId,
}

/// The mathematical value of an [`Answer`].
pub struct AnswerV {
    pub id: int,
    pub content: Seq<char>,
    pub question_id: int,
}

impl View for Answer {
    type V = AnswerV;

    open spec fn view(&self) -> AnswerV {
        AnswerV { id: self.id@, content: self.content@, question_id: self.question_id@ }
    }
}

impl DeepView for Answer {
    type V = AnswerV;

    open spec fn deep_view(&self) -> AnswerV {
        self.view()
    }
}

/// Clones an answer, preserving its mathematical value.
pub fn clone_answer(a: &Answer) -> (r: Answer)
    ensures
        r@ == a@,
{
    Answer { id: a.id, content: a.content.clone(), question_id: a.question_id }
}

/// Client request to create a new answer.
#[derive(Clone, Debug)]
pub struct CreateAnswer {
    pub content: String,
    pub question_id: i32,
}

/// One answer inside a question aggregate: its row fields plus the comments
/// applied to it, newest first.
#[derive(Clone, Debug)]
pub struct AnswerResult {
    pub id: i32,
    pub content: String,
    pub created_on: i64,
    pub comments: Vec<CommentResult>,
}

/// The mathematical value of an [`AnswerResult`].
pub struct AnswerResultV {
    pub id: int,
    pub content: Seq<char>,
    pub created_on: int,
    pub comments: Seq<CommentResultV>,
}

impl View for AnswerResult {
    type V = AnswerResultV;

    open spec fn view(&self) -> AnswerResultV {
        AnswerResultV {
            id: self.id as int,
            content: self.content@,
            created_on: self.created_on as int,
            comments: self.comments.deep_view(),
        }
    }
}

impl DeepView for AnswerResult {
    type V = AnswerResultV;

    open spec fn deep_view(&self) -> AnswerResultV {
        self.view()
    }
}

} // verus!
