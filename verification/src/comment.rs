//! Comments: remarks attached to exactly one question or one answer.

use vstd::prelude::*;

use crate::answer::AnswerId;
use crate::question::QuestionId;

verus! {

/// Identifier of a [`Comment`].
#[derive(Clone, Copy, Debug, PartialEq, Eq, Hash, Structural)]
pub struct CommentId(pub u32);

impl View for CommentId {
    type V = int;

    open spec fn view(&self) -> int {
        self.0 as int
    }
}

impl DeepView for CommentId {
    type V = int;

    open spec fn deep_view(&self) -> int {
        self.0 as int
    }
}

impl From<u32> for CommentId {
    fn from(value: u32) -> (r: Self) {
        CommentId(value)
    }
}

impl vstd::std_specs::convert::FromSpecImpl<u32> for CommentId {
    open spec fn obeys_from_spec() -> bool {
        true
    }

    open spec fn from_spec(value: u32) -> Self {
        CommentId(value)
    }
}

/// A comment: its content and its attachment. Exactly one of the two
/// references is set — a comment attaches to a question or to an answer,
/// never both and never neither. The creation timestamp is kept by the
/// store.
#[derive(Clone, Debug)]
pub struct Comment {
    pub id: CommentId,
    pub content: String,
    pub applied_to_question_id: Option<QuestionId>,
    pub applied_to_answer_id: Option<AnswerId>,
}

/// The mathematical value of a [`Comment`].
pub struct CommentV {
    pub id: int,
    pub content: Seq<char>,
    pub applied_to_question_id: Option<int>,
    pub applied_to_answer_id: Option<int>,
}

impl View for Comment {
    type V = CommentV;

    open spec fn view(&self) -> CommentV {
        CommentV {
            id: self.id@,
            content: self.content@,
            applied_to_question_id: self.applied_to_question_id.deep_view(),
            applied_to_answer_id: self.applied_to_answer_id.deep_view(),
        }
    }
}

impl DeepView for Comment {
    type V = CommentV;

    open spec fn deep_view(&self) -> CommentV {
        self.view()
    }
}

/// Clones a comment, preserving its mathematical value.
pub fn clone_comment(c: &Comment) -> (r: Comment)
    ensures
        r@ == c@,
{
    Comment {
        id: c.id,
        content: c.content.clone(),
        applied_to_question_id: c.applied_to_question_id,
        applied_to_answer_id: c.applied_to_answer_id,
    }
}

/// The row shape a comment insertion reports back: the stored fields with
/// raw integer references.
#[derive(Clone, Debug)]
pub struct CommentDbResult {
    pub id: i32,
    pub content: String,
    pub applied_to_question_id: Option<i32>,
    pub applied_to_answer_id: Option<i32>,
}

/// The mathematical value of a [`CommentDbResult`].
pub struct CommentDbResultV {
    pub id: int,
    pub content: Seq<char>,
    pub applied_to_question_id: Option<int>,
    pub applied_to_answer_id: Option<int>,
}

impl View for CommentDbResult {
    type V = CommentDbResultV;

    open spec fn view(&self) -> CommentDbResultV {
        CommentDbResultV {
            id: self.id as int,
            content: self.content@,
            applied_to_question_id: match self.applied_to_question_id {
                Some(q) => Some(q as int),
                None => None,
            },
            applied_to_answer_id: match self.applied_to_answer_id {
                Some(a) => Some(a as int),
                None => None,
            },
        }
    }
}

/// Reshapes a stored comment into the row form reported to clients.
/// Comment identifiers stay below `i32::MAX`, so the narrowing is exact.
pub fn comment_db_result(c: &Comment) -> (r: CommentDbResult)
    requires
        c@.id <= i32::MAX,
    ensures
        r@.id == c@.id,
        r@.content == c@.content,
        r@.applied_to_question_id == c@.applied_to_question_id,
        r@.applied_to_answer_id == c@.applied_to_answer_id,
{
    CommentDbResult {
        id: c.id.0 as i32,
        content: c.content.clone(),
        applied_to_question_id: match c.applied_to_question_id {
            Some(q) => Some(q.0),
            None => None,
        },
        applied_to_answer_id: match c.applied_to_answer_id {
            Some(a) => Some(a.0),
            None => None,
        },
    }
}

/// One comment inside a question aggregate: its row fields.
#[derive(Clone, Debug)]
pub struct CommentResult {
    pub id: i32,
    pub content: String,
    pub created_on: i64,
}

/// The mathematical value of a [`CommentResult`].
pub struct CommentResultV {
    pub id: int,
    pub content: Seq<char>,
    pub created_on: int,
}

impl View for CommentResult {
    type V = CommentResultV;

    open spec fn view(&self) -> CommentResultV {
        CommentResultV {
            id: self.id as int,
            content: self.content@,
            created_on: self.created_on as int,
        }
    }
}

impl DeepView for CommentResult {
    type V = CommentResultV;

    open spec fn deep_view(&self) -> CommentResultV {
        self.view()
    }
}

/// Clones a comment row, preserving its mathematical value.
pub fn clone_comment_result(c: &CommentResult) -> (r: CommentResult)
    ensures
        r@ == c@,
{
    CommentResult { id: c.id, content: c.content.clone(), created_on: c.created_on }
}

/// Client request to create a new comment. On the wire both references are
/// always present; an identifier that is zero or negative means "not
/// attached" on that side.
#[derive(Clone, Debug)]
pub struct CreateComment {
    pub content: String,
    pub applied_to_question_id: QuestionId,
    pub applied_to_answer_id: AnswerId,
}

impl CreateComment {
    /// Splits the request into the optional attachment references the store
    /// understands, dropping references that mean "not attached".
    pub fn attachment_refs(&self) -> (r: (Option<QuestionId>, Option<AnswerId>))
        ensures
            r.0 == (if self.applied_to_question_id.0 > 0 {
                Some(self.applied_to_question_id)
            } else {
                None::<QuestionId>
            }),
            r.1 == (if self.applied_to_answer_id.0 > 0 {
                Some(self.applied_to_answer_id)
            } else {
                None::<AnswerId>
            }),
    {
        let q = if self.applied_to_question_id.0 > 0 {
            Some(self.applied_to_question_id)
        } else {
            None
        };
        let a = if self.applied_to_answer_id.0 > 0 {
            Some(self.applied_to_answer_id)
        } else {
            None
        };
        (q, a)
    }
}

} // verus!
