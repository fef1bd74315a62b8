//! Questions: the top-level posts of the service, their identifiers, and the
//! request/result shapes built around them.

use vstd::prelude::*;

use crate::answer::{AnswerResult, AnswerResultV};
use crate::comment::{CommentResult, CommentResultV};

verus! {

/// Identifier of a [`Question`]; a wrapper so question, answer and comment
/// identifiers cannot be confused at call sites.
#[derive(Clone, Copy, Debug, PartialEq, Eq, Hash, Structural)]
pub struct QuestionId(pub i32);

impl View for QuestionId {
    type V = int;

    open spec fn view(&self) -> int {
        self.0 as int
    }
}

impl DeepView for QuestionId {
    type V = int;

    open spec fn deep_view(&self) -> int {
        self.0 as int
    }
}

impl From<i32> for QuestionId {
    fn from(value: i32) -> (r: Self) {
        QuestionId(value)
    }
}

impl vstd::std_specs::convert::FromSpecImpl<i32> for QuestionId {
    open spec fn obeys_from_spec() -> bool {
        true
    }

    open spec fn from_spec(value: i32) -> Self {
        QuestionId(value)
    }
}

impl From<QuestionId> for i32 {
    fn from(value: QuestionId) -> (r: Self) {
        value.0
    }
}

impl vstd::std_specs::convert::FromSpecImpl<QuestionId> for i32 {
    open spec fn obeys_from_spec() -> bool {
        true
    }

    open spec fn from_spec(value: QuestionId) -> Self {
        value.0
    }
}

/// Conversion into a [`QuestionId`], so lookups accept either a raw integer
/// or an already-wrapped identifier.
pub trait IntoQuestionId {
    /// The identifier value this converts to.
    spec fn question_id_spec(&self) -> int;

    fn into_question_id(self) -> (id: QuestionId)
        ensures
            id@ == self.question_id_spec(),
    ;
}

impl IntoQuestionId for i32 {
    open spec fn question_id_spec(&self) -> int {
        *self as int
    }

    fn into_question_id(self) -> (id: QuestionId) {
        QuestionId(self)
    }
}

impl IntoQuestionId for QuestionId {
    open spec fn question_id_spec(&self) -> int {
        self@
    }

    fn into_question_id(self) -> (id: QuestionId) {
        self
    }
}

/// A question: a title, a body, and an optional ordered sequence of tags.
/// The creation timestamp is assigned and kept by the store, not carried on
/// the entity itself.
#[derive(Clone, Debug)]
pub struct Question {
    pub id: QuestionId,
    pub title: String,
    pub content: String,
    pub tags: Option<Vec<String>>,
}

/// The mathematical value of a [`Question`].
pub struct QuestionV {
    pub id: int,
    pub title: Seq<char>,
    pub content: Seq<char>,
    pub tags: Option<Seq<Seq<char>>>,
}

impl View for Question {
    type V = QuestionV;

    open spec fn view(&self) -> QuestionV {
        QuestionV {
            id: self.id@,
            title: self.title@,
            content: self.content@,
            tags: self.tags.deep_view(),
        }
    }
}

impl DeepView for Question {
    type V = QuestionV;

    open spec fn deep_view(&self) -> QuestionV {
        self.view()
    }
}

impl Question {
    pub fn new(id: QuestionId, title: String, content: String, tags: Option<Vec<String>>) -> (q:
        Self)
        ensures
            q == (Question { id, title, content, tags }),
    {
        Question { id, title, content, tags }
    }
}

/// An explicit string-vector clone with a contract, used where a derived
/// `Clone` would leave the result unspecified.
pub fn clone_strings(v: &Vec<String>) -> (r: Vec<String>)
    ensures
        r@ == v@,
{
    let mut out: Vec<String> = Vec::new();
    let mut i: usize = 0;
    while i < v.len()
        invariant
            i <= v.len(),
            out@.len() == i,
            forall|j: int| 0 <= j < i ==> out@[j] == v@[j],
        decreases v.len() - i,
    {
        out.push(v[i].clone());
        i += 1;
    }
    proof {
        assert(out@ =~= v@);
    }
    out
}

/// Clones an optional tag sequence, preserving its value.
pub fn clone_tags(tags: &Option<Vec<String>>) -> (r: Option<Vec<String>>)
    ensures
        r.deep_view() == tags.deep_view(),
        r is Some <==> tags is Some,
{
    match tags {
        None => None,
        Some(v) => Some(clone_strings(v)),
    }
}

/// Clones a question, preserving its mathematical value.
pub fn clone_question(q: &Question) -> (r: Question)
    ensures
        r@ == q@,
{
    Question {
        id: q.id,
        title: q.title.clone(),
        content: q.content.clone(),
        tags: clone_tags(&q.tags),
    }
}

/// Client request to create a new question.
#[derive(Clone, Debug)]
pub struct CreateQuestion {
    pub title: String,
    pub content: String,
    pub tags: Option<Vec<String>>,
}

/// Client request naming a question by its raw identifier.
#[derive(Clone, Copy, Debug)]
pub struct GetQuestionById {
    pub question_id: i32,
}

/// Client request for a whole-record update of a question's mutable fields;
/// the identifier and the creation timestamp are immutable.
#[derive(Clone, Debug)]
pub struct UpdateQuestion {
    pub id: QuestionId,
    pub title: String,
    pub content: String,
    pub tags: Option<Vec<String>>,
}

/// The read-only aggregate of a question: its own fields, the comments
/// applied directly to it (newest first), and its answers (newest first),
/// each answer carrying its own comments.
#[derive(Clone, Debug)]
pub struct QuestionResult {
    pub id: i32,
    pub title: String,
    pub content: String,
    pub tags: Option<Vec<String>>,
    pub created_on: i64,
    pub comments: Vec<CommentResult>,
    pub answers: Vec<AnswerResult>,
}

/// The mathematical value of a [`QuestionResult`].
pub struct QuestionResultV {
    pub id: int,
    pub title: Seq<char>,
    pub content: Seq<char>,
    pub tags: Option<Seq<Seq<char>>>,
    pub created_on: int,
    pub comments: Seq<CommentResultV>,
    pub answers: Seq<AnswerResultV>,
}

impl View for QuestionResult {
    type V = QuestionResultV;

    open spec fn view(&self) -> QuestionResultV {
        QuestionResultV {
            id: self.id as int,
            title: self.title@,
            content: self.content@,
            tags: self.tags.deep_view(),
            created_on: self.created_on as int,
            comments: self.comments.deep_view(),
            answers: self.answers.deep_view(),
        }
    }
}

impl DeepView for QuestionResult {
    type V = QuestionResultV;

    open spec fn deep_view(&self) -> QuestionResultV {
        self.view()
    }
}

} // verus!
