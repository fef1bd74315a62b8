//! An in-memory mirror of question and answer data: the fast path used
//! before persistent storage is wired up.
//!
//! The cache holds plain sequences of questions and answers and mirrors a
//! subset of the store's operations. Identifiers come from dedicated
//! monotonically increasing counters, deliberately decoupled from the
//! current sequence length: assigning "current length" as the identifier
//! breaks as soon as a deletion happens, since the same identifier would be
//! handed out twice. The cache itself is a plain value; the serving layer
//! guards it with its locks (questions under an exclusive lock, answers
//! under a reader/writer lock), holds a lock only for the duration of the
//! in-memory mutation, and surfaces a poisoned guard as the fatal
//! `Poisoned` error.

use vstd::prelude::*;

use crate::answer::{clone_answer, Answer, AnswerId, AnswerV};
use crate::error::StoreError;
use crate::question::{
    clone_question, clone_tags, Question, QuestionId, QuestionV, UpdateQuestion,
};
use crate::store::{
    filtered, find_by, index_of_by, lemma_filtered_increasing, lemma_filtered_membership,
    lemma_has_match, lemma_index_of_by_ensures, lemma_index_of_by_push,
    lemma_index_of_by_same_keys,
};

verus! {

/// The key of a cached question.
pub open spec fn cached_question_key() -> spec_fn(QuestionV) -> int {
    |q: QuestionV| q.id
}

/// The key of a cached answer.
pub open spec fn cached_answer_key() -> spec_fn(AnswerV) -> int {
    |a: AnswerV| a.id
}

/// The cached question with identifier `id`, if any.
pub open spec fn find_cached_question(qs: Seq<QuestionV>, id: int) -> Option<QuestionV> {
    find_by(qs, cached_question_key(), id)
}

/// The cached answer with identifier `id`, if any.
pub open spec fn find_cached_answer(ans: Seq<AnswerV>, id: int) -> Option<AnswerV> {
    find_by(ans, cached_answer_key(), id)
}

/// Whether a cached question survives deleting the question `id`.
pub open spec fn cached_question_kept(id: int) -> spec_fn(QuestionV) -> bool {
    |q: QuestionV| q.id != id
}

/// Whether a cached answer survives deleting the question `question_id`.
pub open spec fn cached_answer_kept(question_id: int) -> spec_fn(AnswerV) -> bool {
    |a: AnswerV| a.question_id != question_id
}

/// The full state of the cache, as one mathematical value.
pub struct CacheV {
    pub questions: Seq<QuestionV>,
    pub answers: Seq<AnswerV>,
    pub next_question_id: int,
    pub next_answer_id: int,
}

impl CacheV {
    /// The state of a freshly created cache.
    pub open spec fn empty() -> CacheV {
        CacheV {
            questions: Seq::empty(),
            answers: Seq::empty(),
            next_question_id: 1,
            next_answer_id: 1,
        }
    }

    /// Whether a question with this identifier is cached.
    pub open spec fn has_question(self, id: int) -> bool {
        find_cached_question(self.questions, id) is Some
    }

    /// The question a fresh addition creates.
    pub open spec fn new_question(
        self,
        title: Seq<char>,
        content: Seq<char>,
        tags: Option<Seq<Seq<char>>>,
    ) -> QuestionV {
        QuestionV { id: self.next_question_id, title, content, tags }
    }

    /// The state after a question is added.
    pub open spec fn with_question_added(
        self,
        title: Seq<char>,
        content: Seq<char>,
        tags: Option<Seq<Seq<char>>>,
    ) -> CacheV {
        CacheV {
            questions: self.questions.push(self.new_question(title, content, tags)),
            next_question_id: self.next_question_id + 1,
            ..self
        }
    }

    /// The state after a whole-record update of the question with this
    /// identifier; updating an absent identifier changes nothing.
    pub open spec fn with_question_updated(
        self,
        id: int,
        title: Seq<char>,
        content: Seq<char>,
        tags: Option<Seq<Seq<char>>>,
    ) -> CacheV {
        CacheV {
            questions: Seq::new(
                self.questions.len(),
                |i: int|
                    if self.questions[i].id == id {
                        QuestionV { id, title, content, tags }
                    } else {
                        self.questions[i]
                    },
            ),
            ..self
        }
    }

    /// The state after deleting the question with this identifier together
    /// with its answers; deleting an absent identifier changes nothing.
    pub open spec fn with_question_deleted(self, id: int) -> CacheV {
        CacheV {
            questions: filtered(self.questions, cached_question_kept(id)),
            answers: filtered(self.answers, cached_answer_kept(id)),
            ..self
        }
    }

    /// The answer a fresh addition creates.
    pub open spec fn new_answer(self, content: Seq<char>, question_id: int) -> AnswerV {
        AnswerV { id: self.next_answer_id, content, question_id }
    }

    /// The state after an answer is added.
    pub open spec fn with_answer_added(self, content: Seq<char>, question_id: int) -> CacheV {
        CacheV {
            answers: self.answers.push(self.new_answer(content, question_id)),
            next_answer_id: self.next_answer_id + 1,
            ..self
        }
    }

    /// The cache invariant: counters in range, identifiers unique (strictly
    /// increasing with position) and below their counter, and every cached
    /// answer referencing a cached question.
    pub open spec fn wf(self) -> bool {
        &&& 1 <= self.next_question_id <= i32::MAX
        &&& 1 <= self.next_answer_id <= i32::MAX
        &&& forall|i: int|
            0 <= i < self.questions.len() ==> 1 <= (#[trigger] self.questions[i]).id
                < self.next_question_id
        &&& forall|i: int, j: int|
            0 <= i < j < self.questions.len() ==> (#[trigger] self.questions[i]).id < (
            #[trigger] self.questions[j]).id
        &&& forall|i: int|
            0 <= i < self.answers.len() ==> 1 <= (#[trigger] self.answers[i]).id
                < self.next_answer_id && self.has_question(self.answers[i].question_id)
        &&& forall|i: int, j: int|
            0 <= i < j < self.answers.len() ==> (#[trigger] self.answers[i]).id < (
            #[trigger] self.answers[j]).id
    }
}

/// The in-memory question/answer cache.
#[derive(Clone, Debug)]
pub struct Cache {
    questions: Vec<Question>,
    answers: Vec<Answer>,
    next_question_id: i32,
    next_answer_id: i32,
}

impl View for Cache {
    type V = CacheV;

    closed spec fn view(&self) -> CacheV {
        CacheV {
            questions: self.questions.deep_view(),
            answers: self.answers.deep_view(),
            next_question_id: self.next_question_id as int,
            next_answer_id: self.next_answer_id as int,
        }
    }
}

impl Cache {
    /// Creates an empty cache.
    pub fn new() -> (c: Cache)
        ensures
            c@ == CacheV::empty(),
            c@.wf(),
    {
        let c = Cache {
            questions: Vec::new(),
            answers: Vec::new(),
            next_question_id: 1,
            next_answer_id: 1,
        };
        proof {
            assert(c@.questions =~= CacheV::empty().questions);
            assert(c@.answers =~= CacheV::empty().answers);
        }
        c
    }

    /// Whether another question can be added: the identifier counter has
    /// room. Callers outside verified code test this before adding.
    pub fn can_add_question(&self) -> (b: bool)
        ensures
            b == (self@.next_question_id < i32::MAX),
    {
        self.next_question_id < i32::MAX
    }

    /// Whether another answer can be added.
    pub fn can_add_answer(&self) -> (b: bool)
        ensures
            b == (self@.next_answer_id < i32::MAX),
    {
        self.next_answer_id < i32::MAX
    }

    /// Adds a question under a freshly assigned identifier and returns it.
    pub fn add_question(&mut self, title: String, content: String, tags: Option<Vec<String>>)
        -> (q: Question)
        requires
            old(self)@.next_question_id < i32::MAX,
        ensures
            final(self)@ == old(self)@.with_question_added(title@, content@, tags.deep_view()),
            q@ == old(self)@.new_question(title@, content@, tags.deep_view()),
            old(self)@.wf() ==> final(self)@.wf(),
    {
        let id = QuestionId(self.next_question_id);
        self.next_question_id = self.next_question_id + 1;
        let question = Question { id, title, content, tags };
        let stored = clone_question(&question);
        let ghost prior = old(self)@;
        let ghost qv = stored@;
        self.questions.push(stored);
        proof {
            assert(self.questions.deep_view() =~= prior.questions.push(qv));
            assert(self@ == prior.with_question_added(title@, content@, tags.deep_view()));
            if prior.wf() {
                let s1 = self@;
                assert(forall|j: int|
                    0 <= j < prior.questions.len() ==> #[trigger] s1.questions[j]
                        == prior.questions[j]);
                assert(s1.questions[prior.questions.len() as int] == qv);
                assert forall|i: int| 0 <= i < s1.answers.len() implies s1.has_question(
                    (#[trigger] s1.answers[i]).question_id,
                ) by {
                    assert(prior.has_question(prior.answers[i].question_id));
                    lemma_index_of_by_push(
                        prior.questions,
                        cached_question_key(),
                        qv,
                        prior.answers[i].question_id,
                    );
                }
            }
        }
        question
    }

    /// Returns every cached question in insertion order.
    pub fn get_all_questions(&self) -> (r: Vec<Question>)
        ensures
            r.deep_view() == self@.questions,
    {
        let mut out: Vec<Question> = Vec::new();
        let mut i: usize = 0;
        while i < self.questions.len()
            invariant
                0 <= i <= self.questions.len(),
                out@.len() == i,
                forall|j: int| 0 <= j < i ==> (#[trigger] out@[j])@ == self@.questions[j],
            decreases self.questions.len() - i,
        {
            out.push(clone_question(&self.questions[i]));
            i += 1;
        }
        proof {
            assert(out.deep_view() =~= self@.questions);
        }
        out
    }

    /// Looks a cached question up by identifier; fails with `NotFound` when
    /// absent.
    pub fn get_question_by_id(&self, id: QuestionId) -> (r: Result<Question, StoreError>)
        ensures
            match find_cached_question(self@.questions, id@) {
                Some(q) => r matches Ok(found) && found@ == q,
                None => r matches Err(e) && e == StoreError::NotFound,
            },
    {
        let ghost table = self@.questions;
        let mut i: usize = 0;
        while i < self.questions.len()
            invariant
                0 <= i <= self.questions.len(),
                table == self@.questions,
                table.len() == self.questions.len(),
                forall|j: int| 0 <= j < i ==> cached_question_key()(#[trigger] table[j]) != id@,
            decreases self.questions.len() - i,
        {
            if self.questions[i].id.0 == id.0 {
                proof {
                    lemma_index_of_by_ensures(table, cached_question_key(), id@);
                    assert(cached_question_key()(table[i as int]) == id@);
                    assert(index_of_by(table, cached_question_key(), id@) == i);
                }
                return Ok(clone_question(&self.questions[i]));
            }
            i += 1;
        }
        proof {
            lemma_index_of_by_ensures(table, cached_question_key(), id@);
        }
        Err(StoreError::NotFound)
    }

    /// Replaces the three mutable fields of a cached question; fails with
    /// `NotFound` when the identifier is absent.
    pub fn update_question(&mut self, new_question: UpdateQuestion) -> (r: Result<
        Question,
        StoreError,
    >)
        ensures
            old(self)@.has_question(new_question.id@) ==> {
                &&& final(self)@ == old(self)@.with_question_updated(
                    new_question.id@,
                    new_question.title@,
                    new_question.content@,
                    new_question.tags.deep_view(),
                )
                &&& r matches Ok(q) && q@ == (QuestionV {
                    id: new_question.id@,
                    title: new_question.title@,
                    content: new_question.content@,
                    tags: new_question.tags.deep_view(),
                })
            },
            !old(self)@.has_question(new_question.id@) ==> {
                &&& final(self)@ == old(self)@
                &&& r matches Err(e) && e == StoreError::NotFound
            },
            old(self)@.wf() ==> final(self)@.wf(),
    {
        let found = self.contains_question(new_question.id.0);
        if !found {
            return Err(StoreError::NotFound);
        }
        let UpdateQuestion { id, title, content, tags } = new_question;
        let ghost updated = old(self)@.with_question_updated(
            id@,
            title@,
            content@,
            tags.deep_view(),
        );
        let mut out: Vec<Question> = Vec::new();
        let mut i: usize = 0;
        while i < self.questions.len()
            invariant
                0 <= i <= self.questions.len(),
                self@ == old(self)@,
                updated == old(self)@.with_question_updated(
                    id@,
                    title@,
                    content@,
                    tags.deep_view(),
                ),
                updated.questions.len() == self.questions.len(),
                out@.len() == i,
                forall|j: int| 0 <= j < i ==> (#[trigger] out@[j])@ == updated.questions[j],
            decreases self.questions.len() - i,
        {
            if self.questions[i].id.0 == id.0 {
                out.push(
                    Question {
                        id,
                        title: title.clone(),
                        content: content.clone(),
                        tags: clone_tags(&tags),
                    },
                );
            } else {
                out.push(clone_question(&self.questions[i]));
            }
            i += 1;
        }
        let ghost prior = self@;
        self.questions = out;
        proof {
            assert(self.questions.deep_view() =~= updated.questions);
            assert(self@ == updated);
            if prior.wf() {
                lemma_cache_wf_after_update(prior, id@, title@, content@, tags.deep_view());
            }
        }
        Ok(Question { id, title, content, tags })
    }

    /// Deletes a cached question and its answers. Idempotent: an absent
    /// identifier is not an error and nothing changes.
    pub fn delete_question(&mut self, question_id: i32) -> (r: Result<(), StoreError>)
        ensures
            final(self)@ == old(self)@.with_question_deleted(question_id as int),
            r is Ok,
            old(self)@.wf() ==> final(self)@.wf(),
    {
        let ghost prior = old(self)@;
        let ghost target = question_id as int;

        let mut kept_answers: Vec<Answer> = Vec::new();
        let mut i: usize = 0;
        while i < self.answers.len()
            invariant
                0 <= i <= self.answers.len(),
                self@ == prior,
                prior == old(self)@,
                target == question_id as int,
                kept_answers.deep_view() == filtered(
                    prior.answers.take(i as int),
                    cached_answer_kept(target),
                ),
            decreases self.answers.len() - i,
        {
            proof {
                assert(prior.answers.take(i + 1 as int).drop_last() =~= prior.answers.take(
                    i as int,
                ));
                assert(prior.answers.take(i + 1 as int).last() == prior.answers[i as int]);
            }
            let ghost pre = kept_answers.deep_view();
            if self.answers[i].question_id.0 != question_id {
                kept_answers.push(clone_answer(&self.answers[i]));
                proof {
                    assert(kept_answers.deep_view() =~= pre.push(prior.answers[i as int]));
                }
            }
            i += 1;
        }

        let mut kept_questions: Vec<Question> = Vec::new();
        let mut i: usize = 0;
        while i < self.questions.len()
            invariant
                0 <= i <= self.questions.len(),
                self@ == prior,
                prior == old(self)@,
                target == question_id as int,
                kept_questions.deep_view() == filtered(
                    prior.questions.take(i as int),
                    cached_question_kept(target),
                ),
            decreases self.questions.len() - i,
        {
            proof {
                assert(prior.questions.take(i + 1 as int).drop_last() =~= prior.questions.take(
                    i as int,
                ));
                assert(prior.questions.take(i + 1 as int).last() == prior.questions[i as int]);
            }
            let ghost pre = kept_questions.deep_view();
            if self.questions[i].id.0 != question_id {
                kept_questions.push(clone_question(&self.questions[i]));
                proof {
                    assert(kept_questions.deep_view() =~= pre.push(prior.questions[i as int]));
                }
            }
            i += 1;
        }

        self.answers = kept_answers;
        self.questions = kept_questions;
        proof {
            assert(prior.answers.take(prior.answers.len() as int) =~= prior.answers);
            assert(prior.questions.take(prior.questions.len() as int) =~= prior.questions);
            assert(self@ == prior.with_question_deleted(target));
            if prior.wf() {
                lemma_cache_wf_after_delete(prior, target);
            }
        }
        Ok(())
    }

    /// Adds an answer to a cached question; fails with `InvalidReference`
    /// when the referenced question is not cached.
    pub fn add_answer(&mut self, content: String, question_id: i32) -> (r: Result<
        Answer,
        StoreError,
    >)
        requires
            old(self)@.next_answer_id < i32::MAX,
        ensures
            old(self)@.has_question(question_id as int) ==> {
                &&& final(self)@ == old(self)@.with_answer_added(content@, question_id as int)
                &&& r matches Ok(a) && a@ == old(self)@.new_answer(content@, question_id as int)
            },
            !old(self)@.has_question(question_id as int) ==> {
                &&& final(self)@ == old(self)@
                &&& r matches Err(e) && e == StoreError::InvalidReference
            },
            old(self)@.wf() ==> final(self)@.wf(),
    {
        if !self.contains_question(question_id) {
            return Err(StoreError::InvalidReference);
        }
        let id = AnswerId(self.next_answer_id);
        self.next_answer_id = self.next_answer_id + 1;
        let answer = Answer { id, content, question_id: QuestionId(question_id) };
        let stored = clone_answer(&answer);
        let ghost prior = old(self)@;
        let ghost av = stored@;
        self.answers.push(stored);
        proof {
            assert(self.answers.deep_view() =~= prior.answers.push(av));
            assert(self@ == prior.with_answer_added(content@, question_id as int));
            if prior.wf() {
                let s1 = self@;
                assert(forall|j: int|
                    0 <= j < prior.answers.len() ==> #[trigger] s1.answers[j] == prior.answers[j]);
                assert(s1.answers[prior.answers.len() as int] == av);
            }
        }
        Ok(answer)
    }

    /// Whether a question with this identifier is cached.
    fn contains_question(&self, id: i32) -> (b: bool)
        ensures
            b == self@.has_question(id as int),
    {
        let ghost table = self@.questions;
        let mut i: usize = 0;
        while i < self.questions.len()
            invariant
                0 <= i <= self.questions.len(),
                table == self@.questions,
                table.len() == self.questions.len(),
                forall|j: int|
                    0 <= j < i ==> cached_question_key()(#[trigger] table[j]) != id as int,
            decreases self.questions.len() - i,
        {
            if self.questions[i].id.0 == id {
                proof {
                    lemma_index_of_by_ensures(table, cached_question_key(), id as int);
                    assert(cached_question_key()(table[i as int]) == id as int);
                }
                return true;
            }
            i += 1;
        }
        proof {
            lemma_index_of_by_ensures(table, cached_question_key(), id as int);
        }
        false
    }
}

/// The strict order the cached question table keeps.
spec fn cached_question_order() -> spec_fn(QuestionV, QuestionV) -> bool {
    |a: QuestionV, b: QuestionV| a.id < b.id
}

/// The strict order the cached answer table keeps.
spec fn cached_answer_order() -> spec_fn(AnswerV, AnswerV) -> bool {
    |a: AnswerV, b: AnswerV| a.id < b.id
}

/// A whole-record update preserves the cache invariant.
proof fn lemma_cache_wf_after_update(
    s: CacheV,
    id: int,
    title: Seq<char>,
    content: Seq<char>,
    tags: Option<Seq<Seq<char>>>,
)
    requires
        s.wf(),
    ensures
        s.with_question_updated(id, title, content, tags).wf(),
{
    let s1 = s.with_question_updated(id, title, content, tags);
    assert(forall|j: int|
        0 <= j < s.questions.len() ==> (#[trigger] s1.questions[j]).id == s.questions[j].id);
    assert forall|i: int| 0 <= i < s1.answers.len() implies s1.has_question(
        (#[trigger] s1.answers[i]).question_id,
    ) by {
        assert(s.has_question(s.answers[i].question_id));
        lemma_index_of_by_same_keys(
            s.questions,
            s1.questions,
            cached_question_key(),
            s.answers[i].question_id,
        );
    }
}

/// Deleting a question and its answers preserves the cache invariant.
proof fn lemma_cache_wf_after_delete(s: CacheV, id: int)
    requires
        s.wf(),
    ensures
        s.with_question_deleted(id).wf(),
{
    let s1 = s.with_question_deleted(id);
    let qkeep = cached_question_kept(id);
    let akeep = cached_answer_kept(id);
    lemma_filtered_membership(s.questions, qkeep);
    lemma_filtered_membership(s.answers, akeep);
    assert(forall|i: int, j: int|
        0 <= i < j < s.questions.len() ==> cached_question_order()(
            #[trigger] s.questions[i],
            #[trigger] s.questions[j],
        ));
    lemma_filtered_increasing(s.questions, qkeep, cached_question_order());
    assert(forall|i: int, j: int|
        0 <= i < j < s.answers.len() ==> cached_answer_order()(
            #[trigger] s.answers[i],
            #[trigger] s.answers[j],
        ));
    lemma_filtered_increasing(s.answers, akeep, cached_answer_order());

    assert forall|i: int, j: int| 0 <= i < j < s1.questions.len() implies (
    #[trigger] s1.questions[i]).id < (#[trigger] s1.questions[j]).id by {
        assert(cached_question_order()(s1.questions[i], s1.questions[j]));
    }
    assert forall|i: int, j: int| 0 <= i < j < s1.answers.len() implies (
    #[trigger] s1.answers[i]).id < (#[trigger] s1.answers[j]).id by {
        assert(cached_answer_order()(s1.answers[i], s1.answers[j]));
    }
    assert forall|k: int| 0 <= k < s1.questions.len() implies 1 <= (
    #[trigger] s1.questions[k]).id < s1.next_question_id by {
        assert(s.questions.contains(s1.questions[k]));
        let j = choose|j: int| 0 <= j < s.questions.len() && s.questions[j] == s1.questions[k];
    }
    assert forall|k: int| 0 <= k < s1.answers.len() implies 1 <= (#[trigger] s1.answers[k]).id
        < s1.next_answer_id && s1.has_question(s1.answers[k].question_id) by {
        assert(s.answers.contains(s1.answers[k]) && akeep(s1.answers[k]));
        let j = choose|j: int| 0 <= j < s.answers.len() && s.answers[j] == s1.answers[k];
        let qid = s.answers[j].question_id;
        assert(s.has_question(qid));
        lemma_index_of_by_ensures(s.questions, cached_question_key(), qid);
        let m = index_of_by(s.questions, cached_question_key(), qid);
        assert(cached_question_key()(s.questions[m]) == qid);
        assert(qid != id);
        assert(qkeep(s.questions[m]));
        assert(s1.questions.contains(s.questions[m]));
        let k2 = choose|k2: int| 0 <= k2 < s1.questions.len() && s1.questions[k2] == s.questions[m];
        assert(cached_question_key()(#[trigger] s1.questions[k2]) == qid);
        lemma_has_match(s1.questions, cached_question_key(), qid);
    }
}

/// Deleting a cached question is idempotent, and the question cannot be
/// found after either call.
pub proof fn lemma_cache_delete_idempotent(s: CacheV, id: int)
    requires
        s.wf(),
    ensures
        !s.with_question_deleted(id).has_question(id),
        s.with_question_deleted(id).with_question_deleted(id) == s.with_question_deleted(id),
{
    let s1 = s.with_question_deleted(id);
    lemma_filtered_membership(s.questions, cached_question_kept(id));
    lemma_filtered_membership(s.answers, cached_answer_kept(id));
    lemma_has_match(s1.questions, cached_question_key(), id);
    assert(forall|k: int|
        0 <= k < s1.questions.len() ==> cached_question_key()(#[trigger] s1.questions[k]) != id);
    crate::store::lemma_filtered_all_kept(s1.questions, cached_question_kept(id));
    crate::store::lemma_filtered_all_kept(s1.answers, cached_answer_kept(id));
}

} // verus!
