use backend::answer::AnswerId;
use backend::comment::CreateComment;
use backend::error::StoreError;
use backend::question::{Question, QuestionId, UpdateQuestion};
use backend::store::Store;

#[test]
fn it_works() {
    let result = 2 + 2;
    assert_eq!(result, 4);
}

#[test]
fn test_add_question() {
    let mut store = Store::new();
    let q = store.insert_question("New Title".to_string(), "Test content2".to_string(), None);
    assert_eq!(q.id, QuestionId(1));
    assert_eq!(q.title, "New Title");
    assert_eq!(q.content, "Test content2");
    assert_eq!(q.tags, None);
}

#[test]
fn insert_then_get_returns_equal_record() {
    let mut store = Store::new();
    let q = store.insert_question(
        "title".to_string(),
        "content".to_string(),
        Some(vec!["a".to_string(), "b".to_string()]),
    );
    let fetched = store.get_question(q.id).unwrap();
    assert_eq!(fetched.id, q.id);
    assert_eq!(fetched.title, q.title);
    assert_eq!(fetched.content, q.content);
    assert_eq!(fetched.tags, q.tags);
}

#[test]
fn get_question_accepts_raw_integer() {
    let mut store = Store::new();
    let q = store.insert_question("t".to_string(), "c".to_string(), None);
    let fetched = store.get_question(1_i32).unwrap();
    assert_eq!(fetched.id, q.id);
    assert!(store.get_question(2_i32).is_err());
}

#[test]
fn get_question_missing_is_not_found() {
    let store = Store::new();
    assert_eq!(store.get_question(QuestionId(7)).unwrap_err(), StoreError::NotFound);
}

#[test]
fn list_questions_returns_all_in_insertion_order() {
    let mut store = Store::new();
    store.insert_question("first".to_string(), "c1".to_string(), None);
    store.insert_question("second".to_string(), "c2".to_string(), None);
    let all = store.list_questions();
    assert_eq!(all.len(), 2);
    assert_eq!(all[0].title, "first");
    assert_eq!(all[1].title, "second");
}

#[test]
fn update_question_missing_is_not_found() {
    let mut store = Store::new();
    let err = store
        .update_question(UpdateQuestion {
            id: QuestionId(42),
            title: "t".to_string(),
            content: "c".to_string(),
            tags: None,
        })
        .unwrap_err();
    assert_eq!(err, StoreError::NotFound);
}

#[test]
fn update_question_replaces_fields_and_keeps_identifier() {
    let mut store = Store::new();
    let q = store.insert_question(
        "old title".to_string(),
        "old content".to_string(),
        Some(vec!["old".to_string()]),
    );
    let updated = store
        .update_question(UpdateQuestion {
            id: q.id,
            title: "new title".to_string(),
            content: "new content".to_string(),
            tags: Some(vec!["new".to_string(), "tags".to_string()]),
        })
        .unwrap();
    assert_eq!(updated.id, q.id);
    assert_eq!(updated.title, "new title");
    let fetched = store.get_question(q.id).unwrap();
    assert_eq!(fetched.title, "new title");
    assert_eq!(fetched.content, "new content");
    assert_eq!(fetched.tags, Some(vec!["new".to_string(), "tags".to_string()]));
    assert_eq!(fetched.id, q.id);
}

#[test]
fn delete_question_is_idempotent() {
    let mut store = Store::new();
    let q = store.insert_question("t".to_string(), "c".to_string(), None);
    assert!(store.delete_question(q.id.0).is_ok());
    assert_eq!(store.get_question(q.id).unwrap_err(), StoreError::NotFound);
    assert!(store.delete_question(q.id.0).is_ok());
    assert_eq!(store.get_question(q.id).unwrap_err(), StoreError::NotFound);
}

#[test]
fn delete_question_of_absent_id_is_ok() {
    let mut store = Store::new();
    assert!(store.delete_question(99).is_ok());
}

#[test]
fn delete_question_cascades_to_answers_and_comments() {
    let mut store = Store::new();
    let q1 = store.insert_question("kept".to_string(), "c".to_string(), None);
    let q2 = store.insert_question("doomed".to_string(), "c".to_string(), None);
    let a_kept = store.insert_answer("on kept".to_string(), q1.id.0).unwrap();
    let a_doomed = store.insert_answer("on doomed".to_string(), q2.id.0).unwrap();
    store
        .insert_comment("on doomed answer".to_string(), None, Some(a_doomed.id))
        .unwrap();
    store
        .insert_comment("on kept answer".to_string(), None, Some(a_kept.id))
        .unwrap();
    store
        .insert_comment("on doomed question".to_string(), Some(q2.id), None)
        .unwrap();
    store.delete_question(q2.id.0).unwrap();

    let detail = store.get_question_detail(q1.id.0).unwrap();
    assert_eq!(detail.answers.len(), 1);
    assert_eq!(detail.answers[0].comments.len(), 1);
    assert_eq!(detail.answers[0].comments[0].content, "on kept answer");
    assert_eq!(
        store.get_question_detail(q2.id.0).unwrap_err(),
        StoreError::NotFound
    );
}

#[test]
fn insert_answer_with_missing_question_is_invalid_reference() {
    let mut store = Store::new();
    let err = store.insert_answer("some content".to_string(), 5).unwrap_err();
    assert_eq!(err, StoreError::InvalidReference);
    let err = store.insert_answer("".to_string(), 1).unwrap_err();
    assert_eq!(err, StoreError::InvalidReference);
}

#[test]
fn insert_comment_with_no_reference_is_invalid() {
    let mut store = Store::new();
    store.insert_question("t".to_string(), "c".to_string(), None);
    let err = store.insert_comment("text".to_string(), None, None).unwrap_err();
    assert_eq!(err, StoreError::InvalidComment);
    let err = store.insert_comment("".to_string(), None, None).unwrap_err();
    assert_eq!(err, StoreError::InvalidComment);
}

#[test]
fn insert_comment_with_both_references_is_invalid() {
    let mut store = Store::new();
    let q = store.insert_question("t".to_string(), "c".to_string(), None);
    let a = store.insert_answer("a".to_string(), q.id.0).unwrap();
    let err = store
        .insert_comment("text".to_string(), Some(q.id), Some(a.id))
        .unwrap_err();
    assert_eq!(err, StoreError::InvalidComment);
}

#[test]
fn insert_comment_with_dangling_reference_is_invalid() {
    let mut store = Store::new();
    let err = store
        .insert_comment("text".to_string(), Some(QuestionId(3)), None)
        .unwrap_err();
    assert_eq!(err, StoreError::InvalidComment);
    let err = store
        .insert_comment("text".to_string(), None, Some(AnswerId(3)))
        .unwrap_err();
    assert_eq!(err, StoreError::InvalidComment);
}

#[test]
fn scenario_question_answer_comments_aggregate() {
    let mut store = Store::new();
    let q = store.insert_question(
        "How do I?".to_string(),
        "Help me!".to_string(),
        Some(vec!["general".to_string()]),
    );
    assert_eq!(q.id, QuestionId(1));
    let a = store.insert_answer("Try X".to_string(), 1).unwrap();
    assert_eq!(a.id, AnswerId(1));
    assert_eq!(a.question_id, QuestionId(1));
    assert!(store
        .insert_comment("Nice!".to_string(), Some(QuestionId(1)), None)
        .is_ok());
    let err = store
        .insert_comment("bad".to_string(), Some(QuestionId(1)), Some(AnswerId(1)))
        .unwrap_err();
    assert_eq!(err, StoreError::InvalidComment);
    let detail = store.get_question_detail(1).unwrap();
    assert_eq!(detail.id, 1);
    assert_eq!(detail.comments.len(), 1);
    assert_eq!(detail.comments[0].content, "Nice!");
    assert_eq!(detail.answers.len(), 1);
    assert_eq!(detail.answers[0].comments.len(), 0);
}

#[test]
fn two_answers_to_one_question_both_listed() {
    let mut store = Store::new();
    let q = store.insert_question("q".to_string(), "c".to_string(), None);
    let a1 = store.insert_answer("first answer".to_string(), q.id.0).unwrap();
    let a2 = store.insert_answer("second answer".to_string(), q.id.0).unwrap();
    assert_ne!(a1.id, a2.id);
    let detail = store.get_question_detail(q.id.0).unwrap();
    assert_eq!(detail.answers.len(), 2);
    // newest first
    assert_eq!(detail.answers[0].id, a2.id.0);
    assert_eq!(detail.answers[0].content, "second answer");
    assert_eq!(detail.answers[1].id, a1.id.0);
    assert_eq!(detail.answers[1].content, "first answer");
}

#[test]
fn detail_orders_comments_newest_first_and_separates_attachments() {
    let mut store = Store::new();
    let q = store.insert_question("q".to_string(), "c".to_string(), None);
    let a = store.insert_answer("a".to_string(), q.id.0).unwrap();
    store.insert_comment("q-one".to_string(), Some(q.id), None).unwrap();
    store.insert_comment("a-one".to_string(), None, Some(a.id)).unwrap();
    store.insert_comment("q-two".to_string(), Some(q.id), None).unwrap();
    store.insert_comment("a-two".to_string(), None, Some(a.id)).unwrap();
    let detail = store.get_question_detail(q.id.0).unwrap();
    assert_eq!(detail.comments.len(), 2);
    assert_eq!(detail.comments[0].content, "q-two");
    assert_eq!(detail.comments[1].content, "q-one");
    assert_eq!(detail.answers.len(), 1);
    assert_eq!(detail.answers[0].comments.len(), 2);
    assert_eq!(detail.answers[0].comments[0].content, "a-two");
    assert_eq!(detail.answers[0].comments[1].content, "a-one");
}

#[test]
fn detail_carries_question_fields_and_timestamp() {
    let mut store = Store::new();
    let q = store.insert_question(
        "title".to_string(),
        "body".to_string(),
        Some(vec!["x".to_string()]),
    );
    let detail = store.get_question_detail(q.id.0).unwrap();
    assert_eq!(detail.id, q.id.0);
    assert_eq!(detail.title, "title");
    assert_eq!(detail.content, "body");
    assert_eq!(detail.tags, Some(vec!["x".to_string()]));
    assert_eq!(detail.created_on, 1);
}

#[test]
fn identifiers_and_timestamps_are_monotonic() {
    let mut store = Store::new();
    let q1 = store.insert_question("a".to_string(), "c".to_string(), None);
    let q2 = store.insert_question("b".to_string(), "c".to_string(), None);
    assert_eq!(q1.id, QuestionId(1));
    assert_eq!(q2.id, QuestionId(2));
    let a = store.insert_answer("x".to_string(), 1).unwrap();
    assert_eq!(a.id, AnswerId(1));
    let c = store.insert_comment("y".to_string(), Some(QuestionId(1)), None).unwrap();
    assert_eq!(c.id.0, 1);
    let d1 = store.get_question_detail(1).unwrap();
    let d2 = store.get_question_detail(2).unwrap();
    assert_eq!(d1.created_on, 1);
    assert_eq!(d2.created_on, 2);
    assert_eq!(d1.answers[0].created_on, 3);
    assert_eq!(d1.comments[0].created_on, 4);
}

#[test]
fn update_question_keeps_the_creation_timestamp() {
    let mut store = Store::new();
    let q = store.insert_question("t".to_string(), "c".to_string(), None);
    store.insert_question("later".to_string(), "c".to_string(), None);
    store
        .update_question(UpdateQuestion {
            id: q.id,
            title: "t2".to_string(),
            content: "c2".to_string(),
            tags: None,
        })
        .unwrap();
    let detail = store.get_question_detail(q.id.0).unwrap();
    assert_eq!(detail.created_on, 1);
    assert_eq!(detail.title, "t2");
}

#[test]
fn empty_tag_list_round_trips() {
    let mut store = Store::new();
    let q = store.insert_question("t".to_string(), "c".to_string(), Some(vec![]));
    let fetched = store.get_question(q.id).unwrap();
    assert_eq!(fetched.tags, Some(vec![]));
    assert_ne!(fetched.tags, None);
}

#[test]
fn question_new_builds_the_record() {
    let q = Question::new(
        QuestionId(9),
        "t".to_string(),
        "c".to_string(),
        Some(vec!["g".to_string()]),
    );
    assert_eq!(q.id, QuestionId(9));
    assert_eq!(q.title, "t");
    assert_eq!(q.content, "c");
    assert_eq!(q.tags, Some(vec!["g".to_string()]));
}

#[test]
fn create_comment_refs_treat_nonpositive_as_unset() {
    let c = CreateComment {
        content: "x".to_string(),
        applied_to_question_id: QuestionId(1),
        applied_to_answer_id: AnswerId(0),
    };
    let (qref, aref) = c.attachment_refs();
    assert_eq!(qref, Some(QuestionId(1)));
    assert_eq!(aref, None);
    let c = CreateComment {
        content: "x".to_string(),
        applied_to_question_id: QuestionId(-4),
        applied_to_answer_id: AnswerId(2),
    };
    let (qref, aref) = c.attachment_refs();
    assert_eq!(qref, None);
    assert_eq!(aref, Some(AnswerId(2)));
}
