use backend::cache::Cache;
use backend::error::StoreError;
use backend::question::{QuestionId, UpdateQuestion};

#[test]
fn cache_add_and_get_round_trip() {
    let mut cache = Cache::new();
    let q = cache.add_question("t".to_string(), "c".to_string(), None);
    assert_eq!(q.id, QuestionId(1));
    let fetched = cache.get_question_by_id(q.id).unwrap();
    assert_eq!(fetched.title, "t");
    assert_eq!(fetched.content, "c");
    assert_eq!(fetched.tags, None);
}

#[test]
fn cache_get_missing_is_not_found() {
    let cache = Cache::new();
    assert_eq!(
        cache.get_question_by_id(QuestionId(1)).unwrap_err(),
        StoreError::NotFound
    );
}

#[test]
fn cache_get_all_questions_in_insertion_order() {
    let mut cache = Cache::new();
    cache.add_question("one".to_string(), "c".to_string(), None);
    cache.add_question("two".to_string(), "c".to_string(), None);
    let all = cache.get_all_questions();
    assert_eq!(all.len(), 2);
    assert_eq!(all[0].title, "one");
    assert_eq!(all[1].title, "two");
}

#[test]
fn cache_update_question_replaces_fields() {
    let mut cache = Cache::new();
    let q = cache.add_question("old".to_string(), "old".to_string(), None);
    let updated = cache
        .update_question(UpdateQuestion {
            id: q.id,
            title: "new".to_string(),
            content: "newer".to_string(),
            tags: Some(vec!["t".to_string()]),
        })
        .unwrap();
    assert_eq!(updated.id, q.id);
    let fetched = cache.get_question_by_id(q.id).unwrap();
    assert_eq!(fetched.title, "new");
    assert_eq!(fetched.content, "newer");
    assert_eq!(fetched.tags, Some(vec!["t".to_string()]));
}

#[test]
fn cache_update_missing_is_not_found() {
    let mut cache = Cache::new();
    let err = cache
        .update_question(UpdateQuestion {
            id: QuestionId(9),
            title: "x".to_string(),
            content: "y".to_string(),
            tags: None,
        })
        .unwrap_err();
    assert_eq!(err, StoreError::NotFound);
}

#[test]
fn cache_delete_question_is_idempotent_and_cascades() {
    let mut cache = Cache::new();
    let q = cache.add_question("t".to_string(), "c".to_string(), None);
    cache.add_answer("a".to_string(), q.id.0).unwrap();
    assert!(cache.delete_question(q.id.0).is_ok());
    assert_eq!(
        cache.get_question_by_id(q.id).unwrap_err(),
        StoreError::NotFound
    );
    assert!(cache.delete_question(q.id.0).is_ok());
    // a fresh question still gets a fresh identifier, not a recycled one
    let q2 = cache.add_question("t2".to_string(), "c2".to_string(), None);
    assert_eq!(q2.id, QuestionId(2));
}

#[test]
fn cache_add_answer_requires_existing_question() {
    let mut cache = Cache::new();
    let err = cache.add_answer("a".to_string(), 1).unwrap_err();
    assert_eq!(err, StoreError::InvalidReference);
    let q = cache.add_question("t".to_string(), "c".to_string(), None);
    let a = cache.add_answer("a".to_string(), q.id.0).unwrap();
    assert_eq!(a.id.0, 1);
    assert_eq!(a.question_id, q.id);
}
