use backend::answer::AnswerId;
use backend::comment::{comment_db_result, Comment, CommentId};
use backend::error::{QuestionError, StoreError};
use backend::question::QuestionId;

#[test]
fn status_codes_follow_the_error_kind() {
    assert_eq!(StoreError::NotFound.status_code(), 404);
    assert_eq!(StoreError::InvalidReference.status_code(), 400);
    assert_eq!(StoreError::InvalidComment.status_code(), 400);
    assert_eq!(StoreError::StoreUnavailable.status_code(), 503);
    assert_eq!(StoreError::Poisoned.status_code(), 500);
}

#[test]
fn messages_name_the_error_kind() {
    assert_eq!(StoreError::NotFound.message(), "not found");
    assert_eq!(StoreError::InvalidReference.message(), "invalid reference");
    assert_eq!(StoreError::InvalidComment.message(), "invalid comment");
    assert_eq!(StoreError::StoreUnavailable.message(), "store unavailable");
    assert_eq!(StoreError::Poisoned.message(), "poisoned lock");
}

#[test]
fn question_error_surfaces_as_not_found() {
    assert_eq!(QuestionError::InvalidId.to_store_error(), StoreError::NotFound);
    assert_eq!(QuestionError::InvalidId.status_code(), 404);
}

#[test]
fn id_wrappers_convert_from_raw_integers() {
    assert_eq!(QuestionId::from(5), QuestionId(5));
    assert_eq!(i32::from(QuestionId(5)), 5);
    assert_eq!(AnswerId::from(7), AnswerId(7));
    assert_eq!(CommentId::from(9), CommentId(9));
}

#[test]
fn comment_db_result_carries_the_attachment() {
    let c = Comment {
        id: CommentId(3),
        content: "hello".to_string(),
        applied_to_question_id: Some(QuestionId(2)),
        applied_to_answer_id: None,
    };
    let row = comment_db_result(&c);
    assert_eq!(row.id, 3);
    assert_eq!(row.content, "hello");
    assert_eq!(row.applied_to_question_id, Some(2));
    assert_eq!(row.applied_to_answer_id, None);

    let c = Comment {
        id: CommentId(4),
        content: "world".to_string(),
        applied_to_question_id: None,
        applied_to_answer_id: Some(AnswerId(8)),
    };
    let row = comment_db_result(&c);
    assert_eq!(row.applied_to_question_id, None);
    assert_eq!(row.applied_to_answer_id, Some(8));
}
