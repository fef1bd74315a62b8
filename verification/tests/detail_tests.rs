use backend::comment::CommentResult;
use backend::detail::{
    assemble_question_detail, sort_answer_rows_newest_first, sort_comments_newest_first,
    AnswerCommentRow, AnswerRow,
};
use backend::question::{Question, QuestionId};

fn comment(id: i32, content: &str, created_on: i64) -> CommentResult {
    CommentResult { id, content: content.to_string(), created_on }
}

#[test]
fn sort_comments_newest_first_orders_by_timestamp() {
    let rows = vec![comment(1, "old", 10), comment(2, "new", 30), comment(3, "mid", 20)];
    let sorted = sort_comments_newest_first(rows);
    assert_eq!(sorted.len(), 3);
    assert_eq!(sorted[0].content, "new");
    assert_eq!(sorted[1].content, "mid");
    assert_eq!(sorted[2].content, "old");
}

#[test]
fn sort_comments_breaks_timestamp_ties_by_identifier() {
    let rows = vec![comment(4, "a", 10), comment(9, "b", 10), comment(7, "c", 10)];
    let sorted = sort_comments_newest_first(rows);
    assert_eq!(sorted[0].id, 9);
    assert_eq!(sorted[1].id, 7);
    assert_eq!(sorted[2].id, 4);
}

#[test]
fn sort_answer_rows_newest_first_orders_and_breaks_ties() {
    let rows = vec![
        AnswerRow { id: 1, content: "x".to_string(), created_on: 5 },
        AnswerRow { id: 3, content: "y".to_string(), created_on: 5 },
        AnswerRow { id: 2, content: "z".to_string(), created_on: 9 },
    ];
    let sorted = sort_answer_rows_newest_first(rows);
    assert_eq!(sorted[0].id, 2);
    assert_eq!(sorted[1].id, 3);
    assert_eq!(sorted[2].id, 1);
}

#[test]
fn assemble_question_detail_merges_and_orders() {
    let question = Question {
        id: QuestionId(1),
        title: "How?".to_string(),
        content: "Like this?".to_string(),
        tags: Some(vec!["general".to_string()]),
    };
    let question_comments = vec![comment(1, "older", 10), comment(2, "newer", 20)];
    let answers = vec![
        AnswerRow { id: 1, content: "first".to_string(), created_on: 11 },
        AnswerRow { id: 2, content: "second".to_string(), created_on: 12 },
    ];
    let answer_comments = vec![
        AnswerCommentRow { answer_id: 2, comment: comment(3, "on second", 15) },
        AnswerCommentRow { answer_id: 1, comment: comment(4, "on first old", 16) },
        AnswerCommentRow { answer_id: 1, comment: comment(5, "on first new", 17) },
    ];
    let detail = assemble_question_detail(question, 5, question_comments, answers, answer_comments);
    assert_eq!(detail.id, 1);
    assert_eq!(detail.title, "How?");
    assert_eq!(detail.content, "Like this?");
    assert_eq!(detail.tags, Some(vec!["general".to_string()]));
    assert_eq!(detail.created_on, 5);
    assert_eq!(detail.comments.len(), 2);
    assert_eq!(detail.comments[0].content, "newer");
    assert_eq!(detail.comments[1].content, "older");
    assert_eq!(detail.answers.len(), 2);
    assert_eq!(detail.answers[0].content, "second");
    assert_eq!(detail.answers[0].comments.len(), 1);
    assert_eq!(detail.answers[0].comments[0].content, "on second");
    assert_eq!(detail.answers[1].content, "first");
    assert_eq!(detail.answers[1].comments.len(), 2);
    assert_eq!(detail.answers[1].comments[0].content, "on first new");
    assert_eq!(detail.answers[1].comments[1].content, "on first old");
}

#[test]
fn assemble_question_detail_with_no_rows() {
    let question = Question {
        id: QuestionId(3),
        title: "t".to_string(),
        content: "c".to_string(),
        tags: None,
    };
    let detail = assemble_question_detail(question, 1, vec![], vec![], vec![]);
    assert_eq!(detail.id, 3);
    assert_eq!(detail.comments.len(), 0);
    assert_eq!(detail.answers.len(), 0);
}
