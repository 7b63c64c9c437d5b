use kumo::agent::ApprovalOutcome;
use kumo::pending::{Approvals, PendingQuestion, Questions};
use kumo::prompts::{parse_approval_callback, parse_question_callback};

#[test]
fn parse_approval_callback_reads_allow_always_and_deny() {
    let allow = parse_approval_callback("approval:abc123:allow").unwrap();
    assert_eq!(allow.nonce, "abc123");
    assert_eq!(allow.outcome, ApprovalOutcome::AllowOnce);

    let always = parse_approval_callback("approval:abc123:always").unwrap();
    assert_eq!(always.outcome, ApprovalOutcome::AlwaysAllow);

    let deny = parse_approval_callback("approval:abc123:deny").unwrap();
    assert_eq!(deny.nonce, "abc123");
    assert_eq!(deny.outcome, ApprovalOutcome::Deny);
}

#[test]
fn parse_approval_callback_rejects_malformed_or_unrelated_data() {
    assert!(parse_approval_callback("question:abc123:0").is_none());
    assert!(parse_approval_callback("approval:abc123:maybe").is_none());
    assert!(parse_approval_callback("not a callback at all").is_none());
}

#[test]
fn parse_question_callback_reads_the_nonce_and_option_index() {
    let answer = parse_question_callback("question:abc123:2").unwrap();
    assert_eq!(answer.nonce, "abc123");
    assert_eq!(answer.option_index, 2);
}

#[test]
fn parse_question_callback_rejects_malformed_or_unrelated_data() {
    assert!(parse_question_callback("approval:abc123:allow").is_none());
    assert!(parse_question_callback("question:abc123:not-a-number").is_none());
    assert!(parse_question_callback("question:abc123").is_none());
}

#[test]
fn a_tapped_option_resolves_to_its_text_via_the_pending_question() {
    let mut questions = Questions::new();
    questions.open(PendingQuestion {
        nonce: "abc123".to_owned(),
        chat: 1,
        options: vec!["yes".to_owned(), "no".to_owned()],
    });

    let answer = parse_question_callback("question:abc123:1").unwrap();
    let (position, text) = questions.answer_tap(&answer).unwrap();

    assert_eq!(position, 0);
    assert_eq!(text, "no");
    assert!(questions.pending.is_empty());
    // The same tap again answers nothing.
    assert!(questions.answer_tap(&answer).is_none());
}

#[test]
fn an_out_of_range_option_index_parses_but_does_not_match_any_option() {
    // A question is only removed or answered once the index names one of its options, so a stale
    // or malformed index (e.g. a button from an earlier, differently sized question) leaves the
    // entry untouched rather than answering wrongly.
    let answer = parse_question_callback("question:abc123:5").unwrap();
    let mut questions = Questions::new();
    questions.open(PendingQuestion {
        nonce: "abc123".to_owned(),
        chat: 1,
        options: vec!["yes".to_owned()],
    });
    assert!(questions.answer_tap(&answer).is_none());
    assert_eq!(questions.pending.len(), 1);
}

fn question(nonce: &str, chat: i64) -> PendingQuestion {
    PendingQuestion {
        nonce: nonce.to_owned(),
        chat,
        options: Vec::new(),
    }
}

#[test]
fn a_text_answers_the_question_of_its_own_chat() {
    let mut questions = Questions::new();
    assert_eq!(questions.open(question("a", 1)), None);
    assert_eq!(questions.open(question("b", 2)), None);
    assert!(questions.waits_in(2));
    assert!(!questions.waits_in(3));
    assert_eq!(questions.answer_in(3), None);
    assert_eq!(questions.answer_in(2), Some(1));
    assert!(!questions.waits_in(2));
    assert_eq!(questions.close("b"), None);
    assert_eq!(questions.close("a"), Some(0));
    assert!(questions.pending.is_empty());
}

#[test]
fn a_question_of_a_known_name_takes_over_its_place() {
    let mut questions = Questions::new();
    questions.open(question("a", 1));
    questions.open(question("b", 1));
    assert_eq!(questions.open(question("a", 7)), Some(0));
    assert_eq!(questions.pending.len(), 2);
    assert_eq!(questions.pending[0].chat, 7);
    assert_eq!(questions.position("b"), Some(1));
}

#[test]
fn an_approval_cannot_be_replayed() {
    let mut approvals = Approvals::new();
    assert_eq!(approvals.open("first"), None);
    assert_eq!(approvals.open("second"), None);
    assert_eq!(approvals.open("first"), Some(0));
    assert_eq!(approvals.position("second"), Some(1));
    assert_eq!(approvals.close("first"), Some(0));
    assert_eq!(approvals.close("first"), None);
    assert_eq!(approvals.position("second"), Some(0));
    assert_eq!(approvals.names, ["second"]);
}
