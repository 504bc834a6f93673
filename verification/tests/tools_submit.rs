use lore_weekly::tools::dedup::RequestDeduper;
use lore_weekly::tools::submit::{
    submit_thread_order, submit_thread_summary, SubmitSlot, SubmitThreadOrder, SubmitThreadSummary,
    ThreadOrderPayload, ThreadSummaryPayload,
};

#[test]
fn double_submit_rejected() {
    let mut slot = SubmitSlot::new();
    assert!(slot
        .try_submit(ThreadOrderPayload { ordered_root_ids: vec!["<a>".into()], notes: None })
        .is_ok());
    let err = slot
        .try_submit(ThreadOrderPayload { ordered_root_ids: vec!["<b>".into()], notes: None })
        .unwrap_err();
    assert!(err.contains("already submitted"));
    let p = slot.take().unwrap();
    assert_eq!(p.ordered_root_ids, vec!["<a>"]);
    assert!(!slot.is_filled());
}

#[test]
fn submit_order_answers_model() {
    let mut slot = SubmitSlot::new();
    let a = SubmitThreadOrder { ordered_root_ids: vec!["<a>".into()], notes: None };
    assert_eq!(submit_thread_order(&mut slot, a), "submitted");
    let b = SubmitThreadOrder { ordered_root_ids: vec!["<b>".into()], notes: None };
    assert_eq!(submit_thread_order(&mut slot, b), "ERROR: already submitted");
    assert_eq!(slot.take().unwrap().ordered_root_ids, vec!["<a>"]);
}

#[test]
fn submit_empty_body_errors() {
    let mut slot: SubmitSlot<ThreadSummaryPayload> = SubmitSlot::new();
    let args = SubmitThreadSummary {
        title: "T".into(),
        markdown_body: "  \n ".into(),
        key_message_ids: vec![],
    };
    assert_eq!(submit_thread_summary(&mut slot, args), "ERROR: markdown_body must be non-empty");
    assert!(!slot.is_filled());
    let ok = SubmitThreadSummary {
        title: "T".into(),
        markdown_body: "Body".into(),
        key_message_ids: vec!["<a>".into()],
    };
    assert_eq!(submit_thread_summary(&mut slot, ok), "submitted");
    assert_eq!(slot.take().unwrap().markdown_body, "Body");
}

const ARGS_1: &str = "{\"n\":1}";
const ARGS_2: &str = "{\"n\":2}";

#[test]
fn first_ok_second_duplicate() {
    let mut d = RequestDeduper::new();
    assert!(d.check_or_insert("GetEmail", ARGS_1).is_ok());
    let err = d.check_or_insert("GetEmail", ARGS_1).unwrap_err();
    assert!(err.contains("ERROR: duplicate GetEmail"));
    assert!(err.contains("already issued"));
}

#[test]
fn different_tool_or_args_ok() {
    let mut d = RequestDeduper::new();
    assert!(d.check_or_insert("GetEmail", ARGS_1).is_ok());
    assert!(d.check_or_insert("ListThreadMessages", ARGS_1).is_ok());
    assert!(d.check_or_insert("GetEmail", ARGS_2).is_ok());
    assert!(d.check_or_insert("GetEmail", ARGS_1).is_err());
}

#[test]
fn sessions_are_independent() {
    let mut a = RequestDeduper::new();
    let mut b = RequestDeduper::new();
    assert!(a.check_or_insert("GetEmail", ARGS_1).is_ok());
    assert!(b.check_or_insert("GetEmail", ARGS_1).is_ok());
}
