use matching_api_client::align_results;
use matching_api_client::build_request;
use matching_api_client::chunks;
use matching_api_client::make_messages_vec;
use matching_api_client::resolve_message_kind;
use matching_api_client::ClassificationError;
use matching_api_client::HttpOutcome;
use matching_api_client::RawMatch;
use matching_api_client::Run;
use matching_api_client::RunState;
use matching_api_client::SMKind;

fn row9(received_at: &str, sender: &str, to: &str, body: &str) -> Vec<String> {
    let mut r: Vec<String> = vec![String::new(); 9];
    r[1] = received_at.to_string();
    r[2] = sender.to_string();
    r[3] = to.to_string();
    r[8] = body.to_string();
    r
}

fn response(body: &str) -> HttpOutcome {
    HttpOutcome::Response { status: 200, body: body.to_string() }
}

#[test]
fn request_payload_is_exact_json() {
    let rows = vec![row9("t", "123", "456", "hi")];
    let msgs = make_messages_vec(&rows).unwrap();
    let req = build_request(7, &msgs);
    assert_eq!(req, r#"[{"mp_id":7,"number":"123","text":"hi"}]"#);
}

#[test]
fn request_payload_keeps_batch_order() {
    let rows = vec![row9("t", "1", "r", "a"), row9("t", "2", "r", "b")];
    let msgs = make_messages_vec(&rows).unwrap();
    let req = build_request(9, &msgs);
    assert_eq!(
        req,
        r#"[{"mp_id":9,"number":"1","text":"a"},{"mp_id":9,"number":"2","text":"b"}]"#
    );
}

#[test]
fn short_response_leaves_trailing_unmatched() {
    let rows = vec![
        row9("t1", "s1", "r1", "b1"),
        row9("t2", "s2", "r2", "b2"),
        row9("t3", "s3", "r3", "b3"),
    ];
    let msgs = make_messages_vec(&rows).unwrap();
    let entries = vec![
        RawMatch {
            purpose: Some("transaction".to_string()),
            template_id: Some(4),
            weight: Some(2),
        },
        RawMatch { purpose: Some("service".to_string()), template_id: Some(9), weight: None },
    ];
    let out = align_results(msgs, &entries);
    assert_eq!(out.len(), 3);
    assert!(matches!(out[0].kind, SMKind::Transaction));
    assert_eq!(out[0].template_id, Some(4));
    assert_eq!(out[0].weight, Some(2));
    assert!(matches!(out[1].kind, SMKind::Service));
    assert_eq!(out[1].template_id, Some(9));
    assert_eq!(out[1].weight, None);
    assert!(matches!(out[2].kind, SMKind::Advertisement));
    assert_eq!(out[2].template_id, None);
    assert_eq!(out[2].weight, None);
    assert_eq!(out[2].text, "b3");
}

#[test]
fn unknown_purpose_is_advertisement() {
    let rows = vec![row9("t", "s", "r", "b")];
    let msgs = make_messages_vec(&rows).unwrap();
    let body = r#"{"result":{"matches":[{"template_purpose":"promo","template_id":3,"weight":1}]}}"#;
    let out = resolve_message_kind(msgs, body).unwrap();
    assert!(matches!(out[0].kind, SMKind::Advertisement));
    assert_eq!(out[0].template_id, Some(3));
}

#[test]
fn garbage_response_is_unparseable() {
    let rows = vec![row9("t", "s", "r", "b")];
    let msgs = make_messages_vec(&rows).unwrap();
    let r = resolve_message_kind(msgs, "not json at all");
    assert_eq!(r.unwrap_err(), ClassificationError::UnparseableResponse);
}

#[test]
fn response_without_matches_path_classifies_nothing() {
    let rows = vec![row9("t", "s", "r", "b")];
    let msgs = make_messages_vec(&rows).unwrap();
    let out = resolve_message_kind(msgs, r#"{"something":"else"}"#).unwrap();
    assert_eq!(out[0].template_id, None);
    assert!(matches!(out[0].kind, SMKind::Advertisement));
}

#[test]
fn three_rows_two_chunks_scenario() {
    let rows = vec![
        row9("10:00", "a", "x", "first"),
        row9("10:01", "b", "y", "second"),
        row9("10:02", "c", "z", "third"),
    ];
    let mut run = Run::new(1, 2, 100);
    run.start();
    let mut residual = Vec::new();
    let batches = chunks(rows, 2);
    assert_eq!(batches.len(), 2);
    let bodies = vec![
        r#"{"result":{"matches":[{"template_purpose":"transaction","template_id":5,"weight":10}]}}"#,
        r#"{"result":{"matches":[{"template_purpose":null}]}}"#,
    ];
    for (chunk, body) in batches.into_iter().zip(bodies.into_iter()) {
        assert!(run.wants_next_chunk());
        let (msgs, _req) = run.begin_chunk(&chunk).unwrap();
        let rows_out = run.finish_chunk(msgs, response(body)).unwrap();
        residual.extend(rows_out);
    }
    run.finish_input();
    assert!(matches!(run.state, RunState::Draining));
    assert_eq!(run.stats.templates.len(), 1);
    assert_eq!(run.stats.templates[0].0, 5);
    assert_eq!(run.stats.templates[0].1.msg_count, 1);
    assert_eq!(run.stats.templates[0].1.msg_weight, 10);
    assert_eq!(run.stats.total_msgs, 1);
    assert_eq!(run.unmatched_msgs, 2);
    assert_eq!(run.messages_in, 3);
    assert_eq!(residual.len(), 2);
    assert_eq!(residual[0].received_at, "10:01");
    assert_eq!(residual[0].to, "y");
    assert_eq!(residual[0].text, "second");
    assert_eq!(residual[1].received_at, "10:02");
    assert_eq!(residual[1].to, "z");
    assert_eq!(residual[1].text, "third");
    assert_eq!(run.stats.to_csv(), "5,1,10\n");
    run.complete();
    assert!(matches!(run.state, RunState::Done));
}

#[test]
fn conservation_matched_plus_unmatched_is_input() {
    let rows = vec![
        row9("t1", "a", "x", "m1"),
        row9("t2", "b", "y", "m2"),
        row9("t3", "c", "z", "m3"),
    ];
    let mut run = Run::new(1, 3, 10);
    run.start();
    let (msgs, _req) = run.begin_chunk(&rows).unwrap();
    let body = r#"{"result":{"matches":[{"template_id":1,"weight":1},{"template_id":2,"weight":1}]}}"#;
    run.finish_chunk(msgs, response(body)).unwrap();
    assert_eq!(run.stats.total_msgs + run.unmatched_msgs, run.messages_in);
    assert_eq!(run.messages_in, 3);
}

#[test]
fn zero_max_batches_processes_nothing() {
    let mut run = Run::new(1, 2, 0);
    run.start();
    assert!(!run.wants_next_chunk());
    run.finish_input();
    run.complete();
    assert!(matches!(run.state, RunState::Done));
    assert_eq!(run.stats.templates.len(), 0);
    assert_eq!(run.stats.to_csv(), "");
    assert_eq!(run.unmatched_msgs, 0);
}

#[test]
fn bad_status_fails_run_and_keeps_partial_stats() {
    let mut run = Run::new(1, 1, 10);
    run.start();
    let first = vec![row9("t1", "a", "x", "m1")];
    let (msgs, _req) = run.begin_chunk(&first).unwrap();
    let body = r#"{"result":{"matches":[{"template_purpose":"transaction","template_id":5,"weight":10}]}}"#;
    run.finish_chunk(msgs, response(body)).unwrap();
    let second = vec![row9("t2", "b", "y", "m2")];
    let (msgs2, _req2) = run.begin_chunk(&second).unwrap();
    let err = run
        .finish_chunk(msgs2, HttpOutcome::Response { status: 503, body: String::new() })
        .unwrap_err();
    assert_eq!(err, ClassificationError::BadStatus(503));
    assert!(matches!(run.state, RunState::Failed));
    assert_eq!(run.stats.templates.len(), 1);
    assert_eq!(run.stats.templates[0].0, 5);
    assert_eq!(run.stats.to_csv(), "5,1,10\n");
}

#[test]
fn transport_failure_fails_run() {
    let mut run = Run::new(1, 1, 10);
    run.start();
    let rows = vec![row9("t1", "a", "x", "m1")];
    let (msgs, _req) = run.begin_chunk(&rows).unwrap();
    let err = run.finish_chunk(msgs, HttpOutcome::TransportFailed).unwrap_err();
    assert_eq!(err, ClassificationError::Transport);
    assert!(matches!(run.state, RunState::Failed));
}

#[test]
fn decode_failure_fails_run() {
    let mut run = Run::new(1, 2, 10);
    run.start();
    let rows = vec![vec!["only".to_string(), "four".to_string(), "fields".to_string(), "here".to_string()]];
    assert!(run.begin_chunk(&rows).is_err());
    assert!(matches!(run.state, RunState::Failed));
}

#[test]
fn match_without_weight_counts_zero() {
    let mut run = Run::new(1, 1, 10);
    run.start();
    let rows = vec![row9("t1", "a", "x", "m1")];
    let (msgs, _req) = run.begin_chunk(&rows).unwrap();
    let body = r#"{"result":{"matches":[{"template_purpose":"service","template_id":8}]}}"#;
    run.finish_chunk(msgs, response(body)).unwrap();
    assert_eq!(run.stats.templates[0].0, 8);
    assert_eq!(run.stats.templates[0].1.msg_count, 1);
    assert_eq!(run.stats.templates[0].1.msg_weight, 0);
}
