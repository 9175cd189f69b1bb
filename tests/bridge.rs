use agile_bot::matcher::{standup_matcher, HashTagMatcher, Matcher};
use agile_bot::message::{
    extract_entity, is_hashtag, span_equals, EntityKind, ExtractionError, Message, MessageEntity, Update,
    UpdateKind,
};
use agile_bot::poller::{FetchError, PollOutcome, Poller, DEFAULT_TIMEOUT_SECS};
use agile_bot::route::{handle_updates, DestinationType, ForwardConfig};

fn hashtag(offset: usize, length: usize) -> MessageEntity {
    MessageEntity { kind: EntityKind::Hashtag, offset, length }
}

fn message(text: &str, entities: Vec<MessageEntity>) -> Message {
    Message { text: Some(text.to_string()), entities: Some(entities) }
}

fn update(id: i32, m: Message) -> Update {
    Update { id, kind: UpdateKind::Message(m) }
}

fn route(tag: &str, page: &str) -> ForwardConfig<HashTagMatcher> {
    ForwardConfig {
        matcher: HashTagMatcher::new(tag.to_string()),
        destination: DestinationType::Notion { page_id: page.to_string() },
    }
}

#[test]
fn extract_example_span() {
    let r = extract_entity("daily #standup update", &hashtag(6, 8));
    assert_eq!(r, Ok("#standup".to_string()));
}

#[test]
fn extract_counts_characters() {
    let r = extract_entity("héllo #standup", &hashtag(6, 8));
    assert_eq!(r, Ok("#standup".to_string()));
}

#[test]
fn extract_counts_utf16_units() {
    let text = "\u{1F600} #standup";
    assert_eq!(extract_entity(text, &hashtag(3, 8)), Ok("#standup".to_string()));
    assert_eq!(extract_entity(text, &hashtag(0, 2)), Ok("\u{1F600}".to_string()));
}

#[test]
fn extract_splitting_a_character_is_error() {
    let text = "\u{1F600} #standup";
    assert_eq!(extract_entity(text, &hashtag(1, 2)), Err(ExtractionError));
    assert_eq!(extract_entity(text, &hashtag(0, 1)), Err(ExtractionError));
}

#[test]
fn matcher_after_wide_character() {
    let m = HashTagMatcher::new("#standup".to_string());
    let text = "\u{1F600}\u{1F600} daily #standup";
    assert!(m.match_message(&message(text, vec![hashtag(11, 8)])));
    assert!(!m.match_message(&message(text, vec![hashtag(9, 8)])));
}

#[test]
fn extract_out_of_range_is_error() {
    assert_eq!(extract_entity("short", &hashtag(2, 4)), Err(ExtractionError));
    assert_eq!(extract_entity("short", &hashtag(6, 0)), Err(ExtractionError));
    assert_eq!(extract_entity("short", &hashtag(usize::MAX, 2)), Err(ExtractionError));
    assert_eq!(extract_entity("short", &hashtag(1, usize::MAX)), Err(ExtractionError));
}

#[test]
fn extract_empty_span_at_end() {
    assert_eq!(extract_entity("short", &hashtag(5, 0)), Ok(String::new()));
}

#[test]
fn is_hashtag_by_kind() {
    assert!(is_hashtag(&hashtag(0, 1)));
    let m = MessageEntity { kind: EntityKind::Mention, offset: 0, length: 1 };
    assert!(!is_hashtag(&m));
}

#[test]
fn span_equals_is_exact() {
    assert!(span_equals("a #x b", &hashtag(2, 2), "#x"));
    assert!(!span_equals("a #x b", &hashtag(2, 3), "#x"));
    assert!(!span_equals("a #x b", &hashtag(5, 3), "#x"));
}

#[test]
fn matcher_accepts_example_message() {
    let m = HashTagMatcher::new("#standup".to_string());
    assert!(m.match_message(&message("daily #standup update", vec![hashtag(6, 8)])));
}

#[test]
fn matcher_is_case_sensitive() {
    let m = HashTagMatcher::new("#standup".to_string());
    assert!(!m.match_message(&message("daily #Standup update", vec![hashtag(6, 8)])));
}

#[test]
fn matcher_rejects_longer_tag() {
    let m = HashTagMatcher::new("#standup".to_string());
    assert!(!m.match_message(&message("#standupmeeting today", vec![hashtag(0, 15)])));
}

#[test]
fn matcher_does_not_trim() {
    let m = HashTagMatcher::new("#standup".to_string());
    assert!(!m.match_message(&message("a #standup b", vec![hashtag(1, 9)])));
}

#[test]
fn matcher_rejects_malformed_messages() {
    let m = HashTagMatcher::new("#standup".to_string());
    let no_text = Message { text: None, entities: Some(vec![hashtag(0, 8)]) };
    let no_entities = Message { text: Some("#standup".to_string()), entities: None };
    let empty_entities = message("#standup", vec![]);
    let out_of_range = message("#standup", vec![hashtag(3, 8), hashtag(usize::MAX, 1)]);
    assert!(!m.match_message(&no_text));
    assert!(!m.match_message(&no_entities));
    assert!(!m.match_message(&empty_entities));
    assert!(!m.match_message(&out_of_range));
}

#[test]
fn matcher_needs_hashtag_kind() {
    let m = HashTagMatcher::new("#standup".to_string());
    let e = MessageEntity { kind: EntityKind::Cashtag, offset: 0, length: 8 };
    assert!(!m.match_message(&message("#standup", vec![e])));
}

#[test]
fn matcher_finds_later_entity() {
    let m = HashTagMatcher::new("#retro".to_string());
    let msg = message("#standup and #retro", vec![hashtag(0, 8), hashtag(40, 2), hashtag(13, 6)]);
    assert!(m.match_message(&msg));
}

#[test]
fn matcher_description() {
    let m = HashTagMatcher::new("#standup".to_string());
    assert_eq!(m.describe(), "hashtag #standup matcher");
}

#[test]
fn standup_matcher_checks_span_only() {
    let e = MessageEntity { kind: EntityKind::Other, offset: 6, length: 8 };
    assert!(standup_matcher("daily #standup update", &e));
    assert!(!standup_matcher("daily #retro update", &hashtag(6, 6)));
    assert!(!standup_matcher("daily", &hashtag(6, 8)));
}

#[test]
fn dispatch_example_forwards_whole_text() {
    let routes = vec![route("#standup", "page-a")];
    let batch = vec![update(1, message("daily #standup update", vec![hashtag(6, 8)]))];
    let d = handle_updates(&batch, &routes);
    assert_eq!(d.len(), 1);
    assert_eq!(d[0].route, 0);
    assert_eq!(d[0].text, "daily #standup update");
}

#[test]
fn dispatch_only_matching_route_receives() {
    let routes = vec![route("#standup", "page-a"), route("#retro", "page-b")];
    let batch = vec![update(1, message("daily #standup update", vec![hashtag(6, 8)]))];
    let d = handle_updates(&batch, &routes);
    assert_eq!(d.len(), 1);
    assert_eq!(d[0].route, 0);
}

#[test]
fn dispatch_all_matching_routes_in_order() {
    let routes = vec![route("#retro", "page-b"), route("#standup", "page-a"), route("#retro", "page-c")];
    let text = "#standup then #retro";
    let batch = vec![
        update(3, message(text, vec![hashtag(0, 8), hashtag(14, 6)])),
        Update { id: 4, kind: UpdateKind::Other },
        update(5, message("#retro", vec![hashtag(0, 6)])),
        update(6, Message { text: None, entities: None }),
    ];
    let d = handle_updates(&batch, &routes);
    let got: Vec<(usize, String)> = d.iter().map(|x| (x.route, x.text.clone())).collect();
    assert_eq!(
        got,
        vec![
            (0, text.to_string()),
            (1, text.to_string()),
            (2, text.to_string()),
            (0, "#retro".to_string()),
            (2, "#retro".to_string()),
        ]
    );
}

#[test]
fn dispatch_empty_table_or_batch() {
    let none: Vec<ForwardConfig<HashTagMatcher>> = vec![];
    let batch = vec![update(1, message("#standup", vec![hashtag(0, 8)]))];
    assert!(handle_updates(&batch, &none).is_empty());
    assert!(handle_updates(&vec![], &vec![route("#standup", "p")]).is_empty());
}

#[test]
fn poller_starts_at_zero() {
    let p = Poller::new(DEFAULT_TIMEOUT_SECS);
    assert_eq!(p.cursor, 0);
    assert_eq!(p.timeout, 60);
}

#[test]
fn poller_advances_past_largest_id() {
    let routes = vec![route("#standup", "page-a")];
    let mut p = Poller::new(60);
    let batch = vec![
        update(5, message("#standup", vec![hashtag(0, 8)])),
        Update { id: 9, kind: UpdateKind::Other },
        update(7, message("nothing", vec![])),
    ];
    let out = p.handle_fetch(Ok(batch), &routes);
    assert_eq!(p.cursor, 10);
    match out {
        PollOutcome::Dispatch(d) => {
            assert_eq!(d.len(), 1);
            assert_eq!(d[0].text, "#standup");
        }
        _ => panic!("expected a dispatch"),
    }
}

#[test]
fn poller_largest_id_at_max() {
    let routes: Vec<ForwardConfig<HashTagMatcher>> = vec![];
    let mut p = Poller::new(60);
    let out = p.handle_fetch(Ok(vec![Update { id: i32::MAX, kind: UpdateKind::Other }]), &routes);
    assert!(matches!(out, PollOutcome::Dispatch(ref d) if d.is_empty()));
    assert_eq!(p.cursor, i32::MAX as i64 + 1);
}

#[test]
fn poller_cursor_monotone_over_batches() {
    let routes: Vec<ForwardConfig<HashTagMatcher>> = vec![];
    let mut p = Poller::new(60);
    let mut last = p.cursor;
    for ids in [vec![0, 1, 2], vec![3], vec![7, 4], vec![8]] {
        let batch: Vec<Update> = ids.iter().map(|&id| Update { id, kind: UpdateKind::Other }).collect();
        let max = *ids.iter().max().unwrap() as i64;
        p.handle_fetch(Ok(batch), &routes);
        assert_eq!(p.cursor, max + 1);
        assert!(p.cursor >= last);
        last = p.cursor;
    }
    assert_eq!(p.cursor, 9);
}

#[test]
fn poller_empty_batch_is_noop() {
    let routes = vec![route("#standup", "page-a")];
    let mut p = Poller { cursor: 42, timeout: 60 };
    let out = p.handle_fetch(Ok(vec![]), &routes);
    assert!(matches!(out, PollOutcome::Empty));
    assert_eq!(p.cursor, 42);
}

#[test]
fn poller_network_failure_keeps_cursor() {
    let routes = vec![route("#standup", "page-a")];
    let mut p = Poller { cursor: 42, timeout: 60 };
    let out = p.handle_fetch(Err(FetchError::Network), &routes);
    assert!(matches!(out, PollOutcome::SoftFailure));
    assert_eq!(p.cursor, 42);
    let batch = vec![update(42, message("#standup", vec![hashtag(0, 8)]))];
    let out = p.handle_fetch(Ok(batch), &routes);
    assert!(matches!(out, PollOutcome::Dispatch(ref d) if d.len() == 1));
    assert_eq!(p.cursor, 43);
}

#[test]
fn poller_api_failure_keeps_cursor() {
    let routes = vec![route("#standup", "page-a")];
    let mut p = Poller { cursor: 7, timeout: 30 };
    let out = p.handle_fetch(Err(FetchError::Api), &routes);
    assert!(matches!(out, PollOutcome::HardFailure));
    assert_eq!(p.cursor, 7);
    assert_eq!(p.timeout, 30);
}

#[test]
fn next_cursor_of_batch() {
    let p = Poller { cursor: 3, timeout: 60 };
    let batch = vec![Update { id: 4, kind: UpdateKind::Other }, Update { id: 6, kind: UpdateKind::Other }];
    assert_eq!(p.next_cursor(&batch), 7);
    assert_eq!(p.next_cursor(&vec![]), 3);
}
