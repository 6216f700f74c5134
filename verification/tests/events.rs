use crowdfunding::events::{frame_create_log, frame_project_create, join_with_commas};
use crowdfunding::{Contract, EventLog, EventLogVariant, ProjectCreateLog, ProjectMetadata};

fn metadata() -> ProjectMetadata {
    ProjectMetadata {
        title: String::from("t"),
        description: String::from("d"),
        target: 100,
        minimum_pledge: 10,
        started_at: None,
        ended_at: None,
        funded: None,
        media: None,
        media_hash: None,
        extra: None,
        reference: None,
        reference_hash: None,
    }
}

#[test]
fn registration_returns_the_creation_event() {
    let mut contract = Contract::new("admin".to_string());
    let event = contract
        .create_project("VBI_FUND".to_string(), metadata(), "alice".to_string(), 1)
        .unwrap();
    assert_eq!(event.version, "1.0.0");
    match &event.event {
        EventLogVariant::ProjectCreate(logs) => {
            assert_eq!(logs.len(), 1);
            assert_eq!(logs[0].owner_id, "alice");
            assert_eq!(logs[0].project_ids, vec!["VBI_FUND".to_string()]);
            assert_eq!(logs[0].memo, None);
        }
        _ => panic!("a registration is reported as a project_create event"),
    }
    assert_eq!(
        event.to_string(),
        r#"EVENT_JSON:{"version":"1.0.0","event":"project_create","data":[{"owner_id":"alice","project_ids":["VBI_FUND"],"memo":null}]}"#
    );
}

#[test]
fn event_text_escapes_strings() {
    let event = EventLog::project_create(&"al\"ice".to_string(), &"a\\b\nc".to_string());
    assert_eq!(
        event.to_string(),
        r#"EVENT_JSON:{"version":"1.0.0","event":"project_create","data":[{"owner_id":"al\"ice","project_ids":["a\\b\nc"],"memo":null}]}"#
    );
}

#[test]
fn event_text_with_memo_and_several_logs() {
    let event = EventLog {
        version: "1.0.0".to_string(),
        event: EventLogVariant::ProjectCreate(vec![
            ProjectCreateLog {
                owner_id: "alice".to_string(),
                project_ids: vec!["1".to_string(), "abc".to_string()],
                memo: Some("hello".to_string()),
            },
            ProjectCreateLog { owner_id: "bob".to_string(), project_ids: vec![], memo: None },
        ]),
    };
    assert_eq!(
        event.to_string(),
        r#"EVENT_JSON:{"version":"1.0.0","event":"project_create","data":[{"owner_id":"alice","project_ids":["1","abc"],"memo":"hello"},{"owner_id":"bob","project_ids":[],"memo":null}]}"#
    );
}

#[test]
fn event_text_without_logs() {
    let event = EventLog { version: "2".to_string(), event: EventLogVariant::ProjectCreate(vec![]) };
    assert_eq!(event.to_string(), r#"EVENT_JSON:{"version":"2","event":"project_create","data":[]}"#);
}

#[test]
fn one_log_as_json() {
    let log = ProjectCreateLog {
        owner_id: "account.near".to_string(),
        project_ids: vec!["1".to_string(), "abc".to_string()],
        memo: None,
    };
    assert_eq!(log.to_json(), r#"{"owner_id":"account.near","project_ids":["1","abc"],"memo":null}"#);
}

#[test]
fn frames_are_written_around_given_texts() {
    assert_eq!(join_with_commas(&vec![]), "");
    assert_eq!(join_with_commas(&vec!["a".to_string()]), "a");
    assert_eq!(join_with_commas(&vec!["a".to_string(), "".to_string(), "c".to_string()]), "a,,c");
    assert_eq!(
        frame_create_log("OWNER", &vec!["X".to_string(), "Y".to_string()], &None),
        r#"{"owner_id":OWNER,"project_ids":[X,Y],"memo":null}"#
    );
    assert_eq!(
        frame_create_log("OWNER", &vec![], &Some("MEMO".to_string())),
        r#"{"owner_id":OWNER,"project_ids":[],"memo":MEMO}"#
    );
    assert_eq!(
        frame_project_create("V", &vec!["L1".to_string(), "L2".to_string()]),
        r#"EVENT_JSON:{"version":V,"event":"project_create","data":[L1,L2]}"#
    );
}

#[test]
fn each_kind_of_character_is_written_as_json_asks() {
    let log = ProjectCreateLog {
        owner_id: "q\"b\\s\u{08}t\tn\nf\u{0c}r\r".to_string(),
        project_ids: vec!["\u{00}\u{01}\u{0b}\u{1f} \u{7f}/\u{e9}\u{4e16}".to_string()],
        memo: Some("".to_string()),
    };
    assert_eq!(
        log.to_json(),
        "{\"owner_id\":\"q\\\"b\\\\s\\bt\\tn\\nf\\fr\\r\",\"project_ids\":[\"\\u0000\\u0001\\u000b\\u001f \u{7f}/\u{e9}\u{4e16}\"],\"memo\":\"\"}"
    );
}

#[test]
fn absent_memo_is_written_as_null() {
    let event = EventLog {
        version: "1.0.0".to_string(),
        event: EventLogVariant::ProjectCreate(vec![ProjectCreateLog {
            owner_id: "alice".to_string(),
            project_ids: vec!["P1".to_string()],
            memo: None,
        }]),
    };
    assert_eq!(
        event.to_string(),
        "EVENT_JSON:{\"version\":\"1.0.0\",\"event\":\"project_create\",\"data\":[{\"owner_id\":\"alice\",\"project_ids\":[\"P1\"],\"memo\":null}]}"
    );
}
