use toggl_timer::catalog::{build_selection_items_from, format_selection_item};
use toggl_timer::config::{load, parse, AppConfig, Project};
use toggl_timer::domain::{get_project_name_by_id, u64_to_string};
use toggl_timer::entry::TimeEntry;
use toggl_timer::json::{i64_to_dec, parse_i64_at, parse_u64_at, u64_to_dec};
use toggl_timer::toggl::{
    current_entry_path, decode_entries, decode_entry, entries_path, entry_path,
    get_current_time_entry, list_entries_path, replace_body, replace_round_trip, start, stop_path,
    TogglError,
};

/// A response in the shape the service actually sends, extra fields and all.
const CURRENT_RESPONSE: &str = r#"{
    "id":2717980333,
    "workspace_id":1819588,
    "project_id":28787086,
    "task_id":null,
    "billable":false,
    "start":"2022-11-06T18:03:48+00:00",
    "stop":null,
    "duration":-1667757828,
    "description":"Coding",
    "tags":null,
    "tag_ids":null,
    "duronly":false,
    "at":"2022-11-06T18:03:48+00:00",
    "server_deleted_at":null,
    "user_id":2626092,
    "uid":2626092,
    "wid":1819588,
    "pid":28787086
}"#;

#[test]
fn decode_entry_reads_a_real_response() {
    let e = decode_entry(CURRENT_RESPONSE.as_bytes()).unwrap();
    assert_eq!(e.id, 2717980333);
    assert_eq!(e.workspace_id, 1819588);
    assert_eq!(e.project_id, 28787086);
    assert_eq!(e.description, "Coding");
    assert_eq!(e.start, 1667757828);
    assert_eq!(e.stop, None);
    assert_eq!(e.duration, -1667757828);
}

#[test]
fn decode_entry_reads_a_stopped_entry() {
    let body = br#"{"id":1,"workspace_id":10,"project_id":5,"description":"Coding","start":"2022-11-06T18:03:48+00:00","stop":"2022-11-06T19:03:48+00:00","duration":3600}"#;
    let e = decode_entry(body).unwrap();
    assert_eq!(e.stop, Some(1667757828 + 3600));
    assert_eq!(e.duration, 3600);
}

#[test]
fn decode_entry_rejects_missing_fields() {
    let body = br#"{"id":1,"workspace_id":10}"#;
    assert!(matches!(decode_entry(body), Err(TogglError::DecodeFailure)));
}

#[test]
fn decode_entry_rejects_malformed_bodies() {
    assert!(matches!(decode_entry(b"not json"), Err(TogglError::DecodeFailure)));
    assert!(matches!(decode_entry(b"{"), Err(TogglError::DecodeFailure)));
    assert!(matches!(
        decode_entry(br#"{"id":1,"start":"not a date","workspace_id":10,"project_id":5,"description":"x","duration":-1}"#),
        Err(TogglError::DecodeFailure)
    ));
}

#[test]
fn decode_entry_unescapes_descriptions() {
    let body = r#"{"id":1,"workspace_id":10,"project_id":5,"description":"a \"b\" \\ \n A é","start":"2022-11-06T18:03:48+00:00","stop":null,"duration":-1}"#;
    let e = decode_entry(body.as_bytes()).unwrap();
    assert_eq!(e.description, "a \"b\" \\ \n A \u{e9}");
}

#[test]
fn decode_entry_rejects_lone_surrogate_escapes() {
    let body = br#"{"id":1,"workspace_id":10,"project_id":5,"description":"\ud800","start":"2022-11-06T18:03:48+00:00","stop":null,"duration":-1}"#;
    assert!(matches!(decode_entry(body), Err(TogglError::DecodeFailure)));
}

#[test]
fn current_entry_null_marker_is_not_an_error() {
    assert!(get_current_time_entry(b"null").unwrap().is_none());
    assert!(get_current_time_entry(b" null ").unwrap().is_none());
    assert!(get_current_time_entry(b"").unwrap().is_none());
}

#[test]
fn current_entry_decodes_a_running_entry() {
    let e = get_current_time_entry(CURRENT_RESPONSE.as_bytes()).unwrap().unwrap();
    assert_eq!(e.id, 2717980333);
}

#[test]
fn current_entry_rejects_garbage() {
    assert!(matches!(get_current_time_entry(b"nul"), Err(TogglError::DecodeFailure)));
}

#[test]
fn decode_entries_keeps_the_service_order() {
    let body = br#"[
        {"id":2,"workspace_id":10,"project_id":5,"description":"Later","start":"2022-11-06T10:00:00+00:00","stop":null,"duration":-1},
        {"id":1,"workspace_id":10,"project_id":5,"description":"Earlier","start":"2022-11-06T09:00:00+00:00","stop":"2022-11-06T10:00:00+00:00","duration":3600}
    ]"#;
    let es = decode_entries(body).unwrap();
    assert_eq!(es.len(), 2);
    assert_eq!(es[0].id, 2);
    assert_eq!(es[0].description, "Later");
    assert_eq!(es[1].id, 1);
    assert_eq!(es[1].stop, Some(1667728800));
}

#[test]
fn decode_entries_of_empty_list() {
    let es = decode_entries(b"[]").unwrap();
    assert_eq!(es.len(), 0);
}

#[test]
fn replace_body_holds_every_field() {
    let e = TimeEntry {
        id: 1,
        project_id: 5,
        workspace_id: 10,
        description: String::from("Coding"),
        start: 1667757828,
        stop: None,
        duration: -1,
    };
    let body = replace_body(&e).unwrap();
    assert_eq!(
        String::from_utf8(body).unwrap(),
        r#"{"id":1,"workspace_id":10,"project_id":5,"description":"Coding","start":"2022-11-06T18:03:48+00:00","stop":null,"duration":-1}"#
    );
}

#[test]
fn replace_body_round_trips_through_decode() {
    let e = TimeEntry {
        id: 42,
        project_id: 7,
        workspace_id: 10,
        description: String::from("quote \" backslash \\ tab \t caf\u{e9}"),
        start: 1667757828,
        stop: Some(1667761428),
        duration: 3600,
    };
    let body = replace_body(&e).unwrap();
    let back = decode_entry(&body).unwrap();
    assert!(back.eq_entry(&e));
}

#[test]
fn round_trip_witness_returns_an_equal_entry() {
    let e = TimeEntry {
        id: 9,
        project_id: 3,
        workspace_id: 2,
        description: String::from("Control \u{1} char and brace { } text"),
        start: 0,
        stop: Some(253402300799),
        duration: 1,
    };
    let back = replace_round_trip(&e).unwrap();
    assert!(back.eq_entry(&e));
    let mut bad = e;
    bad.start = -1;
    assert!(matches!(replace_round_trip(&bad), Err(TogglError::InvalidInput)));
}

#[test]
fn replace_body_rejects_unformattable_timestamps() {
    let mut e = TimeEntry {
        id: 1,
        project_id: 5,
        workspace_id: 10,
        description: String::new(),
        start: -1,
        stop: None,
        duration: 0,
    };
    assert!(matches!(replace_body(&e), Err(TogglError::InvalidInput)));
    e.start = 0;
    e.stop = Some(-5);
    assert!(matches!(replace_body(&e), Err(TogglError::InvalidInput)));
}

#[test]
fn start_request_carries_the_running_sentinel() {
    let (path, body) = start(10, 5, &String::from("Coding"), 1667757828).unwrap();
    assert_eq!(String::from_utf8(path).unwrap(), "workspaces/10/time_entries");
    assert_eq!(
        String::from_utf8(body).unwrap(),
        r#"{"billable":false,"created_with":"t-rs","description":"Coding","duration":-1,"project_id":5,"start":"2022-11-06T18:03:48+00:00","workspace_id":10}"#
    );
}

#[test]
fn start_request_rejects_unformattable_start() {
    assert!(matches!(start(10, 5, &String::from("x"), -1), Err(TogglError::InvalidInput)));
}

#[test]
fn request_paths_name_workspace_and_entry() {
    assert_eq!(String::from_utf8(current_entry_path()).unwrap(), "me/time_entries/current");
    assert_eq!(String::from_utf8(entries_path(1819588)).unwrap(), "workspaces/1819588/time_entries");
    assert_eq!(
        String::from_utf8(entry_path(1819588, 2717980333)).unwrap(),
        "workspaces/1819588/time_entries/2717980333"
    );
    assert_eq!(
        String::from_utf8(stop_path(1819588, 2717980333)).unwrap(),
        "workspaces/1819588/time_entries/2717980333/stop"
    );
}

#[test]
fn list_path_escapes_the_offsets() {
    let p = list_entries_path(1667692800, 1667757828).unwrap();
    assert_eq!(
        String::from_utf8(p).unwrap(),
        "me/time_entries?start_date=2022-11-06T00:00:00%2B00:00&end_date=2022-11-06T18:03:48%2B00:00"
    );
}

#[test]
fn decimal_renderings_are_exact() {
    assert_eq!(u64_to_dec(0), b"0");
    assert_eq!(u64_to_dec(90210), b"90210");
    assert_eq!(u64_to_dec(u64::MAX), b"18446744073709551615");
    assert_eq!(i64_to_dec(-1), b"-1");
    assert_eq!(i64_to_dec(i64::MIN), b"-9223372036854775808");
    assert_eq!(u64_to_string(0), "0");
    assert_eq!(u64_to_string(28787086), "28787086");
}

#[test]
fn decimal_parsing_inverts_rendering() {
    assert_eq!(parse_u64_at(b"90210,", 0), Some((90210, 5)));
    assert_eq!(parse_u64_at(b"18446744073709551615", 0), Some((u64::MAX, 20)));
    assert_eq!(parse_u64_at(b"18446744073709551616", 0), None);
    assert_eq!(parse_u64_at(b"x", 0), None);
    assert_eq!(parse_i64_at(b"-9223372036854775808", 0), Some((i64::MIN, 20)));
    assert_eq!(parse_i64_at(b"-9223372036854775809", 0), None);
}

const CONFIG_TEXT: &str = r#"{
    // the catalog this client offers
    "projects": [
        {
            "id": 5,
            "name": "Infra",
            "entries": ["Coding", "Meeting"],
            "workspace_id": 10
        },
        {
            "id": 7,
            "name": "Docs",
            "entries": ["Writing"],
            "workspace_id": 10
        }
    ]
}"#;

const CREDENTIALS_TEXT: &str = r#"{
    /* kept outside version control */
    "toggle_api_token": "SECRET-REDACTED"
}"#;

#[test]
fn load_reads_catalog_and_token() {
    let config = load(CONFIG_TEXT, CREDENTIALS_TEXT).unwrap();
    assert_eq!(config.projects.len(), 2);
    assert_eq!(config.projects[0].id, 5);
    assert_eq!(config.projects[0].name, "Infra");
    assert_eq!(config.projects[0].entries, vec!["Coding", "Meeting"]);
    assert_eq!(config.projects[0].workspace_id, 10);
    assert_eq!(config.projects[1].name, "Docs");
    assert_eq!(config.api_token, "SECRET-REDACTED");
}

#[test]
fn parse_rejects_malformed_configuration() {
    assert!(matches!(parse("{}", CREDENTIALS_TEXT), Err(TogglError::DecodeFailure)));
    assert!(matches!(parse(CONFIG_TEXT, "{}"), Err(TogglError::DecodeFailure)));
    assert!(matches!(
        parse(r#"{"projects": [{"id": 5}]}"#, CREDENTIALS_TEXT),
        Err(TogglError::DecodeFailure)
    ));
}

#[test]
fn selection_items_flatten_the_catalog_in_order() {
    let config = load(CONFIG_TEXT, CREDENTIALS_TEXT).unwrap();
    let (items, labels) = build_selection_items_from(&config);
    assert_eq!(items.len(), 3);
    assert_eq!(labels.len(), 3);
    assert_eq!(items[0].project_id, 5);
    assert_eq!(items[0].description, "Coding");
    assert_eq!(items[1].project_id, 5);
    assert_eq!(items[1].description, "Meeting");
    assert_eq!(items[2].project_id, 7);
    assert_eq!(items[2].description, "Writing");
    assert_eq!(labels[0], "Coding @ Infra");
    assert_eq!(labels[1], "Meeting @ Infra");
    assert_eq!(labels[2], "Writing @ Docs");
}

#[test]
fn selection_label_shape() {
    assert_eq!(
        format_selection_item(String::from("Infra"), String::from("Coding")),
        "Coding @ Infra"
    );
}

#[test]
fn project_name_lookup_falls_back_to_the_identifier() {
    let config = AppConfig {
        projects: vec![Project {
            id: 5,
            name: String::from("Infra"),
            entries: Vec::new(),
            workspace_id: 10,
        }],
        api_token: String::new(),
    };
    assert_eq!(get_project_name_by_id(5, &config), "Infra");
    assert_eq!(get_project_name_by_id(999, &config), "999");
}
