use toggl_timer::domain::{parse_time, shift, status, StatusReport};
use toggl_timer::entry::TimeEntry;
use toggl_timer::toggl::{check_stopped, stop, swap, SwapAction, TogglError};

fn sample_entry() -> TimeEntry {
    TimeEntry {
        id: 1,
        project_id: 5,
        workspace_id: 10,
        description: String::from("Coding"),
        start: 1667757828,
        stop: None,
        duration: -1,
    }
}

#[test]
fn set_project_id_replaces_only_that_field() {
    let e = sample_entry();
    let r = e.set_project_id(7);
    assert_eq!(r.project_id, 7);
    assert_eq!(r.id, e.id);
    assert_eq!(r.workspace_id, e.workspace_id);
    assert_eq!(r.description, e.description);
    assert_eq!(r.start, e.start);
    assert_eq!(r.stop, e.stop);
    assert_eq!(r.duration, e.duration);
}

#[test]
fn set_description_replaces_only_that_field() {
    let e = sample_entry();
    let r = e.set_description(String::from("Meeting"));
    assert_eq!(r.description, "Meeting");
    assert_eq!(r.id, e.id);
    assert_eq!(r.project_id, e.project_id);
    assert_eq!(r.workspace_id, e.workspace_id);
    assert_eq!(r.start, e.start);
    assert_eq!(r.stop, e.stop);
    assert_eq!(r.duration, e.duration);
}

#[test]
fn set_start_replaces_only_that_field() {
    let e = sample_entry();
    let r = e.set_start(1667750000);
    assert_eq!(r.start, 1667750000);
    assert_eq!(r.id, e.id);
    assert_eq!(r.project_id, e.project_id);
    assert_eq!(r.workspace_id, e.workspace_id);
    assert_eq!(r.description, e.description);
    assert_eq!(r.stop, e.stop);
    assert_eq!(r.duration, e.duration);
}

#[test]
fn eq_entry_is_structural() {
    let e = sample_entry();
    assert!(e.eq_entry(&e.duplicate()));
    assert!(!e.eq_entry(&e.set_project_id(7)));
    assert!(!e.eq_entry(&e.set_description(String::from("Other"))));
    assert!(!e.eq_entry(&e.set_start(0)));
}

#[test]
fn stop_with_nothing_running_fails_without_a_call() {
    let r = stop(None);
    assert!(matches!(r, Err(TogglError::NoRunningEntry)));
}

#[test]
fn stop_with_running_entry_names_it() {
    let e = sample_entry();
    let r = stop(Some(e.duplicate())).unwrap();
    assert!(r.eq_entry(&e));
}

#[test]
fn check_stopped_rejects_missing_stop_time() {
    let e = sample_entry();
    assert!(matches!(check_stopped(e), Err(TogglError::DecodeFailure)));
    let mut done = sample_entry();
    done.stop = Some(1667760000);
    let r = check_stopped(done).unwrap();
    assert_eq!(r.stop, Some(1667760000));
}

#[test]
fn swap_with_nothing_running_fails() {
    let r = swap(None, 5, String::from("Coding"));
    assert!(matches!(r, Err(TogglError::NoRunningEntry)));
}

#[test]
fn swap_with_identical_values_issues_no_call() {
    let e = sample_entry();
    let r = swap(Some(e), 5, String::from("Coding")).unwrap();
    assert!(matches!(r, SwapAction::AlreadyRunning));
}

#[test]
fn swap_with_new_values_issues_one_replace() {
    let e = sample_entry();
    let r = swap(Some(e), 7, String::from("Meeting")).unwrap();
    match r {
        SwapAction::Replace(d) => {
            assert_eq!(d.project_id, 7);
            assert_eq!(d.description, "Meeting");
            assert_eq!(d.id, 1);
            assert_eq!(d.workspace_id, 10);
            assert_eq!(d.start, 1667757828);
            assert_eq!(d.stop, None);
            assert_eq!(d.duration, -1);
        },
        SwapAction::AlreadyRunning => panic!("expected a replace"),
    }
}

#[test]
fn swap_applied_twice_issues_exactly_one_mutation() {
    let e = sample_entry();
    let first = swap(Some(e), 7, String::from("Meeting")).unwrap();
    let installed = match first {
        SwapAction::Replace(d) => d,
        SwapAction::AlreadyRunning => panic!("first swap must issue the replace"),
    };
    let second = swap(Some(installed), 7, String::from("Meeting")).unwrap();
    assert!(matches!(second, SwapAction::AlreadyRunning));
}

#[test]
fn status_with_nothing_running_never_fails() {
    let config = toggl_timer::config::AppConfig { projects: Vec::new(), api_token: String::new() };
    let r = status(None, &config, 1667757828);
    assert!(matches!(r, StatusReport::NothingRunning));
}

#[test]
fn status_reports_elapsed_and_project() {
    let config = toggl_timer::config::AppConfig {
        projects: vec![toggl_timer::config::Project {
            id: 5,
            name: String::from("Infra"),
            entries: vec![String::from("Coding")],
            workspace_id: 10,
        }],
        api_token: String::from("SECRET-REDACTED"),
    };
    let e = sample_entry();
    match status(Some(e), &config, 1667757828 + 125) {
        StatusReport::Running { description, project_name, project_known, elapsed } => {
            assert_eq!(description, "Coding");
            assert_eq!(project_name, "Infra");
            assert!(project_known);
            assert_eq!(elapsed, 125);
        },
        StatusReport::NothingRunning => panic!("an entry is running"),
    }
}

#[test]
fn status_falls_back_to_raw_identifier() {
    let config = toggl_timer::config::AppConfig { projects: Vec::new(), api_token: String::new() };
    let e = sample_entry();
    match status(Some(e), &config, 1667757828) {
        StatusReport::Running { project_name, project_known, .. } => {
            assert_eq!(project_name, "5");
            assert!(!project_known);
        },
        StatusReport::NothingRunning => panic!("an entry is running"),
    }
}

const DAY: i64 = 1667692800; // midnight of the day used by the time tests

#[test]
fn parse_time_accepts_both_spellings() {
    let a = parse_time("0930", DAY).unwrap();
    let b = parse_time("09:30", DAY).unwrap();
    assert_eq!(a, b);
    assert_eq!(a, DAY + 9 * 3600 + 30 * 60);
}

#[test]
fn parse_time_rejects_short_form() {
    assert!(matches!(parse_time("9:3", DAY), Err(TogglError::InvalidInput)));
}

#[test]
fn parse_time_rejects_out_of_range_hour() {
    assert!(matches!(parse_time("25:00", DAY), Err(TogglError::InvalidInput)));
}

#[test]
fn parse_time_rejects_out_of_range_minute() {
    assert!(matches!(parse_time("09:60", DAY), Err(TogglError::InvalidInput)));
    assert!(matches!(parse_time("", DAY), Err(TogglError::InvalidInput)));
    assert!(matches!(parse_time("ab:cd", DAY), Err(TogglError::InvalidInput)));
}

#[test]
fn shift_rejects_start_past_stop() {
    let mut target = sample_entry();
    target.start = DAY + 9 * 3600; // 09:00
    target.stop = Some(DAY + 10 * 3600); // 10:00
    let r = shift(&target, DAY + 10 * 3600 + 30 * 60, DAY + 12 * 3600);
    assert!(matches!(r, Err(TogglError::InvalidShift)));
}

#[test]
fn shift_moves_only_the_start() {
    let mut target = sample_entry();
    target.start = DAY + 9 * 3600;
    target.stop = Some(DAY + 10 * 3600);
    let d = shift(&target, DAY + 9 * 3600 + 15 * 60, DAY + 12 * 3600).unwrap();
    assert_eq!(d.start, DAY + 9 * 3600 + 15 * 60);
    assert_eq!(d.id, target.id);
    assert_eq!(d.project_id, target.project_id);
    assert_eq!(d.workspace_id, target.workspace_id);
    assert_eq!(d.description, target.description);
    assert_eq!(d.stop, target.stop);
    assert_eq!(d.duration, target.duration);
}

#[test]
fn shift_of_running_entry_is_bounded_by_now() {
    let target = sample_entry(); // stop: None
    let now = target.start + 600;
    assert!(matches!(shift(&target, now, now), Err(TogglError::InvalidShift)));
    let d = shift(&target, now - 60, now).unwrap();
    assert_eq!(d.start, now - 60);
}

#[test]
fn error_messages_name_the_failure() {
    assert_eq!(TogglError::NoRunningEntry.message(), "No running time entry found");
    assert_eq!(
        TogglError::TransportFailure(String::from("timed out")).message(),
        "Call to the service failed: timed out"
    );
    assert_eq!(TogglError::DecodeFailure.message(), "Response from the service did not decode");
    assert_eq!(TogglError::InvalidInput.message(), "Input not understood");
    assert_eq!(
        TogglError::InvalidShift.message(),
        "Shift would erase the target entry's interval"
    );
}
