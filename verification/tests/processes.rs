use removestaller::backend::{
    capture_result, exit_accepted, failure, privileged_result, process_error, spawn_error,
    Backend, BackendError, ListReport, Registry,
};
use removestaller::model::App;

#[test]
fn process_error_without_detail() {
    assert_eq!(process_error("snap remove x", "  \n").0, "snap remove x failed");
}

#[test]
fn process_error_with_trimmed_detail() {
    assert_eq!(
        process_error("npm uninstall y", "\n  not found \n").0,
        "npm uninstall y failed: not found"
    );
}

#[test]
fn failure_keeps_empty_detail() {
    assert_eq!(failure("flatpak list", "").0, "flatpak list failed: ");
}

#[test]
fn spawn_error_names_program() {
    assert_eq!(
        spawn_error("dpkg", "No such file or directory").0,
        "failed to run dpkg: No such file or directory"
    );
}

#[test]
fn exit_code_one_may_mean_nothing_found() {
    assert!(exit_accepted(true, Some(0), false));
    assert!(!exit_accepted(false, Some(1), false));
    assert!(exit_accepted(false, Some(1), true));
    assert!(!exit_accepted(false, Some(2), true));
    assert!(!exit_accepted(false, None, true));
}

#[test]
fn capture_result_errors_name_the_tool() {
    assert_eq!(
        capture_result("rpm", true, "ignored", "out".to_string()),
        Ok("out".to_string())
    );
    assert_eq!(
        capture_result("rpm", false, " broken db ", "out".to_string()),
        Err(BackendError("rpm failed: broken db".to_string()))
    );
}

#[test]
fn privileged_removal_outcomes() {
    assert_eq!(privileged_result(true, Some(0), "x"), Ok(()));
    assert_eq!(
        privileged_result(false, Some(126), "x"),
        Err(BackendError("removal failed or was cancelled".to_string()))
    );
    assert_eq!(
        privileged_result(false, Some(127), ""),
        Err(BackendError("removal failed or was cancelled".to_string()))
    );
    assert_eq!(
        privileged_result(false, Some(100), "E: Unable to locate package\n"),
        Err(BackendError(
            "privileged package removal failed: E: Unable to locate package".to_string()
        ))
    );
    assert_eq!(
        privileged_result(false, None, ""),
        Err(BackendError("privileged package removal failed".to_string()))
    );
}

struct Scripted {
    id: &'static str,
    present: bool,
    result: Result<Vec<App>, BackendError>,
}

impl Backend for Scripted {
    fn id(&self) -> &'static str {
        self.id
    }

    fn detect(&self) -> bool {
        self.present
    }

    fn list(&self) -> Result<Vec<App>, BackendError> {
        self.result.clone()
    }

    fn remove(&self, app: &App) -> Result<(), BackendError> {
        Err(BackendError(format!("{} cannot remove {}", self.id, app.id)))
    }
}

#[test]
fn a_failing_backend_hides_no_other_apps() {
    let mut registry = Registry::new();
    registry.add(Box::new(Scripted {
        id: "one",
        present: true,
        result: Ok(vec![App::new("a", "A", "one")]),
    }));
    registry.add(Box::new(Scripted {
        id: "two",
        present: true,
        result: Err(BackendError("down".to_string())),
    }));
    registry.add(Box::new(Scripted {
        id: "three",
        present: true,
        result: Ok(vec![App::new("b", "B", "three"), App::new("c", "C", "three")]),
    }));
    registry.add(Box::new(Scripted {
        id: "four",
        present: false,
        result: Ok(vec![App::new("d", "D", "four")]),
    }));
    let report = registry.list_all();
    let ids: Vec<&str> = report.apps.iter().map(|a| a.id.as_str()).collect();
    assert_eq!(ids, vec!["a", "b", "c"]);
    assert_eq!(report.failures.len(), 1);
    assert_eq!(report.failures[0].backend, "two");
    assert_eq!(report.failures[0].error, BackendError("down".to_string()));
    assert_eq!(registry.backend_ids(), vec!["one", "two", "three", "four"]);
    let available: Vec<&str> = registry.available().iter().map(|b| b.id()).collect();
    assert_eq!(available, vec!["one", "two", "three"]);
}

#[test]
fn remove_reports_unknown_backend() {
    let mut registry = Registry::new();
    registry.add(Box::new(Scripted { id: "one", present: true, result: Ok(Vec::new()) }));
    let err = registry.remove(&App::new("x", "X", "zzz")).unwrap_err();
    assert_eq!(err.0, "no backend for 'zzz'");
    let routed = registry.remove(&App::new("x", "X", "one")).unwrap_err();
    assert_eq!(routed.0, "one cannot remove x");
}

#[test]
fn report_from_results_in_order() {
    let report = ListReport::from_results(
        vec!["p", "q", "r"],
        vec![
            Err(BackendError("e1".to_string())),
            Ok(vec![App::new("x", "X", "q")]),
            Err(BackendError("e2".to_string())),
        ],
    );
    assert_eq!(report.apps.len(), 1);
    assert_eq!(report.failures.len(), 2);
    assert_eq!(report.failures[0].backend, "p");
    assert_eq!(report.failures[1].backend, "r");
    assert_eq!(report.failures[1].error.0, "e2");
    let empty = ListReport::from_results(Vec::new(), Vec::new());
    assert_eq!(empty, ListReport::default());
}

#[test]
fn default_registry_is_empty() {
    let registry: Registry<Scripted> = Registry::default();
    assert!(registry.backend_ids().is_empty());
    assert!(registry.list_all().apps.is_empty());
    let err = registry.remove(&App::new("x", "X", "one")).unwrap_err();
    assert_eq!(err.0, "no backend for 'one'");
}

struct Renamed {
    calls: std::sync::atomic::AtomicUsize,
}

impl Backend for Renamed {
    fn id(&self) -> &'static str {
        let n = self.calls.fetch_add(1, std::sync::atomic::Ordering::SeqCst);
        if n == 0 {
            "first"
        } else {
            "later"
        }
    }

    fn detect(&self) -> bool {
        true
    }

    fn list(&self) -> Result<Vec<App>, BackendError> {
        Err(BackendError("down".to_string()))
    }

    fn remove(&self, _app: &App) -> Result<(), BackendError> {
        Ok(())
    }
}

#[test]
fn identifiers_are_asked_when_needed() {
    let mut registry = Registry::new();
    registry.add(Box::new(Renamed { calls: std::sync::atomic::AtomicUsize::new(0) }));
    let report = registry.list_all();
    assert_eq!(report.failures[0].backend, "first");
    assert!(registry.remove(&App::new("x", "X", "later")).is_ok());
    assert!(registry.remove(&App::new("x", "X", "first")).is_err());
}
