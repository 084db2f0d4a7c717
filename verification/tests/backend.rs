use removestaller::backend::{Backend, BackendError, BackendFailure, Registry};
use removestaller::model::App;

struct FakeBackend {
    present: bool,
    apps: Vec<App>,
}

impl Backend for FakeBackend {
    fn id(&self) -> &'static str {
        "fake"
    }

    fn detect(&self) -> bool {
        self.present
    }

    fn list(&self) -> Result<Vec<App>, BackendError> {
        Ok(self.apps.clone())
    }

    fn remove(&self, _app: &App) -> Result<(), BackendError> {
        Ok(())
    }
}

#[test]
fn registry_filters_unavailable_backends() {
    let mut registry = Registry::new();
    registry.add(Box::new(FakeBackend {
        present: false,
        apps: vec![App::new("hidden", "Hidden", "fake")],
    }));
    registry.add(Box::new(FakeBackend {
        present: true,
        apps: vec![App::new("shown", "Shown", "fake")],
    }));

    assert_eq!(registry.available().len(), 1);

    let report = registry.list_all();
    assert_eq!(report.apps.len(), 1);
    assert_eq!(report.apps[0].id, "shown");
    assert!(report.failures.is_empty());
}

#[test]
fn remove_routes_to_owning_backend() {
    let mut registry = Registry::new();
    registry.add(Box::new(FakeBackend {
        present: true,
        apps: Vec::new(),
    }));

    let app = App::new("x", "X", "fake");
    assert!(registry.remove(&app).is_ok());

    let unknown = App::new("y", "Y", "missing");
    assert!(registry.remove(&unknown).is_err());
}

struct FailingBackend;

impl Backend for FailingBackend {
    fn id(&self) -> &'static str {
        "broken"
    }

    fn detect(&self) -> bool {
        true
    }

    fn list(&self) -> Result<Vec<App>, BackendError> {
        Err(BackendError("test failure".to_string()))
    }

    fn remove(&self, _app: &App) -> Result<(), BackendError> {
        Ok(())
    }
}

#[test]
fn list_report_preserves_backend_failures() {
    let mut registry = Registry::new();
    registry.add(Box::new(FailingBackend));

    let report = registry.list_all();
    assert_eq!(
        report.failures,
        vec![BackendFailure {
            backend: "broken",
            error: BackendError("test failure".to_string()),
        }]
    );
}
