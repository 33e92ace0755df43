use task_manager::rest::error::TaskError;
use task_manager::rest::server::{BackendKind, ServerConfig, ServerError, ServerKind};

#[test]
fn categories_preserve_task_errors_and_sources() {
    let task = ServerError::from(TaskError::not_found(7));
    assert_eq!(task.task_error().and_then(TaskError::not_found_id), Some(7));

    let lifecycle = ServerError::lifecycle("serve", "listener closed");
    assert!(matches!(&lifecycle, ServerError::Lifecycle { source, .. } if source == "listener closed"));
    assert_eq!(lifecycle.message(), "server lifecycle serve failed: listener closed");

    let internal = ServerError::internal("compose", "worker failed");
    assert!(matches!(&internal, ServerError::Internal { source, .. } if source == "worker failed"));
    assert_eq!(internal.message(), "internal operation compose failed: worker failed");
    assert_eq!(task.message(), "task 7 was not found");
}

#[test]
fn server_defaults_are_axum_over_sqlite_on_localhost() {
    let config = ServerConfig::default();
    assert_eq!(config.server, ServerKind::Axum);
    assert_eq!(config.backend, BackendKind::Sqlite);
    assert_eq!(config.data, "tasks.db");
    assert_eq!((config.host.as_str(), config.port), ("127.0.0.1", 8000));
}
