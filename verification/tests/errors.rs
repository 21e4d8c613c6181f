use buildy::error::{BuildLoopError, RunSignal, SanityCheckError};
use buildy::target::{default_true, RunOptions, WatchPathOptions};

#[test]
fn sanity_check_errors_have_messages() {
    assert_eq!(
        SanityCheckError::DependencyNotFound("api").message(),
        "Dependency api not found."
    );
    assert_eq!(
        SanityCheckError::DependencyLoop(vec!["api"]).message(),
        "Dependency loop: [api]"
    );
    assert_eq!(
        SanityCheckError::DependencyLoop(vec!["api", "web", "db"]).message(),
        "Dependency loop: [api, web, db]"
    );
    assert_eq!(
        SanityCheckError::DependencyLoop(Vec::new()).message(),
        "Dependency loop: []"
    );
}

#[test]
fn build_loop_errors_have_messages() {
    assert_eq!(
        BuildLoopError::BuildFailed("api").message(),
        "Build failed for target api"
    );
    assert_eq!(
        BuildLoopError::UnspecifiedChannelError.message(),
        "Unknown channel parllelism failure"
    );
    assert_eq!(
        BuildLoopError::SendError(RunSignal::Kill).message(),
        "Failed to send run signal 'KILL' to running process"
    );
    assert_eq!(
        BuildLoopError::RecvError("closed".to_string()).message(),
        "Channel receive failure: closed"
    );
    assert_eq!(
        BuildLoopError::WatcherSetupError("no inotify".to_string()).message(),
        "Watcher setup error: no inotify"
    );
    assert_eq!(
        BuildLoopError::WatcherPathError("src", "not found".to_string()).message(),
        "File watch error: src: not found"
    );
    assert_eq!(
        BuildLoopError::CwdIOError("gone".to_string()).message(),
        "IO Error while getting current directory: gone"
    );
    assert_eq!(
        BuildLoopError::CwdUtf8Error.message(),
        "Current directory was not valid utf-8"
    );
}

#[test]
fn run_signal_has_a_message() {
    assert_eq!(RunSignal::Kill.message(), "KILL");
}

#[test]
fn options_default_to_incremental_builds() {
    assert!(default_true());
    assert!(RunOptions::default().incremental);
    assert_eq!(
        RunOptions::default().watch_path_options,
        WatchPathOptions::default()
    );
    assert!(WatchPathOptions::default().non_incremental_list.is_empty());
}
