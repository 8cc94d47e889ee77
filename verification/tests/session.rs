use tv::session::Task;

#[test]
fn compiles_reports_and_waits() {
    let mut task = Task::Read;
    for expected in [
        Task::Compile,
        Task::Watch { ready: true },
        Task::Report { ready: true },
        Task::Wait,
        Task::Read,
    ] {
        task = task.next(true);
        assert_eq!(task, expected);
    }
}

#[test]
fn failures_are_reported_and_watched() {
    for task in [Task::Read, Task::Compile] {
        let next = task.next(false);
        assert_eq!(next, Task::Watch { ready: false });
        assert_eq!(next.next(true), Task::Report { ready: false });
        assert_eq!(next.next(true).next(true), Task::Wait);
    }
}

#[test]
fn watching_failures_are_fatal() {
    assert_eq!(Task::Watch { ready: true }.next(false), Task::Abort);
    assert_eq!(Task::Wait.next(false), Task::Abort);
    assert_eq!(Task::Abort.next(true), Task::Abort);
}

#[test]
fn unheard_reports_end_the_session() {
    assert_eq!(Task::Report { ready: true }.next(false), Task::Finish);
    assert_eq!(Task::Finish.next(true), Task::Finish);
}
