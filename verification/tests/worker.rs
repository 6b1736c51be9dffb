use std::sync::Arc;

use drakkar::builder::{object_path_for, Language, ObjectFile, SourceFile};
use drakkar::config::{BuildProfile, ProjectConfig};
use drakkar::error::BuildError;
use drakkar::oracle::{FileStamp, InputStamp, Snapshot, Timestamp};
use drakkar::platform::{cancel, is_cancelled, CancelToken};
use drakkar::worker::{
    note_result, progress_line, worker_action, ActiveChildren, KillTarget, Observed, WorkerAction,
    WorkerPool,
};

#[test]
fn test_active_children_add_remove() {
    let mut ac = ActiveChildren::new();
    ac.add(1234);
    ac.add(5678);
    {
        assert!(ac.contains(1234));
        assert!(ac.contains(5678));
    }
    ac.remove(1234);
    {
        assert!(!ac.contains(1234));
        assert!(ac.contains(5678));
    }
}

#[test]
fn active_children_hold_no_pid_twice() {
    let mut ac = ActiveChildren::new();
    assert!(ac.is_empty());
    ac.add(7);
    ac.add(7);
    ac.add(9);
    assert_eq!(ac.len(), 2);
    ac.remove(7);
    assert!(!ac.contains(7));
    assert_eq!(ac.len(), 1);
    ac.remove(7);
    ac.remove(42);
    assert_eq!(ac.len(), 1);
    ac.remove(9);
    assert!(ac.is_empty());
}

#[test]
fn active_children_are_empty_when_every_child_has_ended() {
    let mut ac = ActiveChildren::new();
    ac.add(1);
    ac.add(2);
    ac.remove(1);
    ac.add(3);
    ac.add(1);
    ac.remove(3);
    ac.remove(2);
    ac.remove(1);
    assert!(ac.is_empty());
    assert_eq!(ac.kill_all(false), Vec::<KillTarget>::new());
}

#[test]
fn kill_all_targets_every_child_once() {
    let mut ac = ActiveChildren::new();
    ac.add(30);
    ac.add(10);
    ac.add(20);
    ac.remove(10);
    let processes = ac.kill_all(false);
    assert_eq!(processes.len(), 2);
    assert!(processes.contains(&KillTarget::Process(30)));
    assert!(processes.contains(&KillTarget::Process(20)));
    let groups = ac.kill_all(true);
    assert_eq!(groups.len(), 2);
    assert!(groups.contains(&KillTarget::Group(30)));
    assert!(groups.contains(&KillTarget::Group(20)));
    assert_eq!(ac.len(), 2);
}

fn object(rel: &str) -> ObjectFile {
    let src = SourceFile {
        path: format!("src/{}", rel),
        rel_path: String::from(rel),
        language: Language::Cpp,
    };
    object_path_for(&src, &ProjectConfig::default())
}

fn fresh(rel: &str) -> Observed {
    Observed {
        object: object(rel),
        seen: Snapshot {
            object: FileStamp::Modified(Timestamp { secs: 100, nanos: 0 }),
            manifest: Some(format!("{}.o: src/{}", rel, rel)),
            inputs: vec![InputStamp {
                path: format!("src/{}", rel),
                stamp: FileStamp::Modified(Timestamp { secs: 50, nanos: 0 }),
            }],
        },
    }
}

fn stale(rel: &str) -> Observed {
    Observed {
        object: object(rel),
        seen: Snapshot { object: FileStamp::Missing, manifest: None, inputs: Vec::new() },
    }
}

fn pool(jobs: usize, aggregate: bool) -> WorkerPool {
    let mut cfg = ProjectConfig::default();
    cfg.parallel_jobs = jobs;
    WorkerPool::new(Arc::new(cfg), BuildProfile::Debug, vec![String::from("-DX")], false, aggregate)
}

fn failure_of(rel: &str) -> BuildError {
    BuildError::CompileError {
        src: format!("src/{}", rel),
        stderr: String::from("error"),
        code: Some(1),
    }
}

fn paths(objects: &[ObjectFile]) -> Vec<String> {
    objects.iter().map(|o| o.src.rel_path.clone()).collect()
}

#[test]
fn new_pool_holds_what_it_was_given() {
    let p = pool(4, true);
    assert_eq!(p.config.parallel_jobs, 4);
    assert_eq!(p.profile, BuildProfile::Debug);
    assert_eq!(*p.extra_flags, vec![String::from("-DX")]);
    assert!(!p.verbose);
    assert!(p.aggregate);
    assert!(p.active_children.is_empty());
}

#[test]
fn worker_count_is_bounded_by_jobs_and_tasks() {
    assert_eq!(pool(8, false).worker_count(3), 3);
    assert_eq!(pool(2, false).worker_count(5), 2);
    assert_eq!(pool(4, false).worker_count(4), 4);
    assert_eq!(pool(0, false).worker_count(5), 1);
    assert_eq!(pool(8, false).worker_count(0), 0);
    assert_eq!(pool(0, false).worker_count(0), 0);
}

#[test]
fn plan_splits_stale_from_up_to_date() {
    let tasks = vec![stale("a.cpp"), fresh("b.cpp"), stale("c.cpp"), fresh("d.cpp")];
    let run = pool(2, false).plan(&tasks);
    assert_eq!(paths(run.tasks()), vec!["a.cpp", "c.cpp"]);
    assert_eq!(run.pending(), 2);
    assert!(run.is_collecting());
}

#[test]
fn plan_compiles_everything_when_not_incremental() {
    let mut cfg = ProjectConfig::default();
    cfg.incremental = false;
    let p = WorkerPool::new(Arc::new(cfg), BuildProfile::Debug, Vec::new(), false, false);
    let run = p.plan(&vec![fresh("a.cpp"), fresh("b.cpp")]);
    assert_eq!(run.pending(), 2);
}

#[test]
fn run_without_stale_tasks_succeeds_at_once() {
    let run = pool(2, false).plan(&vec![fresh("a.cpp"), fresh("b.cpp")]);
    assert_eq!(run.pending(), 0);
    assert!(!run.is_collecting());
    let (objects, count) = run.finish(false).unwrap();
    assert_eq!(paths(&objects), vec!["a.cpp", "b.cpp"]);
    assert_eq!(count, 0);
    let again = pool(2, false).plan(&vec![fresh("a.cpp")]);
    assert!(again.finish(true).is_ok());
}

#[test]
fn successful_run_returns_compiled_then_up_to_date() {
    let tasks = vec![stale("a.cpp"), fresh("b.cpp"), stale("c.cpp")];
    let mut run = pool(2, false).plan(&tasks);
    assert!(!run.record(Ok(object("c.cpp"))));
    assert!(run.is_collecting());
    assert!(!run.record(Ok(object("a.cpp"))));
    assert!(!run.is_collecting());
    let (objects, count) = run.finish(false).unwrap();
    assert_eq!(paths(&objects), vec!["c.cpp", "a.cpp", "b.cpp"]);
    assert_eq!(count, 2);
}

#[test]
fn fail_fast_stops_at_the_first_error() {
    let tasks = vec![stale("a.cpp"), stale("b.cpp"), stale("c.cpp")];
    let mut run = pool(3, false).plan(&tasks);
    assert!(!run.record(Ok(object("a.cpp"))));
    assert!(run.record(Err(failure_of("b.cpp"))));
    assert!(!run.is_collecting());
    assert!(!run.record(Err(failure_of("c.cpp"))));
    match run.finish(true) {
        Err(BuildError::CompileError { src, .. }) => assert_eq!(src, "src/b.cpp"),
        other => panic!("expected the first compile error, got {:?}", other),
    }
}

#[test]
fn aggregate_collects_every_error() {
    let tasks = vec![stale("a.cpp"), stale("b.cpp"), stale("c.cpp")];
    let mut run = pool(3, true).plan(&tasks);
    assert!(!run.record(Err(failure_of("b.cpp"))));
    assert!(run.is_collecting());
    assert!(!run.record(Ok(object("a.cpp"))));
    assert!(!run.record(Err(failure_of("c.cpp"))));
    assert!(!run.is_collecting());
    match run.finish(false) {
        Err(BuildError::MultipleErrors(errors)) => {
            assert_eq!(errors.len(), 2);
            assert!(matches!(&errors[0], BuildError::CompileError { src, .. } if src == "src/b.cpp"));
            assert!(matches!(&errors[1], BuildError::CompileError { src, .. } if src == "src/c.cpp"));
        }
        other => panic!("expected several errors, got {:?}", other),
    }
}

#[test]
fn aggregate_with_one_error_returns_it_unwrapped() {
    let mut run = pool(2, true).plan(&vec![stale("a.cpp"), stale("b.cpp")]);
    assert!(!run.record(Ok(object("a.cpp"))));
    assert!(!run.record(Err(failure_of("b.cpp"))));
    assert!(matches!(run.finish(false), Err(BuildError::CompileError { .. })));
}

#[test]
fn cancelled_run_without_error_is_cancelled() {
    let mut run = pool(2, false).plan(&vec![stale("a.cpp"), stale("b.cpp")]);
    assert!(!run.record(Ok(object("a.cpp"))));
    run.disconnect();
    assert!(!run.is_collecting());
    assert!(matches!(run.finish(true), Err(BuildError::Cancelled)));
}

#[test]
fn recorded_error_outranks_cancellation() {
    let mut run = pool(2, true).plan(&vec![stale("a.cpp"), stale("b.cpp")]);
    assert!(!run.record(Err(failure_of("a.cpp"))));
    run.disconnect();
    assert!(matches!(run.finish(true), Err(BuildError::CompileError { .. })));
}

#[test]
fn run_whose_workers_went_away_links_what_was_compiled() {
    let mut run = pool(2, false).plan(&vec![stale("a.cpp"), stale("b.cpp"), fresh("c.cpp")]);
    assert!(!run.record(Ok(object("b.cpp"))));
    run.disconnect();
    let (objects, count) = run.finish(false).unwrap();
    assert_eq!(paths(&objects), vec!["b.cpp", "c.cpp"]);
    assert_eq!(count, 1);
}

#[test]
fn worker_action_cases() {
    assert!(matches!(worker_action(None, false), WorkerAction::Stop));
    assert!(matches!(worker_action(None, true), WorkerAction::Stop));
    assert!(matches!(worker_action(Some(object("a.cpp")), true), WorkerAction::Stop));
    match worker_action(Some(object("a.cpp")), false) {
        WorkerAction::Compile(o) => assert_eq!(o.obj_path, "target/a.o"),
        other => panic!("expected a task, got {:?}", other),
    }
}

#[test]
fn progress_line_text() {
    assert_eq!(progress_line(1, 3, "math/utils.cpp"), "Compiling [1/3] math/utils.cpp");
    assert_eq!(progress_line(20, 20, "mod19.cpp"), "Compiling [20/20] mod19.cpp");
    assert_eq!(progress_line(0, 0, ""), "Compiling [0/0] ");
}

#[test]
fn run_over_the_results_of_the_workers() {
    let tasks = vec![stale("a.cpp"), fresh("b.cpp"), stale("c.cpp")];
    let results = vec![Ok(object("c.cpp")), Ok(object("a.cpp"))];
    let mut token = CancelToken::new();
    let (objects, count) = pool(2, false).run(&tasks, results, &mut token).unwrap();
    assert_eq!(paths(&objects), vec!["c.cpp", "a.cpp", "b.cpp"]);
    assert_eq!(count, 2);
    assert!(!is_cancelled(&token));
}

#[test]
fn run_under_fail_fast_takes_no_notice_of_later_results() {
    let tasks = vec![stale("a.cpp"), stale("b.cpp"), stale("c.cpp")];
    let results = vec![Err(failure_of("b.cpp")), Err(failure_of("a.cpp")), Ok(object("c.cpp"))];
    let mut token = CancelToken::new();
    match pool(3, false).run(&tasks, results, &mut token) {
        Err(BuildError::CompileError { src, .. }) => assert_eq!(src, "src/b.cpp"),
        other => panic!("expected the first compile error, got {:?}", other),
    }
    assert!(is_cancelled(&token));
}

#[test]
fn run_under_aggregate_reports_every_failure() {
    let tasks = vec![stale("a.cpp"), stale("b.cpp"), stale("c.cpp")];
    let results = vec![Err(failure_of("b.cpp")), Err(failure_of("a.cpp")), Ok(object("c.cpp"))];
    let mut token = CancelToken::new();
    match pool(3, true).run(&tasks, results, &mut token) {
        Err(BuildError::MultipleErrors(errors)) => assert_eq!(errors.len(), 2),
        other => panic!("expected several errors, got {:?}", other),
    }
    assert!(!is_cancelled(&token));
}

#[test]
fn run_takes_no_more_results_than_it_has_tasks() {
    let tasks = vec![stale("a.cpp"), fresh("b.cpp")];
    let results = vec![Ok(object("a.cpp")), Ok(object("x.cpp")), Err(failure_of("y.cpp"))];
    let mut token = CancelToken::new();
    let (objects, count) = pool(2, true).run(&tasks, results, &mut token).unwrap();
    assert_eq!(paths(&objects), vec!["a.cpp", "b.cpp"]);
    assert_eq!(count, 1);
}

#[test]
fn run_that_is_cancelled_before_every_result_arrived() {
    let tasks = vec![stale("a.cpp"), stale("b.cpp")];
    let mut token = CancelToken::new();
    cancel(&mut token);
    let r = pool(2, false).run(&tasks, vec![Ok(object("a.cpp"))], &mut token);
    assert!(matches!(r, Err(BuildError::Cancelled)));
    let r = pool(2, false).run(&tasks, Vec::new(), &mut token);
    assert!(matches!(r, Err(BuildError::Cancelled)));
    assert!(is_cancelled(&token));
}

#[test]
fn run_with_a_deleted_header_compiles_that_task() {
    let mut gone = fresh("a.cpp");
    gone.seen.manifest = Some(String::from("a.o: src/a.cpp src/gone.h"));
    gone.seen.inputs.push(InputStamp { path: String::from("src/gone.h"), stamp: FileStamp::Missing });
    let tasks = vec![gone, fresh("b.cpp")];
    let p = pool(2, false);
    assert_eq!(paths(p.plan(&tasks).tasks()), vec!["a.cpp"]);
    let mut token = CancelToken::new();
    let (objects, count) = p.run(&tasks, vec![Ok(object("a.cpp"))], &mut token).unwrap();
    assert_eq!(paths(&objects), vec!["a.cpp", "b.cpp"]);
    assert_eq!(count, 1);
}

#[test]
fn a_failure_under_fail_fast_cancels_the_build_at_the_worker() {
    let mut token = CancelToken::new();
    note_result(&Ok(object("a.cpp")), false, &mut token);
    assert!(!is_cancelled(&token));
    note_result(&Err(failure_of("a.cpp")), true, &mut token);
    assert!(!is_cancelled(&token));
    note_result(&Err(failure_of("a.cpp")), false, &mut token);
    assert!(is_cancelled(&token));
    note_result(&Ok(object("b.cpp")), false, &mut token);
    assert!(is_cancelled(&token));
    assert!(matches!(worker_action(Some(object("c.cpp")), is_cancelled(&token)), WorkerAction::Stop));
}
