use ges_mapreleaser::error::{FullcheckError, ScriptError};
use ges_mapreleaser::orchestrator::{finished, Run, Task, TaskState};
use ges_mapreleaser::shared::{check_all_files_in_dir_with_func, has_extension, ScriptFile};

#[test]
fn reslist_of_a_release_waits_for_both_scripts() {
    let mut run = Run::new(false);
    assert!(run.may_start(Task::MapScript));
    assert!(run.may_start(Task::MusicScript));
    assert!(!run.may_start(Task::Reslist));
    assert!(!run.start(Task::Reslist));
    assert_eq!(run.state(Task::Reslist), TaskState::Waiting);

    assert!(run.start(Task::MapScript));
    assert!(!run.start(Task::MapScript));
    assert!(run.start(Task::MusicScript));
    assert!(!run.may_start(Task::Reslist));
    assert!(run.finish(Task::MusicScript, true));
    assert!(!run.finish(Task::MusicScript, false));
    assert_eq!(run.state(Task::MusicScript), TaskState::Failed);
    assert!(!run.may_start(Task::Reslist));
    assert_eq!(run.exit_code(), None);

    assert!(run.finish(Task::MapScript, false));
    assert!(run.may_start(Task::Reslist));
    assert!(!run.is_complete());
    assert!(run.start(Task::Reslist));
    assert_eq!(run.exit_code(), None);
    assert!(run.finish(Task::Reslist, true));
    assert!(run.is_complete());
    assert_eq!(run.exit_code(), Some(12));
}

#[test]
fn tasks_of_a_fullcheck_do_not_wait() {
    let mut run = Run::new(true);
    assert!(run.start(Task::Reslist));
    assert!(run.start(Task::MusicScript));
    assert!(run.start(Task::MapScript));
    assert!(run.finish(Task::Reslist, false));
    assert!(run.finish(Task::MapScript, true));
    assert!(run.finish(Task::MusicScript, false));
    assert_eq!(run.exit_code(), Some(2));
    assert!(finished(TaskState::Passed) && finished(TaskState::Failed));
    assert!(!finished(TaskState::Waiting) && !finished(TaskState::Running));
}

#[test]
fn a_task_that_has_not_started_cannot_end() {
    let mut run = Run::new(false);
    assert!(!run.finish(Task::MapScript, false));
    assert_eq!(run.state(Task::MapScript), TaskState::Waiting);
    assert!(run.start(Task::MapScript));
    assert!(run.finish(Task::MapScript, false));
    assert_eq!(run.state(Task::MapScript), TaskState::Passed);
    assert!(!run.start(Task::MapScript));
}

#[test]
fn sweep_checks_the_files_with_the_given_function() {
    let files = vec![
        ScriptFile { path: String::from("a.cfg"), contents: String::from("good") },
        ScriptFile { path: String::from("b.txt"), contents: String::from("bad") },
        ScriptFile { path: String::from("c.CFG"), contents: String::from("good") },
        ScriptFile { path: String::from("d.cfg"), contents: String::from("bad") },
        ScriptFile { path: String::from("e.cfg"), contents: String::from("worse") },
    ];
    let check = |contents: &String| {
        if contents == "good" {
            Ok(())
        } else {
            Err(ScriptError::NotMp3 { path: contents.clone() })
        }
    };
    match check_all_files_in_dir_with_func(&files, "cfg", check) {
        Err(FullcheckError::File { path, error }) => {
            assert_eq!(path, "d.cfg");
            match error {
                ScriptError::NotMp3 { path } => assert_eq!(path, "bad"),
                other => panic!("wrong fault: {:?}", other),
            }
        }
        other => panic!("wrong result: {:?}", other),
    }
    let first_three = vec![
        ScriptFile { path: String::from("a.cfg"), contents: String::from("good") },
        ScriptFile { path: String::from("b.txt"), contents: String::from("bad") },
        ScriptFile { path: String::from("c.CFG"), contents: String::from("good") },
    ];
    assert!(matches!(check_all_files_in_dir_with_func(&first_three, "cfg", check), Ok(2)));
    assert!(matches!(check_all_files_in_dir_with_func(&files, "none", check), Ok(0)));
    assert!(has_extension("maps/A.Res", "res"));
    assert!(has_extension("maps/a", ""));
    assert!(!has_extension("maps/a.res", "re"));
}
