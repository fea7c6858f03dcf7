use tgs_lexer::eval::{run_job, Output, Placement, Stdin};
use tgs_lexer::jobs::{JobError, JobManager, ProcessGroup};
use tgs_lexer::lang::{evaluate_line, settle, spawn_error, PosixError, FAILURE_STATUS, NOT_FOUND_STATUS};

#[test]
fn eval_single_word_is_one_process() {
    let plan = evaluate_line("ls").ok().unwrap();
    assert!(plan.background.is_empty());
    assert_eq!(plan.processes.len(), 1);
    let p = &plan.processes[0];
    assert_eq!(p.program, "ls");
    assert!(p.args.is_empty());
    assert_eq!(p.stdin, Stdin::Inherit);
    assert_eq!(p.stdout, Output::Inherit);
}

#[test]
fn eval_arguments_follow_the_program() {
    let plan = evaluate_line("echo hi there").ok().unwrap();
    assert_eq!(plan.processes[0].program, "echo");
    assert_eq!(plan.processes[0].args, vec!["hi", "there"]);
}

#[test]
fn eval_pipeline_wires_each_stage_to_the_next() {
    let plan = evaluate_line("a | b x | c | d").ok().unwrap();
    assert!(plan.background.is_empty());
    let ps = &plan.processes;
    assert_eq!(ps.len(), 4);
    let names: Vec<&str> = ps.iter().map(|p| p.program.as_str()).collect();
    assert_eq!(names, vec!["a", "b", "c", "d"]);
    assert_eq!(ps[0].stdin, Stdin::Inherit);
    for i in 0..3 {
        assert_eq!(ps[i].stdout, Output::CreatePipe);
        assert_eq!(ps[i + 1].stdin, Stdin::Pipe);
    }
    assert_eq!(ps[3].stdout, Output::Inherit);
}

#[test]
fn eval_two_stage_pipeline() {
    let plan = evaluate_line("a | b").ok().unwrap();
    assert_eq!(plan.processes.len(), 2);
    assert_eq!(plan.processes[0].stdout, Output::CreatePipe);
    assert_eq!(plan.processes[1].stdin, Stdin::Pipe);
}

#[test]
fn eval_empty_line_is_nothing() {
    let plan = evaluate_line("").ok().unwrap();
    assert!(plan.background.is_empty());
    assert!(plan.processes.is_empty());
}

#[test]
fn eval_background_job_then_rest() {
    let plan = evaluate_line("sleep 5 & echo hi").ok().unwrap();
    assert_eq!(plan.background.len(), 1);
    assert_eq!(plan.background[0].len(), 1);
    assert_eq!(plan.background[0][0].program, "sleep");
    assert_eq!(plan.background[0][0].args, vec!["5"]);
    assert_eq!(plan.processes.len(), 1);
    assert_eq!(plan.processes[0].program, "echo");
}

#[test]
fn eval_trailing_amp_returns_no_process() {
    let plan = evaluate_line("sleep 5 &").ok().unwrap();
    assert_eq!(plan.background.len(), 1);
    assert!(plan.processes.is_empty());
}

#[test]
fn eval_background_pipeline() {
    let plan = evaluate_line("a | b & c &").ok().unwrap();
    assert_eq!(plan.background.len(), 2);
    assert_eq!(plan.background[0].len(), 2);
    assert_eq!(plan.background[0][0].stdout, Output::CreatePipe);
    assert_eq!(plan.background[1][0].program, "c");
    assert!(plan.processes.is_empty());
}

#[test]
fn eval_parse_error_is_reported() {
    assert!(matches!(evaluate_line("a | | b"), Err(PosixError::Parse(_))));
}

#[test]
fn settle_reports_the_job_status() {
    let o = settle(&Ok(0));
    assert_eq!(o.status, 0);
    assert!(!o.run_hook);
    let o = settle(&Ok(3));
    assert_eq!(o.status, 3);
}

#[test]
fn settle_not_found_runs_hook_with_127() {
    let o = settle(&Err(PosixError::CommandNotFound("nonexistentcmd123".to_string())));
    assert_eq!(o.status, 127);
    assert_eq!(NOT_FOUND_STATUS, 127);
    assert!(o.run_hook);
}

#[test]
fn settle_other_errors_fail() {
    for e in [PosixError::Eval("x".to_string()), PosixError::Hook, PosixError::Redirect("r".to_string()), PosixError::Job(JobError::IdsExhausted)] {
        let o = settle(&Err(e));
        assert_eq!(o.status, FAILURE_STATUS);
        assert!(!o.run_hook);
    }
}

#[test]
fn spawn_error_kinds() {
    let p = "nonexistentcmd123".to_string();
    match spawn_error(&p, true, "no such file".to_string()) {
        PosixError::CommandNotFound(name) => assert_eq!(name, "nonexistentcmd123"),
        _ => panic!("expected command not found"),
    }
    match spawn_error(&p, false, "denied".to_string()) {
        PosixError::Eval(m) => assert_eq!(m, "denied"),
        _ => panic!("expected an evaluation error"),
    }
}

#[test]
fn group_id_is_the_first_process() {
    let mut g = ProcessGroup::new(true);
    assert_eq!(g.id, None);
    g.add_process(40);
    g.add_process(41);
    assert_eq!(g.id, Some(40));
    assert_eq!(g.processes, vec![40, 41]);
    assert!(g.foreground);
}

#[test]
fn jobs_get_fresh_ids() {
    let mut jm = JobManager::new();
    let a = jm.create_job("a".to_string(), ProcessGroup::new(false)).ok().unwrap();
    let b = jm.create_job("b".to_string(), ProcessGroup::new(false)).ok().unwrap();
    assert_ne!(a, b);
}

#[test]
fn foreground_job_round_trip() {
    let mut jm = JobManager::new();
    let mut g = ProcessGroup::new(true);
    g.add_process(7);
    let id = jm.create_job("fg".to_string(), g).ok().unwrap();
    let action = jm.put_job_in_foreground(id, false).ok().unwrap();
    assert_eq!(action.group, Some(7));
    assert!(!action.resume);
    assert!(jm.foreground_finished(id, false).is_ok());
    assert!(matches!(jm.put_job_in_foreground(id, false), Err(JobError::NoSuchJob(x)) if x == id));
}

#[test]
fn stopped_job_can_be_resumed() {
    let mut jm = JobManager::new();
    let id = jm.create_job("vi".to_string(), ProcessGroup::new(true)).ok().unwrap();
    jm.put_job_in_foreground(id, false).ok().unwrap();
    assert!(jm.foreground_finished(id, true).is_ok());
    assert_eq!(jm.put_job_in_background(id, true).ok(), Some(true));
    let action = jm.put_job_in_foreground(id, true).ok().unwrap();
    assert!(action.resume);
}

#[test]
fn background_job_stays_until_it_exits() {
    let mut jm = JobManager::new();
    let id = jm.create_job("sleep".to_string(), ProcessGroup::new(false)).ok().unwrap();
    assert_eq!(jm.put_job_in_background(id, false).ok(), Some(false));
    assert!(jm.job_exited(id).is_ok());
    assert!(jm.job_exited(id).is_err());
    assert!(jm.put_job_in_background(99, false).is_err());
}

#[test]
fn run_job_places_foreground_and_background() {
    let mut jm = JobManager::new();
    let mut g = ProcessGroup::new(false);
    g.add_process(11);
    let bg = match run_job(&mut jm, g).ok().unwrap() {
        Placement::Background(id, resume) => {
            assert!(!resume);
            id
        }
        Placement::Foreground(..) => panic!("expected the background"),
    };
    let mut g = ProcessGroup::new(true);
    g.add_process(12);
    g.add_process(13);
    match run_job(&mut jm, g).ok().unwrap() {
        Placement::Foreground(id, action) => {
            assert_ne!(id, bg);
            assert_eq!(action.group, Some(12));
            assert!(!action.resume);
        }
        Placement::Background(..) => panic!("expected the foreground"),
    }
    assert!(jm.job_exited(bg).is_ok());
}
