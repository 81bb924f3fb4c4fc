use sush::calculator::calculate;
use sush::command_node::CommandNode;
use sush::elem_script::{Script, ScriptElem};
use sush::feeder::Feeder;
use sush::job::{BgDispatch, Job};
use sush::operators::ControlOperator;
use sush::paren::CommandParen;
use sush::pipeline::{child_fd_ops, FdOp, Pipeline};
use sush::shell::{ShellCore, WaitOutcome};

fn chars(s: &str) -> Vec<char> {
    s.chars().collect()
}

fn text(v: &Vec<char>) -> String {
    v.iter().collect()
}

fn run_script(input: &str, core: &mut ShellCore) -> Script {
    let mut f = Feeder::new_from(chars(input));
    let mut s = Script::parse(&mut f, core, true).unwrap();
    s.exec(core);
    s
}

fn job_of(s: &Script, i: usize) -> &Job {
    match &s.list[i] {
        ScriptElem::JobElem(j) => j,
        _ => panic!("expected a job"),
    }
}

fn status(core: &ShellCore) -> String {
    text(&core.get_var(&chars("?")))
}

#[test]
fn arithmetic_truthiness_zero_fails() {
    let mut core = ShellCore::new();
    run_script("((2-2))", &mut core);
    assert_eq!(status(&core), "1");
}

#[test]
fn arithmetic_truthiness_nonzero_succeeds() {
    let mut core = ShellCore::new();
    run_script("((1))", &mut core);
    assert_eq!(status(&core), "0");
}

#[test]
fn arithmetic_substitution_text_holds_value() {
    let mut core = ShellCore::new();
    let s = run_script("((10-3))", &mut core);
    match &job_of(&s, 0).pipelines[0].commands[0] {
        CommandNode::DoubleParen(c) => assert_eq!(text(&c.substitution_text), "7"),
        _ => panic!("expected an arithmetic compound"),
    }
    assert_eq!(status(&core), "0");
}

#[test]
fn and_short_circuits_on_failure() {
    // first pipeline fails (status 1), so the second never runs
    let mut core = ShellCore::new();
    let s = run_script("((0)) && ((1))", &mut core);
    assert_eq!(status(&core), "1");
    match &job_of(&s, 0).pipelines[1].commands[0] {
        CommandNode::DoubleParen(c) => assert_eq!(text(&c.substitution_text), ""),
        _ => panic!("expected an arithmetic compound"),
    }
}

#[test]
fn or_short_circuits_on_success() {
    // first pipeline succeeds (status 0), so the second never runs
    let mut core = ShellCore::new();
    let s = run_script("((1)) || ((5))", &mut core);
    assert_eq!(status(&core), "0");
    match &job_of(&s, 0).pipelines[1].commands[0] {
        CommandNode::DoubleParen(c) => assert_eq!(text(&c.substitution_text), ""),
        _ => panic!("expected an arithmetic compound"),
    }
}

#[test]
fn or_runs_second_after_failure() {
    // first pipeline fails, so the second runs and decides the status
    let mut core = ShellCore::new();
    let s = run_script("((0)) || ((1))", &mut core);
    assert_eq!(status(&core), "0");
    match &job_of(&s, 0).pipelines[1].commands[0] {
        CommandNode::DoubleParen(c) => assert_eq!(text(&c.substitution_text), "1"),
        _ => panic!("expected an arithmetic compound"),
    }
}

#[test]
fn negation_flips_arithmetic_status() {
    let mut core = ShellCore::new();
    run_script("! ((1))", &mut core);
    assert_eq!(status(&core), "1");
    run_script("! ((0))", &mut core);
    assert_eq!(status(&core), "0");
}

#[test]
fn statuses_thread_across_jobs() {
    let mut core = ShellCore::new();
    run_script("((1)); ((0))", &mut core);
    assert_eq!(status(&core), "1");
}

#[test]
fn substitution_capture_trims_one_newline() {
    let mut c = CommandParen::new();
    c.store_substitution(&chars("a\nb\n"));
    assert_eq!(text(&c.substitution_text), "a\nb");
    c.store_substitution(&chars("a\nb\n\n"));
    assert_eq!(text(&c.substitution_text), "a\nb\n");
    c.store_substitution(&chars("plain"));
    assert_eq!(text(&c.substitution_text), "plain");
    c.store_substitution(&chars(""));
    assert_eq!(text(&c.substitution_text), "");
}

#[test]
fn background_pipeline_registers_without_waiting() {
    let mut f = Feeder::new_from(chars("sleep 9 &"));
    let mut core = ShellCore::new();
    let j = Job::parse(&mut f, &mut core).unwrap();
    assert!(j.pipelines[0].is_bg);
    let must_wait = j.set_job_and_wait(0, &mut core);
    assert!(!must_wait);
    assert_eq!(core.jobs.entries.len(), 1);
    assert!(core.jobs.entries[0].is_bg);
    assert_eq!(text(&core.jobs.entries[0].text), "sleep 9 &");
    assert!(core.jobs.foreground.is_none());
}

#[test]
fn foreground_pipeline_waits_and_records_status() {
    let mut f = Feeder::new_from(chars("somecmd"));
    let mut core = ShellCore::new();
    let j = Job::parse(&mut f, &mut core).unwrap();
    let must_wait = j.set_job_and_wait(0, &mut core);
    assert!(must_wait);
    assert!(core.jobs.foreground.is_some());
    j.finish_foreground(0, &mut core, WaitOutcome::Exited(3));
    assert_eq!(status(&core), "3");
    assert!(core.jobs.foreground.is_none());
}

#[test]
fn signal_death_maps_to_128_plus_signal() {
    let mut f = Feeder::new_from(chars("somecmd"));
    let mut core = ShellCore::new();
    let j = Job::parse(&mut f, &mut core).unwrap();
    let _ = j.set_job_and_wait(0, &mut core);
    j.finish_foreground(0, &mut core, WaitOutcome::Signaled(2));
    assert_eq!(status(&core), "130");
}

#[test]
fn negated_foreground_wait_flips_status() {
    let mut f = Feeder::new_from(chars("! somecmd"));
    let mut core = ShellCore::new();
    let j = Job::parse(&mut f, &mut core).unwrap();
    let _ = j.set_job_and_wait(0, &mut core);
    j.finish_foreground(0, &mut core, WaitOutcome::Exited(0));
    assert_eq!(status(&core), "1");
}

#[test]
fn backgrounded_chain_is_forked_once() {
    let mut f = Feeder::new_from(chars("a && b"));
    let mut core = ShellCore::new();
    let mut j = Job::parse(&mut f, &mut core).unwrap();
    assert!(matches!(j.exec_bg(), BgDispatch::Chain));
    j.register_bg_chain(&mut core, 4242);
    assert_eq!(core.jobs.entries.len(), 1);
    assert_eq!(core.jobs.entries[0].pids, vec![4242]);
    assert_eq!(text(&core.jobs.entries[0].text), "a && b");
}

#[test]
fn single_backgrounded_pipeline_is_marked() {
    let mut f = Feeder::new_from(chars("a b"));
    let mut core = ShellCore::new();
    let mut j = Job::parse(&mut f, &mut core).unwrap();
    assert!(matches!(j.exec_bg(), BgDispatch::Single));
    assert!(j.pipelines[0].is_bg);
    assert_eq!(text(&j.pipelines[0].text), "a b");
}

#[test]
fn pipeline_fd_wiring_is_adjacent() {
    let mut f = Feeder::new_from(chars("a | b | c"));
    let mut core = ShellCore::new();
    let mut p = Pipeline::parse(&mut f, &mut core).unwrap();
    let pipes = vec![(3, 4), (5, 6)];
    p.set_pipes(&pipes);
    let fds = |k: usize| match &p.commands[k] {
        CommandNode::Simple(c) => (c.fds.pipein, c.fds.pipeout, c.fds.prevpipein),
        CommandNode::Paren(c) => (c.fds.pipein, c.fds.pipeout, c.fds.prevpipein),
        CommandNode::DoubleParen(c) => (c.fds.pipein, c.fds.pipeout, c.fds.prevpipein),
    };
    assert_eq!(fds(0), (3, 4, -1));
    assert_eq!(fds(1), (5, 6, 3));
    assert_eq!(fds(2), (-1, -1, 5));
    // stage k's write end is the read source of stage k + 1
    assert_eq!(fds(0).1, 4);
    assert_eq!(fds(1).2, 3);
    assert_eq!(fds(1).1, 6);
    assert_eq!(fds(2).2, 5);
}

#[test]
fn middle_stage_plan_isolates_non_adjacent_ends() {
    let pipes = vec![(3, 4), (5, 6)];
    let ops = child_fd_ops(&pipes, 1);
    assert_eq!(
        ops,
        vec![
            FdOp::Close(4),
            FdOp::Close(5),
            FdOp::Dup2(3, 0),
            FdOp::Close(3),
            FdOp::Dup2(6, 1),
            FdOp::Close(6),
        ]
    );
}

#[test]
fn first_and_last_stage_plans() {
    let pipes = vec![(3, 4)];
    let first = child_fd_ops(&pipes, 0);
    assert_eq!(first, vec![FdOp::Close(3), FdOp::Dup2(4, 1), FdOp::Close(4)]);
    let last = child_fd_ops(&pipes, 1);
    assert_eq!(last, vec![FdOp::Close(4), FdOp::Dup2(3, 0), FdOp::Close(3)]);
}

#[test]
fn calculator_values() {
    assert_eq!(calculate(&chars("2-2")), 0);
    assert_eq!(calculate(&chars("1")), 1);
    assert_eq!(calculate(&chars(" 12 + 3 - 4 ")), 11);
    assert_eq!(calculate(&chars("-5+2")), -3);
    assert_eq!(calculate(&chars("")), 0);
    assert_eq!(calculate(&chars("nonsense")), 0);
    assert_eq!(calculate(&chars("1+")), 0);
}

#[test]
fn shell_variables_and_flags() {
    let mut core = ShellCore::new();
    core.set_var(&chars("HOME"), chars("/tmp"));
    assert_eq!(text(&core.get_var(&chars("HOME"))), "/tmp");
    core.set_var(&chars("HOME"), chars("/root"));
    assert_eq!(text(&core.get_var(&chars("HOME"))), "/root");
    assert_eq!(text(&core.get_var(&chars("OTHER"))), "");
    core.flags.push('i');
    assert!(core.has_flag('i'));
    assert!(!core.has_flag('d'));
    core.set_function(&chars("f"), chars("body"));
    assert_eq!(text(&core.get_function(&chars("f"))), "body");
}

#[test]
fn reverse_exit_status_flips() {
    let mut core = ShellCore::new();
    core.set_var(&chars("?"), chars("0"));
    core.reverse_exit_status();
    assert_eq!(status(&core), "1");
    core.reverse_exit_status();
    assert_eq!(status(&core), "0");
}

#[test]
fn wait_outcomes_are_capped() {
    let mut core = ShellCore::new();
    core.apply_wait_status(WaitOutcome::Exited(300));
    assert_eq!(status(&core), "255");
    core.apply_wait_status(WaitOutcome::Exited(0));
    assert_eq!(status(&core), "0");
}

#[test]
fn skip_rule_matches_operators() {
    assert!(Job::should_skip(true, ControlOperator::Or));
    assert!(!Job::should_skip(true, ControlOperator::And));
    assert!(Job::should_skip(false, ControlOperator::And));
    assert!(!Job::should_skip(false, ControlOperator::Or));
    assert!(!Job::should_skip(true, ControlOperator::NoChar));
    assert!(!Job::should_skip(false, ControlOperator::NoChar));
}

#[test]
fn job_entries_record_the_process_group() {
    let mut f = Feeder::new_from(chars("a && b"));
    let mut core = ShellCore::new();
    let mut j = Job::parse(&mut f, &mut core).unwrap();
    assert!(matches!(j.exec_bg(), BgDispatch::Chain));
    j.register_bg_chain(&mut core, 4242);
    assert_eq!(core.jobs.entries[0].pgid, 4242);
}
