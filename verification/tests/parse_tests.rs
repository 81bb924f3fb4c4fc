use sush::command_node::CommandNode;
use sush::elem_command::Command;
use sush::elem_compound_double_paren::CompoundDoubleParen;
use sush::elem_script::Script;
use sush::feeder::Feeder;
use sush::job::Job;
use sush::operators::ControlOperator;
use sush::paren::CommandParen;
use sush::pipeline::Pipeline;
use sush::redirect::{Redirect, RedirKind};
use sush::shell::ShellCore;

fn chars(s: &str) -> Vec<char> {
    s.chars().collect()
}

fn text(v: &Vec<char>) -> String {
    v.iter().collect()
}

#[test]
fn simple_command_splits_words() {
    let mut f = Feeder::new_from(chars("echo hi  there | rest"));
    let mut core = ShellCore::new();
    let c = Command::parse(&mut f, &mut core).unwrap();
    assert_eq!(text(&c.text), "echo hi  there ");
    let words: Vec<String> = c.args.iter().map(|w| w.iter().collect()).collect();
    assert_eq!(words, vec!["echo".to_string(), "hi".to_string(), "there".to_string()]);
    assert_eq!(f.nth(0), Some('|'));
}

#[test]
fn simple_command_rejects_empty() {
    let mut f = Feeder::new_from(chars("| x"));
    let mut core = ShellCore::new();
    assert!(Command::parse(&mut f, &mut core).is_none());
    assert_eq!(f.len(), 3);
}

#[test]
fn exit_special_case_is_recognized() {
    let mut f = Feeder::new_from(chars("exit"));
    let mut core = ShellCore::new();
    let c = Command::parse(&mut f, &mut core).unwrap();
    assert!(c.is_exit());
    let mut f = Feeder::new_from(chars("exitx"));
    let c = Command::parse(&mut f, &mut core).unwrap();
    assert!(!c.is_exit());
}

#[test]
fn pipeline_parses_stages() {
    let mut f = Feeder::new_from(chars("a | b | c"));
    let mut core = ShellCore::new();
    let p = Pipeline::parse(&mut f, &mut core).unwrap();
    assert_eq!(p.commands.len(), 3);
    assert_eq!(text(&p.text), "a | b | c");
    assert!(!p.is_bg);
    assert!(!p.not_flag);
    assert_eq!(f.len(), 0);
}

#[test]
fn pipeline_negation_and_background() {
    let mut core = ShellCore::new();
    let mut f = Feeder::new_from(chars("! x"));
    let p = Pipeline::parse(&mut f, &mut core).unwrap();
    assert!(p.not_flag);
    assert_eq!(text(&p.text), "! x");

    let mut f = Feeder::new_from(chars("sleep 1 &"));
    let p = Pipeline::parse(&mut f, &mut core).unwrap();
    assert!(p.is_bg);
    assert_eq!(text(&p.text), "sleep 1 &");
    assert_eq!(f.len(), 0);
}

#[test]
fn pipeline_failure_leaves_no_residue() {
    let mut core = ShellCore::new();
    let mut f = Feeder::new_from(chars("| bad"));
    let before = f.len();
    assert!(Pipeline::parse(&mut f, &mut core).is_none());
    assert_eq!(f.len(), before);
    assert_eq!(f.pos(), 0);
}

#[test]
fn job_records_operators_between_pipelines() {
    let mut f = Feeder::new_from(chars("a && b || c"));
    let mut core = ShellCore::new();
    let j = Job::parse(&mut f, &mut core).unwrap();
    assert_eq!(j.pipelines.len(), 3);
    assert_eq!(j.pipeline_ends.len(), 3);
    assert_eq!(j.pipeline_ends[0], ControlOperator::And);
    assert_eq!(j.pipeline_ends[1], ControlOperator::Or);
    assert_eq!(j.pipeline_ends[2], ControlOperator::NoChar);
    assert_eq!(text(&j.text), "a && b || c");
    assert_eq!(f.len(), 0);
}

#[test]
fn job_failure_leaves_no_residue() {
    let mut core = ShellCore::new();
    let mut f = Feeder::new_from(chars(";x"));
    let before = f.len();
    assert!(Job::parse(&mut f, &mut core).is_none());
    assert_eq!(f.len(), before);
    assert_eq!(f.nth(0), Some(';'));
}

#[test]
fn script_round_trips_recorded_text() {
    let input = "a b; c\n  d && e\n";
    let mut f = Feeder::new_from(chars(input));
    let mut core = ShellCore::new();
    let s = Script::parse(&mut f, &mut core, true).unwrap();
    assert_eq!(text(&s.text), input);
    assert_eq!(f.len(), 0);
    assert_eq!(s.procnum, 4);
}

#[test]
fn script_single_statement_mode() {
    let mut f = Feeder::new_from(chars("a\nb"));
    let mut core = ShellCore::new();
    let s = Script::parse(&mut f, &mut core, false).unwrap();
    assert_eq!(s.list.len(), 1);
    assert_eq!(text(&s.text), "a");
}

#[test]
fn unexpected_closer_sets_status_two() {
    let mut f = Feeder::new_from(chars(") oops"));
    let mut core = ShellCore::new();
    assert!(Script::parse(&mut f, &mut core, true).is_none());
    assert_eq!(f.len(), 0);
    assert_eq!(text(&core.get_var(&chars("?"))), "2");
    assert_eq!(core.diagnostics.len(), 1);
}

#[test]
fn unknown_phrase_sets_status_one() {
    let mut f = Feeder::new_from(chars("| nothing"));
    let mut core = ShellCore::new();
    assert!(Script::parse(&mut f, &mut core, true).is_none());
    assert_eq!(f.len(), 0);
    assert_eq!(text(&core.get_var(&chars("?"))), "1");
    assert_eq!(core.diagnostics.len(), 1);
}

#[test]
fn subshell_group_parses_nested_script() {
    let mut f = Feeder::new_from(chars("(a b)"));
    let mut core = ShellCore::new();
    let c = CommandParen::parse(&mut f, &mut core, false).unwrap();
    assert_eq!(text(&c.text), "(a b)");
    assert!(c.script.is_some());
    assert_eq!(f.len(), 0);
    assert_eq!(core.nest.len(), 0);
}

#[test]
fn subshell_group_with_redirect() {
    let mut f = Feeder::new_from(chars("(a) > out"));
    let mut core = ShellCore::new();
    let c = CommandParen::parse(&mut f, &mut core, false).unwrap();
    assert_eq!(text(&c.text), "(a) > out");
    assert_eq!(c.fds.redirects.len(), 1);
    assert_eq!(c.fds.redirects[0].fd, 1);
}

#[test]
fn unterminated_subshell_fails_cleanly() {
    let mut f = Feeder::new_from(chars("(a b"));
    let mut core = ShellCore::new();
    let before = f.len();
    assert!(CommandParen::parse(&mut f, &mut core, false).is_none());
    assert_eq!(f.len(), before);
    assert_eq!(core.nest.len(), 0);
}

#[test]
fn double_paren_parses_expression() {
    let mut f = Feeder::new_from(chars("((1+2))"));
    let mut core = ShellCore::new();
    let c = CompoundDoubleParen::parse(&mut f, &mut core, false).unwrap();
    assert_eq!(text(&c.text), "((1+2))");
    assert_eq!(text(&c.expression), "1+2");
    assert_eq!(f.len(), 0);
}

#[test]
fn double_paren_pulls_continuation_lines() {
    let mut f = Feeder::new();
    f.push_source_line(chars("((1+"));
    f.push_source_line(chars("2))"));
    assert!(f.feed_line());
    let mut core = ShellCore::new();
    let c = CompoundDoubleParen::parse(&mut f, &mut core, false).unwrap();
    assert_eq!(text(&c.expression), "1+2");
    assert_eq!(text(&c.text), "((1+2))");
    assert_eq!(f.len(), 0);
}

#[test]
fn double_paren_exhausted_input_discards_buffer() {
    let mut f = Feeder::new_from(chars("((1+"));
    let mut core = ShellCore::new();
    assert!(CompoundDoubleParen::parse(&mut f, &mut core, false).is_none());
    assert_eq!(f.len(), 0);
}

#[test]
fn command_dispatch_prefers_compounds() {
    let mut core = ShellCore::new();
    let mut f = Feeder::new_from(chars("((7))"));
    assert!(matches!(
        CommandNode::parse(&mut f, &mut core),
        Some(CommandNode::DoubleParen(_))
    ));
    let mut f = Feeder::new_from(chars("(x)"));
    assert!(matches!(CommandNode::parse(&mut f, &mut core), Some(CommandNode::Paren(_))));
    let mut f = Feeder::new_from(chars("x"));
    assert!(matches!(CommandNode::parse(&mut f, &mut core), Some(CommandNode::Simple(_))));
}

#[test]
fn redirect_forms() {
    let mut f = Feeder::new_from(chars("> out rest"));
    let r = Redirect::parse(&mut f).unwrap();
    assert_eq!(r.fd, 1);
    assert!(matches!(r.kind, RedirKind::Output));
    assert_eq!(text(&r.target), "out");
    assert_eq!(text(&r.text), "> out");

    let mut f = Feeder::new_from(chars("2> err"));
    let r = Redirect::parse(&mut f).unwrap();
    assert_eq!(r.fd, 2);
    assert!(matches!(r.kind, RedirKind::Output));

    let mut f = Feeder::new_from(chars("< in"));
    let r = Redirect::parse(&mut f).unwrap();
    assert_eq!(r.fd, 0);
    assert!(matches!(r.kind, RedirKind::Input));

    let mut f = Feeder::new_from(chars(">> log"));
    let r = Redirect::parse(&mut f).unwrap();
    assert_eq!(r.fd, 1);
    assert!(matches!(r.kind, RedirKind::Append));

    let mut f = Feeder::new_from(chars("word"));
    assert!(Redirect::parse(&mut f).is_none());
    assert_eq!(f.len(), 4);
}

#[test]
fn pipeline_continues_after_pipe_across_lines() {
    let mut f = Feeder::new();
    f.push_source_line(chars("a |\n"));
    f.push_source_line(chars("b\n"));
    assert!(f.feed_line());
    let mut core = ShellCore::new();
    let p = Pipeline::parse(&mut f, &mut core).unwrap();
    assert_eq!(p.commands.len(), 2);
    assert_eq!(text(&p.text), "a |\nb");
}

#[test]
fn blank_only_input_parses_to_empty_script() {
    let mut f = Feeder::new_from(chars("  \n"));
    let mut core = ShellCore::new();
    let s = Script::parse(&mut f, &mut core, true).unwrap();
    assert_eq!(s.list.len(), 0);
    assert_eq!(text(&s.text), "  \n");
    assert_eq!(f.len(), 0);
}

#[test]
fn function_definition_registers_at_parse_time() {
    let mut f = Feeder::new_from(chars("f() { echo hi }"));
    let mut core = ShellCore::new();
    let s = Script::parse(&mut f, &mut core, true).unwrap();
    assert_eq!(text(&s.text), "f() { echo hi }");
    assert_eq!(s.list.len(), 0);
    assert_eq!(s.procnum, 0);
    assert_eq!(text(&core.get_function(&chars("f"))), " echo hi ");
    assert_eq!(f.len(), 0);
}

#[test]
fn function_definition_then_command() {
    let mut f = Feeder::new_from(chars("greet() {hi}\ngreet"));
    let mut core = ShellCore::new();
    let s = Script::parse(&mut f, &mut core, true).unwrap();
    assert_eq!(s.list.len(), 1);
    assert_eq!(text(&core.get_function(&chars("greet"))), "hi");
    assert_eq!(text(&s.text), "greet() {hi}\ngreet");
}

#[test]
fn malformed_function_definition_is_not_one() {
    let mut f = Feeder::new_from(chars("f(x) { y }"));
    let mut core = ShellCore::new();
    let before = f.len();
    assert!(sush::elem_function::Function::parse(&mut f, &mut core).is_none());
    assert_eq!(f.len(), before);
    let mut f = Feeder::new_from(chars("f() { y"));
    assert!(sush::elem_function::Function::parse(&mut f, &mut core).is_none());
}

#[test]
fn dangling_operator_becomes_sentinel() {
    let mut f = Feeder::new_from(chars("a &&"));
    let mut core = ShellCore::new();
    let j = Job::parse(&mut f, &mut core).unwrap();
    assert_eq!(j.pipelines.len(), 1);
    assert_eq!(j.pipeline_ends, vec![ControlOperator::NoChar]);
    assert_eq!(text(&j.text), "a ");
    assert_eq!(f.len(), 2);
}

#[test]
fn dangling_pipe_is_left_unconsumed() {
    let mut f = Feeder::new_from(chars("a |"));
    let mut core = ShellCore::new();
    let p = Pipeline::parse(&mut f, &mut core).unwrap();
    assert_eq!(p.commands.len(), 1);
    assert_eq!(text(&p.text), "a ");
    assert_eq!(f.nth(0), Some('|'));
}

#[test]
fn comment_consumption_only_at_comment_heads() {
    let mut f = Feeder::new_from(chars("x # trailing"));
    let c = f.consume_comment_multiline();
    assert_eq!(c.len(), 0);
    assert_eq!(f.len(), 12);
}

#[test]
fn replace_with_empty_pattern_prepends() {
    let mut f = Feeder::new_from(chars("abc"));
    f.replace(&chars(""), &chars("X"));
    assert_eq!(text(&f.from_to(0, 4)), "Xabc");
}

#[test]
fn assignment_statement_parses_and_applies() {
    let mut f = Feeder::new_from(chars("greeting=hello"));
    let mut core = ShellCore::new();
    let mut s = Script::parse(&mut f, &mut core, true).unwrap();
    assert_eq!(s.list.len(), 1);
    assert_eq!(text(&s.text), "greeting=hello");
    assert_eq!(text(&core.get_var(&chars("greeting"))), "");
    s.exec(&mut core);
    assert_eq!(text(&core.get_var(&chars("greeting"))), "hello");
}

#[test]
fn assignment_with_empty_value() {
    let mut f = Feeder::new_from(chars("n="));
    let mut core = ShellCore::new();
    let sv = sush::elem_setvars::SetVariables::parse(&mut f, &mut core).unwrap();
    assert_eq!(text(&sv.name), "n");
    assert_eq!(text(&sv.value), "");
    sv.exec(&mut core);
    assert_eq!(text(&core.get_var(&chars("n"))), "");
}

#[test]
fn two_words_are_a_command_not_an_assignment() {
    let mut f = Feeder::new_from(chars("a=1 b=2"));
    let mut core = ShellCore::new();
    assert!(sush::elem_setvars::SetVariables::parse(&mut f, &mut core).is_none());
    assert_eq!(f.len(), 7);
    let s = Script::parse(&mut f, &mut core, true).unwrap();
    assert!(matches!(s.list[0], sush::elem_script::ScriptElem::JobElem(_)));
}

#[test]
fn assignment_orders_with_jobs() {
    let mut f = Feeder::new_from(chars("v=7; ((1))"));
    let mut core = ShellCore::new();
    let mut s = Script::parse(&mut f, &mut core, true).unwrap();
    assert_eq!(s.list.len(), 2);
    s.exec(&mut core);
    assert_eq!(text(&core.get_var(&chars("v"))), "7");
    assert_eq!(text(&core.get_var(&chars("?"))), "0");
}
