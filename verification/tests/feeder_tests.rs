use sush::feeder::Feeder;
use sush::operators::ControlOperator;

fn chars(s: &str) -> Vec<char> {
    s.chars().collect()
}

fn text(v: &Vec<char>) -> String {
    v.iter().collect()
}

#[test]
fn new_from_holds_the_text() {
    let f = Feeder::new_from(chars("ab cd"));
    assert_eq!(f.len(), 5);
    assert_eq!(f.nth(0), Some('a'));
    assert_eq!(f.nth(4), Some('d'));
    assert_eq!(f.nth(5), None);
    assert!(f.feed_stop);
}

#[test]
fn consume_advances_column() {
    let mut f = Feeder::new_from(chars("ab cd"));
    let cut = f.consume(2);
    assert_eq!(text(&cut), "ab");
    assert_eq!(f.len(), 3);
    assert_eq!(f.pos(), 2);
    let rest = f.consume(3);
    assert_eq!(text(&rest), " cd");
    assert_eq!(f.pos(), 5);
    assert_eq!(f.len(), 0);
}

#[test]
fn rewind_restores_consumed_length() {
    let mut f = Feeder::new_from(chars("speculative"));
    let before_len = f.len();
    let before_pos = f.pos();
    let backup = f.snapshot();
    let _ = f.consume(6);
    assert_eq!(f.len(), 5);
    f.rewind(backup);
    assert_eq!(f.len(), before_len);
    assert_eq!(f.pos(), before_pos);
    assert_eq!(f.nth(0), Some('s'));
}

#[test]
fn consume_blank_takes_spaces_and_tabs() {
    let mut f = Feeder::new_from(chars(" \t x"));
    let b = f.consume_blank();
    assert_eq!(text(&b), " \t ");
    assert_eq!(f.nth(0), Some('x'));
}

#[test]
fn comment_runs_are_consumed() {
    let mut f = Feeder::new_from(chars("# note\n  \n#tail\nx"));
    let c = f.consume_comment_multiline();
    assert_eq!(text(&c), "# note\n  \n#tail\n");
    assert_eq!(f.nth(0), Some('x'));
}

#[test]
fn blank_return_stops_at_significant_char() {
    let mut f = Feeder::new_from(chars(" \n\t\nok"));
    let c = f.consume_blank_return();
    assert_eq!(text(&c), " \n\t\n");
    assert_eq!(f.nth(0), Some('o'));
}

#[test]
fn scanner_until_finds_first_stop() {
    let f = Feeder::new_from(chars("ab)cd)"));
    assert_eq!(f.scanner_until(0, &chars(")")), 2);
    assert_eq!(f.scanner_until(3, &chars(")")), 5);
    assert_eq!(f.scanner_until(0, &chars("!")), 6);
}

#[test]
fn scanner_while_measures_runs() {
    let f = Feeder::new_from(chars("aab cc"));
    assert_eq!(f.scanner_while(0, &chars("ab")), 3);
    assert_eq!(f.scanner_blank_part(3), 1);
    assert_eq!(f.scanner_blank(), 0);
}

#[test]
fn control_operators_longest_match() {
    let f = Feeder::new_from(chars("&& x"));
    assert_eq!(f.scanner_control_op(), (2, Some(ControlOperator::And)));
    let f = Feeder::new_from(chars("& x"));
    assert_eq!(f.scanner_control_op(), (1, Some(ControlOperator::BgAnd)));
    let f = Feeder::new_from(chars("|| x"));
    assert_eq!(f.scanner_control_op(), (2, Some(ControlOperator::Or)));
    let f = Feeder::new_from(chars("| x"));
    assert_eq!(f.scanner_control_op(), (1, Some(ControlOperator::Pipe)));
    let f = Feeder::new_from(chars("; x"));
    assert_eq!(f.scanner_control_op(), (1, Some(ControlOperator::Semicolon)));
    let f = Feeder::new_from(chars("x"));
    assert_eq!(f.scanner_control_op(), (0, None));
}

#[test]
fn starts_with_and_from_to() {
    let f = Feeder::new_from(chars("(( 1 ))"));
    assert!(f.starts_with(&chars("((")));
    assert!(!f.starts_with(&chars("()")));
    assert_eq!(text(&f.from_to(3, 4)), "1");
    assert_eq!(text(&f.chars_after(3)), "1 ))");
}

#[test]
fn feed_line_joins_escaped_newlines() {
    let mut f = Feeder::new();
    f.push_source_line(chars("ab\\\n"));
    f.push_source_line(chars("cd\n"));
    assert!(f.feed_line());
    assert_eq!(f.len(), 5);
    assert_eq!(f.nth(0), Some('a'));
    assert_eq!(f.nth(2), Some('c'));
    assert_eq!(f.lineno(), (1, 2));
}

#[test]
fn feed_line_stops_when_no_input_is_left() {
    let mut f = Feeder::new();
    assert!(!f.feed_line());
    let mut f = Feeder::new_from(chars("x"));
    assert!(!f.feed_line());
    assert_eq!(f.len(), 1);
}

#[test]
fn feed_line_discards_unterminated_continuation() {
    let mut f = Feeder::new();
    f.push_source_line(chars("ab\\\n"));
    assert!(f.feed_line());
    assert_eq!(f.len(), 0);
}

#[test]
fn request_next_line_refills_after_blanks() {
    let mut f = Feeder::new();
    f.push_source_line(chars(" \n"));
    f.push_source_line(chars("next\n"));
    assert!(f.feed_line());
    let t = f.request_next_line();
    assert_eq!(text(&t), " \n");
    assert_eq!(f.nth(0), Some('n'));
}

#[test]
fn rewind_feed_backup_retries_with_more_input() {
    let mut f = Feeder::new();
    f.push_source_line(chars("((1+\n"));
    f.push_source_line(chars("2))\n"));
    assert!(f.feed_line());
    let backup = f.snapshot();
    let _ = f.consume(3);
    let (b2, ok) = f.rewind_feed_backup(&backup);
    assert!(ok);
    assert_eq!(f.len(), 9);
    assert_eq!(b2.len(), 9);
    let (_, ok2) = f.rewind_feed_backup(&b2);
    assert!(!ok2);
}

#[test]
fn replace_rewrites_first_occurrence() {
    let mut f = Feeder::new_from(chars("abcabc"));
    f.replace(&chars("bc"), &chars("X"));
    assert_eq!(f.len(), 5);
    assert_eq!(text(&f.from_to(0, 5)), "aXabc");
    let mut g = Feeder::new_from(chars("abc"));
    g.replace(&chars("zz"), &chars("X"));
    assert_eq!(text(&g.from_to(0, 3)), "abc");
}

#[test]
fn line_counters_track_ingested_lines() {
    let mut f = Feeder::new();
    f.push_source_line(chars("one\n"));
    f.push_source_line(chars("two\n"));
    assert!(f.feed_line());
    assert_eq!(f.lineno(), (1, 1));
    let _ = f.consume(4);
    assert!(f.feed_line());
    assert_eq!(f.lineno(), (2, 2));
    assert_eq!(f.pos(), 0);
}
