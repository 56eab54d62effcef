use parson::grammar::{
    apply_action, digits_value, Action, Binding, Elem, Grammar, Production, Rule, Value,
};

fn rule(name: &str, prods: Vec<Production>) -> Rule {
    Rule {
        name: name.to_string(),
        prods,
    }
}

fn prod(elems: Vec<(Binding, Elem)>, action: Action) -> Production {
    Production { elems, action }
}

fn pat(text: &str) -> Elem {
    Elem::Pat(text.to_string())
}

/// A rule `Number` holding one pattern-span production for digit runs.
fn number_grammar(action: Action) -> Grammar {
    Grammar {
        rules: vec![rule(
            "Number",
            vec![prod(vec![(Binding::Bind, pat("[0-9]+"))], action)],
        )],
    }
}

#[test]
fn number_rule_splits_digits_from_rest() {
    let g = number_grammar(Action::Nth(0));
    let r = g.parse(0, b"123abc");
    assert!(matches!(r, Some((Value::Span(0, 3), 3))));
}

#[test]
fn number_rule_reads_value() {
    let g = number_grammar(Action::Num);
    let r = g.parse(0, b"123abc");
    assert!(matches!(r, Some((Value::Num(123), 3))));
}

#[test]
fn rule_fails_when_no_production_matches() {
    let g = number_grammar(Action::Nth(0));
    assert!(g.parse(0, b"abc").is_none());
}

#[test]
fn unknown_rule_index_fails() {
    let g = number_grammar(Action::Nth(0));
    assert!(g.parse(7, b"123").is_none());
}

/// Productions `[parenthesized-group, plain-number]`: the first one opens
/// with a literal parenthesis, the second is a bare number.
fn group_or_number_grammar() -> Grammar {
    Grammar {
        rules: vec![
            rule(
                "Top",
                vec![
                    prod(
                        vec![
                            (Binding::Wild, Elem::Lit(b'(')),
                            (Binding::Bind, Elem::Rule(1)),
                            (Binding::Wild, Elem::Lit(b')')),
                        ],
                        Action::Nth(0),
                    ),
                    prod(vec![(Binding::Bind, Elem::Rule(1))], Action::Nth(0)),
                ],
            ),
            rule("Number", vec![prod(vec![(Binding::Bind, pat("[0-9]+"))], Action::Num)]),
        ],
    }
}

#[test]
fn rule_falls_through_to_second_production() {
    let g = group_or_number_grammar();
    let r = g.parse(0, b"42");
    assert!(matches!(r, Some((Value::Num(42), 2))));
}

#[test]
fn first_production_wins_when_it_matches() {
    let g = group_or_number_grammar();
    let r = g.parse(0, b"(42)");
    assert!(matches!(r, Some((Value::Num(42), 4))));
}

/// A right-recursive arithmetic grammar: addition at the top, then
/// multiplication, then parenthesized groups and numbers.
fn arithmetic_grammar() -> Grammar {
    Grammar {
        rules: vec![
            rule(
                "Expr",
                vec![
                    prod(
                        vec![
                            (Binding::Bind, Elem::Rule(1)),
                            (Binding::Bind, Elem::Lit(b'+')),
                            (Binding::Bind, Elem::Rule(0)),
                        ],
                        Action::Node,
                    ),
                    prod(vec![(Binding::Bind, Elem::Rule(1))], Action::Nth(0)),
                ],
            ),
            rule(
                "Factor",
                vec![
                    prod(
                        vec![
                            (Binding::Bind, Elem::Rule(2)),
                            (Binding::Bind, Elem::Lit(b'*')),
                            (Binding::Bind, Elem::Rule(1)),
                        ],
                        Action::Node,
                    ),
                    prod(vec![(Binding::Bind, Elem::Rule(2))], Action::Nth(0)),
                ],
            ),
            rule(
                "Term",
                vec![
                    prod(
                        vec![
                            (Binding::Wild, Elem::Lit(b'(')),
                            (Binding::Bind, Elem::Rule(0)),
                            (Binding::Wild, Elem::Lit(b')')),
                        ],
                        Action::Nth(0),
                    ),
                    prod(vec![(Binding::Bind, Elem::Rule(3))], Action::Nth(0)),
                ],
            ),
            rule("Num", vec![prod(vec![(Binding::Bind, pat("[0-9]+"))], Action::Num)]),
        ],
    }
}

#[test]
fn arithmetic_nests_multiplication_tighter() {
    let g = arithmetic_grammar();
    let (v, end) = g.parse(0, b"4+2*3").expect("full parse");
    // Full completion: the leftover suffix is empty.
    assert_eq!(end, 5);
    match v {
        Value::Node(b'+', l, r) => {
            assert!(matches!(*l, Value::Num(4)));
            match *r {
                Value::Node(b'*', rl, rr) => {
                    assert!(matches!(*rl, Value::Num(2)));
                    assert!(matches!(*rr, Value::Num(3)));
                }
                other => panic!("expected a product on the right, got {:?}", discriminant(&other)),
            }
        }
        other => panic!("expected a sum at the top, got {:?}", discriminant(&other)),
    }
}

fn discriminant(v: &Value) -> u32 {
    match v {
        Value::Byte(_) => 0,
        Value::Span(_, _) => 1,
        Value::Num(_) => 2,
        Value::Node(_, _, _) => 3,
    }
}

#[test]
fn parenthesized_group_binds_tightest() {
    let g = arithmetic_grammar();
    let (v, end) = g.parse(0, b"(4+2)*3").expect("full parse");
    assert_eq!(end, 7);
    match v {
        Value::Node(b'*', l, r) => {
            assert!(matches!(*r, Value::Num(3)));
            match *l {
                Value::Node(b'+', ll, lr) => {
                    assert!(matches!(*ll, Value::Num(4)));
                    assert!(matches!(*lr, Value::Num(2)));
                }
                _ => panic!("expected a sum inside the group"),
            }
        }
        _ => panic!("expected a product at the top"),
    }
}

#[test]
fn incomplete_parse_reports_leftover() {
    let g = arithmetic_grammar();
    let (v, end) = g.parse(0, b"12ab").expect("prefix parses");
    assert!(matches!(v, Value::Num(12)));
    // The engine does not enforce full consumption; the caller sees the
    // leftover starting at the reported offset.
    assert_eq!(end, 2);
}

#[test]
fn invalid_pattern_is_quiet_until_first_use() {
    // One rule carries a pattern text that does not compile.  Declaring the
    // grammar and running a rule that never reaches the bad matcher must
    // both work; only invoking the offending rule would abort.
    let g = Grammar {
        rules: vec![
            rule(
                "Good",
                vec![prod(vec![(Binding::Bind, Elem::Lit(b'a'))], Action::Nth(0))],
            ),
            rule("Bad", vec![prod(vec![(Binding::Bind, pat("(unclosed"))], Action::Nth(0))]),
        ],
    };
    let r = g.parse(0, b"ab");
    assert!(matches!(r, Some((Value::Byte(b'a'), 1))));
}

#[test]
fn left_recursion_exhausts_fuel_instead_of_looping() {
    let g = Grammar {
        rules: vec![rule(
            "Loop",
            vec![prod(vec![(Binding::Bind, Elem::Rule(0))], Action::Nth(0))],
        )],
    };
    assert!(g.run_rule(0, b"x", 0, 64).is_none());
}

#[test]
fn rule_index_finds_first_match() {
    let g = group_or_number_grammar();
    assert_eq!(g.rule_index(&"Top".to_string()), Some(0));
    assert_eq!(g.rule_index(&"Number".to_string()), Some(1));
    assert_eq!(g.rule_index(&"Missing".to_string()), None);
}

#[test]
fn digits_value_reads_decimal() {
    assert_eq!(digits_value(b"123", 0, 3), Some(123));
    assert_eq!(digits_value(b"a123b", 1, 4), Some(123));
    assert_eq!(digits_value(b"0", 0, 1), Some(0));
}

#[test]
fn digits_value_rejects_empty_and_nondigits() {
    assert_eq!(digits_value(b"123", 1, 1), None);
    assert_eq!(digits_value(b"12a", 0, 3), None);
}

#[test]
fn digits_value_handles_the_largest_value() {
    assert_eq!(
        digits_value(b"18446744073709551615", 0, 20),
        Some(u64::MAX)
    );
    assert_eq!(digits_value(b"18446744073709551616", 0, 20), None);
    assert_eq!(digits_value(b"99999999999999999999999", 0, 23), None);
}

#[test]
fn action_mismatches_fail_the_production() {
    assert!(apply_action(&Action::Nth(1), vec![Value::Byte(b'a')], b"").is_none());
    assert!(apply_action(&Action::Num, vec![Value::Byte(b'a')], b"").is_none());
    assert!(apply_action(&Action::Num, vec![], b"").is_none());
    assert!(
        apply_action(&Action::Node, vec![Value::Num(1), Value::Num(2)], b"").is_none()
    );
    assert!(apply_action(
        &Action::Node,
        vec![Value::Num(1), Value::Num(2), Value::Num(3)],
        b""
    )
    .is_none());
}

#[test]
fn action_mismatch_falls_through_to_next_production() {
    // The first production matches the input but its action asks for a
    // binding that does not exist; the rule must fall through to the
    // second production on the original input.
    let g = Grammar {
        rules: vec![rule(
            "Top",
            vec![
                prod(vec![(Binding::Bind, Elem::Lit(b'a'))], Action::Nth(5)),
                prod(vec![(Binding::Bind, Elem::Lit(b'a'))], Action::Nth(0)),
            ],
        )],
    };
    let r = g.parse(0, b"a");
    assert!(matches!(r, Some((Value::Byte(b'a'), 1))));
}

#[test]
fn wildcard_slots_are_discarded() {
    // Only bound slots reach the action: the parentheses are wildcards, so
    // `Nth(0)` is the inner number.
    let g = group_or_number_grammar();
    let r = g.parse(0, b"(7)");
    assert!(matches!(r, Some((Value::Num(7), 3))));
}
