use abstract_parser::{
    format_remaining, formated_memory_size, formated_remaining_stack, optional_parse, raw_str_literal, BufferIter, CachedIter, CharsIter, Count, Expr, Grammar,
    ChoiceError, CharsIterTrait, Cursorable, MinMax, Node, SeqOutput, Peekab, ProductionError, Repeat, RepeatMarker, RuleError,
};

// Rule indices of the small grammar below: a = "a"s, b = "b"s, comma = ","s.
const A: usize = 0;
const B: usize = 1;

fn letters() -> Grammar {
    Grammar { rules: vec![Expr::sub_str("a"), Expr::sub_str("b"), Expr::sub_str(",")] }
}

fn is_text(n: &Node, start: usize, end: usize) -> bool {
    matches!(n, Node::Text(s, e) if *s == start && *e == end)
}

fn is_span(e: &ProductionError<RuleError>, start: usize, end: usize) -> bool {
    matches!(e, ProductionError::Token(RuleError::Span(s, t)) if *s == start && *t == end)
}

#[test]
fn sequence_matches_and_advances() {
    let g = letters();
    let ab = Expr::seq(vec![Expr::Ref(A), Expr::Ref(B)]);
    let mut it = CharsIter::new("ab");
    let r = it.parse(&g, &ab).unwrap();
    match r {
        Node::Sequence(items) => {
            assert_eq!(items.0.len(), 2);
            assert!(is_text(&items.0[0], 0, 1));
            assert!(is_text(&items.0[1], 1, 2));
        }
        _ => panic!("expected a sequence"),
    }
    assert_eq!(it.cursor(), 2);
}

#[test]
fn sequence_failure_names_position_and_keeps_cursor() {
    let g = letters();
    let ab = Expr::seq(vec![Expr::Ref(A), Expr::Ref(B)]);
    let mut it = CharsIter::new("ba");
    let r = it.parse(&g, &ab);
    match r {
        Err(ProductionError::Token(RuleError::Sequence(0, inner))) => {
            assert!(matches!(*inner, RuleError::Span(0, 1)));
        }
        other => panic!("unexpected {:?}", other),
    }
    assert_eq!(it.cursor(), 0);
}

#[test]
fn choice_first_alternative() {
    let g = letters();
    let ab = Expr::choice(vec![Expr::Ref(A), Expr::Ref(B)]);
    let mut it = CharsIter::new("a");
    match it.parse(&g, &ab).unwrap() {
        Node::Variant(0, n) => assert!(is_text(&n, 0, 1)),
        other => panic!("unexpected {:?}", other),
    }
    let mut it = CharsIter::new("b");
    match it.parse(&g, &ab).unwrap() {
        Node::Variant(1, n) => assert!(is_text(&n, 0, 1)),
        other => panic!("unexpected {:?}", other),
    }
}

#[test]
fn choice_error_holds_every_alternative() {
    let g = letters();
    let ab = Expr::choice(vec![Expr::Ref(A), Expr::Ref(B)]);
    let mut it = CharsIter::new("c");
    match it.parse(&g, &ab) {
        Err(ProductionError::Token(RuleError::Choice(errs))) => {
            assert_eq!(errs.0.len(), 2);
            assert!(is_span(&errs.0[0], 0, 1));
            assert!(is_span(&errs.0[1], 0, 1));
        }
        other => panic!("unexpected {:?}", other),
    }
    assert_eq!(it.cursor(), 0);
}

#[test]
fn choice_prefers_first_of_two_matches() {
    let g = Grammar { rules: vec![Expr::sub_str("a"), Expr::sub_str("ab")] };
    let both = Expr::choice(vec![Expr::Ref(0), Expr::Ref(1)]);
    let mut it = CharsIter::new("ab");
    match it.parse(&g, &both).unwrap() {
        Node::Variant(0, n) => assert!(is_text(&n, 0, 1)),
        other => panic!("unexpected {:?}", other),
    }
    assert_eq!(it.cursor(), 1);
}

#[test]
fn full_parse_reports_residue_after_choice() {
    let g = letters();
    let ab = Expr::choice(vec![Expr::Ref(A), Expr::Ref(B)]);
    let mut it = CachedIter::new(CharsIter::new("a / b c"), g);
    match it.full_parse(&ab) {
        Err(e) => {
            match e.parse_result {
                Ok(Node::Variant(0, n)) => assert!(is_text(&n, 0, 1)),
                other => panic!("unexpected {:?}", other),
            }
            assert_eq!(e.residue, " / b c");
        }
        Ok(n) => panic!("unexpected success {:?}", n),
    }
}

#[test]
fn count_needs_exactly_three() {
    let g = letters();
    let r = Expr::repeat(Expr::Ref(A), Count::<3>::marker());
    let mut it = CharsIter::new("aa");
    assert!(matches!(it.parse(&g, &r), Err(ProductionError::EndStream)));
    assert_eq!(it.cursor(), 0);
    let mut it = CharsIter::new("aaa");
    match it.parse(&g, &r).unwrap() {
        Node::List(v) => {
            assert_eq!(v.len(), 3);
            assert!(is_text(&v[2], 2, 3));
        }
        other => panic!("unexpected {:?}", other),
    }
    let mut it = CharsIter::new("aaaa");
    match it.parse(&g, &r).unwrap() {
        Node::List(v) => assert_eq!(v.len(), 3),
        other => panic!("unexpected {:?}", other),
    }
    assert_eq!(it.as_str(), "a");
    let mut it = CharsIter::new("aaaa");
    match it.full_parse(&g, &r) {
        Err(e) => {
            assert!(matches!(e.parse_result, Ok(Node::List(ref v)) if v.len() == 3));
            assert_eq!(e.residue, "a");
        }
        Ok(_) => panic!("expected residue"),
    }
}

#[test]
fn count_mismatch_on_token_error() {
    let g = letters();
    let r = Expr::repeat(Expr::Ref(A), Count::<3>::marker());
    let mut it = CharsIter::new("aab");
    match it.parse(&g, &r) {
        Err(ProductionError::Token(RuleError::CountMismatch(c))) => assert_eq!(c.0, 3),
        other => panic!("unexpected {:?}", other),
    }
}

#[test]
fn joined_repeat_drops_separators() {
    let g = letters();
    let l = Expr::join(Expr::Ref(A), Expr::Ref(2), 0);
    let mut it = CharsIter::new("a,a,a");
    match it.parse(&g, &l).unwrap() {
        Node::List(v) => {
            assert_eq!(v.len(), 3);
            assert!(is_text(&v[1], 2, 3));
        }
        other => panic!("unexpected {:?}", other),
    }
    let mut it = CharsIter::new("a,a,");
    match it.parse(&g, &l).unwrap() {
        Node::List(v) => assert_eq!(v.len(), 2),
        other => panic!("unexpected {:?}", other),
    }
    assert_eq!(it.as_str(), ",");
}

#[test]
fn joined_repeat_minimum() {
    let g = letters();
    let l = Expr::join(Expr::Ref(A), Expr::Ref(2), 2);
    let mut it = CharsIter::new("a;");
    match it.parse(&g, &l) {
        Err(ProductionError::Token(RuleError::LessThanMin(m))) => assert_eq!(m.0, 2),
        other => panic!("unexpected {:?}", other),
    }
}

#[test]
fn negative_lookahead_guards_repeat_and_memo() {
    let g = letters();
    let r = Expr::repeat(
        Expr::seq(vec![Expr::not(Expr::Ref(A)), Expr::Ref(B)]),
        RepeatMarker::Repeat(Repeat),
    );
    let mut it = CachedIter::new(CharsIter::new("bbba"), g);
    match it.cached_parse(&r).unwrap() {
        Node::List(v) => {
            assert_eq!(v.len(), 3);
            assert!(matches!(&v[0], Node::Sequence(s) if matches!(s.0[0], Node::Unit)));
        }
        other => panic!("unexpected {:?}", other),
    }
    assert_eq!(it.as_str(), "a");
    for p in 0..3 {
        assert!(it.is_cached(p, A));
        assert!(it.is_cached(p, B));
    }
    assert!(it.is_cached(3, A));
    assert!(!it.is_cached(3, B));
    // `a` at 0..=3 and `b` at 0..=2.
    assert_eq!(it.cache_len(), 7);
}

#[test]
fn negative_lookahead_never_advances() {
    let g = letters();
    let n = Expr::not(Expr::Ref(A));
    let mut it = CharsIter::new("b");
    assert!(matches!(it.parse(&g, &n), Ok(Node::Unit)));
    assert_eq!(it.cursor(), 0);
    let mut it = CharsIter::new("a");
    assert!(matches!(
        it.parse(&g, &n),
        Err(ProductionError::Token(RuleError::LookaheadMatched(_)))
    ));
    assert_eq!(it.cursor(), 0);
}

#[test]
fn positive_lookahead_keeps_cursor() {
    let g = letters();
    let n = Expr::PositiveLookahead(Box::new(Expr::Ref(A)));
    let mut it = CharsIter::new("a");
    assert!(matches!(it.parse(&g, &n), Ok(Node::Maybe(Some(_)))));
    assert_eq!(it.cursor(), 0);
    let mut it = CharsIter::new("b");
    assert!(matches!(it.parse(&g, &n), Ok(Node::Maybe(None))));
    let mut it = CharsIter::new("");
    assert!(matches!(it.parse(&g, &n), Err(ProductionError::EndStream)));
}

#[test]
fn optional_never_fails() {
    let g = letters();
    let o = Expr::optional(Expr::Ref(A));
    let mut it = CharsIter::new("b");
    assert!(matches!(it.parse(&g, &o), Ok(Node::Maybe(None))));
    assert_eq!(it.cursor(), 0);
    let mut it = CharsIter::new("");
    assert!(matches!(it.parse(&g, &o), Ok(Node::Maybe(None))));
    let mut it = CharsIter::new("a");
    assert!(matches!(it.parse(&g, &o), Ok(Node::Maybe(Some(_)))));
    assert_eq!(it.cursor(), 1);
}

#[test]
fn optional_parse_moves_only_on_match() {
    let g = letters();
    let mut it = CharsIter::new("ab");
    assert!(optional_parse(&mut it, &g, &Expr::Ref(B)).is_none());
    assert_eq!(it.cursor(), 0);
    assert!(optional_parse(&mut it, &g, &Expr::Ref(A)).is_some());
    assert_eq!(it.cursor(), 1);
}

#[test]
fn repeat_is_maximal() {
    let g = letters();
    let r = Expr::seq(vec![
        Expr::repeat(Expr::Ref(A), RepeatMarker::Repeat(Repeat)),
        Expr::Ref(A),
    ]);
    let mut it = CharsIter::new("aaa");
    match it.parse(&g, &r) {
        Err(ProductionError::EndStream) => {}
        other => panic!("unexpected {:?}", other),
    }
    assert_eq!(it.cursor(), 0);
}

#[test]
fn min_max_rejects_one_more() {
    let g = letters();
    let r = Expr::repeat(Expr::Ref(A), MinMax::<1, 2>::marker());
    let mut it = CharsIter::new("aaa");
    match it.parse(&g, &r) {
        Err(ProductionError::Token(RuleError::MinMax(m))) => {
            assert_eq!(m, abstract_parser::MinMaxRepeatError::MoreThanMax(2))
        }
        other => panic!("unexpected {:?}", other),
    }
    let mut it = CharsIter::new("aab");
    assert!(matches!(it.parse(&g, &r), Ok(Node::List(ref v)) if v.len() == 2));
    let mut it = CharsIter::new("b");
    match it.parse(&g, &r) {
        Err(ProductionError::Token(RuleError::MinMax(m))) => {
            assert_eq!(m, abstract_parser::MinMaxRepeatError::LessThanMin(1))
        }
        other => panic!("unexpected {:?}", other),
    }
}

#[test]
fn max_and_min_markers() {
    let g = letters();
    let max = Expr::repeat(Expr::Ref(A), abstract_parser::Max::<2>::marker());
    let mut it = CharsIter::new("aaaaab");
    match it.parse(&g, &max) {
        Err(ProductionError::Token(RuleError::MoreThanMax(m))) => assert_eq!(m.0, 2),
        other => panic!("unexpected {:?}", other),
    }
    let mut it = CharsIter::new("ab");
    assert!(matches!(it.parse(&g, &max), Ok(Node::List(ref v)) if v.len() == 1));
    let min = Expr::repeat(Expr::Ref(A), abstract_parser::Min::<2>::marker());
    let mut it = CharsIter::new("ab");
    match it.parse(&g, &min) {
        Err(ProductionError::Token(RuleError::LessThanMin(m))) => assert_eq!(m.0, 2),
        other => panic!("unexpected {:?}", other),
    }
    let mut it = CharsIter::new("aaab");
    assert!(matches!(it.parse(&g, &min), Ok(Node::List(ref v)) if v.len() == 3));
}

#[test]
fn regex_terminal_is_anchored() {
    let g = Grammar { rules: vec![] };
    let digits = Expr::reg_expr("[0-9]+").unwrap();
    let mut it = CharsIter::new("x12");
    assert!(matches!(it.parse(&g, &digits), Err(ProductionError::Token(RuleError::Span(0, 1)))));
    let mut it = CharsIter::new("12x");
    assert!(matches!(it.parse(&g, &digits), Ok(Node::Text(0, 2))));
    assert_eq!(it.cursor(), 2);
    let empty = Expr::reg_expr("x*").unwrap();
    let mut it = CharsIter::new("abc");
    assert!(matches!(it.parse(&g, &empty), Err(ProductionError::Token(RuleError::Span(0, 1)))));
    let mut it = CharsIter::new("");
    assert!(matches!(it.parse(&g, &digits), Err(ProductionError::EndStream)));
}

#[test]
fn regex_counts_characters() {
    let g = Grammar { rules: vec![] };
    let word = Expr::reg_expr("[а-я]+").unwrap();
    let mut it = CharsIter::new("дом1");
    assert!(matches!(it.parse(&g, &word), Ok(Node::Text(0, 3))));
    assert_eq!(it.as_str(), "1");
    assert_eq!(it.slice(0, 3), "дом");
}

#[test]
fn bad_regex_is_reported() {
    assert!(Expr::reg_expr("(").is_err());
}

#[test]
fn left_recursion_fails_instead_of_looping() {
    // e = e "a" / "a"
    let g = Grammar {
        rules: vec![Expr::choice(vec![
            Expr::seq(vec![Expr::Ref(0), Expr::sub_str("a")]),
            Expr::sub_str("a"),
        ])],
    };
    let mut it = CharsIter::new("aa");
    match it.parse(&g, &Expr::Ref(0)).unwrap() {
        Node::Variant(1, n) => assert!(is_text(&n, 0, 1)),
        other => panic!("unexpected {:?}", other),
    }
    let mut it = CharsIter::new("x");
    assert!(matches!(it.parse(&g, &Expr::Ref(5)), Err(ProductionError::Token(RuleError::UnknownRule(5)))));
}

#[test]
fn wrap_yields_body() {
    let g = letters();
    let w = Expr::wrap(Expr::sub_str("("), Expr::Ref(A), Expr::sub_str(")"));
    let mut it = CharsIter::new("(a)");
    assert!(matches!(it.parse(&g, &w), Ok(Node::Text(1, 2))));
    let mut it = CharsIter::new("(b)");
    match it.parse(&g, &w) {
        Err(ProductionError::Token(RuleError::Sequence(1, _))) => {}
        other => panic!("unexpected {:?}", other),
    }
    let mut it = CharsIter::new("(a");
    assert!(matches!(it.parse(&g, &w), Err(ProductionError::EndStream)));
}

#[test]
fn packrat_second_call_repeats_first() {
    let g = letters();
    let r = Expr::repeat(Expr::Ref(A), RepeatMarker::Repeat(Repeat));
    let mut it = CachedIter::new(CharsIter::new("aab"), g);
    let first = it.cached_parse(&r).unwrap();
    let after = it.cursor();
    let entries = it.cache_len();
    it.set_cursor(0);
    let second = it.cached_parse(&r).unwrap();
    assert_eq!(it.cursor(), after);
    assert_eq!(it.cache_len(), entries);
    assert_eq!(format!("{:?}", first), format!("{:?}", second));
}

#[test]
fn mod_promotion() {
    let g = Grammar {
        rules: vec![Expr::sub_str("a"), Expr::sub_str("b"), Expr::sub_str("ba")],
    };
    let mut it = CharsIter::new("abbab");
    assert_eq!(it.cursor(), 0);
    assert!(matches!(it.parse(&g, &Expr::Ref(0)), Ok(Node::Text(0, 1))));
    assert_eq!(it.cursor(), 1);
    assert!(matches!(it.parse(&g, &Expr::Ref(1)), Ok(Node::Text(1, 2))));
    assert_eq!(it.cursor(), 2);
    assert!(matches!(it.parse(&g, &Expr::Ref(2)), Ok(Node::Text(2, 4))));
    assert_eq!(it.slice(2, 4), "ba");
    assert_eq!(it.cursor(), 4);
    assert!(matches!(it.parse(&g, &Expr::Ref(1)), Ok(Node::Text(4, 5))));
    assert_eq!(it.cursor(), 5);
    assert_eq!(it.as_str(), "");
}

#[test]
fn chars_iter_peek_and_next() {
    let mut it = CharsIter::new("xy");
    assert!(matches!(it.peek_n(1), Ok('y')));
    assert!(matches!(it.peek_n(2), Err(ProductionError::EndStream)));
    assert!(matches!(it.next(), Ok('x')));
    assert_eq!(it.tail(), vec!['y']);
    assert_eq!(it.cursor(), 1);
}

#[test]
fn backtrack_works() {
    let mut it = BufferIter::new(vec![0, 1, 2, 3, 4]);
    assert_eq!(it.next().unwrap(), 0);
    let checkpoint = it.cursor();
    assert_eq!(it.next().unwrap(), 1);
    assert_eq!(it.next().unwrap(), 2);
    it.set_cursor(checkpoint);
    assert_eq!(it.next().unwrap(), 1);
}

#[test]
fn lookahead_works() {
    let mut it = BufferIter::new(vec![0, 1, 2]);
    assert_eq!(it.peek_n(0).unwrap(), 0);
    assert_eq!(it.peek_n(1).unwrap(), 1);
    assert_eq!(it.next().unwrap(), 0);
}

#[test]
fn combined() {
    let mut it = BufferIter::new(vec![0, 1, 2, 3]);
    let checkpoint = it.cursor();
    assert_eq!(it.peek_n(0).unwrap(), 0);
    assert_eq!(it.next().unwrap(), 0);
    assert_eq!(it.peek_n(0).unwrap(), 1);
    it.set_cursor(checkpoint);
    assert_eq!(it.next().unwrap(), 0);
}

#[test]
fn buffer_tail_keeps_cursor() {
    let mut it = BufferIter::new(vec!['a', 'b', 'c']);
    it.next();
    assert_eq!(it.tail(), vec!['b', 'c']);
    assert_eq!(it.cursor(), 1);
    assert!(matches!(it.peek_n(5), Err(ProductionError::EndStream)));
}

#[test]
fn production_error_to_maps_token_only() {
    let e: ProductionError<u8> = ProductionError::Token(3);
    assert!(matches!(e.to(|x| x as u32 * 2), ProductionError::Token(6)));
    let e: ProductionError<u8> = ProductionError::EndStream;
    assert!(matches!(e.to(|x| x as u32), ProductionError::EndStream));
}

#[test]
fn raw_str_literal_test() {
    assert_eq!(raw_str_literal(""), "r\"\"");
    assert_eq!(raw_str_literal("\""), "r#\"\"\"#");
    assert_eq!(raw_str_literal("#"), "r#\"#\"#");

    assert_eq!(raw_str_literal("#\""), "r#\"#\"\"#");

    assert_eq!(raw_str_literal("#a#"), "r#\"#a#\"#");

    assert_eq!(raw_str_literal("#\"\"#"), "r##\"#\"\"#\"##");

    assert_eq!(raw_str_literal("#\"#"), "r##\"#\"#\"##");

    assert_eq!(
        raw_str_literal(" dsfsf\"## sdf\"###\"sdfsf\"###"),
        "r####\" dsfsf\"## sdf\"###\"sdfsf\"###\"####"
    );
    assert_eq!(
        raw_str_literal(" dsfsf\"## sdf\"#####\"sdfsf\"###"),
        "r######\" dsfsf\"## sdf\"#####\"sdfsf\"###\"######"
    );
}

#[test]
fn memory_size_units_and_rounding() {
    assert_eq!(formated_memory_size(0, 0), "0b");
    assert_eq!(formated_memory_size(1023, 2), "1023.00b");
    assert_eq!(formated_memory_size(1024, 4), "1.0000Kb");
    assert_eq!(formated_memory_size(1536, 0), "2Kb");
    assert_eq!(formated_memory_size(2560, 0), "2Kb");
    assert_eq!(formated_memory_size(1280, 1), "1.2Kb");
    assert_eq!(formated_memory_size(1048576 * 3, 2), "3.00Mb");
    assert_eq!(formated_memory_size(1047552, 0), "1023Kb");
    assert_eq!(format_remaining(None), "Stack limit not set.");
    assert_eq!(format_remaining(Some(2048)), "2.0000Kb");
}

#[test]
fn memory_size_matches_float_formatting() {
    for &bytes in &[0usize, 1, 999, 1023, 1024, 1500, 1536, 123456, 1048575, 5368709120, 1099511627776 * 3 + 7] {
        for prec in 0..6 {
            let (mut value, mut unit) = (bytes as f64, "b");
            for u in ["Kb", "Mb", "Gb", "Tb"] {
                if value >= 1024.0 {
                    value /= 1024.0;
                    unit = u;
                } else {
                    break;
                }
            }
            assert_eq!(formated_memory_size(bytes, prec), format!("{:.prec$}{unit}", value));
        }
    }
}

#[test]
fn remaining_stack_is_reported() {
    let s = formated_remaining_stack();
    assert!(s == "Stack limit not set." || s.ends_with("b"));
}

#[test]
fn trees_and_errors_compare_by_value() {
    let g = letters();
    let ab = Expr::seq(vec![Expr::Ref(A), Expr::Ref(B)]);
    let mut it = CharsIter::new("ab");
    let out = it.parse(&g, &ab).unwrap();
    assert!(out == Node::Sequence(SeqOutput(vec![Node::Text(0, 1), Node::Text(1, 2)])));
    assert!(out != Node::Sequence(SeqOutput(vec![Node::Text(0, 1)])));
    assert!(out != Node::List(vec![Node::Text(0, 1), Node::Text(1, 2)]));

    let c = Expr::choice(vec![Expr::Ref(A), Expr::Ref(B)]);
    let mut it = CharsIter::new("c");
    match it.parse(&g, &c) {
        Err(ProductionError::Token(e)) => {
            let expected = RuleError::Choice(ChoiceError(vec![
                ProductionError::Token(RuleError::Span(0, 1)),
                ProductionError::Token(RuleError::Span(0, 1)),
            ]));
            assert!(e == expected);
            let other = RuleError::Choice(ChoiceError(vec![
                ProductionError::Token(RuleError::Span(0, 1)),
                ProductionError::EndStream,
            ]));
            assert!(e != other);
        }
        other => panic!("unexpected {:?}", other),
    }
    assert!(RuleError::Sequence(1, Box::new(RuleError::RegexRuntime)) != RuleError::Sequence(0, Box::new(RuleError::RegexRuntime)));
}

#[test]
fn memo_hit_leaves_memo_alone() {
    let g = letters();
    let mut it = CachedIter::new(CharsIter::new("ab"), g);
    assert!(it.cached_parse(&Expr::Ref(A)).is_ok());
    assert!(it.is_cached(0, A));
    let entries = it.cache_len();
    it.set_cursor(0);
    assert!(it.cached_parse(&Expr::Ref(A)).is_ok());
    assert_eq!(it.cache_len(), entries);
    assert_eq!(it.cursor(), 1);
}
