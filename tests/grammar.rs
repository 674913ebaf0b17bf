use abstract_parser::{
    compile_grammar, parse_core_grammar, parse_grammar, Ast_Generics, CachedIter, CharsIter, CharsIterTrait, Expr, GExpr,
    GrammarError,
    Node, Quantifier, RuleBody, RuleDef, Shape,
};

fn show(e: &GExpr) -> String {
    match e {
        GExpr::Ident(n) => n.clone(),
        GExpr::Generic(n, args) => {
            let a: Vec<String> = args.iter().map(show).collect();
            format!("{}<{}>", n, a.join(", "))
        }
        GExpr::Boxed(n) => format!("<{}>", n),
        GExpr::Literal(t, sub) => format!("\"{}\"{}", t, if *sub { "s" } else { "" }),
        GExpr::Sequence(items) => {
            let a: Vec<String> = items.iter().map(show).collect();
            format!("({})", a.join(" "))
        }
        GExpr::Choice(items) => {
            let a: Vec<String> = items.iter().map(show).collect();
            format!("({})", a.join(" / "))
        }
        GExpr::Quantified(x, q) => {
            let suffix = match q {
                Quantifier::Optional => "?".to_string(),
                Quantifier::ZeroOrMore => "*".to_string(),
                Quantifier::OneOrMore => "+".to_string(),
                Quantifier::Count(n) => format!("{{{}}}", n),
                Quantifier::Min(n) => format!("{{{},}}", n),
                Quantifier::Max(m) => format!("{{,{}}}", m),
                Quantifier::MinMax(n, m) => format!("{{{},{}}}", n, m),
            };
            format!("{}{}", show(x), suffix)
        }
        GExpr::Joined(x, sep, min) => format!("{}**{{{},}}{}", show(x), min, show(sep)),
        GExpr::Not(x) => format!("!{}", show(x)),
        GExpr::Group(x) => format!("[{}]", show(x)),
    }
}

fn alias(defs: &[RuleDef], i: usize) -> String {
    match &defs[i].body {
        RuleBody::Alias(e) => show(e),
        _ => panic!("expected an alias rule"),
    }
}

fn text(it: &CachedIter, n: &Node) -> String {
    match n {
        Node::Text(a, b) => it.slice(*a, *b),
        other => panic!("expected a terminal, got {:?}", other),
    }
}

fn items(n: &Node) -> &Vec<Node> {
    match n {
        Node::Sequence(s) => &s.0,
        other => panic!("expected a sequence, got {:?}", other),
    }
}

#[test]
fn grammar_grammar() {
    // Rules of the core dialect.
    let defs = parse_grammar("A = a").unwrap();
    assert_eq!(defs.len(), 1);
    assert_eq!(defs[0].name, "A");
    assert_eq!(alias(&defs, 0), "a");

    let defs = parse_grammar(r#"A = "[A-Z]""#).unwrap();
    assert_eq!(alias(&defs, 0), "\"[A-Z]\"");

    let defs = parse_grammar("AB = a b").unwrap();
    assert_eq!(defs[0].name, "AB");
    assert_eq!(alias(&defs, 0), "(a b)");

    let defs = parse_grammar(r#"AB = a "[0-9]+" c"#).unwrap();
    assert_eq!(alias(&defs, 0), "(a \"[0-9]+\" c)");

    let defs = parse_grammar("AB = a / b").unwrap();
    assert_eq!(alias(&defs, 0), "(a / b)");

    // The core dialect: a choice of tokens, or a sequence of tokens, not both.
    let defs = parse_core_grammar("A = a").unwrap();
    assert_eq!(alias(&defs, 0), "a");
    let defs = parse_core_grammar(r#"A = "[A-Z]""#).unwrap();
    assert_eq!(alias(&defs, 0), "\"[A-Z]\"");
    let defs = parse_core_grammar("AB = a b").unwrap();
    assert_eq!(alias(&defs, 0), "(a b)");
    let defs = parse_core_grammar(r#"AB = a "[0-9]+" c"#).unwrap();
    assert_eq!(alias(&defs, 0), "(a \"[0-9]+\" c)");
    let defs = parse_core_grammar("AB = a / b").unwrap();
    assert_eq!(alias(&defs, 0), "(a / b)");
    match parse_core_grammar("AB = a / b c") {
        Err(GrammarError::Syntax(residue)) => assert_eq!(residue, "c"),
        other => panic!("unexpected {:?}", other.map(|d| d.len())),
    }
    match parse_core_grammar("AB = a b / c") {
        Err(GrammarError::Syntax(residue)) => assert_eq!(residue, "/ c"),
        other => panic!("unexpected {:?}", other.map(|d| d.len())),
    }

    // Head shapes of the feature dialect, and generic rules instantiated with literals.
    let t = compile_grammar(
        r#"
        Ident = "[a-z]+"
        Eq = "="
        Ab {
            a: A<"1\n">,
            A<"2 ">,
            b: Ident
        }
        A<T> (Ident " asdf" ", s" T)
        C (Ident " asdf" ", s" A<"1"* "2">{2})
        D {
            A2("asd"{2,})
            B("asd" / <D>{2,3})
        }
    "#,
    )
    .unwrap();
    let ab = t.rule_index("Ab").unwrap();
    match &t.rules[ab].shape {
        Shape::Struct(fields) => {
            assert_eq!(fields.len(), 3);
            assert_eq!(fields[0].0.as_deref(), Some("a"));
            assert_eq!(fields[1].0, None);
            assert_eq!(fields[2].0.as_deref(), Some("b"));
        }
        other => panic!("unexpected {:?}", other),
    }
    let mut it = CachedIter::new(CharsIter::new("ident asdf, s1\nident asdf, s2 ident"), t.grammar);
    let out = it.full_parse(&Expr::Ref(ab)).unwrap();
    let fields = items(&out);
    let a = items(&fields[0]);
    assert_eq!(
        (text(&it, &a[0]), text(&it, &a[1]), text(&it, &a[2]), text(&it, &a[3])),
        ("ident".to_string(), " asdf".to_string(), ", s".to_string(), "1\n".to_string())
    );
    assert_eq!(text(&it, &fields[2]), "ident");
}

#[test]
fn lib_grammar() {
    let defs = parse_grammar("AB<a,b,c> = a b d< a c, b < c> >").unwrap();
    assert_eq!(defs.len(), 1);
    assert_eq!(defs[0].name, "AB");
    assert_eq!(defs[0].params, vec!["a".to_string(), "b".to_string(), "c".to_string()]);
    assert_eq!(alias(&defs, 0), "(a b d<(a c), b<c>>)");
    match &defs[0].body {
        RuleBody::Alias(GExpr::Sequence(items)) => {
            assert_eq!(items.len(), 3);
            assert!(matches!(&items[2], GExpr::Generic(n, args) if n == "d" && args.len() == 2));
        }
        _ => panic!("expected a sequence of three"),
    }

    let defs = parse_grammar(
        r#"
            //AB - sdfdsff
            AB<a, b, c> = a* b+ c{1, 2} (d{2} / (a b< !a, c {2} >))
            "#,
    )
    .unwrap();
    assert_eq!(defs.len(), 1);
    assert_eq!(defs[0].params.len(), 3);
    assert_eq!(alias(&defs, 0), "(a* b+ c{1,2} [(d{2} / [(a b<!a, c{2}>)])])");
}

#[test]
fn joined_and_lookahead_syntax() {
    let defs = parse_grammar("L = a ** \",\"s\nM = a **{2,} b\nN = !a b?").unwrap();
    assert_eq!(alias(&defs, 0), "a**{1,}\",\"s");
    assert_eq!(alias(&defs, 1), "a**{2,}b");
    assert_eq!(alias(&defs, 2), "(!a b?)");
}

#[test]
fn tuple_fields_may_be_ignored() {
    let defs = parse_grammar("Bb(#[ignore] Ab Ident)").unwrap();
    match &defs[0].body {
        RuleBody::Tuple(fields) => {
            assert_eq!(fields.len(), 2);
            assert!(fields[0].ignored);
            assert!(!fields[1].ignored);
        }
        _ => panic!("expected a tuple rule"),
    }
}

#[test]
fn enum_heads_name_variants() {
    let defs = parse_grammar("Cb {\n  Adsf(Ident)\n  Adssf(Ident)\n}\nIdent = \"[A-Z]\"").unwrap();
    match &defs[0].body {
        RuleBody::Enum(vs) => {
            assert_eq!(vs.len(), 2);
            assert_eq!(vs[0].0, "Adsf");
            assert_eq!(vs[1].0, "Adssf");
        }
        _ => panic!("expected an enum rule"),
    }
    let t = compile_grammar("Cb {\n  Adsf(Ident)\n  Adssf(Ident)\n}\nIdent = \"[A-Z]\"").unwrap();
    let cb = t.rule_index("Cb").unwrap();
    let mut it = CachedIter::new(CharsIter::new("Q"), t.grammar);
    assert!(matches!(it.full_parse(&Expr::Ref(cb)), Ok(Node::Variant(0, _))));
}

#[test]
fn scenario_grammars_from_text() {
    let t = compile_grammar("a = \"a\"s\nb = \"b\"s\nAB = a b\nC = a / b\nR = a{3}\nL = a ** \",\"\nS = (!a b)*").unwrap();
    let l = t.rule_index("L").unwrap();
    let mut lit = CachedIter::new(CharsIter::new("a,a,"), compile_grammar("a = \"a\"s\nL = a ** \",\"").unwrap().grammar);
    assert!(matches!(lit.cached_parse(&Expr::Ref(1)), Ok(Node::List(ref v)) if v.len() == 2));
    assert_eq!(lit.as_str(), ",");
    let mut none = CachedIter::new(CharsIter::new("b"), compile_grammar("a = \"a\"s\nL = a ** \",\"").unwrap().grammar);
    assert!(none.cached_parse(&Expr::Ref(1)).is_err());
    assert!(l > 0);
    let ab = t.rule_index("AB").unwrap();
    let r = t.rule_index("R").unwrap();
    let mut it = CachedIter::new(CharsIter::new("ab"), t.grammar);
    assert!(matches!(it.full_parse(&Expr::Ref(ab)), Ok(Node::Sequence(_))));
    assert_eq!(it.cursor(), 2);
    let t = compile_grammar("a = \"a\"s\nR = a{3}").unwrap();
    let mut it = CachedIter::new(CharsIter::new("aaaa"), t.grammar);
    match it.full_parse(&Expr::Ref(r.min(1))) {
        Err(e) => assert_eq!(e.residue, "a"),
        Ok(_) => panic!("expected residue"),
    }
}

#[test]
fn interning_names_tokens_and_choices() {
    let t = compile_grammar("Ab = \"x\"s / \"y\"\nTok = \"z\"s").unwrap();
    let names: Vec<&str> = t.ast.ast.tokens.iter().map(|g| g.name.as_str()).collect();
    assert_eq!(names, vec!["Token0", "Token1", "Tok"]);
    assert!(t.ast.ast.tokens[0].is_sub_str);
    assert!(!t.ast.ast.tokens[1].is_sub_str);
    assert_eq!(t.ast.ast.tokens[1].expr, "y");
    assert_eq!(t.ast.ast.choices.len(), 1);
    assert_eq!(t.ast.ast.choices[0].name, "Choice0");

    let mut tables = Ast_Generics::new();
    assert_eq!(tables.gen_token("a", true), "Token0");
    assert_eq!(tables.gen_token("b", false), "Token1");
    assert_eq!(tables.gen_choice(vec![Some("a".to_string()), None]), "Choice0");
}

#[test]
fn translation_errors() {
    assert!(matches!(compile_grammar("A = b"), Err(GrammarError::UnknownRule(n)) if n == "b"));
    assert!(matches!(compile_grammar("A = \"(\""), Err(GrammarError::BadPattern(_))));
    assert!(matches!(compile_grammar("A = x{}\nx = \"x\"s"), Err(GrammarError::BadCounter)));
    assert!(matches!(compile_grammar("A = x **{0,} x\nx = \"x\"s"), Err(GrammarError::BadCounter)));
    assert!(matches!(compile_grammar("A<T> = T\nB = A<x, x>\nx = \"x\"s"), Err(GrammarError::Arity(_))));
    assert!(matches!(compile_grammar("A<T> = A<T>\nB = A<x>\nx = \"x\"s"), Err(GrammarError::TooDeep(_))));
    assert!(matches!(parse_grammar("A = = b"), Err(GrammarError::Syntax(_))));
}

#[test]
fn terminal_declarations() {
    let defs = parse_grammar("unit Comma = \",\"s\nNumber: u64 = \"[0-9]+\"\nList = Number ** Comma").unwrap();
    assert!(matches!(&defs[0].body, RuleBody::UnitToken(GExpr::Literal(t, true)) if t == ","));
    assert!(matches!(&defs[1].body, RuleBody::ParsedToken(ty, GExpr::Literal(t, false)) if ty == "u64" && t == "[0-9]+"));
    let t = compile_grammar("unit Comma = \",\"s\nNumber: u64 = \"[0-9]+\"\nList = Number ** Comma").unwrap();
    assert!(matches!(&t.rules[0].shape, Shape::Unit));
    assert!(matches!(&t.rules[1].shape, Shape::Parsed(ty) if ty == "u64"));
    let list = t.rule_index("List").unwrap();
    let mut it = CachedIter::new(CharsIter::new("12,7,300"), t.grammar);
    match it.full_parse(&Expr::Ref(list)).unwrap() {
        Node::List(v) => {
            assert_eq!(v.len(), 3);
            assert_eq!(text(&it, &v[2]), "300");
        }
        other => panic!("unexpected {:?}", other),
    }
    let comma = Expr::Ref(0);
    let mut it = CachedIter::new(CharsIter::new(","), compile_grammar("unit Comma = \",\"s").unwrap().grammar);
    assert!(matches!(it.cached_parse(&comma), Ok(Node::Unit)));
    assert_eq!(it.cursor(), 1);
}

#[test]
fn choices_in_generic_rules_record_parameters() {
    let t = compile_grammar("A<T> = T / x\nB = A<x>\nx = \"x\"s").unwrap();
    assert_eq!(t.ast.ast.choices.len(), 1);
    let g = t.ast.ast.choices[0].generics.as_ref().unwrap();
    assert_eq!(g.0, vec!["T".to_string()]);
    assert_eq!(t.ast.ast.choices[0].items[1].as_deref(), Some("x"));
}

#[test]
fn syntax_error_keeps_residue() {
    match parse_grammar("A = a\nB = = c") {
        Err(GrammarError::Syntax(rest)) => assert!("A = a\nB = = c".ends_with(rest.as_str())),
        other => panic!("unexpected {:?}", other.map(|d| d.len())),
    }
}

#[test]
fn translate_rules_maps_operators_to_combinators() {
    let defs = parse_grammar("x = \"x\"s\nA = x? x* x+ x{2} !x (x / x) x ** x\nG<T> = T").unwrap();
    let t = abstract_parser::translate_rules(&defs).unwrap();
    assert_eq!(t.named, 2);
    match &t.grammar.rules[1] {
        Expr::Sequence(s) => {
            assert_eq!(s.0.len(), 7);
            assert!(matches!(&s.0[0], Expr::Optional(_)));
            assert!(matches!(&s.0[1], Expr::Repeat(r) if r.marker == abstract_parser::RepeatMarker::Repeat(abstract_parser::Repeat)));
            assert!(matches!(&s.0[2], Expr::Repeat(r) if r.marker == abstract_parser::RepeatMarker::Min(abstract_parser::SMin { min: 1 })));
            assert!(matches!(&s.0[3], Expr::Repeat(r) if r.marker == abstract_parser::RepeatMarker::Count(abstract_parser::SCountRepeatRule { count: 2 })));
            assert!(matches!(&s.0[4], Expr::NegativeLookahead(_)));
            assert!(matches!(&s.0[5], Expr::Choice(c) if c.0.len() == 2));
            assert!(matches!(&s.0[6], Expr::Joinable(j) if j.min == 1));
        }
        other => panic!("unexpected {:?}", other),
    }
}

#[test]
fn feature_directives_are_accepted() {
    let defs = parse_grammar("#[feature(token, comment)]\nA = a\n#[feature()]\nB = b").unwrap();
    assert_eq!(defs.len(), 2);
    assert_eq!(defs[1].name, "B");
}

fn alias_expr(src: &str) -> GExpr {
    match parse_grammar(src).unwrap().remove(0).body {
        RuleBody::Alias(e) => e,
        _ => panic!("expected an alias"),
    }
}

#[test]
fn expression_translation_and_tables() {
    let defs = parse_grammar("a = \"a\"s\nb = \"b\"s").unwrap();

    let mut tables = Ast_Generics::new();
    let x = abstract_parser::translate_expression(&defs, &mut tables, &alias_expr("X = a{3}"), None).unwrap();
    assert!(matches!(&x, Expr::Repeat(r) if matches!(*r.rule, Expr::Ref(0))
        && r.marker == abstract_parser::RepeatMarker::Count(abstract_parser::SCountRepeatRule { count: 3 })));
    assert!(tables.ast.tokens.is_empty() && tables.ast.choices.is_empty());

    let x = abstract_parser::translate_expression(&defs, &mut tables, &alias_expr("X = a ** \",\""), None).unwrap();
    assert!(matches!(&x, Expr::Joinable(j) if matches!(*j.rule, Expr::Ref(0)) && j.min == 1));
    assert_eq!(tables.ast.tokens.len(), 1);
    assert_eq!(tables.ast.tokens[0].name, "Token0");
    assert!(!tables.ast.tokens[0].is_sub_str);
    assert_eq!(tables.ast.tokens[0].expr, ",");

    let x = abstract_parser::translate_expression(&defs, &mut tables, &alias_expr("X = a / b"), None).unwrap();
    assert!(matches!(&x, Expr::Choice(c) if matches!(c.0[0], Expr::Ref(0)) && matches!(c.0[1], Expr::Ref(1))));
    assert_eq!(tables.ast.choices.len(), 1);
    assert_eq!(tables.ast.choices[0].name, "Choice0");
    assert_eq!(tables.ast.choices[0].items, vec![Some("a".to_string()), Some("b".to_string())]);
    assert_eq!(tables.ast.tokens.len(), 1);

    let x = abstract_parser::translate_expression(&defs, &mut tables, &alias_expr("X = (!a b)*"), None).unwrap();
    assert!(matches!(&x, Expr::Repeat(r) if matches!(&*r.rule, Expr::Sequence(s) if s.0.len() == 2)));

    assert!(matches!(
        abstract_parser::translate_expression(&defs, &mut tables, &alias_expr("X = c"), None),
        Err(GrammarError::UnknownRule(n)) if n == "c"
    ));
    assert!(matches!(
        abstract_parser::translate_expression(&defs, &mut tables, &alias_expr("X = \"(\""), None),
        Err(GrammarError::BadPattern(t)) if t == "("
    ));
}

#[test]
fn compiled_grammar_keeps_definitions() {
    let t = compile_grammar("AB = a / b\na = \"a\"s\nb = \"b\"s").unwrap();
    assert_eq!(t.definitions.len(), 3);
    assert_eq!(t.named, 3);
    assert!(matches!(&t.grammar.rules[0], Expr::Choice(c) if matches!(c.0[0], Expr::Ref(1)) && matches!(c.0[1], Expr::Ref(2))));
    assert_eq!(t.ast.ast.choices[0].name, "Choice0");
}

#[test]
fn core_dialect_rules_and_literals() {
    let defs = parse_core_grammar("A = a\nB = \"x\"s / b\n").unwrap();
    assert_eq!(defs.len(), 2);
    assert_eq!(defs[1].name, "B");
    assert_eq!(alias(&defs, 1), "(\"x\"s / b)");
}

#[test]
fn core_grammar_translation_interns_in_order() {
    let defs = parse_core_grammar("AB = a / b\na = \"a\"s\nb = \"b\"s").unwrap();
    let t = abstract_parser::translate_rules(&defs).unwrap();
    assert!(matches!(&t.grammar.rules[0], Expr::Choice(c) if matches!(c.0[0], Expr::Ref(1)) && matches!(c.0[1], Expr::Ref(2))));
    assert_eq!(t.ast.ast.choices.len(), 1);
    assert_eq!(t.ast.ast.choices[0].name, "Choice0");
    assert_eq!(t.ast.ast.choices[0].items, vec![Some("a".to_string()), Some("b".to_string())]);
    let names: Vec<&str> = t.ast.ast.tokens.iter().map(|g| g.name.as_str()).collect();
    assert_eq!(names, vec!["a", "b"]);
    let mut it = CachedIter::new(CharsIter::new("a"), t.grammar);
    assert!(matches!(it.full_parse(&Expr::Ref(0)), Ok(Node::Variant(0, _))));
}
