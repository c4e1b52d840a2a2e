use church::ast::{Decl, Expr, Header, AST};
use church::grammar::Class;
use church::parser::{
    exports, id, integer, is_not_eoi, parse_i32, uid, ChurchParser, Pair, Rule, SyntaxError,
};

fn leaf(rule: Rule, text: &str) -> Pair {
    Pair {
        rule,
        text: text.to_string(),
        inner: vec![],
    }
}

/// The rule and the text of a node, and the same of the nodes inside it.
fn shape(pair: &Pair) -> (Rule, String, Vec<(Rule, String)>) {
    (
        pair.as_rule(),
        pair.as_str().to_string(),
        pair.into_inner()
            .iter()
            .map(|p| (p.rule, p.text.clone()))
            .collect(),
    )
}

fn parse_file(src: &str) -> Result<Vec<Pair>, SyntaxError> {
    ChurchParser::parse(Rule::file, src)
}

#[test]
fn the_end_of_the_input_is_told_apart() {
    assert!(!is_not_eoi(&leaf(Rule::EOI, "")));
    assert!(is_not_eoi(&leaf(Rule::declaration, "a = 1;")));
    assert!(is_not_eoi(&leaf(Rule::module, "module M ();")));
    assert!(is_not_eoi(&leaf(Rule::name, "a")));
}

#[test]
fn identifiers_are_the_text_of_their_nodes() {
    assert_eq!(uid(&leaf(Rule::Name, "Numbers")), "Numbers");
    assert_eq!(id(&leaf(Rule::name, "zerO0")), "zerO0");
    assert_eq!(id(&leaf(Rule::name, "")), "");
}

#[test]
fn integers_are_read_from_their_nodes() {
    assert_eq!(integer(&leaf(Rule::integer, "42")), 42);
    assert_eq!(integer(&leaf(Rule::integer, "-5")), -5);
    assert_eq!(integer(&leaf(Rule::integer, "0")), 0);
    assert_eq!(integer(&leaf(Rule::integer, "+7")), 7);
    assert_eq!(integer(&leaf(Rule::integer, "2147483647")), i32::MAX);
    assert_eq!(integer(&leaf(Rule::integer, "-2147483648")), i32::MIN);
}

#[test]
fn integer_literals_are_a_sign_and_digits_that_fit() {
    assert_eq!(parse_i32("42"), Some(42));
    assert_eq!(parse_i32("-5"), Some(-5));
    assert_eq!(parse_i32("+5"), Some(5));
    assert_eq!(parse_i32("0"), Some(0));
    assert_eq!(parse_i32("-0"), Some(0));
    assert_eq!(parse_i32("007"), Some(7));
    assert_eq!(parse_i32("00000000000000000000042"), Some(42));
    assert_eq!(parse_i32("2147483647"), Some(i32::MAX));
    assert_eq!(parse_i32("2147483648"), None);
    assert_eq!(parse_i32("-2147483648"), Some(i32::MIN));
    assert_eq!(parse_i32("-2147483649"), None);
    assert_eq!(parse_i32("99999999999999999999"), None);
    assert_eq!(parse_i32(""), None);
    assert_eq!(parse_i32("-"), None);
    assert_eq!(parse_i32("+"), None);
    assert_eq!(parse_i32("+-1"), None);
    assert_eq!(parse_i32("1a"), None);
    assert_eq!(parse_i32("a1"), None);
    assert_eq!(parse_i32(" 1"), None);
    assert_eq!(parse_i32("1 "), None);
    assert_eq!(parse_i32("1_000"), None);
    assert_eq!(parse_i32("١٢"), None);
    assert_eq!(parse_i32("1é"), None);
    for text in ["42", "-5", "+5", "007", "2147483648", "-2147483649", "", "-", "1a", " 1"] {
        assert_eq!(parse_i32(text), text.parse::<i32>().ok());
    }
}

#[test]
fn exports_are_the_identifiers_of_the_nodes() {
    let pairs = vec![
        leaf(Rule::name, "magic"),
        leaf(Rule::name, "zerO0"),
        leaf(Rule::name, "magic"),
    ];
    let names = exports(&pairs);
    assert_eq!(names.len(), 2);
    assert!(names.contains(&"magic".to_string()));
    assert!(names.contains(&"zerO0".to_string()));
    assert!(!names.contains(&"zero".to_string()));
    assert_eq!(exports(&vec![]).len(), 0);
}

#[test]
fn character_classes_follow_ascii() {
    for (class, inside, outside) in [
        (Class::Space, " \t\n\r", "a_0\u{b}\u{a0}"),
        (Class::Lower, "az", "AZ09_ é"),
        (Class::Upper, "AZ", "az09_ "),
        (Class::Digit, "09", "azAZ_ ٣"),
        (Class::Ident, "azAZ09_", " -+;=(),é"),
    ] {
        for c in inside.chars() {
            assert!(class.test(c as u32), "{:?} {:?}", class, c);
        }
        for c in outside.chars() {
            assert!(!class.test(c as u32), "{:?} {:?}", class, c);
        }
    }
}

#[test]
fn three_declarations_parse_to_three_nodes_and_the_end() {
    let pairs = parse_file("minus5 = -5; zero = 0; meaning = 42;").unwrap();
    assert_eq!(pairs.len(), 4);
    assert_eq!(
        shape(&pairs[0]),
        (
            Rule::declaration,
            "minus5 = -5;".to_string(),
            vec![
                (Rule::name, "minus5".to_string()),
                (Rule::expression, "-5".to_string())
            ]
        )
    );
    assert_eq!(
        shape(&pairs[0].inner[1]),
        (
            Rule::expression,
            "-5".to_string(),
            vec![(Rule::integer, "-5".to_string())]
        )
    );
    assert_eq!(pairs[1].text, "zero = 0;");
    assert_eq!(pairs[2].text, "meaning = 42;");
    assert_eq!(shape(&pairs[3]), (Rule::EOI, "".to_string(), vec![]));
}

#[test]
fn a_module_clause_parses_to_a_name_and_a_tuple() {
    let pairs = parse_file("module Numbers (meaning); minus5 = -5; meaning = 42;").unwrap();
    assert_eq!(pairs.len(), 4);
    assert_eq!(
        shape(&pairs[0]),
        (
            Rule::module,
            "module Numbers (meaning);".to_string(),
            vec![
                (Rule::Name, "Numbers".to_string()),
                (Rule::tuple, "(meaning)".to_string())
            ]
        )
    );
    assert_eq!(
        shape(&pairs[0].inner[1]),
        (
            Rule::tuple,
            "(meaning)".to_string(),
            vec![(Rule::name, "meaning".to_string())]
        )
    );
    assert_eq!(pairs[1].rule, Rule::declaration);
    assert_eq!(pairs[2].rule, Rule::declaration);
    assert_eq!(pairs[3].rule, Rule::EOI);
}

#[test]
fn parse_i32_const() {
    let src = "
        module Numbers (magic, zerO0);

        minus5 = -5;
        zerO0 = 0;
        meaning = 42;
        ";
    let pairs = parse_file(src).unwrap();
    assert_eq!(
        shape(&pairs[0].inner[1]).2,
        vec![
            (Rule::name, "magic".to_string()),
            (Rule::name, "zerO0".to_string())
        ]
    );
    let mut ast = AST::default();
    for pair in pairs.iter().filter(|p| is_not_eoi(p)) {
        ast.declaration(pair);
    }
    assert_eq!(ast.module.name, "Numbers");
    assert_eq!(
        ast.module.exports.names(),
        &vec!["magic".to_string(), "zerO0".to_string()]
    );
    let decls: Vec<(String, i32)> = ast
        .decls
        .iter()
        .map(|d| match d.expr {
            Expr::I32(v) => (d.name.clone(), v),
            _ => panic!("a literal was expected"),
        })
        .collect();
    assert_eq!(
        decls,
        vec![
            ("minus5".to_string(), -5),
            ("zerO0".to_string(), 0),
            ("meaning".to_string(), 42)
        ]
    );
    let e = AST::try_from(&pairs).unwrap_err();
    assert_eq!(e.module, "Numbers");
    assert_eq!(e.undeclared, vec!["magic".to_string()]);
}

#[test]
fn the_builders_follow_the_nodes() {
    let pairs = ChurchParser::parse(Rule::declaration, "answer = other ;").unwrap();
    let d = Decl::from(pairs[0].into_inner());
    assert_eq!(d.name, "answer");
    assert!(matches!(d.expr, Expr::Name(ref n) if n == "other"));

    let pairs = ChurchParser::parse(Rule::expression, "-12 rest").unwrap();
    assert!(matches!(Expr::from(pairs[0].into_inner()), Expr::I32(-12)));

    let pairs = ChurchParser::parse(Rule::module, "module M ( a , b,c );").unwrap();
    let h = Header::from(pairs[0].into_inner());
    assert_eq!(h.name, "M");
    assert_eq!(
        h.exports.names(),
        &vec!["a".to_string(), "b".to_string(), "c".to_string()]
    );

    let d = Decl::from(&vec![]);
    assert_eq!(d.name, "");
    assert!(matches!(d.expr, Expr::I32(0)));
    let h = Header::from(&vec![]);
    assert_eq!(h.name, "");
    assert_eq!(h.exports.len(), 0);
}

#[test]
fn a_tree_is_built_from_the_top_level_nodes() {
    let pairs = parse_file("module M (b); a = 1; b = a;").unwrap();
    let ast = AST::try_from(&pairs).unwrap();
    assert_eq!(ast.module.name, "M");
    assert_eq!(ast.module.exports.names(), &vec!["b".to_string()]);
    assert_eq!(ast.decls.len(), 2);
    assert_eq!(ast.decls[0].name, "a");
    assert!(matches!(ast.decls[0].expr, Expr::I32(1)));
    assert_eq!(ast.decls[1].name, "b");
    assert!(matches!(ast.decls[1].expr, Expr::Name(ref n) if n == "a"));

    let ast = AST::try_from(&parse_file("").unwrap()).unwrap();
    assert!(ast.decls.is_empty());
    assert_eq!(ast.module.name, "");
}

#[test]
fn blanks_may_stand_between_the_parts() {
    let pairs = parse_file(" \t\r\n module\nM\n(\na\n,\nb\n)\n;\na\n=\n1\n;\nb=2;").unwrap();
    assert_eq!(pairs.len(), 4);
    assert_eq!(pairs[0].text, "module\nM\n(\na\n,\nb\n)\n;");
    assert_eq!(pairs[1].text, "a\n=\n1\n;");
    assert_eq!(pairs[2].text, "b=2;");
    let pairs = parse_file("module M();").unwrap();
    assert_eq!(pairs.len(), 2);
    assert!(pairs[0].inner[1].inner.is_empty());
    let pairs = parse_file("   ").unwrap();
    assert_eq!(pairs.len(), 1);
    assert_eq!(pairs[0].rule, Rule::EOI);
}

#[test]
fn a_declaration_may_be_called_module() {
    let pairs = parse_file("module = 1; modules = module;").unwrap();
    assert_eq!(pairs.len(), 3);
    assert_eq!(pairs[0].inner[0].text, "module");
    assert_eq!(pairs[1].inner[0].text, "modules");
    assert_eq!(pairs[1].inner[1].inner[0].rule, Rule::name);
}

#[test]
fn syntax_errors_carry_the_position() {
    for (src, position) in [
        ("a = ;", 4),
        ("a = 1", 5),
        ("a 1;", 2),
        ("= 1;", 0),
        ("A = 1;", 0),
        ("a = 1; b", 8),
        ("a = 1; 2 = b;", 7),
        ("a = 99999999999;", 4),
        ("a = -;", 4),
        ("a = 1;;", 6),
        ("module m (a);", 7),
        ("module M a;", 9),
        ("module M (a;", 11),
        ("module M (a,);", 12),
        ("module M (A);", 10),
        ("module M (a)", 12),
        ("a = 1; module M (a);", 14),
        ("a = é;", 4),
        ("é", 0),
        ("a = 1; é", 7),
    ] {
        assert_eq!(
            parse_file(src),
            Err(SyntaxError { position }),
            "{:?}",
            src
        );
    }
}

#[test]
fn text_beside_ascii_is_read_by_characters() {
    assert_eq!(
        parse_file("ñ = 1;").unwrap_err(),
        SyntaxError { position: 0 }
    );
    assert_eq!(
        parse_file("abc = 12; déjà = 3;").unwrap_err(),
        SyntaxError { position: 11 }
    );
    let pairs = ChurchParser::parse(Rule::declaration, "abc = 12; déjà").unwrap();
    assert_eq!(pairs[0].text, "abc = 12;");
    let pairs = ChurchParser::parse(Rule::name, "déjà").unwrap();
    assert_eq!(pairs[0].text, "d");
}

#[test]
fn any_rule_can_be_parsed_at_the_start_of_a_text() {
    let one = |rule, src: &str| ChurchParser::parse(rule, src).map(|p| (p.len(), p[0].rule, p[0].text.clone()));
    assert_eq!(one(Rule::name, "abc_1X rest"), Ok((1, Rule::name, "abc_1X".to_string())));
    assert_eq!(one(Rule::Name, "Abc-"), Ok((1, Rule::Name, "Abc".to_string())));
    assert_eq!(one(Rule::integer, "+12x"), Ok((1, Rule::integer, "+12".to_string())));
    assert_eq!(one(Rule::tuple, "(a, b) ;"), Ok((1, Rule::tuple, "(a, b)".to_string())));
    assert_eq!(one(Rule::expression, "x1;"), Ok((1, Rule::expression, "x1".to_string())));
    assert_eq!(one(Rule::EOI, ""), Ok((1, Rule::EOI, "".to_string())));
    assert_eq!(one(Rule::EOI, "x"), Err(SyntaxError { position: 0 }));
    assert_eq!(one(Rule::name, "Abc"), Err(SyntaxError { position: 0 }));
    assert_eq!(one(Rule::Name, "abc"), Err(SyntaxError { position: 0 }));
    assert_eq!(one(Rule::integer, "x"), Err(SyntaxError { position: 0 }));
    assert_eq!(one(Rule::module, " module M ();"), Err(SyntaxError { position: 0 }));
    assert_eq!(one(Rule::declaration, "a = b"), Err(SyntaxError { position: 5 }));
}
