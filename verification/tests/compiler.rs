use church::compiler::{compile, CompileError};
use church::grammar::SyntaxError;
use church::types::Type;
use wasmparser::{ExternalKind, Operator, Parser, Payload};

/// What a decoder finds in a binary module.
#[derive(Debug, PartialEq)]
struct Decoded {
    functions: usize,
    exports: Vec<(String, u32)>,
    code_count: u32,
    bodies: Vec<Vec<String>>,
}

fn decode(bytes: &[u8]) -> Decoded {
    wasmparser::validate(bytes).unwrap();
    let mut d = Decoded {
        functions: 0,
        exports: vec![],
        code_count: 0,
        bodies: vec![],
    };
    for payload in Parser::new(0).parse_all(bytes) {
        match payload.unwrap() {
            Payload::FunctionSection(r) => d.functions = r.count() as usize,
            Payload::ExportSection(r) => {
                for e in r {
                    let e = e.unwrap();
                    assert_eq!(e.kind, ExternalKind::Func);
                    d.exports.push((e.name.to_string(), e.index));
                }
            }
            Payload::CodeSectionStart { count, .. } => d.code_count = count,
            Payload::CodeSectionEntry(body) => {
                let mut ops = vec![];
                for op in body.get_operators_reader().unwrap() {
                    ops.push(match op.unwrap() {
                        Operator::I32Const { value } => format!("i32.const {}", value),
                        Operator::Call { function_index } => format!("call {}", function_index),
                        Operator::Return => "return".to_string(),
                        Operator::End => "end".to_string(),
                        other => format!("{:?}", other),
                    });
                }
                d.bodies.push(ops);
            }
            _ => {}
        }
    }
    d
}

fn body(first: &str) -> Vec<String> {
    vec![first.to_string(), "return".to_string(), "end".to_string()]
}

#[test]
fn three_declarations_without_a_header() {
    let bytes = compile("minus5 = -5; zero = 0; meaning = 42;").unwrap();
    assert_eq!(
        decode(&bytes),
        Decoded {
            functions: 3,
            exports: vec![],
            code_count: 3,
            bodies: vec![body("i32.const -5"), body("i32.const 0"), body("i32.const 42")],
        }
    );
    assert_eq!(&bytes[..8], &[0x00, 0x61, 0x73, 0x6d, 0x01, 0x00, 0x00, 0x00]);
}

#[test]
fn an_exported_declaration_keeps_its_position() {
    let bytes = compile("module Numbers (meaning); minus5 = -5; meaning = 42;").unwrap();
    let d = decode(&bytes);
    assert_eq!(d.exports, vec![("meaning".to_string(), 1)]);
    assert_eq!(d.functions, 2);
    assert_eq!(d.code_count, 2);
}

#[test]
fn counts_and_indices_survive_a_round_trip() {
    let mut src = String::from("module Big (d0, d7, d3, d299);\n");
    for i in 0..300 {
        if i % 2 == 0 {
            src.push_str(&format!("d{} = {};\n", i, i * 100 - 5000));
        } else {
            src.push_str(&format!("d{} = d{};\n", i, (i * 7) % 300));
        }
    }
    let d = decode(&compile(&src).unwrap());
    assert_eq!(d.functions, 300);
    assert_eq!(d.code_count, 300);
    assert_eq!(
        d.exports,
        vec![
            ("d0".to_string(), 0),
            ("d3".to_string(), 3),
            ("d7".to_string(), 7),
            ("d299".to_string(), 299)
        ]
    );
    for (i, ops) in d.bodies.iter().enumerate() {
        if i % 2 == 0 {
            assert_eq!(ops, &body(&format!("i32.const {}", i as i32 * 100 - 5000)));
        } else {
            assert_eq!(ops, &body(&format!("call {}", (i * 7) % 300)));
        }
    }
}

#[test]
fn the_empty_program_compiles() {
    let d = decode(&compile("").unwrap());
    assert_eq!(d.functions, 0);
    assert_eq!(d.code_count, 0);
    assert!(d.exports.is_empty());
    let d = decode(&compile("module Empty ();").unwrap());
    assert_eq!(d.functions, 0);
}

#[test]
fn an_undeclared_export_stops_the_compilation() {
    for src in ["module M (foo);", "module M (foo); bar = 1;"] {
        match compile(src) {
            Err(CompileError::Semantic(e)) => {
                assert_eq!(e.module, "M");
                assert_eq!(e.undeclared, vec!["foo".to_string()]);
            }
            other => panic!("{:?}", other),
        }
    }
    let d = decode(&compile("module M (bar); bar = 1;").unwrap());
    assert_eq!(d.exports, vec![("bar".to_string(), 0)]);
    match compile("module M (a, x, b, y); a = 1; b = 2;") {
        Err(CompileError::Semantic(e)) => {
            assert_eq!(e.undeclared, vec!["x".to_string(), "y".to_string()])
        }
        other => panic!("{:?}", other),
    }
}

#[test]
fn a_syntax_error_comes_first() {
    match compile("module M (foo); bar = ;") {
        Err(CompileError::Syntax(e)) => assert_eq!(e, SyntaxError { position: 22 }),
        other => panic!("{:?}", other),
    }
    assert!(matches!(
        compile("a = 2147483648;"),
        Err(CompileError::Syntax(SyntaxError { position: 4 }))
    ));
}

#[test]
fn compiling_a_name_without_a_declaration_fails() {
    match compile("a = 1; b = c; d = e;") {
        Err(CompileError::Type(e)) => {
            assert_eq!(e.name, "b");
            assert_eq!(e.expected, Type::I32);
            assert_eq!(e.actual, Type::Unknown);
        }
        other => panic!("{:?}", other),
    }
    match compile("module M (x); a = b;") {
        Err(CompileError::Semantic(_)) => {}
        other => panic!("{:?}", other),
    }
}

#[test]
fn names_may_refer_forwards_and_to_themselves() {
    let d = decode(&compile("a = b; b = 7; c = c;").unwrap());
    assert_eq!(d.bodies, vec![body("call 1"), body("i32.const 7"), body("call 2")]);
}

#[test]
fn a_name_declared_twice_is_the_first_of_them_to_a_call() {
    let d = decode(&compile("a = 1; a = 2; b = a;").unwrap());
    assert_eq!(
        d.bodies,
        vec![body("i32.const 1"), body("i32.const 2"), body("call 0")]
    );
}
