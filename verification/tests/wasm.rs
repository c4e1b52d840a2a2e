use church::ast::{Decl, Expr, Header, AST};
use church::names::NameSet;
use church::wasm::bin::{
    leb128_i32_size, leb128_u32_size, Section, MODULE_HEADER, VERSION_HEADER,
};
use church::wasm::Module;
use wasmparser::{ExternalKind, Operator, Parser, Payload};

fn decl(name: &str, expr: Expr) -> Decl {
    Decl {
        name: name.to_string(),
        expr,
    }
}

fn tree(exports: &[&str], decls: Vec<Decl>) -> AST {
    AST {
        module: Header {
            name: "Numbers".to_string(),
            exports: NameSet::from(exports.iter().map(|s| s.to_string()).collect()),
        },
        decls,
    }
}

fn numbers() -> Vec<Decl> {
    vec![
        decl("minus5", Expr::I32(-5)),
        decl("zero", Expr::I32(0)),
        decl("meaning", Expr::I32(42)),
    ]
}

/// What a decoder finds in a binary module.
struct Decoded {
    types: u32,
    functions: Vec<u32>,
    exports: Vec<(String, u32)>,
    code_count: u32,
    bodies: Vec<Vec<String>>,
}

fn decode(bytes: &[u8]) -> Decoded {
    let mut d = Decoded {
        types: 0,
        functions: vec![],
        exports: vec![],
        code_count: 0,
        bodies: vec![],
    };
    for payload in Parser::new(0).parse_all(bytes) {
        match payload.unwrap() {
            Payload::TypeSection(r) => d.types = r.count(),
            Payload::FunctionSection(r) => {
                for f in r {
                    d.functions.push(f.unwrap());
                }
            }
            Payload::ExportSection(r) => {
                for e in r {
                    let e = e.unwrap();
                    assert_eq!(e.kind, ExternalKind::Func);
                    d.exports.push((e.name.to_string(), e.index));
                }
            }
            Payload::CodeSectionStart { count, .. } => d.code_count = count,
            Payload::CodeSectionEntry(body) => {
                let mut ops = vec![];
                for op in body.get_operators_reader().unwrap() {
                    ops.push(match op.unwrap() {
                        Operator::I32Const { value } => format!("i32.const {}", value),
                        Operator::Call { function_index } => format!("call {}", function_index),
                        Operator::Return => "return".to_string(),
                        Operator::End => "end".to_string(),
                        other => format!("{:?}", other),
                    });
                }
                d.bodies.push(ops);
            }
            _ => {}
        }
    }
    d
}

fn body(first: &str) -> Vec<String> {
    vec![first.to_string(), "return".to_string(), "end".to_string()]
}

#[test]
fn three_numbers_compile_to_three_functions() {
    let ast = tree(&[], numbers());
    assert!(ast.is_generable());
    let module = Module::from(&ast);
    assert_eq!(module.function_count(), 3);
    assert_eq!(module.export_count(), 0);
    assert!(module.is_encodable());
    let bytes = module.to_wasm();
    assert_eq!(
        bytes,
        vec![
            0x00, 0x61, 0x73, 0x6d, 0x01, 0x00, 0x00, 0x00, // magic number, version
            0x01, 0x05, 0x01, 0x60, 0x00, 0x01, 0x7f, // type section: () -> i32
            0x03, 0x04, 0x03, 0x00, 0x00, 0x00, // function section
            0x07, 0x01, 0x00, // export section
            0x0a, 0x13, 0x03, // code section
            0x05, 0x00, 0x41, 0x7b, 0x0f, 0x0b, // i32.const -5
            0x05, 0x00, 0x41, 0x00, 0x0f, 0x0b, // i32.const 0
            0x05, 0x00, 0x41, 0x2a, 0x0f, 0x0b, // i32.const 42
        ]
    );
    wasmparser::validate(&bytes).unwrap();
    let d = decode(&bytes);
    assert_eq!(d.types, 1);
    assert_eq!(d.functions, vec![0, 0, 0]);
    assert!(d.exports.is_empty());
    assert_eq!(d.code_count, 3);
    assert_eq!(
        d.bodies,
        vec![body("i32.const -5"), body("i32.const 0"), body("i32.const 42")]
    );
}

#[test]
fn an_export_points_at_the_position_of_its_declaration() {
    let ast = tree(
        &["meaning"],
        vec![decl("minus5", Expr::I32(-5)), decl("meaning", Expr::I32(42))],
    );
    let bytes = Module::from(&ast).to_wasm();
    assert_eq!(
        bytes,
        vec![
            0x00, 0x61, 0x73, 0x6d, 0x01, 0x00, 0x00, 0x00, //
            0x01, 0x05, 0x01, 0x60, 0x00, 0x01, 0x7f, //
            0x03, 0x03, 0x02, 0x00, 0x00, //
            0x07, 0x0b, 0x01, 0x07, b'm', b'e', b'a', b'n', b'i', b'n', b'g', 0x00, 0x01, //
            0x0a, 0x0d, 0x02, //
            0x05, 0x00, 0x41, 0x7b, 0x0f, 0x0b, //
            0x05, 0x00, 0x41, 0x2a, 0x0f, 0x0b,
        ]
    );
    wasmparser::validate(&bytes).unwrap();
    let d = decode(&bytes);
    assert_eq!(d.exports, vec![("meaning".to_string(), 1)]);
    assert_eq!(d.functions.len(), 2);
    assert_eq!(d.code_count, 2);
}

#[test]
fn exports_come_in_source_order_whatever_the_header_says() {
    let ast = tree(&["zero", "minus5", "zero"], numbers());
    let module = Module::from(&ast);
    assert_eq!(module.export_count(), 2);
    let d = decode(&module.to_wasm());
    assert_eq!(
        d.exports,
        vec![("minus5".to_string(), 0), ("zero".to_string(), 1)]
    );
}

#[test]
fn a_name_becomes_a_call_of_the_function_it_stands_for() {
    let ast = tree(
        &[],
        vec![
            decl("later", Expr::Name("answer".to_string())),
            decl("answer", Expr::I32(42)),
            decl("again", Expr::Name("later".to_string())),
        ],
    );
    let bytes = Module::from(&ast).to_wasm();
    wasmparser::validate(&bytes).unwrap();
    let d = decode(&bytes);
    assert_eq!(
        d.bodies,
        vec![body("call 1"), body("i32.const 42"), body("call 0")]
    );
}

#[test]
fn decoded_counts_follow_the_tree() {
    for n in [0usize, 1, 2, 127, 128, 300] {
        let decls: Vec<Decl> = (0..n)
            .map(|i| decl(&format!("d{}", i), Expr::I32(i as i32 * 1000 - 70_000)))
            .collect();
        let names: Vec<String> = (0..n).step_by(3).map(|i| format!("d{}", i)).collect();
        let exported: Vec<&str> = names.iter().map(|s| s.as_str()).collect();
        let ast = tree(&exported, decls);
        let module = Module::from(&ast);
        assert!(module.is_encodable());
        let bytes = module.to_wasm();
        wasmparser::validate(&bytes).unwrap();
        let d = decode(&bytes);
        assert_eq!(d.functions.len(), n);
        assert_eq!(d.code_count as usize, n);
        assert_eq!(d.bodies.len(), n);
        assert_eq!(d.exports.len(), names.len());
        for (name, index) in d.exports {
            assert_eq!(name, format!("d{}", index));
            assert_eq!(index % 3, 0);
        }
        for (i, ops) in d.bodies.iter().enumerate() {
            assert_eq!(ops, &body(&format!("i32.const {}", i as i32 * 1000 - 70_000)));
        }
    }
}

#[test]
fn extreme_constants_and_long_names_survive_the_encoding() {
    let long = "n".repeat(200);
    let ast = tree(
        &[&long, "é"],
        vec![
            decl(&long, Expr::I32(i32::MIN)),
            decl("é", Expr::I32(i32::MAX)),
            decl("c", Expr::I32(-64)),
            decl("d", Expr::I32(64)),
            decl("e", Expr::I32(-65)),
            decl("f", Expr::I32(63)),
        ],
    );
    let bytes = Module::from(&ast).to_wasm();
    wasmparser::validate(&bytes).unwrap();
    let d = decode(&bytes);
    assert_eq!(d.exports, vec![(long, 0), ("é".to_string(), 1)]);
    assert_eq!(
        d.bodies,
        vec![
            body("i32.const -2147483648"),
            body("i32.const 2147483647"),
            body("i32.const -64"),
            body("i32.const 64"),
            body("i32.const -65"),
            body("i32.const 63"),
        ]
    );
}

#[test]
fn the_empty_tree_compiles_to_four_sections() {
    let bytes = Module::from(&AST::default()).to_wasm();
    assert_eq!(
        bytes,
        vec![
            0x00, 0x61, 0x73, 0x6d, 0x01, 0x00, 0x00, 0x00, //
            0x01, 0x05, 0x01, 0x60, 0x00, 0x01, 0x7f, //
            0x03, 0x01, 0x00, //
            0x07, 0x01, 0x00, //
            0x0a, 0x01, 0x00,
        ]
    );
    wasmparser::validate(&bytes).unwrap();
}

#[test]
fn a_section_starts_with_its_identifier() {
    assert_eq!(Section::Type.encode(vec![1, 2, 3]), vec![1, 1, 2, 3]);
    assert_eq!(Section::Custom.encode(vec![]), vec![0]);
    assert_eq!(Section::Code.encode(vec![9]), vec![10, 9]);
    let ids: Vec<u8> = [
        Section::Custom,
        Section::Type,
        Section::Import,
        Section::Func,
        Section::Table,
        Section::Memory,
        Section::Global,
        Section::Export,
        Section::Start,
        Section::Element,
        Section::Code,
        Section::Data,
    ]
    .iter()
    .map(|s| s.id())
    .collect();
    assert_eq!(ids, (0u8..12).collect::<Vec<u8>>());
}

#[test]
fn the_headers_are_those_of_the_format() {
    assert_eq!(MODULE_HEADER, [0, b'a', b's', b'm']);
    assert_eq!(VERSION_HEADER, [1, 0, 0, 0]);
}

#[test]
fn leb128_sizes_change_at_the_powers_of_128() {
    assert_eq!(leb128_u32_size(0), 1);
    assert_eq!(leb128_u32_size(127), 1);
    assert_eq!(leb128_u32_size(128), 2);
    assert_eq!(leb128_u32_size(16_383), 2);
    assert_eq!(leb128_u32_size(16_384), 3);
    assert_eq!(leb128_u32_size(2_097_151), 3);
    assert_eq!(leb128_u32_size(2_097_152), 4);
    assert_eq!(leb128_u32_size(268_435_455), 4);
    assert_eq!(leb128_u32_size(268_435_456), 5);
    assert_eq!(leb128_u32_size(u32::MAX), 5);
    assert_eq!(leb128_i32_size(0), 1);
    assert_eq!(leb128_i32_size(63), 1);
    assert_eq!(leb128_i32_size(64), 2);
    assert_eq!(leb128_i32_size(-64), 1);
    assert_eq!(leb128_i32_size(-65), 2);
    assert_eq!(leb128_i32_size(8191), 2);
    assert_eq!(leb128_i32_size(8192), 3);
    assert_eq!(leb128_i32_size(-8193), 3);
    assert_eq!(leb128_i32_size(i32::MAX), 5);
    assert_eq!(leb128_i32_size(i32::MIN), 5);
}

#[test]
fn a_name_declared_twice_is_exported_once() {
    let ast = tree(
        &["a", "b"],
        vec![
            decl("a", Expr::I32(1)),
            decl("b", Expr::I32(2)),
            decl("a", Expr::I32(3)),
            decl("c", Expr::Name("a".to_string())),
        ],
    );
    let module = Module::from(&ast);
    assert_eq!(module.function_count(), 4);
    assert_eq!(module.export_count(), 2);
    let bytes = module.to_wasm();
    wasmparser::validate(&bytes).unwrap();
    let d = decode(&bytes);
    assert_eq!(d.exports, vec![("a".to_string(), 0), ("b".to_string(), 1)]);
    assert_eq!(d.bodies[3], body("call 0"));
}

#[test]
fn a_tree_compiles_to_bytes_in_one_step() {
    let bytes = tree(&["zero"], numbers()).into_bytes();
    let d = decode(&bytes);
    assert_eq!(d.exports, vec![("zero".to_string(), 1)]);
    assert_eq!(d.code_count, 3);
    assert_eq!(bytes, Module::from(&tree(&["zero"], numbers())).to_wasm());
}
