use church::ast::{Decl, Expr};
use church::types::{Env, Match, Type};

fn env_of(bindings: Vec<(&str, Type)>) -> Env {
    let mut env = Env::new();
    for (name, ty) in bindings {
        env.insert(name.to_string(), ty);
    }
    env
}

#[test]
fn types_match_works() {
    assert!(Expr::I32(0).check_type(&Env::new(), Type::I32).is_ok());

    assert!(Expr::Name("a".to_string())
        .check_type(&env_of(vec![("a", Type::I32)]), Type::I32)
        .is_ok());

    assert!(Expr::Func("a".to_string(), Expr::I32(0).into()) //* a -> 0
        .check_type(
            &Env::new(),
            Type::Func(Type::Unknown.into(), Type::I32.into())
        )
        .is_ok());

    assert!(
        Expr::Func("a".to_string(), Expr::Name("a".to_string()).into()) //* a -> a
            .check_type(&Env::new(), Type::Func(Type::I32.into(), Type::I32.into()))
            .is_ok()
    );
}

#[test]
fn types_match_catches_errors() {
    assert!(Expr::I32(0)
        .check_type(
            &Env::new(),
            Type::Func(Box::new(Type::I32), Box::new(Type::I32))
        )
        .is_err());

    assert!(Expr::Name("a".to_string())
        .check_type(&env_of(vec![("a", Type::Unknown)]), Type::I32)
        .is_err());

    assert_eq!(
        Expr::Func("a".to_string(), Box::new(Expr::Name("b".to_string())))
            .check_type(
                &env_of(vec![("a", Type::I32)]),
                Type::Func(Box::new(Type::I32), Box::new(Type::I32))
            )
            .unwrap_err(),
        Type::Func(Type::I32.into(), Type::Unknown.into()),
    );
}

#[test]
fn a_literal_is_an_i32_and_nothing_else() {
    for k in [i32::MIN, -5, 0, 42, i32::MAX] {
        assert_eq!(Expr::I32(k).check_type(&Env::new(), Type::I32), Ok(()));
        assert_eq!(
            Expr::I32(k).check_type(
                &Env::new(),
                Type::Func(Box::new(Type::Unknown), Box::new(Type::I32))
            ),
            Err(Type::I32)
        );
        assert_eq!(
            Expr::I32(k).check_type(&Env::new(), Type::Unknown),
            Err(Type::I32)
        );
    }
}

#[test]
fn a_name_has_the_type_of_its_binding() {
    let name = Expr::Name("a".to_string());
    assert_eq!(name.check_type(&Env::new(), Type::I32), Err(Type::Unknown));
    assert_eq!(
        name.check_type(&env_of(vec![("a", Type::Unknown)]), Type::I32),
        Err(Type::Unknown)
    );
    assert_eq!(name.check_type(&Env::new(), Type::Unknown), Ok(()));
    let func = Type::Func(Box::new(Type::I32), Box::new(Type::I32));
    assert_eq!(
        name.check_type(&env_of(vec![("a", func.clone())]), Type::I32),
        Err(func.clone())
    );
    assert_eq!(
        name.check_type(&env_of(vec![("a", func.clone())]), func),
        Ok(())
    );
}

#[test]
fn an_abstraction_against_another_type_reports_unknowns() {
    let f = Expr::Func("a".to_string(), Box::new(Expr::I32(0)));
    assert_eq!(
        f.check_type(&Env::new(), Type::I32),
        Err(Type::Func(
            Box::new(Type::Unknown),
            Box::new(Type::Unknown)
        ))
    );
}

#[test]
fn the_parameter_hides_an_outer_binding_in_the_body_only() {
    let env = env_of(vec![("a", Type::I32)]);
    let inner = Type::Func(Box::new(Type::Unknown), Box::new(Type::I32));
    let f = Expr::Func("a".to_string(), Box::new(Expr::Name("a".to_string())));
    assert_eq!(
        f.check_type(&env, inner),
        Err(Type::Func(
            Box::new(Type::Unknown),
            Box::new(Type::Unknown)
        ))
    );
    assert_eq!(
        Expr::Name("a".to_string()).check_type(&env, Type::I32),
        Ok(())
    );
}

#[test]
fn nested_abstractions_report_the_inner_mismatch() {
    let f = Expr::Func(
        "a".to_string(),
        Box::new(Expr::Func(
            "b".to_string(),
            Box::new(Expr::Name("c".to_string())),
        )),
    );
    let want = Type::Func(
        Box::new(Type::I32),
        Box::new(Type::Func(Box::new(Type::I32), Box::new(Type::I32))),
    );
    assert_eq!(
        f.check_type(&Env::new(), want),
        Err(Type::Func(
            Box::new(Type::I32),
            Box::new(Type::Func(
                Box::new(Type::I32),
                Box::new(Type::Unknown)
            ))
        ))
    );
}

#[test]
fn a_declaration_is_checked_by_its_body() {
    let d = Decl {
        name: "d".to_string(),
        expr: Expr::Name("x".to_string()),
    };
    assert_eq!(d.check_type(&Env::new(), Type::I32), Err(Type::Unknown));
    assert_eq!(
        d.check_type(&env_of(vec![("x", Type::I32)]), Type::I32),
        Ok(())
    );
}

#[test]
fn environments_bind_and_rebind() {
    let mut env = Env::new();
    assert_eq!(env.get(&"a".to_string()), None);
    env.insert("a".to_string(), Type::I32);
    env.insert("b".to_string(), Type::Unknown);
    assert_eq!(env.get(&"a".to_string()), Some(&Type::I32));
    env.insert("a".to_string(), Type::Unknown);
    assert_eq!(env.get(&"a".to_string()), Some(&Type::Unknown));
    let more = env.extended("c".to_string(), Type::I32);
    assert_eq!(more.get(&"c".to_string()), Some(&Type::I32));
    assert_eq!(more.get(&"b".to_string()), Some(&Type::Unknown));
    assert_eq!(env.get(&"c".to_string()), None);
}

#[test]
fn types_compare_by_structure() {
    let a = Type::Func(Box::new(Type::I32), Box::new(Type::Unknown));
    let b = Type::Func(Box::new(Type::I32), Box::new(Type::Unknown));
    let c = Type::Func(Box::new(Type::Unknown), Box::new(Type::I32));
    assert!(a.same(&b));
    assert!(!a.same(&c));
    assert!(!Type::I32.same(&Type::Unknown));
    assert_eq!(a.duplicate(), b);
    assert_eq!(a.clone(), a);
    assert_ne!(a, c);
}
