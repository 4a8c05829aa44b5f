use chrysanthemum::ast::{Context, Expression, Term, Type};
use chrysanthemum::simple::{check, execute, infer, subtype};

fn func(from: Type, to: Type) -> Type {
    Type::Function { from: Box::new(from), to: Box::new(to) }
}

fn record(fields: Vec<(&str, Type)>) -> Type {
    Type::Record(fields.into_iter().map(|(k, t)| (k.to_string(), t)).collect())
}

fn constant(val: u64, kind: Type) -> Expression {
    Expression::Constant { term: Term { val, kind } }
}

fn var(id: &str) -> Expression {
    Expression::Variable { id: id.to_string() }
}

fn lambda(param: &str, body: Expression) -> Expression {
    Expression::Abstraction { param: param.to_string(), func: Box::new(body) }
}

fn annotate(expr: Expression, kind: Type) -> Expression {
    Expression::Annotation { expr: Box::new(expr), kind }
}

fn apply(f: Expression, arg: Expression) -> Expression {
    Expression::Application { func: Box::new(f), arg: Box::new(arg) }
}

fn cond(c: Expression, t: Expression, e: Expression) -> Expression {
    Expression::Conditional { if_cond: Box::new(c), if_then: Box::new(t), if_else: Box::new(e) }
}

fn samples() -> Vec<Type> {
    vec![
        Type::Empty,
        Type::Error,
        Type::Boolean,
        Type::Natural,
        Type::Integer,
        func(Type::Integer, Type::Natural),
        record(vec![("a", Type::Boolean), ("b", func(Type::Boolean, Type::Natural))]),
        record(vec![("a", Type::Boolean), ("a", Type::Natural)]),
    ]
}

#[test]
fn subtype_top_and_bottom() {
    for t in samples() {
        assert!(subtype(&t, &Type::Empty));
        assert!(subtype(&Type::Error, &t));
    }
}

#[test]
fn subtype_reflexive() {
    for t in samples() {
        assert!(subtype(&t, &t));
    }
}

#[test]
fn subtype_natural_integer() {
    assert!(subtype(&Type::Natural, &Type::Integer));
    assert!(!subtype(&Type::Integer, &Type::Natural));
    assert!(!subtype(&Type::Boolean, &Type::Integer));
    assert!(!subtype(&Type::Empty, &Type::Boolean));
}

#[test]
fn subtype_records() {
    let wide = record(vec![("a", Type::Boolean), ("b", Type::Natural)]);
    assert!(subtype(&wide, &record(vec![("a", Type::Boolean)])));
    assert!(subtype(&record(vec![("a", Type::Natural)]), &record(vec![("a", Type::Integer)])));
    assert!(!subtype(&record(vec![("a", Type::Boolean)]), &record(vec![("a", Type::Boolean), ("b", Type::Boolean)])));
    assert!(subtype(&wide, &record(vec![("b", Type::Integer), ("a", Type::Boolean)])));
    assert!(!subtype(&record(vec![("a", Type::Integer)]), &record(vec![("a", Type::Natural)])));
    assert!(subtype(&wide, &record(vec![])));
    assert!(!subtype(&wide, &Type::Boolean));
}

#[test]
fn subtype_records_first_field_wins() {
    let shadowed = record(vec![("a", Type::Boolean), ("a", Type::Natural)]);
    assert!(subtype(&shadowed, &record(vec![("a", Type::Boolean)])));
    assert!(!subtype(&shadowed, &record(vec![("a", Type::Natural)])));
    assert!(subtype(&record(vec![("a", Type::Boolean)]), &shadowed));
}

#[test]
fn subtype_function_variance() {
    let f1 = func(Type::Integer, Type::Natural);
    let f2 = func(Type::Natural, Type::Integer);
    assert!(subtype(&f1, &f2));
    assert!(!subtype(&f2, &f1));
    assert!(!subtype(&f1, &Type::Integer));
}

#[test]
fn check_annotated_constant() {
    let e = annotate(constant(1, Type::Boolean), Type::Boolean);
    assert!(check(Context::new(), e, Type::Boolean).is_ok());
}

#[test]
fn infer_annotated_application() {
    let id = annotate(lambda("x", var("x")), func(Type::Boolean, Type::Boolean));
    let e = apply(id, constant(1, Type::Boolean));
    assert!(matches!(infer(Context::new(), e), Ok(Type::Boolean)));
}

#[test]
fn execute_conditional_branches() {
    let e = cond(constant(1, Type::Boolean), constant(1, Type::Natural), constant(0, Type::Natural));
    assert!(matches!(execute(Context::new(), e), Ok(Term { val: 1, kind: Type::Natural })));
    let e = cond(constant(0, Type::Boolean), constant(1, Type::Natural), constant(0, Type::Integer));
    assert!(matches!(execute(Context::new(), e), Ok(Term { val: 0, kind: Type::Integer })));
}

#[test]
fn execute_conditional_invalid() {
    let e = cond(constant(2, Type::Boolean), constant(1, Type::Natural), constant(0, Type::Natural));
    let (msg, _) = execute(Context::new(), e).unwrap_err();
    assert_eq!(msg, "invalid type for a conditional");
    let e = cond(var("missing"), constant(1, Type::Natural), constant(0, Type::Natural));
    let (msg, _) = execute(Context::new(), e).unwrap_err();
    assert_eq!(msg, "invalid type for a conditional");
}

#[test]
fn execute_application_to_variable_fails() {
    let mut ctx = Context::new();
    ctx.insert("f".to_string(), Term { val: 7, kind: func(Type::Boolean, Type::Boolean) });
    let (msg, _) = execute(ctx, apply(var("f"), constant(1, Type::Boolean))).unwrap_err();
    assert_eq!(msg, "attempting to execute an application to nothing");
    let (msg, _) = execute(Context::new(), apply(var("f"), constant(1, Type::Boolean))).unwrap_err();
    assert_eq!(msg, "attempting to execute an application to nothing");
}

#[test]
fn execute_application_binds_parameter() {
    let e = apply(lambda("x", var("x")), constant(5, Type::Natural));
    assert!(matches!(execute(Context::new(), e), Ok(Term { val: 5, kind: Type::Natural })));
    let e = apply(lambda("x", var("y")), constant(5, Type::Natural));
    let (msg, _) = execute(Context::new(), e).unwrap_err();
    assert_eq!(msg, "no such variable in context");
}

#[test]
fn execute_other_shapes() {
    let e = annotate(constant(3, Type::Integer), Type::Integer);
    assert!(matches!(execute(Context::new(), e), Ok(Term { val: 3, kind: Type::Integer })));
    let (msg, _) = execute(Context::new(), lambda("x", var("x"))).unwrap_err();
    assert_eq!(msg, "attempting to execute an abstraction");
    let mut ctx = Context::new();
    ctx.insert("v".to_string(), Term { val: 9, kind: Type::Natural });
    assert!(matches!(execute(ctx, var("v")), Ok(Term { val: 9, kind: Type::Natural })));
}

#[test]
fn runs_are_repeatable() {
    let build = || apply(annotate(lambda("x", var("x")), func(Type::Natural, Type::Integer)), constant(1, Type::Natural));
    let first = format!("{:?}", infer(Context::new(), build()));
    let second = format!("{:?}", infer(Context::new(), build()));
    assert_eq!(first, second);
    assert!(matches!(infer(Context::new(), build()), Ok(Type::Integer)));
    let first = format!("{:?}", execute(Context::new(), build()));
    let second = format!("{:?}", execute(Context::new(), build()));
    assert_eq!(first, second);
}

#[test]
fn check_variable_diagnostics() {
    let mut ctx = Context::new();
    ctx.insert("n".to_string(), Term { val: 0, kind: Type::Natural });
    assert!(check(ctx.duplicate(), var("n"), Type::Integer).is_ok());
    let (msg, _, target) = check(ctx.duplicate(), var("n"), Type::Boolean).unwrap_err();
    assert_eq!(msg, "variable is of wrong type");
    assert!(matches!(target, Type::Boolean));
    let (msg, _, _) = check(ctx, var("m"), Type::Boolean).unwrap_err();
    assert_eq!(msg, "failed to find variable in context");
}

#[test]
fn check_abstractions() {
    let ok = check(Context::new(), lambda("x", var("x")), func(Type::Natural, Type::Integer));
    assert!(ok.is_ok());
    let (msg, ctx, _) = check(Context::new(), lambda("x", var("x")), func(Type::Integer, Type::Natural)).unwrap_err();
    assert_eq!(msg, "variable is of wrong type");
    assert!(matches!(ctx.get(&"x".to_string()), Some(Term { val: 0, kind: Type::Integer })));
    let (msg, _, _) = check(Context::new(), lambda("x", var("x")), Type::Boolean).unwrap_err();
    assert_eq!(msg, "attempting to check an abstraction with a non-function type");
}

#[test]
fn check_constants_accept_any_target() {
    assert!(check(Context::new(), constant(1, Type::Boolean), Type::Natural).is_ok());
}

#[test]
fn check_mismatches() {
    let e = annotate(constant(1, Type::Integer), Type::Integer);
    let (msg, _, _) = check(Context::new(), e, Type::Natural).unwrap_err();
    assert_eq!(msg, "inferred type from annotation does not match target");
    let id = annotate(lambda("x", var("x")), func(Type::Boolean, Type::Boolean));
    let (msg, _, _) = check(Context::new(), apply(id, constant(1, Type::Boolean)), Type::Natural).unwrap_err();
    assert_eq!(msg, "inferred type does not match target");
}

#[test]
fn check_conditionals() {
    let e = cond(constant(1, Type::Boolean), lambda("x", var("x")), lambda("y", var("y")));
    assert!(check(Context::new(), e, func(Type::Natural, Type::Natural)).is_ok());
    let e = cond(var("c"), constant(1, Type::Natural), constant(0, Type::Natural));
    let (msg, _, _) = check(Context::new(), e, Type::Natural).unwrap_err();
    assert_eq!(msg, "failed to find variable in context");
}

#[test]
fn infer_diagnostics() {
    let (msg, _, _) = infer(Context::new(), lambda("x", var("x"))).unwrap_err();
    assert_eq!(msg, "cannot infer an abstraction without annotation");
    let (msg, _, _) = infer(Context::new(), apply(constant(1, Type::Natural), constant(1, Type::Natural))).unwrap_err();
    assert_eq!(msg, "application abstraction is not a function type");
    let (msg, _, _) = infer(Context::new(), var("z")).unwrap_err();
    assert_eq!(msg, "failed to find variable in context");
    let e = cond(constant(1, Type::Boolean), constant(1, Type::Natural), constant(0, Type::Integer));
    let (msg, _, _) = infer(Context::new(), e).unwrap_err();
    assert_eq!(msg, "if clauses of different types");
}

#[test]
fn infer_conditional_and_constants() {
    let e = cond(constant(1, Type::Boolean), constant(1, Type::Natural), constant(0, Type::Natural));
    assert!(matches!(infer(Context::new(), e), Ok(Type::Natural)));
    assert!(matches!(infer(Context::new(), constant(4, Type::Integer)), Ok(Type::Integer)));
    let mut ctx = Context::new();
    ctx.insert("b".to_string(), Term { val: 1, kind: Type::Boolean });
    assert!(matches!(infer(ctx, var("b")), Ok(Type::Boolean)));
}

#[test]
fn context_shadowing_and_copies() {
    let mut ctx = Context::new();
    assert!(ctx.get(&"a".to_string()).is_none());
    ctx.insert("a".to_string(), Term { val: 1, kind: Type::Boolean });
    let copy = ctx.duplicate();
    ctx.insert("a".to_string(), Term { val: 2, kind: Type::Natural });
    assert!(matches!(ctx.get(&"a".to_string()), Some(Term { val: 2, kind: Type::Natural })));
    assert!(matches!(copy.get(&"a".to_string()), Some(Term { val: 1, kind: Type::Boolean })));
}

#[test]
fn type_duplicate_keeps_structure() {
    let t = record(vec![("a", func(Type::Natural, Type::Boolean))]);
    let d = t.duplicate();
    assert_eq!(format!("{:?}", t), format!("{:?}", d));
    assert!(subtype(&d, &t) && subtype(&t, &d));
}
