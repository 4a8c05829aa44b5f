//! Bidirectional type checking, subtyping and evaluation.
use vstd::prelude::*;
use crate::ast::{Context, Expression, Identifier, Term, TermModel, Type, TypeModel, fields_model};

verus! {

// ---------------------------------------------------------------------------
// Subtyping, as mathematics

/// The number of constructors in a type; the measure that subtyping recurses on.
pub open spec fn size(t: TypeModel) -> nat
    decreases t,
{
    match t {
        TypeModel::Function { from, to } => 1 + size(*from) + size(*to),
        TypeModel::Record(fields) => 1 + fields_size(fields),
        _ => 1,
    }
}

pub open spec fn fields_size(fields: Seq<(Seq<char>, TypeModel)>) -> nat
    decreases fields,
{
    if fields.len() == 0 {
        0
    } else {
        fields_size(fields.drop_last()) + size(fields.last().1)
    }
}

/// The type of the first field named `key`, if any.
pub open spec fn field_lookup(fields: Seq<(Seq<char>, TypeModel)>, key: Seq<char>) -> Option<TypeModel>
    decreases fields.len(),
{
    if fields.len() == 0 {
        None
    } else {
        match field_lookup(fields.drop_last(), key) {
            Some(t) => Some(t),
            None => if fields.last().0 == key {
                Some(fields.last().1)
            } else {
                None
            },
        }
    }
}

/// Every field named in `of` (its first occurrence) is present in `is` with a
/// type that is a subtype of it.
pub open spec fn fields_subtype(is: Seq<(Seq<char>, TypeModel)>, of: Seq<(Seq<char>, TypeModel)>) -> bool
    decreases fields_size(is) + fields_size(of), 1nat,
{
    if of.len() == 0 {
        true
    } else {
        let key = of.last().0;
        proof {
            assert(size(of.last().1) >= 1);
        }
        fields_subtype(is, of.drop_last()) && (field_lookup(of.drop_last(), key) is Some || match field_lookup(is, key) {
            Some(t) => {
                proof {
                    lemma_lookup_size(is, key);
                }
                subtype_model(t, of.last().1)
            },
            None => false,
        })
    }
}

/// "A value of type `is` may be used where one of type `of` is expected."
pub open spec fn subtype_model(is: TypeModel, of: TypeModel) -> bool
    decreases size(is) + size(of), 0nat,
{
    match (is, of) {
        (TypeModel::Record(is_fields), TypeModel::Record(of_fields)) => fields_subtype(is_fields, of_fields),
        (TypeModel::Function { from: is_from, to: is_to }, TypeModel::Function { from: of_from, to: of_to }) =>
            subtype_model(*of_from, *is_from) && subtype_model(*is_to, *of_to),
        (TypeModel::Natural, TypeModel::Integer) => true,
        (_, TypeModel::Empty) => true,
        (TypeModel::Error, _) => true,
        (TypeModel::Boolean, TypeModel::Boolean) => true,
        (TypeModel::Natural, TypeModel::Natural) => true,
        (TypeModel::Integer, TypeModel::Integer) => true,
        _ => false,
    }
}

/// The type found for a field is no larger than all the fields together.
pub proof fn lemma_lookup_size(fields: Seq<(Seq<char>, TypeModel)>, key: Seq<char>)
    ensures
        field_lookup(fields, key) matches Some(t) ==> size(t) <= fields_size(fields),
    decreases fields.len(),
{
    if fields.len() > 0 {
        lemma_lookup_size(fields.drop_last(), key);
    }
}

/// The model of a field list has one entry per field, in order.
pub proof fn lemma_fields_model_index(fields: Seq<(Identifier, Type)>)
    ensures
        fields_model(fields).len() == fields.len(),
        forall|j: int| 0 <= j < fields.len() ==> #[trigger] fields_model(fields)[j] == (fields[j].0@, fields[j].1@),
    decreases fields.len(),
{
    if fields.len() > 0 {
        lemma_fields_model_index(fields.drop_last());
    }
}

/// Each field's type is no larger than all the fields together.
pub proof fn lemma_field_size(fields: Seq<(Seq<char>, TypeModel)>, j: int)
    requires
        0 <= j < fields.len(),
    ensures
        size(fields[j].1) <= fields_size(fields),
    decreases fields.len(),
{
    if j < fields.len() - 1 {
        lemma_field_size(fields.drop_last(), j);
    }
}

/// A field found in a prefix is the field found in the whole sequence.
pub proof fn lemma_lookup_prefix(fields: Seq<(Seq<char>, TypeModel)>, n: int, key: Seq<char>)
    requires
        0 <= n <= fields.len(),
        field_lookup(fields.subrange(0, n), key) is Some,
    ensures
        field_lookup(fields, key) == field_lookup(fields.subrange(0, n), key),
    decreases fields.len() - n,
{
    if n == fields.len() {
        assert(fields.subrange(0, n) =~= fields);
    } else {
        assert(fields.drop_last().subrange(0, n) =~= fields.subrange(0, n));
        lemma_lookup_prefix(fields.drop_last(), n, key);
    }
}

/// Record subtyping against a record holds against each of its prefixes.
pub proof fn lemma_fields_subtype_prefix(is: Seq<(Seq<char>, TypeModel)>, of: Seq<(Seq<char>, TypeModel)>, n: int)
    requires
        0 <= n <= of.len(),
        fields_subtype(is, of),
    ensures
        fields_subtype(is, of.subrange(0, n)),
    decreases of.len() - n,
{
    if n == of.len() {
        assert(of.subrange(0, n) =~= of);
    } else {
        assert(of.drop_last().subrange(0, n) =~= of.subrange(0, n));
        lemma_fields_subtype_prefix(is, of.drop_last(), n);
    }
}

/// Every type is a subtype of `Empty`, and `Error` is a subtype of every type.
pub proof fn lemma_subtype_top_bottom(t: TypeModel)
    ensures
        subtype_model(t, TypeModel::Empty),
        subtype_model(TypeModel::Error, t),
{
}

/// Subtyping is reflexive: every type is a subtype of itself.
pub proof fn lemma_subtype_reflexive(t: TypeModel)
    ensures
        subtype_model(t, t),
    decreases size(t), 0nat, 0nat,
{
    match t {
        TypeModel::Function { from, to } => {
            lemma_subtype_reflexive(*from);
            lemma_subtype_reflexive(*to);
        },
        TypeModel::Record(fields) => {
            lemma_fields_reflexive(fields, fields.len() as int);
            assert(fields.subrange(0, fields.len() as int) =~= fields);
        },
        _ => {},
    }
}

/// A record's fields are, field by field, subtypes of its own fields.
proof fn lemma_fields_reflexive(fields: Seq<(Seq<char>, TypeModel)>, n: int)
    requires
        0 <= n <= fields.len(),
    ensures
        fields_subtype(fields, fields.subrange(0, n)),
    decreases fields_size(fields), 1nat, n,
{
    if n > 0 {
        let prefix = fields.subrange(0, n);
        let key = fields[n - 1].0;
        assert(prefix.drop_last() =~= fields.subrange(0, n - 1));
        assert(prefix.last() == fields[n - 1]);
        lemma_fields_reflexive(fields, n - 1);
        if field_lookup(prefix.drop_last(), key) is None {
            assert(field_lookup(prefix, key) == Some(fields[n - 1].1));
            lemma_lookup_prefix(fields, n, key);
            lemma_field_size(fields, n - 1);
            lemma_subtype_reflexive(fields[n - 1].1);
        }
    }
}

// ---------------------------------------------------------------------------
// Subtyping, executable

/// The type of the first of `fields[..limit]` named `key`, if any.
fn find_field<'a>(fields: &'a Vec<(Identifier, Type)>, limit: usize, key: &Identifier) -> (r: Option<&'a Type>)
    requires
        limit <= fields.len(),
    ensures
        match r {
            Some(t) => field_lookup(fields_model(fields@).subrange(0, limit as int), key@) == Some(t@),
            None => field_lookup(fields_model(fields@).subrange(0, limit as int), key@) is None,
        },
{
    let ghost model = fields_model(fields@);
    proof {
        lemma_fields_model_index(fields@);
    }
    let mut i: usize = 0;
    while i < limit
        invariant
            i <= limit <= fields.len(),
            model == fields_model(fields@),
            model.len() == fields.len(),
            forall|j: int| 0 <= j < fields.len() ==> #[trigger] model[j] == (fields@[j].0@, fields@[j].1@),
            field_lookup(model.subrange(0, i as int), key@) is None,
        decreases limit - i,
    {
        proof {
            assert(model.subrange(0, i + 1).drop_last() =~= model.subrange(0, i as int));
            assert(model.subrange(0, i + 1).last() == model[i as int]);
        }
        if fields[i].0 == *key {
            proof {
                assert(model.subrange(0, limit as int).subrange(0, i + 1) =~= model.subrange(0, i + 1));
                lemma_lookup_prefix(model.subrange(0, limit as int), i + 1, key@);
            }
            return Some(&fields[i].1);
        }
        i = i + 1;
    }
    None
}

/// The subtyping relation between any two types: whether a value of type
/// `is` may be used where one of type `of` is expected.
pub fn subtype(is: &Type, of: &Type) -> (r: bool)
    ensures
        r == subtype_model(is@, of@),
    decreases size(is@) + size(of@),
{
    match (is, of) {
        (Type::Record(is_fields), Type::Record(of_fields)) => {
            // width, depth and permutation
            let ghost is_model = fields_model(is_fields@);
            let ghost of_model = fields_model(of_fields@);
            proof {
                lemma_fields_model_index(is_fields@);
                lemma_fields_model_index(of_fields@);
                assert(is_model.subrange(0, is_model.len() as int) =~= is_model);
                assert(of_model.subrange(0, 0) =~= Seq::<(Seq<char>, TypeModel)>::empty());
            }
            let mut j: usize = 0;
            while j < of_fields.len()
                invariant
                    j <= of_fields.len(),
                    is_model == fields_model(is_fields@),
                    of_model == fields_model(of_fields@),
                    is_model.len() == is_fields.len(),
                    is_model.subrange(0, is_model.len() as int) == is_model,
                    of_model.len() == of_fields.len(),
                    forall|k: int| 0 <= k < of_fields.len() ==> #[trigger] of_model[k] == (of_fields@[k].0@, of_fields@[k].1@),
                    is@ == TypeModel::Record(is_model),
                    of@ == TypeModel::Record(of_model),
                    fields_subtype(is_model, of_model.subrange(0, j as int)),
                decreases of_fields.len() - j,
            {
                let ghost prefix = of_model.subrange(0, j + 1);
                proof {
                    assert(prefix.drop_last() =~= of_model.subrange(0, j as int));
                    assert(prefix.last() == of_model[j as int]);
                }
                let key = &of_fields[j].0;
                if find_field(of_fields, j, key).is_none() {
                    match find_field(is_fields, is_fields.len(), key) {
                        Some(t) => {
                            proof {
                                lemma_lookup_size(is_model, key@);
                                lemma_field_size(of_model, j as int);
                            }
                            if !subtype(t, &of_fields[j].1) {
                                proof {
                                    if subtype_model(is@, of@) {
                                        lemma_fields_subtype_prefix(is_model, of_model, j + 1);
                                    }
                                }
                                return false;
                            }
                        },
                        None => {
                            proof {
                                if subtype_model(is@, of@) {
                                    lemma_fields_subtype_prefix(is_model, of_model, j + 1);
                                }
                            }
                            return false;
                        },
                    }
                }
                j = j + 1;
            }
            proof {
                assert(of_model.subrange(0, of_model.len() as int) =~= of_model);
            }
            true
        },
        (Type::Function { from: is_from, to: is_to }, Type::Function { from: of_from, to: of_to }) => {
            subtype(of_from, is_from) && subtype(is_to, of_to)
        },
        (Type::Natural, Type::Integer) => true,
        (_, Type::Empty) => true,
        (Type::Error, _) => true,
        (Type::Boolean, Type::Boolean) => true,
        (Type::Natural, Type::Natural) => true,
        (Type::Integer, Type::Integer) => true,
        _ => false,
    }
}

// ---------------------------------------------------------------------------
// Bidirectional checking, as mathematics

/// What a context denotes: variables bound to terms.
pub type ContextModel = Map<Seq<char>, TermModel>;

/// A checker diagnostic: a description, the context and the target type at
/// the failure site.
pub type Diagnostic = (&'static str, Context, Type);

pub type DiagnosticModel = (Seq<char>, ContextModel, TypeModel);

/// An evaluator diagnostic: a description and the context at the failure site.
pub type ExecDiagnostic = (&'static str, Context);

pub type ExecDiagnosticModel = (Seq<char>, ContextModel);

pub open spec fn diagnostic_model(d: Diagnostic) -> DiagnosticModel {
    (d.0@, d.1@, d.2@)
}

pub open spec fn check_outcome(r: Result<(), Diagnostic>) -> Result<(), DiagnosticModel> {
    match r {
        Ok(_) => Ok(()),
        Err(d) => Err(diagnostic_model(d)),
    }
}

pub open spec fn infer_outcome(r: Result<Type, Diagnostic>) -> Result<TypeModel, DiagnosticModel> {
    match r {
        Ok(t) => Ok(t@),
        Err(d) => Err(diagnostic_model(d)),
    }
}

pub open spec fn execute_outcome(r: Result<Term, ExecDiagnostic>) -> Result<TermModel, ExecDiagnosticModel> {
    match r {
        Ok(t) => Ok(t@),
        Err(d) => Err((d.0@, d.1@)),
    }
}

/// Checking `e` against `target` in `ctx`.
pub open spec fn check_model(ctx: ContextModel, e: Expression, target: TypeModel) -> Result<(), DiagnosticModel>
    decreases e, 1nat,
{
    match e {
        Expression::Annotation { .. } => match infer_model(ctx, e) {
            Ok(t) => if subtype_model(t, target) {
                Ok(())
            } else {
                Err(("inferred type from annotation does not match target"@, ctx, target))
            },
            Err(d) => Err(d),
        },
        // constants carry no literal type yet, so any target is accepted
        Expression::Constant { .. } => Ok(()),
        Expression::Variable { id } => if !ctx.contains_key(id@) {
            Err(("failed to find variable in context"@, ctx, target))
        } else if subtype_model(ctx[id@].kind, target) {
            Ok(())
        } else {
            Err(("variable is of wrong type"@, ctx, target))
        },
        Expression::Abstraction { param, func } => match target {
            TypeModel::Function { from, to } =>
                check_model(ctx.insert(param@, TermModel { val: 0, kind: *from }), *func, *to),
            _ => Err(("attempting to check an abstraction with a non-function type"@, ctx, target)),
        },
        Expression::Application { .. } => match infer_model(ctx, e) {
            Ok(t) => if subtype_model(t, target) {
                Ok(())
            } else {
                Err(("inferred type does not match target"@, ctx, target))
            },
            Err(d) => Err(d),
        },
        Expression::Conditional { if_cond, if_then, if_else } => match check_model(ctx, *if_cond, TypeModel::Boolean) {
            Err(d) => Err(d),
            Ok(_) => match check_model(ctx, *if_then, target) {
                Err(d) => Err(d),
                Ok(_) => check_model(ctx, *if_else, target),
            },
        },
    }
}

/// The type synthesized for `e` in `ctx`.
pub open spec fn infer_model(ctx: ContextModel, e: Expression) -> Result<TypeModel, DiagnosticModel>
    decreases e, 0nat,
{
    match e {
        Expression::Annotation { expr, kind } => match check_model(ctx, *expr, kind@) {
            Ok(_) => Ok(kind@),
            Err(d) => Err(d),
        },
        Expression::Constant { term } => Ok(term.kind@),
        Expression::Variable { id } => if ctx.contains_key(id@) {
            Ok(ctx[id@].kind)
        } else {
            Err(("failed to find variable in context"@, ctx, TypeModel::Empty))
        },
        Expression::Application { func, arg } => match infer_model(ctx, *func) {
            Err(d) => Err(d),
            Ok(TypeModel::Function { from, to }) => match check_model(ctx, *arg, *from) {
                Ok(_) => Ok(*to),
                Err(d) => Err(d),
            },
            Ok(_) => Err(("application abstraction is not a function type"@, ctx, TypeModel::Empty)),
        },
        Expression::Abstraction { .. } =>
            Err(("cannot infer an abstraction without annotation"@, ctx, TypeModel::Empty)),
        Expression::Conditional { if_cond, if_then, if_else } => match check_model(ctx, *if_cond, TypeModel::Boolean) {
            Err(d) => Err(d),
            Ok(_) => match infer_model(ctx, *if_then) {
                Err(d) => Err(d),
                Ok(then_kind) => match infer_model(ctx, *if_else) {
                    Err(d) => Err(d),
                    Ok(else_kind) => if subtype_model(then_kind, else_kind) && subtype_model(else_kind, then_kind) {
                        Ok(then_kind)
                    } else {
                        Err(("if clauses of different types"@, ctx, TypeModel::Empty))
                    },
                },
            },
        },
    }
}

// ---------------------------------------------------------------------------
// Evaluation, as mathematics

/// The value that `e` evaluates to in `ctx`.
pub open spec fn execute_model(ctx: ContextModel, e: Expression) -> Result<TermModel, ExecDiagnosticModel>
    decreases e,
{
    match e {
        Expression::Annotation { expr, .. } => execute_model(ctx, *expr),
        Expression::Constant { term } => Ok(term@),
        Expression::Variable { id } => if ctx.contains_key(id@) {
            Ok(ctx[id@])
        } else {
            Err(("no such variable in context"@, ctx))
        },
        Expression::Abstraction { .. } => Err(("attempting to execute an abstraction"@, ctx)),
        Expression::Application { func, arg } => match *func {
            Expression::Abstraction { param, func: body } => match execute_model(ctx, *arg) {
                Ok(value) => execute_model(ctx.insert(param@, value), *body),
                Err(d) => Err(d),
            },
            _ => Err(("attempting to execute an application to nothing"@, ctx)),
        },
        Expression::Conditional { if_cond, if_then, if_else } => match execute_model(ctx, *if_cond) {
            Ok(t) => if t.val == 1 {
                execute_model(ctx, *if_then)
            } else if t.val == 0 {
                execute_model(ctx, *if_else)
            } else {
                Err(("invalid type for a conditional"@, ctx))
            },
            Err(_) => Err(("invalid type for a conditional"@, ctx)),
        },
    }
}

/// Applying a variable never evaluates, whatever the variable is bound to:
/// functions are not values, so only an abstraction can be applied.
pub proof fn lemma_apply_variable_fails(ctx: ContextModel, id: Identifier, arg: Expression)
    ensures
        execute_model(
            ctx,
            Expression::Application { func: Box::new(Expression::Variable { id }), arg: Box::new(arg) },
        ) == Err::<TermModel, ExecDiagnosticModel>(("attempting to execute an application to nothing"@, ctx)),
{
}

/// Inference is pure: two runs on contexts that bind the same terms, and on
/// the same expression, give the same outcome.
pub proof fn lemma_infer_deterministic(
    c1: Context,
    c2: Context,
    expression: Expression,
    r1: Result<Type, Diagnostic>,
    r2: Result<Type, Diagnostic>,
)
    requires
        c1@ == c2@,
        infer_outcome(r1) == infer_model(c1@, expression),
        infer_outcome(r2) == infer_model(c2@, expression),
    ensures
        infer_outcome(r1) == infer_outcome(r2),
{
}

/// Evaluation is pure: two runs on contexts that bind the same terms, and on
/// the same expression, give the same outcome.
pub proof fn lemma_execute_deterministic(
    c1: Context,
    c2: Context,
    expression: Expression,
    r1: Result<Term, ExecDiagnostic>,
    r2: Result<Term, ExecDiagnostic>,
)
    requires
        c1@ == c2@,
        execute_outcome(r1) == execute_model(c1@, expression),
        execute_outcome(r2) == execute_model(c2@, expression),
    ensures
        execute_outcome(r1) == execute_outcome(r2),
{
}

// ---------------------------------------------------------------------------
// Bidirectional checking, executable

/// Checks `expression` against the expected type `target` in `context`.
pub fn check(context: Context, expression: Expression, target: Type) -> (r: Result<(), Diagnostic>)
    ensures
        check_outcome(r) == check_model(context@, expression, target@),
    decreases expression, 1nat,
{
    match expression {
        Expression::Annotation { expr, kind } => {
            match infer(context.duplicate(), Expression::Annotation { expr, kind }) {
                Ok(inferred) => if subtype(&inferred, &target) {
                    Ok(())
                } else {
                    Err(("inferred type from annotation does not match target", context, target))
                },
                Err(d) => Err(d),
            }
        },
        // constants carry no literal type yet, so any target is accepted
        Expression::Constant { .. } => Ok(()),
        Expression::Variable { id } => {
            let fits = match context.get(&id) {
                Some(term) => Some(subtype(&term.kind, &target)),
                None => None,
            };
            match fits {
                Some(true) => Ok(()),
                Some(false) => Err(("variable is of wrong type", context, target)),
                None => Err(("failed to find variable in context", context, target)),
            }
        },
        Expression::Abstraction { param, func } => match target {
            Type::Function { from, to } => {
                let mut context = context;
                context.insert(param, Term { val: 0, kind: *from });
                check(context, *func, *to)
            },
            _ => Err(("attempting to check an abstraction with a non-function type", context, target)),
        },
        Expression::Application { func, arg } => {
            match infer(context.duplicate(), Expression::Application { func, arg }) {
                Ok(inferred) => if subtype(&inferred, &target) {
                    Ok(())
                } else {
                    Err(("inferred type does not match target", context, target))
                },
                Err(d) => Err(d),
            }
        },
        Expression::Conditional { if_cond, if_then, if_else } => {
            match check(context.duplicate(), *if_cond, Type::Boolean) {
                Ok(()) => {},
                Err(d) => return Err(d),
            }
            match check(context.duplicate(), *if_then, target.duplicate()) {
                Ok(()) => {},
                Err(d) => return Err(d),
            }
            check(context, *if_else, target)
        },
    }
}

/// Synthesizes the type of `expression` in `context`.
pub fn infer(context: Context, expression: Expression) -> (r: Result<Type, Diagnostic>)
    ensures
        infer_outcome(r) == infer_model(context@, expression),
    decreases expression, 0nat,
{
    match expression {
        Expression::Annotation { expr, kind } => {
            let declared = kind.duplicate();
            match check(context, *expr, kind) {
                Ok(()) => Ok(declared),
                Err(d) => Err(d),
            }
        },
        Expression::Constant { term } => Ok(term.kind),
        Expression::Variable { id } => {
            let found = match context.get(&id) {
                Some(term) => Some(term.kind.duplicate()),
                None => None,
            };
            match found {
                Some(kind) => Ok(kind),
                None => Err(("failed to find variable in context", context, Type::Empty)),
            }
        },
        Expression::Application { func, arg } => match infer(context.duplicate(), *func) {
            Ok(Type::Function { from, to }) => match check(context, *arg, *from) {
                Ok(()) => Ok(*to),
                Err(d) => Err(d),
            },
            Ok(_) => Err(("application abstraction is not a function type", context, Type::Empty)),
            Err(d) => Err(d),
        },
        Expression::Abstraction { .. } => Err(("cannot infer an abstraction without annotation", context, Type::Empty)),
        Expression::Conditional { if_cond, if_then, if_else } => {
            match check(context.duplicate(), *if_cond, Type::Boolean) {
                Ok(()) => {},
                Err(d) => return Err(d),
            }
            let then_kind = match infer(context.duplicate(), *if_then) {
                Ok(t) => t,
                Err(d) => return Err(d),
            };
            let else_kind = match infer(context.duplicate(), *if_else) {
                Ok(t) => t,
                Err(d) => return Err(d),
            };
            if subtype(&then_kind, &else_kind) && subtype(&else_kind, &then_kind) {
                // the join of the two branch types is not computed
                Ok(then_kind)
            } else {
                Err(("if clauses of different types", context, Type::Empty))
            }
        },
    }
}

// ---------------------------------------------------------------------------
// Evaluation, executable

/// Evaluates `expression` in `context` to a term, or fails.
pub fn execute(context: Context, expression: Expression) -> (r: Result<Term, ExecDiagnostic>)
    ensures
        execute_outcome(r) == execute_model(context@, expression),
    decreases expression,
{
    match expression {
        Expression::Annotation { expr, .. } => execute(context, *expr),
        Expression::Constant { term } => Ok(term),
        Expression::Variable { id } => {
            let found = match context.get(&id) {
                Some(term) => Some(term.duplicate()),
                None => None,
            };
            match found {
                Some(term) => Ok(term),
                None => Err(("no such variable in context", context)),
            }
        },
        Expression::Abstraction { .. } => Err(("attempting to execute an abstraction", context)),
        Expression::Application { func, arg } => match *func {
            Expression::Abstraction { param, func: body } => {
                match execute(context.duplicate(), *arg) {
                    Ok(value) => {
                        let mut context = context;
                        context.insert(param, value);
                        execute(context, *body)
                    },
                    Err(d) => Err(d),
                }
            },
            _ => Err(("attempting to execute an application to nothing", context)),
        },
        Expression::Conditional { if_cond, if_then, if_else } => {
            match execute(context.duplicate(), *if_cond) {
                Ok(t) => if t.val == 1 {
                    execute(context, *if_then)
                } else if t.val == 0 {
                    execute(context, *if_else)
                } else {
                    Err(("invalid type for a conditional", context))
                },
                Err(_) => Err(("invalid type for a conditional", context)),
            }
        },
    }
}

} // verus!
