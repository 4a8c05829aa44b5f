use vstd::prelude::*;

verus! {

/// The name of a variable or of a record field.
pub type Identifier = String;

/// The types of the language.
#[derive(Debug)]
pub enum Type {
    /// The top type: every type is a subtype of it.
    Empty,
    /// The bottom type used for error recovery: it is a subtype of every type.
    Error,
    Boolean,
    Natural,
    Integer,
    Function { from: Box<Type>, to: Box<Type> },
    /// A record type; an earlier field shadows a later one of the same name.
    Record(Vec<(Identifier, Type)>),
}

/// The mathematical value of a [`Type`].
pub enum TypeModel {
    Empty,
    Error,
    Boolean,
    Natural,
    Integer,
    Function { from: Box<TypeModel>, to: Box<TypeModel> },
    Record(Seq<(Seq<char>, TypeModel)>),
}

pub open spec fn type_model(t: Type) -> TypeModel
    decreases t,
{
    match t {
        Type::Empty => TypeModel::Empty,
        Type::Error => TypeModel::Error,
        Type::Boolean => TypeModel::Boolean,
        Type::Natural => TypeModel::Natural,
        Type::Integer => TypeModel::Integer,
        Type::Function { from, to } => TypeModel::Function {
            from: Box::new(type_model(*from)),
            to: Box::new(type_model(*to)),
        },
        Type::Record(fields) => TypeModel::Record(fields_model(fields@)),
    }
}

pub open spec fn fields_model(fields: Seq<(Identifier, Type)>) -> Seq<(Seq<char>, TypeModel)>
    decreases fields,
{
    if fields.len() == 0 {
        Seq::empty()
    } else {
        fields_model(fields.drop_last()).push((fields.last().0@, type_model(fields.last().1)))
    }
}

impl View for Type {
    type V = TypeModel;

    open spec fn view(&self) -> TypeModel {
        type_model(*self)
    }
}

impl Type {
    /// A fresh copy of this type.
    pub fn duplicate(&self) -> (r: Type)
        ensures
            r@ == self@,
        decreases self,
    {
        match self {
            Type::Empty => Type::Empty,
            Type::Error => Type::Error,
            Type::Boolean => Type::Boolean,
            Type::Natural => Type::Natural,
            Type::Integer => Type::Integer,
            Type::Function { from, to } => Type::Function {
                from: Box::new(from.duplicate()),
                to: Box::new(to.duplicate()),
            },
            Type::Record(fields) => {
                let mut out: Vec<(Identifier, Type)> = Vec::new();
                let mut i: usize = 0;
                assert(decreases_to!(*self => *fields));
                while i < fields.len()
                    invariant
                        0 <= i <= fields.len(),
                        decreases_to!(*self => *fields),
                        fields_model(out@) == fields_model(fields@.subrange(0, i as int)),
                    decreases fields.len() - i,
                {
                    proof {
                        assert(decreases_to!(*fields => fields@));
                        assert(decreases_to!(fields@ => fields@[i as int]));
                        assert(decreases_to!(fields@[i as int] => fields@[i as int].1));
                        assert(decreases_to!(*self => fields@[i as int].1));
                    }
                    let name = fields[i].0.clone();
                    let kind = fields[i].1.duplicate();
                    let ghost before = out@;
                    out.push((name, kind));
                    proof {
                        assert(out@.drop_last() =~= before);
                        assert(fields@.subrange(0, i + 1).drop_last() =~= fields@.subrange(0, i as int));
                    }
                    i = i + 1;
                }
                proof {
                    assert(fields@.subrange(0, fields.len() as int) =~= fields@);
                }
                Type::Record(out)
            },
        }
    }
}

/// A runtime value: a numeric payload together with its static type.
/// Booleans are encoded as `1` (true) and `0` (false).
#[derive(Debug)]
pub struct Term {
    pub val: u64,
    pub kind: Type,
}

/// The mathematical value of a [`Term`].
pub struct TermModel {
    pub val: u64,
    pub kind: TypeModel,
}

impl View for Term {
    type V = TermModel;

    open spec fn view(&self) -> TermModel {
        TermModel { val: self.val, kind: self.kind@ }
    }
}

impl Term {
    /// A fresh copy of this term.
    pub fn duplicate(&self) -> (r: Term)
        ensures
            r@ == self@,
    {
        Term { val: self.val, kind: self.kind.duplicate() }
    }
}

/// The environment of a checking or evaluation request: variables bound to
/// terms, read both as types (through `kind`) and as values.
#[derive(Debug)]
pub struct Context {
    bindings: Vec<(Identifier, Term)>,
}

/// The map that a list of bindings denotes: a later binding of a name
/// shadows an earlier one.
pub open spec fn bindings_map(bindings: Seq<(Identifier, Term)>) -> Map<Seq<char>, TermModel>
    decreases bindings.len(),
{
    if bindings.len() == 0 {
        Map::empty()
    } else {
        bindings_map(bindings.drop_last()).insert(bindings.last().0@, bindings.last().1@)
    }
}

impl View for Context {
    type V = Map<Seq<char>, TermModel>;

    closed spec fn view(&self) -> Map<Seq<char>, TermModel> {
        bindings_map(self.bindings@)
    }
}

impl Context {
    /// The empty context.
    pub fn new() -> (r: Context)
        ensures
            r@ == Map::<Seq<char>, TermModel>::empty(),
    {
        Context { bindings: Vec::new() }
    }

    /// Binds `id` to `term`, shadowing any earlier binding of `id`.
    pub fn insert(&mut self, id: Identifier, term: Term)
        ensures
            final(self)@ == old(self)@.insert(id@, term@),
    {
        let ghost before = self.bindings@;
        self.bindings.push((id, term));
        proof {
            assert(self.bindings@.drop_last() =~= before);
        }
    }

    /// The term bound to `id`, if any.
    pub fn get(&self, id: &Identifier) -> (r: Option<&Term>)
        ensures
            match r {
                Some(t) => self@.contains_key(id@) && t@ == self@[id@],
                None => !self@.contains_key(id@),
            },
    {
        let mut i: usize = self.bindings.len();
        proof {
            assert(self.bindings@.subrange(0, i as int) =~= self.bindings@);
        }
        while i > 0
            invariant
                i <= self.bindings.len(),
                self@.contains_key(id@) == bindings_map(self.bindings@.subrange(0, i as int)).contains_key(id@),
                self@.contains_key(id@) ==> self@[id@] == bindings_map(self.bindings@.subrange(0, i as int))[id@],
            decreases i,
        {
            proof {
                let prefix = self.bindings@.subrange(0, i as int);
                assert(prefix.drop_last() =~= self.bindings@.subrange(0, i - 1));
                assert(prefix.last() == self.bindings@[i - 1]);
            }
            if self.bindings[i - 1].0 == *id {
                return Some(&self.bindings[i - 1].1);
            }
            i = i - 1;
        }
        proof {
            assert(self.bindings@.subrange(0, self.bindings.len() as int) =~= self.bindings@);
        }
        None
    }

    /// A fresh copy of this context, independent of the original.
    pub fn duplicate(&self) -> (r: Context)
        ensures
            r@ == self@,
    {
        let mut out: Vec<(Identifier, Term)> = Vec::new();
        let mut i: usize = 0;
        while i < self.bindings.len()
            invariant
                0 <= i <= self.bindings.len(),
                bindings_map(out@) == bindings_map(self.bindings@.subrange(0, i as int)),
            decreases self.bindings.len() - i,
        {
            let name = self.bindings[i].0.clone();
            let term = self.bindings[i].1.duplicate();
            let ghost before = out@;
            out.push((name, term));
            proof {
                assert(out@.drop_last() =~= before);
                assert(self.bindings@.subrange(0, i + 1).drop_last() =~= self.bindings@.subrange(0, i as int));
            }
            i = i + 1;
        }
        proof {
            assert(self.bindings@.subrange(0, self.bindings.len() as int) =~= self.bindings@);
        }
        Context { bindings: out }
    }
}

/// The abstract syntax tree of the language.
#[derive(Debug)]
pub enum Expression {
    Annotation { expr: Box<Expression>, kind: Type },
    Constant { term: Term },
    Variable { id: Identifier },
    Abstraction { param: Identifier, func: Box<Expression> },
    Application { func: Box<Expression>, arg: Box<Expression> },
    Conditional { if_cond: Box<Expression>, if_then: Box<Expression>, if_else: Box<Expression> },
}

} // verus!
