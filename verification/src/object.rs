//! Runtime values and the lexically chained environment: integers, booleans,
//! strings, the null value, the return-sentinel wrapper, first-class error
//! values, and closures that capture the environment where they were defined.

use vstd::prelude::*;

use crate::ast::{
    exprs_print, exprs_view, stmt_print, stmts_view, BlockStatement, BlockStatementV, Expression,
    ExprV, StmtV,
};
use crate::numbers::dec_int;
use crate::text::{push_str, push_string};

verus! {

/// A runtime value.
pub enum Object {
    Integer(i64),
    Boolean(bool),
    Null,
    Return(Box<Object>),
    Error(String),
    Function(Function),
    String(String),
}

/// A closure: parameter list, body, and the environment captured at the
/// point of definition.
pub struct Function {
    pub parameters: Vec<Expression>,
    pub body: BlockStatement,
    pub env: Environment,
}

/// A lexically chained scope: local bindings plus an optional enclosing
/// scope. Lookup walks outward; insertion is always local.
pub struct Environment {
    store: Vec<(String, Object)>,
    outer: Option<Box<Environment>>,
}

/// Mathematical image of a runtime value.
#[verifier::ext_equal]
pub enum ObjV {
    Integer(i64),
    Boolean(bool),
    Null,
    Return(Box<ObjV>),
    Error(Seq<char>),
    Function(FunctionV),
    String(Seq<char>),
}

/// Mathematical image of a closure.
#[verifier::ext_equal]
pub struct FunctionV {
    pub parameters: Seq<ExprV>,
    pub body: BlockStatementV,
    pub env: EnvV,
}

/// Mathematical image of an environment: the local bindings in insertion
/// order (later entries shadow earlier ones) and the enclosing scope.
#[verifier::ext_equal]
pub struct EnvV {
    pub store: Seq<(Seq<char>, ObjV)>,
    pub outer: Option<Box<EnvV>>,
}

pub open spec fn obj_view(o: Object) -> ObjV
    decreases o,
{
    match o {
        Object::Integer(n) => ObjV::Integer(n),
        Object::Boolean(b) => ObjV::Boolean(b),
        Object::Null => ObjV::Null,
        Object::Return(x) => ObjV::Return(Box::new(obj_view(*x))),
        Object::Error(m) => ObjV::Error(m@),
        Object::Function(f) => ObjV::Function(
            FunctionV {
                parameters: exprs_view(f.parameters@),
                body: BlockStatementV {
                    token: f.body.token@,
                    statements: stmts_view(f.body.statements@),
                },
                env: env_view(f.env),
            },
        ),
        Object::String(s) => ObjV::String(s@),
    }
}

pub closed spec fn store_view(l: Seq<(String, Object)>) -> Seq<(Seq<char>, ObjV)>
    decreases l,
{
    if l.len() == 0 {
        Seq::empty()
    } else {
        store_view(l.drop_last()).push((l.last().0@, obj_view(l.last().1)))
    }
}

pub closed spec fn env_view(e: Environment) -> EnvV
    decreases e,
{
    EnvV {
        store: store_view(e.store@),
        outer: match e.outer {
            Some(o) => Some(Box::new(env_view(*o))),
            None => None,
        },
    }
}

pub open spec fn objs_view(l: Seq<Object>) -> Seq<ObjV>
    decreases l,
{
    if l.len() == 0 {
        Seq::empty()
    } else {
        objs_view(l.drop_last()).push(obj_view(l.last()))
    }
}

/// The view of a value sequence has the same length and is taken element by
/// element.
pub proof fn lemma_objs_view_index(l: Seq<Object>)
    ensures
        objs_view(l).len() == l.len(),
        forall|i: int| 0 <= i < l.len() ==> objs_view(l)[i] == obj_view(#[trigger] l[i]),
    decreases l,
{
    if l.len() > 0 {
        lemma_objs_view_index(l.drop_last());
        assert forall|i: int| 0 <= i < l.len() implies objs_view(l)[i] == obj_view(l[i]) by {
            if i < l.len() - 1 {
                assert(l.drop_last()[i] == l[i]);
                assert(objs_view(l)[i] == objs_view(l.drop_last())[i]);
            } else {
                assert(objs_view(l)[i] == obj_view(l.last()));
            }
        }
    }
}

pub open spec fn opt_obj_view(o: Option<Object>) -> Option<ObjV> {
    match o {
        Some(x) => Some(obj_view(x)),
        None => None,
    }
}

impl View for Object {
    type V = ObjV;

    open spec fn view(&self) -> ObjV {
        obj_view(*self)
    }
}

impl View for Environment {
    type V = EnvV;

    open spec fn view(&self) -> EnvV {
        env_view(*self)
    }
}

impl View for Function {
    type V = FunctionV;

    open spec fn view(&self) -> FunctionV {
        FunctionV {
            parameters: exprs_view(self.parameters@),
            body: BlockStatementV {
                token: self.body.token@,
                statements: stmts_view(self.body.statements@),
            },
            env: env_view(self.env),
        }
    }
}

// ----------------------------------------------------------------------------
// Environment operations: lookup walks the chain outward; insertion is local.
// ----------------------------------------------------------------------------

/// The value bound to `name` among local bindings: the most recent one wins.
pub open spec fn store_lookup(store: Seq<(Seq<char>, ObjV)>, name: Seq<char>) -> Option<ObjV>
    decreases store,
{
    if store.len() == 0 {
        None
    } else if store.last().0 == name {
        Some(store.last().1)
    } else {
        store_lookup(store.drop_last(), name)
    }
}

/// The value bound to `name`: local bindings first, then the enclosing
/// scopes, outward. `None` when no scope in the chain binds the name.
pub open spec fn env_get_s(env: EnvV, name: Seq<char>) -> Option<ObjV>
    decreases env,
{
    match store_lookup(env.store, name) {
        Some(v) => Some(v),
        None => match env.outer {
            Some(o) => env_get_s(*o, name),
            None => None,
        },
    }
}

/// Binding a name: a new local binding that shadows any earlier one; the
/// enclosing scopes are untouched.
pub open spec fn env_set_s(env: EnvV, name: Seq<char>, v: ObjV) -> EnvV {
    EnvV { store: env.store.push((name, v)), outer: env.outer }
}

impl Environment {
    /// An empty root scope with no enclosing parent.
    pub fn new() -> (r: Environment)
        ensures
            r@ == (EnvV { store: Seq::<(Seq<char>, ObjV)>::empty(), outer: None::<Box<EnvV>> }),
    {
        let store: Vec<(String, Object)> = Vec::new();
        let e = Environment { store, outer: None };
        proof {
            assert(e.store@ == Seq::<(String, Object)>::empty());
            assert(store_view(e.store@) == Seq::<(Seq<char>, ObjV)>::empty());
            assert(env_view(e).store == Seq::<(Seq<char>, ObjV)>::empty());
            assert(e@ =~= (EnvV {
                store: Seq::<(Seq<char>, ObjV)>::empty(),
                outer: None::<Box<EnvV>>,
            }));
        }
        e
    }

    /// An empty scope whose enclosing parent is `envir`.
    pub fn new_enclosed(&self, envir: Environment) -> (r: Environment)
        ensures
            r@ == (EnvV {
                store: Seq::<(Seq<char>, ObjV)>::empty(),
                outer: Some(Box::new(envir@)),
            }),
    {
        let store: Vec<(String, Object)> = Vec::new();
        let e = Environment { store, outer: Some(Box::new(envir)) };
        proof {
            assert(e.store@ == Seq::<(String, Object)>::empty());
            assert(store_view(e.store@) == Seq::<(Seq<char>, ObjV)>::empty());
            assert(env_view(e).store == Seq::<(Seq<char>, ObjV)>::empty());
        }
        e
    }

    /// Looks `name` up in the local bindings, and on a miss in the enclosing
    /// scopes, outward. Returns `None` when no scope binds it.
    pub fn get(&self, name: String) -> (r: Option<Object>)
        ensures
            opt_obj_view(r) == env_get_s(self@, name@),
        decreases *self,
    {
        proof {
            assert(self.store@.take(self.store@.len() as int) =~= self.store@);
        }
        let mut i: usize = self.store.len();
        while i > 0
            invariant
                0 <= i <= self.store@.len(),
                store_lookup(self@.store, name@) == store_lookup(
                    store_view(self.store@.take(i as int)),
                    name@,
                ),
            decreases i,
        {
            i = i - 1;
            proof {
                assert(self.store@.take(i + 1 as int).drop_last() =~= self.store@.take(i as int));
                assert(self.store@.take(i + 1 as int).last() == self.store@[i as int]);
                assert(store_view(self.store@.take(i + 1 as int)) == store_view(
                    self.store@.take(i as int),
                ).push((self.store@[i as int].0@, obj_view(self.store@[i as int].1))));
                assert(store_view(self.store@.take(i + 1 as int)).drop_last() =~= store_view(
                    self.store@.take(i as int),
                ));
            }
            if self.store[i].0 == name {
                return Some(self.store[i].1.clone());
            }
        }
        proof {
            assert(self.store@.take(0int) =~= Seq::<(String, Object)>::empty());
        }
        match &self.outer {
            Some(o) => (**o).get(name),
            None => None,
        }
    }

    /// Inserts (or shadows) `name` in the local scope only, and returns the
    /// stored value.
    pub fn set(&mut self, name: String, obj: Object) -> (r: Object)
        ensures
            final(self)@ == env_set_s(old(self)@, name@, obj@),
            r@ == obj@,
    {
        let stored = obj.clone();
        let ghost prev = self.store@;
        self.store.push((name, stored));
        proof {
            assert(self.store@.drop_last() =~= prev);
            assert(store_view(self.store@) == store_view(prev).push((name@, obj_view(stored))));
            assert(env_view(*self).store == store_view(prev).push((name@, obj@)));
            assert(env_view(*old(self)).store == store_view(prev));
            assert(env_view(*self).outer == env_view(*old(self)).outer);
            assert(self@ =~= env_set_s(old(self)@, name@, obj@));
        }
        obj
    }
}

// ----------------------------------------------------------------------------
// Cloning. Every clone preserves the value's view.
// ----------------------------------------------------------------------------

fn clone_store(v: &Vec<(String, Object)>) -> (r: Vec<(String, Object)>)
    ensures
        store_view(r@) == store_view(v@),
    decreases *v,
{
    let mut out: Vec<(String, Object)> = Vec::new();
    let mut i: usize = 0;
    while i < v.len()
        invariant
            0 <= i <= v@.len(),
            store_view(out@) == store_view(v@.take(i as int)),
        decreases v@.len() - i,
    {
        let ghost prev = out@;
        let name = v[i].0.clone();
        let obj = v[i].1.clone();
        out.push((name, obj));
        proof {
            assert(out@.drop_last() =~= prev);
            assert(v@.take(i + 1 as int).drop_last() =~= v@.take(i as int));
            assert(v@.take(i + 1 as int).last() == v@[i as int]);
        }
        i = i + 1;
    }
    proof {
        assert(v@.take(v@.len() as int) =~= v@);
    }
    out
}

impl Clone for Environment {
    fn clone(&self) -> (r: Self)
        ensures
            r@ == self@,
        decreases *self,
    {
        Environment {
            store: clone_store(&self.store),
            outer: match &self.outer {
                Some(o) => Some(Box::new((**o).clone())),
                None => None,
            },
        }
    }
}

impl Clone for Function {
    fn clone(&self) -> (r: Self)
        ensures
            r@ == self@,
        decreases *self,
    {
        Function {
            parameters: crate::ast::clone_exprs(&self.parameters),
            body: self.body.clone(),
            env: self.env.clone(),
        }
    }
}

impl Clone for Object {
    fn clone(&self) -> (r: Self)
        ensures
            r@ == self@,
        decreases *self,
    {
        match self {
            Object::Integer(n) => Object::Integer(*n),
            Object::Boolean(b) => Object::Boolean(*b),
            Object::Null => Object::Null,
            Object::Return(x) => Object::Return(Box::new((**x).clone())),
            Object::Error(m) => Object::Error(m.clone()),
            Object::Function(f) => Object::Function(f.clone()),
            Object::String(s) => Object::String(s.clone()),
        }
    }
}

// ----------------------------------------------------------------------------
// Rendering and type tags.
// ----------------------------------------------------------------------------

/// The human-readable form of a value: integers in decimal, booleans and
/// null by name, strings as their text, a return wrapper as its content,
/// errors with an `Error: ` prefix, and functions with their parameters and
/// body.
pub open spec fn inspect_s(o: ObjV) -> Seq<char>
    decreases o,
{
    match o {
        ObjV::Integer(n) => dec_int(n as int),
        ObjV::Boolean(b) => crate::ast::bool_text(b),
        ObjV::Null => "null"@,
        ObjV::Return(x) => inspect_s(*x),
        ObjV::Error(m) => "Error: "@ + m,
        ObjV::Function(f) => "fn( "@ + exprs_print(f.parameters) + " ) {\n "@ + stmt_print(
            StmtV::BlockStatement(f.body),
        ) + " \n}"@,
        ObjV::String(s) => s,
    }
}

/// The type tag of a value, as it appears in error messages.
pub open spec fn type_of_s(o: ObjV) -> Seq<char> {
    match o {
        ObjV::Integer(_) => "INTEGER_OBJ"@,
        ObjV::Boolean(_) => "BOOLEAN_OBJ"@,
        ObjV::Null => "NULL"@,
        ObjV::Return(_) => "RETURN_VALUE_OBJ"@,
        ObjV::Error(_) => "ERROR"@,
        ObjV::Function(_) => "FUNCTION"@,
        ObjV::String(_) => "STRING"@,
    }
}

impl Object {
    /// Renders the value; the text is given exactly by `inspect_s`.
    pub fn inspect(&self) -> (r: String)
        ensures
            r@ == inspect_s(self@),
        decreases *self,
    {
        match self {
            Object::Integer(n) => crate::numbers::i64_dec_string(*n),
            Object::Boolean(b) => {
                if *b {
                    "true".to_owned()
                } else {
                    "false".to_owned()
                }
            },
            Object::Null => "null".to_owned(),
            Object::Return(x) => (**x).inspect(),
            Object::Error(m) => {
                let mut s = "Error: ".to_owned();
                push_string(&mut s, m);
                s
            },
            Object::Function(f) => {
                let mut s = "fn( ".to_owned();
                let params = crate::ast::print_exprs(&f.parameters);
                push_string(&mut s, &params);
                push_str(&mut s, " ) {\n ");
                let body = f.body.print();
                push_string(&mut s, &body);
                push_str(&mut s, " \n}");
                s
            },
            Object::String(s) => s.clone(),
        }
    }

    /// The type tag of the value, as used in error messages.
    pub fn type_(&self) -> (r: String)
        ensures
            r@ == type_of_s(self@),
    {
        match self {
            Object::Integer(_) => "INTEGER_OBJ".to_owned(),
            Object::Boolean(_) => "BOOLEAN_OBJ".to_owned(),
            Object::Null => "NULL".to_owned(),
            Object::Return(_) => "RETURN_VALUE_OBJ".to_owned(),
            Object::Error(_) => "ERROR".to_owned(),
            Object::Function(_) => "FUNCTION".to_owned(),
            Object::String(_) => "STRING".to_owned(),
        }
    }
}

} // verus!
