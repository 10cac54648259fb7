//! The runtime value model: tagged runtime objects and the lexically scoped
//! environment chain the evaluator threads through execution. Lookup walks
//! outward through enclosing scopes; binding always writes the innermost
//! frame, which is what makes shadowing and closures work.

use vstd::prelude::*;
use crate::ast::{BlockStatement, Identifier, params_text, stmts_text};
use crate::numeral::int_repr;

verus! {

/// A runtime value. `ReturnValue` and `Error` are control-flow markers the
/// evaluator strips before storing a value or handing it to a caller that is
/// not itself propagating them; neither may appear as the value bound to a
/// variable.
#[derive(Debug)]
pub enum Object {
    /// The null value.
    Null,
    /// A runtime error carrying its message.
    Error(String),
    /// A boolean value.
    Boolean(bool),
    /// A 64-bit signed integer value.
    Integer(i64),
    /// A transient wrapper signalling that a `return` statement was hit.
    ReturnValue(Box<Object>),
    /// A function value: parameters, body, and the environment captured at
    /// the point the literal was evaluated (lexical scoping).
    Function(Vec<Identifier>, BlockStatement, Environment),
}

/// The human-readable rendering of a runtime value: errors render as
/// `ERROR: <message>`, return-value wrappers render as their wrapped value,
/// functions render their parameter list and body.
pub open spec fn inspect_of(o: Object) -> Seq<char>
    decreases o,
{
    match o {
        Object::Null => "null"@,
        Object::Error(m) => "ERROR: "@ + m@,
        Object::Boolean(b) => if b {
            "true"@
        } else {
            "false"@
        },
        Object::Integer(n) => int_repr(n as int),
        Object::ReturnValue(v) => inspect_of(*v),
        Object::Function(params, body, _) => "fn("@ + params_text(params@) + ") {\n"@
            + stmts_text(body.statements@) + "\n}"@,
    }
}

/// The name of a value's kind, as the evaluator's error messages spell it.
pub open spec fn kind_name_of(o: Object) -> Seq<char> {
    match o {
        Object::Null => "NULL"@,
        Object::Error(_) => "ERROR"@,
        Object::Boolean(_) => "BOOLEAN"@,
        Object::Integer(_) => "INTEGER"@,
        Object::ReturnValue(_) => "RETURN_VALUE"@,
        Object::Function(_, _, _) => "FUNCTION"@,
    }
}

/// Truthiness: false exactly for the false boolean and for null; every
/// other value, the zero integer included, counts as true.
pub open spec fn truthy(o: Object) -> bool {
    !(o == Object::Boolean(false) || o == Object::Null)
}

impl Object {
    /// Renders the value for humans.
    pub fn inspect(&self) -> (r: String)
        ensures
            r@ == inspect_of(*self),
        decreases *self,
    {
        match self {
            Object::Null => String::from_str("null"),
            Object::Error(m) => {
                let mut out = String::from_str("ERROR: ");
                out.append(m.as_str());
                out
            },
            Object::Boolean(b) => {
                if *b {
                    String::from_str("true")
                } else {
                    String::from_str("false")
                }
            },
            Object::Integer(n) => crate::numeral::i64_to_string(*n),
            Object::ReturnValue(v) => v.inspect(),
            Object::Function(params, body, _) => {
                let mut out = String::from_str("fn(");
                let mut i: usize = 0;
                while i < params.len()
                    invariant
                        i <= params.len(),
                        out@ == "fn("@ + params_text(params@.subrange(0, i as int)),
                    decreases params.len() - i,
                {
                    if i > 0 {
                        out.append(", ");
                    }
                    out.append(params[i].0.as_str());
                    proof {
                        assert(params@.subrange(0, i + 1 as int) =~= params@.subrange(
                            0,
                            i as int,
                        ).push(params@[i as int]));
                        crate::ast::lemma_params_text_push(
                            params@.subrange(0, i as int),
                            params@[i as int],
                        );
                        assert(out@ =~= "fn("@ + params_text(params@.subrange(0, i + 1 as int)));
                    }
                    i = i + 1;
                }
                out.append(") {\n");
                out.append(body.render().as_str());
                out.append("\n}");
                proof {
                    assert(params@.subrange(0, params@.len() as int) =~= params@);
                    assert(out@ =~= inspect_of(*self));
                }
                out
            },
        }
    }

    /// The name of this value's kind.
    pub fn kind_name(&self) -> (r: String)
        ensures
            r@ == kind_name_of(*self),
    {
        match self {
            Object::Null => String::from_str("NULL"),
            Object::Error(_) => String::from_str("ERROR"),
            Object::Boolean(_) => String::from_str("BOOLEAN"),
            Object::Integer(_) => String::from_str("INTEGER"),
            Object::ReturnValue(_) => String::from_str("RETURN_VALUE"),
            Object::Function(_, _, _) => String::from_str("FUNCTION"),
        }
    }

    /// Whether the value counts as true in a conditional: false exactly for
    /// `Boolean(false)` and `Null`.
    pub fn is_truthy(&self) -> (r: bool)
        ensures
            r == truthy(*self),
    {
        match self {
            Object::Boolean(b) => *b,
            Object::Null => false,
            _ => true,
        }
    }

    /// Whether the value is the error variant, so the evaluator can
    /// short-circuit propagation.
    pub fn is_error(&self) -> (r: bool)
        ensures
            r == (*self is Error),
    {
        match self {
            Object::Error(_) => true,
            _ => false,
        }
    }
}

impl From<bool> for Object {
    /// Canonicalizes a boolean into the boolean object for it.
    fn from(value: bool) -> (r: Object) {
        if value {
            Object::Boolean(true)
        } else {
            Object::Boolean(false)
        }
    }
}

impl vstd::std_specs::convert::FromSpecImpl<bool> for Object {
    open spec fn obeys_from_spec() -> bool {
        true
    }

    open spec fn from_spec(v: bool) -> Object {
        Object::Boolean(v)
    }
}

/// The value bound to `name` in an association list, taking the most recent
/// entry: later entries shadow earlier ones.
pub open spec fn assoc(entries: Seq<(Identifier, Object)>, name: Seq<char>) -> Option<Object>
    decreases entries.len(),
{
    if entries.len() == 0 {
        None
    } else if entries.last().0.0@ == name {
        Some(entries.last().1)
    } else {
        assoc(entries.drop_last(), name)
    }
}

/// A lexical scope: a frame of bindings plus an optional enclosing
/// environment, forming a singly linked scope chain.
#[derive(Debug)]
pub struct Environment {
    store: Vec<(Identifier, Object)>,
    outer: Option<Box<Environment>>,
}

impl Environment {
    /// The binding of `name` in this frame alone, ignoring enclosing
    /// scopes.
    pub closed spec fn own_lookup(&self, name: Seq<char>) -> Option<Object> {
        assoc(self.store@, name)
    }

    /// The enclosing environment, if any.
    pub closed spec fn outer_env(&self) -> Option<Environment> {
        match self.outer {
            Some(b) => Some(*b),
            None => None,
        }
    }

    /// The binding of `name`, resolved outward through the scope chain:
    /// this frame first, then the enclosing scopes, until found or the
    /// chain is exhausted.
    pub closed spec fn lookup(&self, name: Seq<char>) -> Option<Object>
        decreases *self,
    {
        match self.own_lookup(name) {
            Some(v) => Some(v),
            None => match self.outer {
                Some(o) => o.lookup(name),
                None => None,
            },
        }
    }

    /// A fresh environment: no bindings, no enclosing scope.
    pub fn new() -> (r: Environment)
        ensures
            forall|name: Seq<char>| r.lookup(name) is None,
            r.outer_env() is None,
            forall|name: Seq<char>| r.own_lookup(name) is None,
    {
        let r = Environment { store: Vec::new(), outer: None };
        proof {
            assert(forall|name: Seq<char>| r.own_lookup(name) is None);
        }
        r
    }

    /// A fresh innermost frame enclosed by `outer`: it holds no bindings of
    /// its own, so every name still resolves as it does in `outer`.
    pub fn new_enclosed(outer: Environment) -> (r: Environment)
        ensures
            r.outer_env() == Some(outer),
            forall|name: Seq<char>| r.own_lookup(name) is None,
            forall|name: Seq<char>| r.lookup(name) == outer.lookup(name),
    {
        let r = Environment { store: Vec::new(), outer: Some(Box::new(outer)) };
        proof {
            assert(forall|name: Seq<char>| r.own_lookup(name) is None);
        }
        r
    }

    /// The enclosing environment, if any.
    pub fn outer(&self) -> (r: Option<&Environment>)
        ensures
            match r {
                Some(o) => self.outer_env() == Some(*o),
                None => self.outer_env() is None,
            },
    {
        match &self.outer {
            Some(b) => Some(&**b),
            None => None,
        }
    }

    /// Resolves `name` through the scope chain.
    pub fn get(&self, name: &Identifier) -> (r: Option<&Object>)
        ensures
            match r {
                Some(o) => self.lookup(name.0@) == Some(*o),
                None => self.lookup(name.0@) is None,
            },
        decreases *self,
    {
        let mut i = self.store.len();
        proof {
            assert(self.store@.subrange(0, self.store@.len() as int) =~= self.store@);
        }
        while i > 0
            invariant
                i <= self.store.len(),
                assoc(self.store@.subrange(0, i as int), name.0@) == assoc(
                    self.store@,
                    name.0@,
                ),
            decreases i,
        {
            i = i - 1;
            proof {
                assert(self.store@.subrange(0, i + 1 as int).drop_last() =~= self.store@.subrange(
                    0,
                    i as int,
                ));
                assert(self.store@.subrange(0, i + 1 as int).last() == self.store@[i as int]);
            }
            if self.store[i].0.0 == name.0 {
                return Some(&self.store[i].1);
            }
        }
        proof {
            assert(self.store@.subrange(0, 0) =~= Seq::<(Identifier, Object)>::empty());
        }
        match &self.outer {
            Some(o) => o.get(name),
            None => None,
        }
    }

    /// Binds `name` to `value` in this frame alone. The enclosing chain is
    /// untouched: an existing binding of the same name in an enclosing
    /// scope is shadowed, never overwritten, and every other name still
    /// resolves as before.
    pub fn set(&mut self, name: Identifier, value: Object)
        ensures
            final(self).outer_env() == old(self).outer_env(),
            final(self).lookup(name.0@) == Some(value),
            final(self).own_lookup(name.0@) == Some(value),
            forall|other: Seq<char>| other != name.0@ ==> final(self).lookup(other) == old(
                self,
            ).lookup(other),
            forall|other: Seq<char>| other != name.0@ ==> final(self).own_lookup(other) == old(
                self,
            ).own_lookup(other),
    {
        let ghost pre = *self;
        let ghost nm = name.0@;
        let ghost v = value;
        self.store.push((name, value));
        proof {
            assert(self.store@.drop_last() =~= pre.store@);
            assert(self.store@.last() == (name, v));
            assert forall|other: Seq<char>| other != nm implies self.own_lookup(other)
                == pre.own_lookup(other) by {
                assert(assoc(self.store@, other) == assoc(pre.store@, other));
            }
        }
    }
}

/// Law: a binding in an enclosing environment is visible from a child
/// environment unless the child shadows the name in its own frame.
pub proof fn lemma_enclosing_scope_visible(child: Environment, parent: Environment, name: Seq<
    char,
>)
    requires
        child.outer_env() == Some(parent),
        child.own_lookup(name) is None,
    ensures
        child.lookup(name) == parent.lookup(name),
{
}

/// Law: a name bound in the child's own frame wins over any binding of the
/// same name in an enclosing scope.
pub proof fn lemma_shadowing_wins_locally(child: Environment, name: Seq<char>, v: Object)
    requires
        child.own_lookup(name) == Some(v),
    ensures
        child.lookup(name) == Some(v),
{
}

/// Law: closure capture. A function value carries the environment that was
/// active where the literal was evaluated; a call frame enclosed by that
/// captured environment still observes each captured binding, as long as no
/// parameter of the call shadows it.
pub proof fn lemma_closure_capture(f: Object, call_env: Environment, x: Seq<char>, v: Object)
    requires
        f is Function,
        f->Function_2.lookup(x) == Some(v),
        call_env.outer_env() == Some(f->Function_2),
        call_env.own_lookup(x) is None,
    ensures
        call_env.lookup(x) == Some(v),
{
}

} // verus!
