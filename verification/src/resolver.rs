//! The static pass that binds each use of a local variable to its scope.
//!
//! [`Resolution`] is the state of the pass and its methods are the rules of
//! the pass; the [`Resolver`] computes exactly what they say.

use vstd::prelude::*;
use vstd::hash_map::StringHashMap;
use vstd::string::StringExecFns;
use crate::constants::errors::{
    CLASS_INHERIT_SELF, DUPLICATE_VARIABLE, RETURN_FROM_INITIALIZER, RETURN_FROM_TOP_LEVEL,
    SUPER_OUTSIDE_CLASS, SUPER_WITHOUT_SUPERCLASS, THIS_OUTSIDE_CLASS, VARIABLE_IN_OWN_INITIALIZER,
};
use crate::constants::{INIT_METHOD, SUPER_KEYWORD, THIS_KEYWORD};
use crate::error::{LoxError, LoxErrorView, RESOLVER};
use crate::grammar::{Expression, Function, Statement, Token};
use crate::interpreter::Interpreter;
use crate::machine::State;
use crate::strings::str_eq;

verus! {

/// What kind of function body the pass is in.
#[derive(Debug, Clone, Copy, PartialEq, Eq, Structural)]
pub enum FunctionType {
    /// Outside every function.
    TopLevel,
    Function,
    Initializer,
    Method,
}

/// What kind of class body the pass is in.
#[derive(Debug, Clone, Copy, PartialEq, Eq, Structural)]
pub enum ClassType {
    /// Outside every class.
    NoClass,
    Class,
    Subclass,
}

/// The state of the pass.
pub struct Resolution {
    /// The scopes that are open, innermost last. A name is mapped to whether
    /// its declaration is complete.
    pub scopes: Seq<Map<Seq<char>, bool>>,
    /// The table that the pass fills: for the id of an expression, the
    /// number of scopes between its use and its definition.
    pub locals: Map<usize, usize>,
    pub current_function: FunctionType,
    pub current_class: ClassType,
}

/// The state that a part of the pass ends in, and the error it stopped on.
pub struct Resolved {
    pub state: Resolution,
    pub error: Option<LoxErrorView>,
}

/// The static error with `message` at `token`.
pub open spec fn error_at(token: Token, message: Seq<char>) -> LoxErrorView {
    LoxErrorView::SyntaxError {
        line: token.line,
        error_type: RESOLVER@,
        lexeme: token.lexeme@,
        message,
    }
}

/// The number of scopes between the innermost scope and the nearest one
/// that holds `name`, looking no nearer than `depth` scopes out.
pub open spec fn innermost_from(scopes: Seq<Map<Seq<char>, bool>>, name: Seq<char>, depth: nat) -> Option<
    nat,
>
    decreases scopes.len() - depth,
{
    if depth >= scopes.len() {
        None
    } else if scopes[scopes.len() - 1 - depth].contains_key(name) {
        Some(depth)
    } else {
        innermost_from(scopes, name, depth + 1)
    }
}

impl Resolution {
    /// The pass goes on from `self`.
    pub open spec fn ok(self) -> Resolved {
        Resolved { state: self, error: None }
    }

    /// The pass stops in `self` with an error.
    pub open spec fn stop(self, error: LoxErrorView) -> Resolved {
        Resolved { state: self, error: Some(error) }
    }

    /// Opens a scope that holds nothing.
    pub open spec fn begin_scope(self) -> Resolution {
        Resolution { scopes: self.scopes.push(Map::empty()), ..self }
    }

    /// Closes the innermost scope, if any is open.
    pub open spec fn end_scope(self) -> Resolution {
        if self.scopes.len() == 0 {
            self
        } else {
            Resolution { scopes: self.scopes.drop_last(), ..self }
        }
    }

    /// Puts `name` in the innermost scope, if any scope is open.
    pub open spec fn set(self, name: Seq<char>, defined: bool) -> Resolution {
        if self.scopes.len() == 0 {
            self
        } else {
            Resolution {
                scopes: self.scopes.update(
                    self.scopes.len() - 1,
                    self.scopes.last().insert(name, defined),
                ),
                ..self
            }
        }
    }

    /// Declares `name` in the innermost scope: an error if that scope has
    /// the name already, and nothing at all among the globals.
    pub open spec fn declare(self, name: Token) -> Resolved {
        if self.scopes.len() > 0 && self.scopes.last().contains_key(name.lexeme@) {
            self.stop(error_at(name, DUPLICATE_VARIABLE@))
        } else {
            self.set(name.lexeme@, false).ok()
        }
    }

    /// Completes the declaration of `name`.
    pub open spec fn define(self, name: Token) -> Resolution {
        self.set(name.lexeme@, true)
    }

    /// Binds the expression `id` to the nearest scope that holds `name`; a
    /// name that no open scope holds is a global and gets no entry.
    pub open spec fn resolve_local(self, id: usize, name: Seq<char>) -> Resolution {
        match innermost_from(self.scopes, name, 0) {
            Some(depth) => Resolution { locals: self.locals.insert(id, depth as usize), ..self },
            None => self,
        }
    }

    /// The pass over an expression: every variable, `this` and `super` in
    /// it is bound, and a use that the rules forbid stops the pass.
    pub open spec fn resolve_expression(self, expr: Expression) -> Resolved
        decreases expr, 0nat,
    {
        match expr {
            Expression::Variable { id, name } => {
                if self.scopes.len() > 0 && self.scopes.last().contains_key(name.lexeme@)
                    && !self.scopes.last()[name.lexeme@] {
                    self.stop(error_at(name, VARIABLE_IN_OWN_INITIALIZER@))
                } else {
                    self.resolve_local(id, name.lexeme@).ok()
                }
            },
            Expression::Assign { id, name, value } => {
                let after = self.resolve_expression(*value);
                if after.error is Some {
                    after
                } else {
                    after.state.resolve_local(id, name.lexeme@).ok()
                }
            },
            Expression::Binary { left, op, right } => {
                let after = self.resolve_expression(*left);
                if after.error is Some {
                    after
                } else {
                    after.state.resolve_expression(*right)
                }
            },
            Expression::Call { callee, paren_line, arguments } => {
                let after = self.resolve_expression(*callee);
                if after.error is Some {
                    after
                } else {
                    after.state.resolve_expressions(arguments@, 0)
                }
            },
            Expression::Grouping(inner) => self.resolve_expression(*inner),
            Expression::Literal(_) => self.ok(),
            Expression::Logical { left, op, right } => {
                let after = self.resolve_expression(*left);
                if after.error is Some {
                    after
                } else {
                    after.state.resolve_expression(*right)
                }
            },
            Expression::Unary { op, right } => self.resolve_expression(*right),
            Expression::Get { object, name } => self.resolve_expression(*object),
            Expression::SetProperty { object, name, value } => {
                let after = self.resolve_expression(*value);
                if after.error is Some {
                    after
                } else {
                    after.state.resolve_expression(*object)
                }
            },
            Expression::This { id, keyword } => {
                if self.current_class == ClassType::NoClass {
                    self.stop(error_at(keyword, THIS_OUTSIDE_CLASS@))
                } else {
                    self.resolve_local(id, keyword.lexeme@).ok()
                }
            },
            Expression::Super { id, keyword, method } => {
                if self.current_class == ClassType::NoClass {
                    self.stop(error_at(keyword, SUPER_OUTSIDE_CLASS@))
                } else if self.current_class != ClassType::Subclass {
                    self.stop(error_at(keyword, SUPER_WITHOUT_SUPERCLASS@))
                } else {
                    self.resolve_local(id, keyword.lexeme@).ok()
                }
            },
        }
    }

    /// The expressions from `from` on, in order, up to the first error.
    pub open spec fn resolve_expressions(self, exprs: Seq<Expression>, from: nat) -> Resolved
        decreases exprs, exprs.len() - from,
    {
        if from >= exprs.len() {
            self.ok()
        } else {
            let after = self.resolve_expression(exprs[from as int]);
            if after.error is Some {
                after
            } else {
                after.state.resolve_expressions(exprs, from + 1)
            }
        }
    }

    /// The parameters from `from` on, each declared and defined.
    pub open spec fn declare_parameters(self, params: Seq<Token>, from: nat) -> Resolved
        decreases params.len() - from,
    {
        if from >= params.len() {
            self.ok()
        } else {
            let after = self.declare(params[from as int]);
            if after.error is Some {
                after
            } else {
                after.state.define(params[from as int]).declare_parameters(params, from + 1)
            }
        }
    }

    /// A function: its parameters and its body in a scope of their own.
    pub open spec fn resolve_function(self, function: Function, kind: FunctionType) -> Resolved
        decreases function, 0nat,
    {
        let entered = Resolution { current_function: kind, ..self }.begin_scope();
        let declared = entered.declare_parameters(function.params@, 0);
        if declared.error is Some {
            declared
        } else {
            let after = declared.state.resolve_statements(function.body@, 0);
            if after.error is Some {
                after
            } else {
                Resolution { current_function: self.current_function, ..after.state.end_scope() }.ok()
            }
        }
    }

    /// The methods from `from` on; the one named `init` is the initializer.
    pub open spec fn resolve_methods(self, methods: Seq<Function>, from: nat) -> Resolved
        decreases methods, methods.len() - from,
    {
        if from >= methods.len() {
            self.ok()
        } else {
            let method = methods[from as int];
            let kind = if method.name.lexeme@ == INIT_METHOD@ {
                FunctionType::Initializer
            } else {
                FunctionType::Method
            };
            let after = self.resolve_function(method, kind);
            if after.error is Some {
                after
            } else {
                after.state.resolve_methods(methods, from + 1)
            }
        }
    }

    /// The body of a class: the methods in a scope that holds `this`.
    pub open spec fn resolve_class_body(
        self,
        methods: Seq<Function>,
        has_superclass: bool,
        enclosing: ClassType,
    ) -> Resolved
        decreases methods, methods.len() + 1,
    {
        let after = self.begin_scope().set(THIS_KEYWORD@, true).resolve_methods(methods, 0);
        if after.error is Some {
            after
        } else {
            let left = if has_superclass {
                after.state.end_scope().end_scope()
            } else {
                after.state.end_scope()
            };
            Resolution { current_class: enclosing, ..left }.ok()
        }
    }

    /// The pass over a statement: declarations enter the innermost scope,
    /// blocks, functions and classes open scopes of their own, and a
    /// statement that the rules forbid stops the pass.
    pub open spec fn resolve_statement(self, statement: Statement) -> Resolved
        decreases statement, 0nat,
    {
        match statement {
            Statement::Block(statements) => {
                let after = self.begin_scope().resolve_statements(statements@, 0);
                if after.error is Some {
                    after
                } else {
                    after.state.end_scope().ok()
                }
            },
            Statement::Class { name, superclass, methods } => {
                let entered = Resolution { current_class: ClassType::Class, ..self };
                let declared = entered.declare(name);
                if declared.error is Some {
                    declared
                } else {
                    let defined = declared.state.define(name);
                    match superclass {
                        Some(expr) => {
                            if expr matches Expression::Variable { name: parent, .. }
                                && parent.lexeme@ == name.lexeme@ {
                                defined.stop(error_at(name, CLASS_INHERIT_SELF@))
                            } else {
                                let inheriting = Resolution {
                                    current_class: ClassType::Subclass,
                                    ..defined
                                };
                                let after = inheriting.resolve_expression(expr);
                                if after.error is Some {
                                    after
                                } else {
                                    after.state.begin_scope().set(
                                        SUPER_KEYWORD@,
                                        true,
                                    ).resolve_class_body(methods@, true, self.current_class)
                                }
                            }
                        },
                        None => defined.resolve_class_body(methods@, false, self.current_class),
                    }
                }
            },
            Statement::Variable { name, init } => {
                let declared = self.declare(name);
                if declared.error is Some {
                    declared
                } else {
                    match init {
                        Some(expr) => {
                            let after = declared.state.resolve_expression(expr);
                            if after.error is Some {
                                after
                            } else {
                                after.state.define(name).ok()
                            }
                        },
                        None => declared.state.define(name).ok(),
                    }
                }
            },
            Statement::Function(function) => {
                let declared = self.declare(function.name);
                if declared.error is Some {
                    declared
                } else {
                    declared.state.define(function.name).resolve_function(
                        function,
                        FunctionType::Function,
                    )
                }
            },
            Statement::Expression(expr) => self.resolve_expression(expr),
            Statement::If { condition, then_branch, else_branch } => {
                let after = self.resolve_expression(condition);
                if after.error is Some {
                    after
                } else {
                    let taken = after.state.resolve_statement(*then_branch);
                    if taken.error is Some {
                        taken
                    } else {
                        match else_branch {
                            Some(statement) => taken.state.resolve_statement(*statement),
                            None => taken,
                        }
                    }
                }
            },
            Statement::Print(expr) => self.resolve_expression(expr),
            Statement::Return { keyword, value } => {
                if self.current_function == FunctionType::TopLevel {
                    self.stop(error_at(keyword, RETURN_FROM_TOP_LEVEL@))
                } else {
                    match value {
                        Some(expr) => {
                            if self.current_function == FunctionType::Initializer {
                                self.stop(error_at(keyword, RETURN_FROM_INITIALIZER@))
                            } else {
                                self.resolve_expression(expr)
                            }
                        },
                        None => self.ok(),
                    }
                }
            },
            Statement::While { condition, body } => {
                let after = self.resolve_expression(condition);
                if after.error is Some {
                    after
                } else {
                    after.state.resolve_statement(*body)
                }
            },
        }
    }

    /// The statements from `from` on, in order, up to the first error.
    pub open spec fn resolve_statements(self, statements: Seq<Statement>, from: nat) -> Resolved
        decreases statements, statements.len() - from,
    {
        if from >= statements.len() {
            self.ok()
        } else {
            let after = self.resolve_statement(statements[from as int]);
            if after.error is Some {
                after
            } else {
                after.state.resolve_statements(statements, from + 1)
            }
        }
    }
}

/// The depth that the pass records names the nearest scope that holds the
/// name: it lies among the open scopes, the scope at that depth holds the
/// name, and no scope nearer to the use does.
pub proof fn lemma_depth_names_nearest_scope(
    scopes: Seq<Map<Seq<char>, bool>>,
    name: Seq<char>,
    from: nat,
)
    ensures
        match innermost_from(scopes, name, from) {
            Some(depth) => {
                &&& from <= depth < scopes.len()
                &&& scopes[scopes.len() - 1 - depth].contains_key(name)
                &&& forall|nearer: int|
                    from <= nearer < depth ==> !(#[trigger] scopes[scopes.len() - 1
                        - nearer]).contains_key(name)
            },
            None => forall|depth: int|
                from <= depth < scopes.len() ==> !(#[trigger] scopes[scopes.len() - 1
                    - depth]).contains_key(name),
        },
    decreases scopes.len() - from,
{
    if from < scopes.len() && !scopes[scopes.len() - 1 - from].contains_key(name) {
        lemma_depth_names_nearest_scope(scopes, name, from + 1);
    }
}

/// Binding an expression records one depth for its id, a depth among the
/// open scopes, and leaves every other entry of the table as it was; an
/// expression whose name no open scope holds gets no entry.
pub proof fn lemma_one_depth_per_expression(state: Resolution, id: usize, name: Seq<char>)
    ensures
        ({
            let after = state.resolve_local(id, name);
            &&& forall|other: usize|
                other != id ==> after.locals.contains_key(other) == state.locals.contains_key(other)
                    && (after.locals.contains_key(other) ==> after.locals[other]
                    == state.locals[other])
            &&& match innermost_from(state.scopes, name, 0) {
                Some(depth) => after.locals.contains_key(id) && after.locals[id] == depth as usize
                    && 0 <= depth < state.scopes.len(),
                None => after == state,
            }
        }),
{
    lemma_depth_names_nearest_scope(state.scopes, name, 0);
}

/// The resolver: it walks the statements of a program once and writes the
/// depth of each local variable use into the interpreter's resolution table.
pub struct Resolver {
    scopes: Vec<StringHashMap<bool>>,
    current_function: FunctionType,
    current_class: ClassType,
}

impl Resolver {
    /// The scopes that are open, innermost last.
    pub closed spec fn scopes(&self) -> Seq<Map<Seq<char>, bool>> {
        Seq::new(self.scopes@.len(), |i: int| self.scopes@[i]@)
    }

    /// The kind of function body that the resolver is in.
    pub closed spec fn current_function(&self) -> FunctionType {
        self.current_function
    }

    /// The kind of class body that the resolver is in.
    pub closed spec fn current_class(&self) -> ClassType {
        self.current_class
    }

    /// The state of the pass, given the table that it fills.
    pub open spec fn resolution(&self, locals: Map<usize, usize>) -> Resolution {
        Resolution {
            scopes: self.scopes(),
            locals,
            current_function: self.current_function(),
            current_class: self.current_class(),
        }
    }

    /// The resolver and the interpreter `after` are where `expected` says,
    /// the interpreter differs from `before` in its table alone, and
    /// `result` is the error of `expected`.
    pub open spec fn agrees(
        &self,
        after: State,
        before: State,
        result: Result<(), LoxError>,
        expected: Resolved,
    ) -> bool {
        &&& self.resolution(after.locals) == expected.state
        &&& after == (State { locals: after.locals, ..before })
        &&& match result {
            Ok(_) => expected.error is None,
            Err(error) => expected.error == Some(error@),
        }
    }

    /// A resolver at the top level of a program: no scope is open.
    pub fn new() -> (resolver: Self)
        ensures
            resolver.scopes() == Seq::<Map<Seq<char>, bool>>::empty(),
            resolver.current_function() == FunctionType::TopLevel,
            resolver.current_class() == ClassType::NoClass,
    {
        let resolver = Resolver {
            scopes: Vec::new(),
            current_function: FunctionType::TopLevel,
            current_class: ClassType::NoClass,
        };
        assert(resolver.scopes() =~= Seq::<Map<Seq<char>, bool>>::empty());
        resolver
    }

    fn begin_scope(&mut self)
        ensures
            forall|locals: Map<usize, usize>| #[trigger]
                final(self).resolution(locals) == old(self).resolution(locals).begin_scope(),
    {
        self.scopes.push(StringHashMap::new());
        assert(self.scopes() =~= old(self).scopes().push(Map::empty()));
    }

    fn end_scope(&mut self)
        ensures
            forall|locals: Map<usize, usize>| #[trigger]
                final(self).resolution(locals) == old(self).resolution(locals).end_scope(),
    {
        self.scopes.pop();
        proof {
            if old(self).scopes@.len() > 0 {
                assert(self.scopes() =~= old(self).scopes().drop_last());
            }
        }
    }

    fn set(&mut self, name: &str, defined: bool)
        ensures
            forall|locals: Map<usize, usize>| #[trigger]
                final(self).resolution(locals) == old(self).resolution(locals).set(name@, defined),
    {
        let count = self.scopes.len();
        if count > 0 {
            self.scopes[count - 1].insert(String::from_str(name), defined);
            assert(self.scopes() =~= old(self).scopes().update(
                count - 1,
                old(self).scopes().last().insert(name@, defined),
            ));
        }
    }

    fn declare(&mut self, name: &Token) -> (result: Result<(), LoxError>)
        ensures
            forall|locals: Map<usize, usize>| #[trigger]
                final(self).resolution(locals) == old(self).resolution(locals).declare(
                    *name,
                ).state,
            match result {
                Ok(_) => old(self).resolution(Map::empty()).declare(*name).error is None,
                Err(error) => old(self).resolution(Map::empty()).declare(*name).error == Some(
                    error@,
                ),
            },
    {
        let count = self.scopes.len();
        if count > 0 && self.scopes[count - 1].contains_key(name.lexeme.as_str()) {
            assert(old(self).scopes().last() == old(self).scopes@[count - 1]@);
            return Err(self.error(name, DUPLICATE_VARIABLE));
        }
        assert(count > 0 ==> old(self).scopes().last() == old(self).scopes@[count - 1]@);
        self.set(name.lexeme.as_str(), false);
        Ok(())
    }

    fn define(&mut self, name: &Token)
        ensures
            forall|locals: Map<usize, usize>| #[trigger]
                final(self).resolution(locals) == old(self).resolution(locals).define(*name),
    {
        self.set(name.lexeme.as_str(), true);
    }

    fn error(&self, token: &Token, message: &str) -> (error: LoxError)
        ensures
            error@ == error_at(*token, message@),
    {
        LoxError::resolver_error(token.line, token.lexeme.as_str(), message)
    }

    fn resolve_local<'a>(&self, interpreter: &mut Interpreter<'a>, exp_id: usize, name: &Token)
        ensures
            final(interpreter)@ == (State {
                locals: self.resolution(old(interpreter)@.locals).resolve_local(
                    exp_id,
                    name.lexeme@,
                ).locals,
                ..old(interpreter)@
            }),
    {
        let count = self.scopes.len();
        let mut depth: usize = 0;
        while depth < count
            invariant
                count == self.scopes@.len(),
                depth <= count,
                *interpreter == *old(interpreter),
                innermost_from(self.scopes(), name.lexeme@, depth as nat) == innermost_from(
                    self.scopes(),
                    name.lexeme@,
                    0,
                ),
            decreases count - depth,
        {
            if self.scopes[count - 1 - depth].contains_key(name.lexeme.as_str()) {
                assert(self.scopes()[count - 1 - depth] == self.scopes@[count - 1 - depth]@);
                interpreter.resolve(exp_id, depth);
                return ;
            }
            assert(self.scopes()[count - 1 - depth] == self.scopes@[count - 1 - depth]@);
            depth = depth + 1;
        }
        assert(interpreter@ == (State { locals: interpreter@.locals, ..interpreter@ }));
    }

    /// Whether the innermost scope holds `name` with its declaration not
    /// yet complete.
    fn declared_only(&self, name: &Token) -> (pending: bool)
        ensures
            pending == (self.scopes().len() > 0 && self.scopes().last().contains_key(name.lexeme@)
                && !self.scopes().last()[name.lexeme@]),
    {
        let count = self.scopes.len();
        if count == 0 {
            return false;
        }
        assert(self.scopes().last() == self.scopes@[count - 1]@);
        match self.scopes[count - 1].get(name.lexeme.as_str()) {
            Some(defined) => !*defined,
            None => false,
        }
    }

    fn resolve_expression<'a>(&mut self, interpreter: &mut Interpreter<'a>, expr: &Expression) -> (result:
        Result<(), LoxError>)
        ensures
            final(self).agrees(
                final(interpreter)@,
                old(interpreter)@,
                result,
                old(self).resolution(old(interpreter)@.locals).resolve_expression(*expr),
            ),
        decreases expr,
    {
        match expr {
            Expression::Variable { id, name } => {
                if self.declared_only(name) {
                    return Err(self.error(name, VARIABLE_IN_OWN_INITIALIZER));
                }
                self.resolve_local(interpreter, *id, name);
                Ok(())
            },
            Expression::Assign { id, name, value } => {
                self.resolve_expression(interpreter, value)?;
                self.resolve_local(interpreter, *id, name);
                Ok(())
            },
            Expression::Binary { left, op, right } => {
                self.resolve_expression(interpreter, left)?;
                self.resolve_expression(interpreter, right)
            },
            Expression::Call { callee, paren_line, arguments } => {
                self.resolve_expression(interpreter, callee)?;
                let ghost start = self.resolution(interpreter@.locals);
                let mut i: usize = 0;
                while i < arguments.len()
                    invariant
                        i <= arguments.len(),
                        decreases_to!(expr => arguments),
                        interpreter@ == (State { locals: interpreter@.locals, ..old(interpreter)@ }),
                        old(self).resolution(old(interpreter)@.locals).resolve_expression(*expr)
                            == start.resolve_expressions(arguments@, 0),
                        self.resolution(interpreter@.locals).resolve_expressions(
                            arguments@,
                            i as nat,
                        ) == start.resolve_expressions(arguments@, 0),
                    decreases arguments.len() - i,
                {
                    match self.resolve_expression(interpreter, &arguments[i]) {
                        Err(error) => {
                            return Err(error);
                        },
                        Ok(_) => {},
                    }
                    i = i + 1;
                }
                Ok(())
            },
            Expression::Grouping(inner) => self.resolve_expression(interpreter, inner),
            Expression::Literal(_) => Ok(()),
            Expression::Logical { left, op, right } => {
                self.resolve_expression(interpreter, left)?;
                self.resolve_expression(interpreter, right)
            },
            Expression::Unary { op, right } => self.resolve_expression(interpreter, right),
            Expression::Get { object, name } => self.resolve_expression(interpreter, object),
            Expression::SetProperty { object, name, value } => {
                self.resolve_expression(interpreter, value)?;
                self.resolve_expression(interpreter, object)
            },
            Expression::This { id, keyword } => {
                if self.current_class == ClassType::NoClass {
                    return Err(self.error(keyword, THIS_OUTSIDE_CLASS));
                }
                self.resolve_local(interpreter, *id, keyword);
                Ok(())
            },
            Expression::Super { id, keyword, method } => {
                if self.current_class == ClassType::NoClass {
                    return Err(self.error(keyword, SUPER_OUTSIDE_CLASS));
                } else if self.current_class != ClassType::Subclass {
                    return Err(self.error(keyword, SUPER_WITHOUT_SUPERCLASS));
                }
                self.resolve_local(interpreter, *id, keyword);
                Ok(())
            },
        }
    }

    /// Resolves the statements of a program, or of a body, in order: every
    /// use of a local variable gets its depth in the interpreter's table.
    /// The first static error ends the pass.
    pub fn resolve<'a>(&mut self, interpreter: &mut Interpreter<'a>, statements: &Vec<Statement>) -> (result:
        Result<(), LoxError>)
        ensures
            final(self).agrees(
                final(interpreter)@,
                old(interpreter)@,
                result,
                old(self).resolution(old(interpreter)@.locals).resolve_statements(statements@, 0),
            ),
        decreases statements,
    {
        let ghost start = self.resolution(interpreter@.locals);
        let mut i: usize = 0;
        while i < statements.len()
            invariant
                i <= statements.len(),
                start == old(self).resolution(old(interpreter)@.locals),
                interpreter@ == (State { locals: interpreter@.locals, ..old(interpreter)@ }),
                self.resolution(interpreter@.locals).resolve_statements(statements@, i as nat)
                    == start.resolve_statements(statements@, 0),
            decreases statements.len() - i,
        {
            match self.resolve_statement(interpreter, &statements[i]) {
                Err(error) => {
                    return Err(error);
                },
                Ok(_) => {},
            }
            i = i + 1;
        }
        Ok(())
    }

    fn resolve_function<'a>(
        &mut self,
        interpreter: &mut Interpreter<'a>,
        fun: &Function,
        fun_ty: FunctionType,
    ) -> (result: Result<(), LoxError>)
        ensures
            final(self).agrees(
                final(interpreter)@,
                old(interpreter)@,
                result,
                old(self).resolution(old(interpreter)@.locals).resolve_function(*fun, fun_ty),
            ),
        decreases fun,
    {
        let enclosing_fun = self.current_function;
        self.current_function = fun_ty;
        self.begin_scope();
        let ghost entered = self.resolution(interpreter@.locals);
        let mut i: usize = 0;
        while i < fun.params.len()
            invariant
                i <= fun.params.len(),
                *interpreter == *old(interpreter),
                entered == (Resolution {
                    current_function: fun_ty,
                    ..old(self).resolution(old(interpreter)@.locals)
                }).begin_scope(),
                self.resolution(interpreter@.locals).declare_parameters(fun.params@, i as nat)
                    == entered.declare_parameters(fun.params@, 0),
            decreases fun.params.len() - i,
        {
            match self.declare(&fun.params[i]) {
                Err(error) => {
                    return Err(error);
                },
                Ok(_) => {},
            }
            self.define(&fun.params[i]);
            i = i + 1;
        }
        self.resolve(interpreter, &fun.body)?;
        self.end_scope();
        self.current_function = enclosing_fun;
        Ok(())
    }

    fn resolve_class_body<'a>(
        &mut self,
        interpreter: &mut Interpreter<'a>,
        methods: &Vec<Function>,
        has_superclass: bool,
        enclosing_class: ClassType,
    ) -> (result: Result<(), LoxError>)
        ensures
            final(self).agrees(
                final(interpreter)@,
                old(interpreter)@,
                result,
                old(self).resolution(old(interpreter)@.locals).resolve_class_body(
                    methods@,
                    has_superclass,
                    enclosing_class,
                ),
            ),
        decreases methods,
    {
        self.begin_scope();
        self.set(THIS_KEYWORD, true);
        let ghost start = self.resolution(interpreter@.locals);
        let mut i: usize = 0;
        while i < methods.len()
            invariant
                i <= methods.len(),
                start == old(self).resolution(old(interpreter)@.locals).begin_scope().set(
                    THIS_KEYWORD@,
                    true,
                ),
                interpreter@ == (State { locals: interpreter@.locals, ..old(interpreter)@ }),
                self.resolution(interpreter@.locals).resolve_methods(methods@, i as nat)
                    == start.resolve_methods(methods@, 0),
            decreases methods.len() - i,
        {
            let method = &methods[i];
            let function_type = if str_eq(method.name.lexeme.as_str(), INIT_METHOD) {
                FunctionType::Initializer
            } else {
                FunctionType::Method
            };
            match self.resolve_function(interpreter, method, function_type) {
                Err(error) => {
                    return Err(error);
                },
                Ok(_) => {},
            }
            i = i + 1;
        }
        let ghost looped = self.resolution(interpreter@.locals);
        assert(looped.ok() == start.resolve_methods(methods@, 0));
        self.end_scope();
        assert(self.resolution(interpreter@.locals) == looped.end_scope());
        if has_superclass {
            self.end_scope();
            assert(self.resolution(interpreter@.locals) == looped.end_scope().end_scope());
        }
        self.current_class = enclosing_class;
        Ok(())
    }

    fn resolve_class<'a>(&mut self, interpreter: &mut Interpreter<'a>, statement: &Statement) -> (result:
        Result<(), LoxError>)
        requires
            *statement is Class,
        ensures
            final(self).agrees(
                final(interpreter)@,
                old(interpreter)@,
                result,
                old(self).resolution(old(interpreter)@.locals).resolve_statement(*statement),
            ),
        decreases statement, 0nat,
    {
        match statement {
            Statement::Class { name, superclass, methods } => {
                let enclosing_class = self.current_class;
                self.current_class = ClassType::Class;
                self.declare(name)?;
                self.define(name);
                match superclass {
                    Some(expr) => {
                        let inherits_itself = match expr {
                            Expression::Variable { id, name: parent } => parent.lexeme == name.lexeme,
                            _ => false,
                        };
                        if inherits_itself {
                            return Err(self.error(name, CLASS_INHERIT_SELF));
                        }
                        self.current_class = ClassType::Subclass;
                        self.resolve_expression(interpreter, expr)?;
                        self.begin_scope();
                        self.set(SUPER_KEYWORD, true);
                        self.resolve_class_body(interpreter, methods, true, enclosing_class)
                    },
                    None => self.resolve_class_body(interpreter, methods, false, enclosing_class),
                }
            },
            _ => Ok(()),
        }
    }

    fn resolve_declaration<'a>(&mut self, interpreter: &mut Interpreter<'a>, statement: &Statement) -> (result:
        Result<(), LoxError>)
        requires
            *statement is Variable || *statement is Function,
        ensures
            final(self).agrees(
                final(interpreter)@,
                old(interpreter)@,
                result,
                old(self).resolution(old(interpreter)@.locals).resolve_statement(*statement),
            ),
        decreases statement, 0nat,
    {
        match statement {
            Statement::Variable { name, init } => {
                self.declare(name)?;
                match init {
                    Some(expr) => {
                        self.resolve_expression(interpreter, expr)?;
                    },
                    None => {},
                }
                self.define(name);
                Ok(())
            },
            Statement::Function(fun) => {
                self.declare(&fun.name)?;
                self.define(&fun.name);
                self.resolve_function(interpreter, fun, FunctionType::Function)
            },
            _ => Ok(()),
        }
    }

    fn resolve_statement<'a>(&mut self, interpreter: &mut Interpreter<'a>, statement: &Statement) -> (result:
        Result<(), LoxError>)
        ensures
            final(self).agrees(
                final(interpreter)@,
                old(interpreter)@,
                result,
                old(self).resolution(old(interpreter)@.locals).resolve_statement(*statement),
            ),
        decreases statement, 1nat,
    {
        match statement {
            Statement::Block(statements) => {
                self.begin_scope();
                self.resolve(interpreter, statements)?;
                self.end_scope();
                Ok(())
            },
            Statement::Class { name, superclass, methods } => self.resolve_class(
                interpreter,
                statement,
            ),
            Statement::Variable { name, init } => self.resolve_declaration(interpreter, statement),
            Statement::Function(fun) => self.resolve_declaration(interpreter, statement),
            Statement::Expression(expr) => self.resolve_expression(interpreter, expr),
            Statement::If { condition, then_branch, else_branch } => {
                self.resolve_expression(interpreter, condition)?;
                self.resolve_statement(interpreter, then_branch)?;
                match else_branch {
                    Some(else_branch) => self.resolve_statement(interpreter, else_branch),
                    None => Ok(()),
                }
            },
            Statement::Print(expr) => self.resolve_expression(interpreter, expr),
            Statement::Return { keyword, value } => {
                if self.current_function == FunctionType::TopLevel {
                    return Err(self.error(keyword, RETURN_FROM_TOP_LEVEL));
                }
                match value {
                    Some(expr) => {
                        if self.current_function == FunctionType::Initializer {
                            return Err(self.error(keyword, RETURN_FROM_INITIALIZER));
                        }
                        self.resolve_expression(interpreter, expr)
                    },
                    None => Ok(()),
                }
            },
            Statement::While { condition, body } => {
                self.resolve_expression(interpreter, condition)?;
                self.resolve_statement(interpreter, body)
            },
        }
    }
}

} // verus!
