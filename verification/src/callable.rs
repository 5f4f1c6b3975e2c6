//! The objects that a running program makes: functions, classes, instances.

use vstd::prelude::*;
use vstd::hash_map::StringHashMap;
use vstd::string::StringExecFns;
use crate::grammar::{Function, Token};
use crate::value::Value;

verus! {

/// What every callable object offers apart from the call itself, which is
/// the interpreter's to make.
pub trait LoxCallable {
    /// The number of arguments that a call must give.
    spec fn spec_arity(&self) -> usize;

    /// The printable form of the object.
    spec fn spec_to_string(&self) -> Seq<char>;

    /// The number of arguments that a call must give.
    fn arity(&self) -> (count: usize)
        ensures
            count == self.spec_arity(),
    ;

    /// The printable form of the object.
    fn to_string(&self) -> (text: String)
        ensures
            text@ == self.spec_to_string(),
    ;
}

/// A function of the program together with the scope it was declared in.
#[derive(Clone, Copy)]
pub struct LoxFunction<'a> {
    pub declaration: &'a Function,
    /// The handle of the scope that was current at the declaration.
    pub closure: usize,
    /// Whether this is the method `init` of a class.
    pub is_initializer: bool,
}

impl<'a> LoxFunction<'a> {
    /// The function `fun`, declared with the scope `closure` current.
    pub fn new(fun: &'a Function, closure: usize, is_initializer: bool) -> (function: Self)
        ensures
            function == (LoxFunction { declaration: fun, closure, is_initializer }),
    {
        LoxFunction { declaration: fun, closure, is_initializer }
    }

    /// The name that the function was declared under.
    pub fn name(&self) -> (name: String)
        ensures
            name@ == self.declaration.name.lexeme@,
    {
        self.declaration.name.lexeme.clone()
    }
}

impl<'a> LoxCallable for LoxFunction<'a> {
    open spec fn spec_arity(&self) -> usize {
        self.declaration.params.len()
    }

    open spec fn spec_to_string(&self) -> Seq<char> {
        "<fn "@ + self.declaration.name.lexeme@ + ">"@
    }

    fn arity(&self) -> (count: usize) {
        self.declaration.params.len()
    }

    fn to_string(&self) -> (text: String) {
        let mut text = String::from_str("<fn ");
        text.append(self.declaration.name.lexeme.as_str());
        text.append(">");
        text
    }
}

/// A function that the interpreter's caller carries out.
#[derive(Clone, Copy)]
pub struct Native {
    pub arity: usize,
}

impl Native {
    /// The built-in `clock`, which takes no argument.
    pub fn clock() -> (native: Self)
        ensures
            native.arity == 0,
    {
        Native { arity: 0 }
    }
}

impl LoxCallable for Native {
    open spec fn spec_arity(&self) -> usize {
        self.arity
    }

    open spec fn spec_to_string(&self) -> Seq<char> {
        "<native fn>"@
    }

    fn arity(&self) -> (count: usize) {
        self.arity
    }

    fn to_string(&self) -> (text: String) {
        String::from_str("<native fn>")
    }
}

/// A function value: declared by the program, or built in.
#[derive(Clone, Copy)]
pub enum Callable<'a> {
    Function(LoxFunction<'a>),
    Native(Native),
}

/// A class: its name, the handle of its superclass, and the handles of its
/// own methods by name.
pub struct LoxClass {
    name: String,
    superclass: Option<usize>,
    methods: StringHashMap<usize>,
}

/// The mathematical content of a [`LoxClass`].
pub struct LoxClassView {
    pub name: Seq<char>,
    pub superclass: Option<usize>,
    pub methods: Map<Seq<char>, usize>,
}

impl View for LoxClass {
    type V = LoxClassView;

    closed spec fn view(&self) -> LoxClassView {
        LoxClassView { name: self.name@, superclass: self.superclass, methods: self.methods@ }
    }
}

impl LoxClass {
    /// The class of that name, superclass and methods.
    pub fn new(name: String, superclass: Option<usize>, methods: StringHashMap<usize>) -> (class: Self)
        ensures
            class@ == (LoxClassView { name: name@, superclass, methods: methods@ }),
    {
        LoxClass { name, superclass, methods }
    }

    /// The handle of the class's own method of that name.
    pub fn find_method(&self, name: &str) -> (method: Option<usize>)
        ensures
            method == own_method(self@, name@),
    {
        match self.methods.get(name) {
            Some(function) => Some(*function),
            None => None,
        }
    }

    /// The handle of the superclass.
    pub fn superclass(&self) -> (superclass: Option<usize>)
        ensures
            superclass == self@.superclass,
    {
        self.superclass
    }

    /// The printable form: the name of the class.
    pub fn to_string(&self) -> (text: String)
        ensures
            text@ == self@.name,
    {
        self.name.clone()
    }
}

/// The class's own method of that name.
pub open spec fn own_method(class: LoxClassView, name: Seq<char>) -> Option<usize> {
    if class.methods.contains_key(name) {
        Some(class.methods[name])
    } else {
        None
    }
}

/// Every class has a superclass that was made before it, so that no chain of
/// superclasses comes back to itself.
pub open spec fn inheritance_acyclic(classes: Seq<LoxClassView>) -> bool {
    forall|i: int|
        0 <= i < classes.len() ==> match (#[trigger] classes[i]).superclass {
            Some(s) => s < i,
            None => true,
        }
}

/// The method of that name on the class `class` or the nearest of its
/// superclasses that has one.
pub open spec fn method_of(classes: Seq<LoxClassView>, class: int, name: Seq<char>) -> Option<
    usize,
>
    decreases class,
{
    if !(0 <= class < classes.len()) {
        None
    } else if classes[class].methods.contains_key(name) {
        Some(classes[class].methods[name])
    } else {
        match classes[class].superclass {
            Some(s) => if s < class {
                method_of(classes, s as int, name)
            } else {
                None
            },
            None => None,
        }
    }
}

/// An instance: the handle of its class, and its fields by name.
pub struct LoxInstance {
    class: usize,
    fields: StringHashMap<Value>,
}

/// The mathematical content of a [`LoxInstance`].
pub struct LoxInstanceView {
    pub class: usize,
    pub fields: Map<Seq<char>, Value>,
}

impl View for LoxInstance {
    type V = LoxInstanceView;

    closed spec fn view(&self) -> LoxInstanceView {
        LoxInstanceView { class: self.class, fields: self.fields@ }
    }
}

impl LoxInstance {
    /// An instance of the class `class` without fields.
    pub fn new(class: usize) -> (instance: Self)
        ensures
            instance@ == (LoxInstanceView { class, fields: Map::<Seq<char>, Value>::empty() }),
    {
        LoxInstance { class, fields: StringHashMap::new() }
    }

    /// The handle of the instance's class.
    pub fn class(&self) -> (class: usize)
        ensures
            class == self@.class,
    {
        self.class
    }

    /// The field that `name` names, if the instance has it.
    pub fn get(&self, name: &Token) -> (value: Option<Value>)
        ensures
            value == field_of(self@, name.lexeme@),
    {
        match self.fields.get(name.lexeme.as_str()) {
            Some(value) => Some(*value),
            None => None,
        }
    }

    /// Sets the field that `name` names, whether or not the instance had it.
    pub fn set(&mut self, name: &Token, value: Value)
        ensures
            final(self)@ == (LoxInstanceView {
                fields: old(self)@.fields.insert(name.lexeme@, value),
                ..old(self)@
            }),
    {
        self.fields.insert(name.lexeme.clone(), value);
    }
}

/// The field of that name, if the instance has it.
pub open spec fn field_of(instance: LoxInstanceView, name: Seq<char>) -> Option<Value> {
    if instance.fields.contains_key(name) {
        Some(instance.fields[name])
    } else {
        None
    }
}

} // verus!
