//! The messages of the static and runtime errors.

use vstd::prelude::*;

verus! {

// Errors of a running program.

pub const OPERAND_MUST_BE_NUMBER: &'static str = "Operand must be a number.";

pub const OPERANDS_MUST_BE_NUMBERS: &'static str = "Operands must be numbers.";

pub const OPERANDS_MUST_BE_NUMBERS_OR_STRINGS: &'static str =
    "Operands must be two numbers or two strings.";

pub const ONLY_INSTANCES_HAVE_PROPERTIES: &'static str = "Only instances have properties.";

pub const ONLY_INSTANCES_HAVE_FIELDS: &'static str = "Only instances have fields.";

pub const CAN_ONLY_CALL: &'static str = "Can only call functions and classes.";

pub const SUPERCLASS_MUST_BE_CLASS: &'static str = "Superclass must be a class.";

// Errors of the resolver.

pub const RETURN_FROM_INITIALIZER: &'static str = "Can't return a value from an initializer.";

pub const RETURN_FROM_TOP_LEVEL: &'static str = "Can't return from top-level code.";

pub const THIS_OUTSIDE_CLASS: &'static str = "Can't use 'this' outside of a class.";

pub const SUPER_OUTSIDE_CLASS: &'static str = "Can't use 'super' outside of a class.";

pub const SUPER_WITHOUT_SUPERCLASS: &'static str = "Can't use 'super' in a class with no superclass.";

pub const CLASS_INHERIT_SELF: &'static str = "A class can't inherit from itself.";

pub const VARIABLE_IN_OWN_INITIALIZER: &'static str =
    "Can't read local variable in its own initializer.";

pub const DUPLICATE_VARIABLE: &'static str = "Already a variable with this name in this scope.";

// Errors of the parser.

pub const INVALID_ASSIGNMENT_TARGET: &'static str = "Invalid assignment target.";

pub const TOO_MANY_PARAMETERS: &'static str = "Cannot have more than 255 parameters.";

pub const TOO_MANY_ARGUMENTS: &'static str = "Cannot have more than 255 arguments.";

pub const EXPECT_EXPRESSION: &'static str = "Expect expression.";

// Errors of a running program whose syntax tree or resolution table no
// parser and no resolver made.

pub const UNKNOWN_OPERATOR: &'static str = "Unknown operator.";

pub const UNRESOLVED_SCOPE: &'static str = "No enclosing scope at the resolved depth.";

pub const SUPER_NOT_RESOLVED: &'static str = "Super expression not resolved.";

pub const SUPER_MUST_BE_CLASS: &'static str = "Super reference must be a class.";

pub const THIS_MUST_BE_INSTANCE: &'static str = "'this' reference must be an instance.";

} // verus!
