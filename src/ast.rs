//! Syntax tree of a Misty schema file.
use vstd::prelude::*;

verus! {

/// Kinds of container types.
#[derive(Debug, Clone, Copy, PartialEq, Eq, Structural)]
pub enum ContainerType {
    /// A sequence of values.
    Vec,
    /// A value that may be absent.
    Option,
}

/// The type of a field or of a function argument.
#[derive(Debug)]
pub enum DataType {
    /// A built-in primitive type; always valid.
    Primitive(String),
    /// A user-defined type: a bare name for a type of the same module, or a
    /// dotted path `module.path.Type` for a type of another module.
    UserType(String),
    /// A container of another type.
    Container(ContainerType, Box<DataType>),
}

/// A top-level definition of a schema file.
#[derive(Debug, Clone)]
pub enum Definition {
    /// A service interface.
    Interface(Interface),
    /// A message body.
    Schema(Schema),
    /// An enumeration, carried as a `u16`.
    Enum(Enum),
}

/// A field of a schema.
#[derive(Debug, Clone)]
pub struct Field {
    /// Name of the field, in snake_case.
    pub name: String,
    /// Type of the field.
    pub field_type: DataType,
}

/// A schema file: the modules it imports and the definitions it holds.
#[derive(Debug, Clone)]
pub struct File {
    /// Imported module paths, such as `my_module.a.b`.
    pub imports: Vec<String>,
    /// Definitions, in order.
    pub definitions: Vec<Definition>,
}

/// A function of an interface, with one input and an optional output.
///
/// The flag beside each argument type tells whether it is a stream.
#[derive(Debug)]
pub struct Function {
    /// Name of the function, in snake_case.
    pub name: String,
    /// Input argument: stream flag and type.
    pub input: (bool, DataType),
    /// Output argument, absent for a fire-and-forget function.
    pub output: Option<(bool, DataType)>,
}

/// A service interface: a named set of functions.
#[derive(Debug, Clone)]
pub struct Interface {
    /// Name of the interface, in PascalCase.
    pub name: String,
    /// Functions of the interface.
    pub functions: Vec<Function>,
}

/// An enumeration whose variants are numbered implicitly.
#[derive(Debug, Clone)]
pub struct Enum {
    /// Name of the enum, in PascalCase.
    pub name: String,
    /// Variants, in SCREAMING_SNAKE_CASE.
    pub variants: Vec<String>,
}

/// A message body: a named list of fields.
#[derive(Debug, Clone)]
pub struct Schema {
    /// Name of the schema, in PascalCase.
    pub name: String,
    /// Fields of the schema.
    pub fields: Vec<Field>,
}

impl Clone for DataType {
    fn clone(&self) -> (r: DataType)
        decreases self,
    {
        match self {
            DataType::Primitive(name) => DataType::Primitive(name.clone()),
            DataType::UserType(name) => DataType::UserType(name.clone()),
            DataType::Container(kind, inner) => {
                let inner_ref: &DataType = inner;
                DataType::Container(*kind, Box::new(inner_ref.clone()))
            },
        }
    }
}

impl Clone for Function {
    fn clone(&self) -> (r: Function) {
        let output = match &self.output {
            Some((stream, data_type)) => Some((*stream, data_type.clone())),
            None => None,
        };
        Function { name: self.name.clone(), input: (self.input.0, self.input.1.clone()), output }
    }
}

/// The name that a definition gives a type.
pub open spec fn definition_name(d: Definition) -> Seq<char> {
    match d {
        Definition::Interface(i) => i.name@,
        Definition::Schema(s) => s.name@,
        Definition::Enum(e) => e.name@,
    }
}

} // verus!
