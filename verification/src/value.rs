//! Values that travel between the engine and the store.

use vstd::prelude::*;

verus! {

/// The kinds of value a column can hold.
#[derive(Clone, Copy, Debug, PartialEq, Eq, Structural)]
pub enum ValueKind {
    Integer,
    Text,
    Flag,
    Instant,
}

/// The semantic type of the record field a column is bound to.
#[derive(Clone, Copy, Debug, PartialEq, Eq, Structural)]
pub struct FieldType {
    pub kind: ValueKind,
    pub nullable: bool,
}

impl FieldType {
    /// A field of `kind` that always holds a value.
    pub fn required(kind: ValueKind) -> (r: FieldType)
        ensures
            r == (FieldType { kind, nullable: false }),
    {
        FieldType { kind, nullable: false }
    }

    /// A field of `kind` that may hold no value.
    pub fn optional(kind: ValueKind) -> (r: FieldType)
        ensures
            r == (FieldType { kind, nullable: true }),
    {
        FieldType { kind, nullable: true }
    }
}

/// A point in time: whole seconds since the Unix epoch and the nanoseconds
/// past that second.
#[derive(Clone, Copy, Debug, PartialEq, Eq, Structural)]
pub struct Timestamp {
    pub seconds: i64,
    pub nanos: u32,
}

/// A value bound to a statement parameter or read from a row.
#[derive(Debug, PartialEq, Eq)]
pub enum Value {
    Null,
    Integer(i64),
    Text(String),
    Flag(bool),
    Instant(Timestamp),
}

impl Value {
    /// Whether this value may be stored in a field of type `ty`: its kind is
    /// the field's kind, or it is null and the field is nullable.
    pub open spec fn fits(self, ty: FieldType) -> bool {
        match self {
            Value::Null => ty.nullable,
            Value::Integer(_) => ty.kind == ValueKind::Integer,
            Value::Text(_) => ty.kind == ValueKind::Text,
            Value::Flag(_) => ty.kind == ValueKind::Flag,
            Value::Instant(_) => ty.kind == ValueKind::Instant,
        }
    }

    /// Decides [`Value::fits`].
    pub fn has_type(&self, ty: FieldType) -> (r: bool)
        ensures
            r == self.fits(ty),
    {
        match self {
            Value::Null => ty.nullable,
            Value::Integer(_) => ty.kind == ValueKind::Integer,
            Value::Text(_) => ty.kind == ValueKind::Text,
            Value::Flag(_) => ty.kind == ValueKind::Flag,
            Value::Instant(_) => ty.kind == ValueKind::Instant,
        }
    }

    /// A copy of this value.
    pub fn duplicate(&self) -> (r: Value)
        ensures
            r == *self,
    {
        match self {
            Value::Null => Value::Null,
            Value::Integer(n) => Value::Integer(*n),
            Value::Text(s) => Value::Text(s.clone()),
            Value::Flag(b) => Value::Flag(*b),
            Value::Instant(t) => Value::Instant(*t),
        }
    }
}

impl Clone for Value {
    fn clone(&self) -> (r: Value)
        ensures
            r == *self,
    {
        self.duplicate()
    }
}

/// A value bound to a named parameter.
#[derive(Debug, PartialEq, Eq)]
pub struct Binding {
    pub name: String,
    pub value: Value,
}

/// The mathematical content of a [`Binding`].
pub struct BindingSpec {
    pub name: Seq<char>,
    pub value: Value,
}

impl View for Binding {
    type V = BindingSpec;

    open spec fn view(&self) -> BindingSpec {
        BindingSpec { name: self.name@, value: self.value }
    }
}

/// The contents of a list of bindings, in order.
pub open spec fn binding_views(list: Seq<Binding>) -> Seq<BindingSpec> {
    list.map_values(|b: Binding| b@)
}

/// Why an operation on the store failed.
#[derive(Debug, PartialEq, Eq)]
pub enum DbError {
    /// A fetch of one row found none.
    NotFound,
    /// The column at this position could not be read as its field's type.
    Decode { column: usize },
    /// The store refused to prepare a statement.
    Prepare { message: String },
    /// The store failed to execute a statement.
    Execute { message: String },
}

} // verus!
