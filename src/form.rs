//! Edited form values and the schema that describes where they are stored.
use vstd::prelude::*;

verus! {

/// One condition of an expression and the result it selects.
pub struct IfThen {
    pub if_: String,
    pub then_: String,
}

/// A conditional expression: condition/result pairs and a fallback.
pub struct Expression {
    pub if_thens: Vec<IfThen>,
    pub else_: String,
}

/// The value a user entered for one field.
pub enum FormValue {
    Value(String),
    Array(Vec<String>),
    Expression(Expression),
}

/// Where the options of a select field come from.
pub enum Source {
    Static(Vec<(String, String)>),
    Dynamic { schema: String, field: String },
}

/// The declared type of a field.
pub enum Type {
    Input,
    Secret,
    Duration,
    Rate,
    Array,
    Expression,
    Select { source: Source, multi: bool },
}

/// A field of a schema.
pub struct Field {
    pub id: String,
    pub label: String,
    pub help: String,
    pub typ_: Type,
    pub default: Option<String>,
}

/// The storage shape of a schema.
pub enum SchemaType {
    /// Entities under `{prefix}.{id}.`, one key per field.
    Record { prefix: String },
    /// One scalar under `{prefix}.{id}`.
    Entry { prefix: String },
    /// Top-level fields with no shared identifier.
    List,
}

/// A configurable entity: its shape and its fields.
pub struct Schema {
    pub id: String,
    pub typ: SchemaType,
    pub fields: Vec<Field>,
}

/// The values submitted for one schema.
pub struct FormData {
    pub schema: Schema,
    pub values: Vec<(String, FormValue)>,
    pub is_update: bool,
}

pub open spec fn spec_expression_is_empty(e: Expression) -> bool {
    e.if_thens@.len() == 0 && e.else_@.len() == 0
}

/// A value that carries nothing to store.
pub open spec fn value_absent(v: FormValue) -> bool {
    match v {
        FormValue::Value(s) => s@.len() == 0,
        FormValue::Array(a) => a@.len() == 0,
        FormValue::Expression(e) => spec_expression_is_empty(e),
    }
}

pub open spec fn type_is_multivalue(t: Type) -> bool {
    match t {
        Type::Array | Type::Expression => true,
        Type::Select { multi, .. } => multi,
        _ => false,
    }
}

/// The first value submitted under `id`.
pub open spec fn find_entry(vals: Seq<(String, FormValue)>, id: Seq<char>) -> Option<FormValue>
    decreases vals.len(),
{
    if vals.len() == 0 {
        None
    } else if vals[0].0@ == id {
        Some(vals[0].1)
    } else {
        find_entry(vals.drop_first(), id)
    }
}

/// The scalar submitted under `id`, if the first value there is a scalar.
pub open spec fn find_scalar(vals: Seq<(String, FormValue)>, id: Seq<char>) -> Option<Seq<char>> {
    match find_entry(vals, id) {
        Some(FormValue::Value(s)) => Some(s@),
        _ => None,
    }
}

/// No value, or an absent one, was submitted under `id`.
pub open spec fn entry_is_empty(vals: Seq<(String, FormValue)>, id: Seq<char>) -> bool {
    match find_entry(vals, id) {
        Some(v) => value_absent(v),
        None => true,
    }
}

impl Expression {
    pub fn is_empty(&self) -> (r: bool)
        ensures
            r == spec_expression_is_empty(*self),
    {
        self.if_thens.len() == 0 && self.else_.as_str().is_empty()
    }
}

impl FormValue {
    pub fn is_absent(&self) -> (r: bool)
        ensures
            r == value_absent(*self),
    {
        match self {
            FormValue::Value(s) => s.as_str().is_empty(),
            FormValue::Array(a) => a.len() == 0,
            FormValue::Expression(e) => e.is_empty(),
        }
    }
}

impl Field {
    /// Whether the field is stored under a range of indexed keys.
    pub fn is_multivalue(&self) -> (r: bool)
        ensures
            r == type_is_multivalue(self.typ_),
    {
        match &self.typ_ {
            Type::Array | Type::Expression => true,
            Type::Select { multi, .. } => *multi,
            _ => false,
        }
    }
}

impl FormData {
    /// The scalar submitted under `id`.
    pub fn value_as_str(&self, id: &str) -> (r: Option<&String>)
        ensures
            match r {
                Some(s) => find_scalar(self.values@, id@) == Some(s@),
                None => find_scalar(self.values@, id@) is None,
            },
    {
        match self.value(id) {
            Some(FormValue::Value(s)) => Some(s),
            _ => None,
        }
    }

    /// Whether nothing worth storing was submitted under `id`.
    pub fn value_is_empty(&self, id: &str) -> (r: bool)
        ensures
            r == entry_is_empty(self.values@, id@),
    {
        match self.value(id) {
            Some(v) => v.is_absent(),
            None => true,
        }
    }

    /// The first value submitted under `id`.
    pub fn value(&self, id: &str) -> (r: Option<&FormValue>)
        ensures
            match r {
                Some(v) => find_entry(self.values@, id@) == Some(*v),
                None => find_entry(self.values@, id@) is None,
            },
    {
        let key: String = id.to_owned();
        let mut i: usize = 0;
        assert(self.values@.subrange(0, self.values@.len() as int) =~= self.values@);
        while i < self.values.len()
            invariant
                i <= self.values@.len(),
                key@ == id@,
                find_entry(self.values@, id@) == find_entry(self.values@.subrange(i as int, self.values@.len() as int), id@),
            decreases self.values@.len() - i,
        {
            let ghost rest = self.values@.subrange(i as int, self.values@.len() as int);
            assert(rest.drop_first() =~= self.values@.subrange(i + 1, self.values@.len() as int));
            assert(rest.len() > 0 && rest[0] == self.values@[i as int]);
            assert(find_entry(rest, id@) == if rest[0].0@ == id@ {
                Some(rest[0].1)
            } else {
                find_entry(rest.drop_first(), id@)
            });
            if self.values[i].0 == key {
                return Some(&self.values[i].1);
            }
            i = i + 1;
        }
        None
    }
}

} // verus!
