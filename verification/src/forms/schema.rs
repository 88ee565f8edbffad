//! Field schemas: a field's name, type, requiredness, constraints and label.

use vstd::prelude::*;
use crate::text::string_from;

verus! {

#[derive(Debug)]
pub enum FieldType {
    String,
    Email,
    Integer,
    Decimal,
    Boolean,
    Uuid,
    DateTime,
    Enum(Vec<String>),
    Optional(Box<FieldType>),
}

#[derive(Debug, Clone)]
pub enum Constraint {
    MinLength(usize),
    MaxLength(usize),
    Min(i64),
    Max(i64),
    Pattern(String),
    Unique,
    Custom(String),
}

#[derive(Debug)]
pub struct FieldSchema {
    pub name: String,
    pub field_type: FieldType,
    pub required: bool,
    pub constraints: Vec<Constraint>,
    pub label: Option<String>,
}

impl FieldSchema {
    /// An optional field of type `field_type` without constraints or label.
    pub fn new(name: &str, field_type: FieldType) -> (r: Self)
        ensures
            r.name@ == name@,
            r.field_type == field_type,
            !r.required,
            r.constraints@ == Seq::<Constraint>::empty(),
            r.label is None,
    {
        FieldSchema {
            name: string_from(name),
            field_type,
            required: false,
            constraints: Vec::new(),
            label: None,
        }
    }

    pub fn required(self) -> (r: Self)
        ensures
            r == (FieldSchema { required: true, ..self }),
    {
        let mut s = self;
        s.required = true;
        s
    }

    pub fn optional(self) -> (r: Self)
        ensures
            r == (FieldSchema { required: false, ..self }),
    {
        let mut s = self;
        s.required = false;
        s
    }

    /// Adds `constraint` after the field's other constraints.
    pub fn constraint(self, constraint: Constraint) -> (r: Self)
        ensures
            r.name == self.name,
            r.field_type == self.field_type,
            r.required == self.required,
            r.label == self.label,
            r.constraints@ == self.constraints@.push(constraint),
    {
        let mut s = self;
        s.constraints.push(constraint);
        s
    }

    pub fn min_length(self, min: usize) -> (r: Self)
        ensures
            r.name == self.name,
            r.field_type == self.field_type,
            r.required == self.required,
            r.label == self.label,
            r.constraints@ == self.constraints@.push(Constraint::MinLength(min)),
    {
        self.constraint(Constraint::MinLength(min))
    }

    pub fn max_length(self, max: usize) -> (r: Self)
        ensures
            r.name == self.name,
            r.field_type == self.field_type,
            r.required == self.required,
            r.label == self.label,
            r.constraints@ == self.constraints@.push(Constraint::MaxLength(max)),
    {
        self.constraint(Constraint::MaxLength(max))
    }

    pub fn min(self, min: i64) -> (r: Self)
        ensures
            r.name == self.name,
            r.field_type == self.field_type,
            r.required == self.required,
            r.label == self.label,
            r.constraints@ == self.constraints@.push(Constraint::Min(min)),
    {
        self.constraint(Constraint::Min(min))
    }

    pub fn max(self, max: i64) -> (r: Self)
        ensures
            r.name == self.name,
            r.field_type == self.field_type,
            r.required == self.required,
            r.label == self.label,
            r.constraints@ == self.constraints@.push(Constraint::Max(max)),
    {
        self.constraint(Constraint::Max(max))
    }

    pub fn pattern(self, pattern: &str) -> (r: Self)
        ensures
            r.name == self.name,
            r.field_type == self.field_type,
            r.required == self.required,
            r.label == self.label,
            r.constraints@.len() == self.constraints@.len() + 1,
            r.constraints@.take(self.constraints@.len() as int) == self.constraints@,
            r.constraints@.last() matches Constraint::Pattern(p) && p@ == pattern@,
    {
        let c = Constraint::Pattern(string_from(pattern));
        let r = self.constraint(c);
        proof {
            assert(r.constraints@.take(self.constraints@.len() as int) =~= self.constraints@);
        }
        r
    }

    pub fn label(self, label: &str) -> (r: Self)
        ensures
            r.name == self.name,
            r.field_type == self.field_type,
            r.required == self.required,
            r.constraints == self.constraints,
            r.label matches Some(l) && l@ == label@,
    {
        let mut s = self;
        s.label = Some(string_from(label));
        s
    }
}

} // verus!
