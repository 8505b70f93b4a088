//! The data contract returned by a describe exchange: the shape of one SQL
//! statement, as the database reports it, without executing the statement.

use vstd::prelude::*;

verus! {

/// Identity tag of a database type, as the dialect reports it.
///
/// The tag is dialect-scoped and opaque to this core; for PostgreSQL it is
/// the type's object identifier on the wire.
#[derive(Clone, Copy, Debug, PartialEq, Eq, Structural)]
pub struct TypeIdentity {
    pub tag: u32,
}

/// Whether a value may be NULL. Columns whose nullability the database
/// cannot determine (computed expressions, for instance) report `Unknown`
/// rather than a guess.
#[derive(Clone, Copy, Debug, PartialEq, Eq, Structural)]
pub enum Nullability {
    NotNull,
    Nullable,
    Unknown,
}

/// One bind parameter of a statement: its 1-based position, its reported
/// type, and its nullability, which is unknown by default.
#[derive(Clone, Copy, Debug, PartialEq, Eq, Structural)]
pub struct ParameterDescriptor {
    pub position: usize,
    pub type_identity: TypeIdentity,
    pub nullability: Nullability,
}

/// One result column of a statement: its name, its reported type, and its
/// nullability.
pub struct ColumnDescriptor {
    pub name: String,
    pub type_identity: TypeIdentity,
    pub nullability: Nullability,
}

/// Mathematical model of a [`ColumnDescriptor`]: the name as a sequence of
/// characters, the rest as plain values.
#[verifier::ext_equal]
pub struct ColumnModel {
    pub name: Seq<char>,
    pub type_identity: TypeIdentity,
    pub nullability: Nullability,
}

impl View for ColumnDescriptor {
    type V = ColumnModel;

    open spec fn view(&self) -> ColumnModel {
        ColumnModel {
            name: self.name@,
            type_identity: self.type_identity,
            nullability: self.nullability,
        }
    }
}

/// Mathematical model of a [`Description`]: the ordered parameter and column
/// sequences.
#[verifier::ext_equal]
pub struct DescriptionModel {
    pub parameters: Seq<ParameterDescriptor>,
    pub columns: Seq<ColumnModel>,
}

/// The structured outcome of one describe exchange: the ordered parameters
/// and the ordered result columns of a statement. Immutable once
/// constructed.
pub struct Description {
    pub parameters: Vec<ParameterDescriptor>,
    pub columns: Vec<ColumnDescriptor>,
}

impl View for Description {
    type V = DescriptionModel;

    open spec fn view(&self) -> DescriptionModel {
        DescriptionModel {
            parameters: self.parameters@,
            columns: self.columns@.map_values(|c: ColumnDescriptor| c@),
        }
    }
}

impl Description {
    /// A well-formed description numbers its parameters 1, 2, ... in order.
    pub open spec fn wf(&self) -> bool {
        forall|i: int|
            0 <= i < self@.parameters.len() ==> (#[trigger] self@.parameters[i]).position == i + 1
    }

    /// Builds a description from the parameter types and the columns the
    /// dialect reported: parameters are numbered from 1 in the order given
    /// and start with unknown nullability.
    pub fn new(parameter_types: Vec<TypeIdentity>, columns: Vec<ColumnDescriptor>) -> (d:
        Description)
        ensures
            d@.parameters.len() == parameter_types@.len(),
            forall|i: int|
                0 <= i < parameter_types@.len() ==> #[trigger] d@.parameters[i]
                    == (ParameterDescriptor {
                    position: (i + 1) as usize,
                    type_identity: parameter_types@[i],
                    nullability: Nullability::Unknown,
                }),
            d@.columns == columns@.map_values(|c: ColumnDescriptor| c@),
            d.wf(),
    {
        let mut parameters: Vec<ParameterDescriptor> = Vec::new();
        let n = parameter_types.len();
        let mut i: usize = 0;
        while i < n
            invariant
                i <= n,
                n == parameter_types@.len(),
                parameters@.len() == i,
                forall|j: int|
                    0 <= j < i ==> #[trigger] parameters@[j] == (ParameterDescriptor {
                        position: (j + 1) as usize,
                        type_identity: parameter_types@[j],
                        nullability: Nullability::Unknown,
                    }),
            decreases n - i,
        {
            parameters.push(
                ParameterDescriptor {
                    position: i + 1,
                    type_identity: parameter_types[i],
                    nullability: Nullability::Unknown,
                },
            );
            i = i + 1;
        }
        Description { parameters, columns }
    }

    /// An independent copy whose model is the very same as this one's.
    pub fn duplicate(&self) -> (d: Description)
        ensures
            d@ == self@,
    {
        let mut parameters: Vec<ParameterDescriptor> = Vec::new();
        let mut i: usize = 0;
        while i < self.parameters.len()
            invariant
                i <= self.parameters@.len(),
                parameters@ == self.parameters@.subrange(0, i as int),
            decreases self.parameters@.len() - i,
        {
            parameters.push(self.parameters[i]);
            i = i + 1;
        }
        let mut columns: Vec<ColumnDescriptor> = Vec::new();
        let mut j: usize = 0;
        while j < self.columns.len()
            invariant
                j <= self.columns@.len(),
                columns@.len() == j,
                forall|k: int| 0 <= k < j ==> (#[trigger] columns@[k])@ == self.columns@[k]@,
            decreases self.columns@.len() - j,
        {
            let c = &self.columns[j];
            columns.push(
                ColumnDescriptor {
                    name: c.name.clone(),
                    type_identity: c.type_identity,
                    nullability: c.nullability,
                },
            );
            j = j + 1;
        }
        proof {
            assert(self.parameters@.subrange(0, self.parameters@.len() as int)
                == self.parameters@);
            assert(parameters@ =~= self.parameters@);
            assert(columns@.map_values(|c: ColumnDescriptor| c@) =~= self.columns@.map_values(
                |c: ColumnDescriptor| c@,
            ));
        }
        let d = Description { parameters, columns };
        proof {
            assert(d@ =~= self@);
        }
        d
    }

    /// Model equality, decided executably: same parameters in the same
    /// order, same columns (name, type, nullability) in the same order.
    pub fn equals(&self, other: &Description) -> (r: bool)
        ensures
            r == (self@ == other@),
    {
        if self.parameters.len() != other.parameters.len() {
            proof {
                assert(self@.parameters.len() != other@.parameters.len());
            }
            return false;
        }
        if self.columns.len() != other.columns.len() {
            proof {
                assert(self@.columns.len() != other@.columns.len());
            }
            return false;
        }
        let mut i: usize = 0;
        while i < self.parameters.len()
            invariant
                i <= self.parameters@.len(),
                self.parameters@.len() == other.parameters@.len(),
                forall|j: int| 0 <= j < i ==> self.parameters@[j] == other.parameters@[j],
            decreases self.parameters@.len() - i,
        {
            if self.parameters[i] != other.parameters[i] {
                proof {
                    assert(self@.parameters[i as int] != other@.parameters[i as int]);
                }
                return false;
            }
            i = i + 1;
        }
        let mut j: usize = 0;
        while j < self.columns.len()
            invariant
                j <= self.columns@.len(),
                self.columns@.len() == other.columns@.len(),
                forall|k: int| 0 <= k < j ==> self.columns@[k]@ == other.columns@[k]@,
            decreases self.columns@.len() - j,
        {
            let a = &self.columns[j];
            let b = &other.columns[j];
            if !string_eq(&a.name, &b.name) || a.type_identity != b.type_identity
                || a.nullability != b.nullability {
                proof {
                    assert(self@.columns[j as int] != other@.columns[j as int]);
                }
                return false;
            }
            proof {
                assert(self.columns@[j as int]@ =~= other.columns@[j as int]@);
            }
            j = j + 1;
        }
        proof {
            assert(self@.parameters =~= other@.parameters);
            assert forall|k: int| 0 <= k < self@.columns.len() implies self@.columns[k]
                == other@.columns[k] by {
                assert(self.columns@[k]@ == other.columns@[k]@);
            }
            assert(self@.columns =~= other@.columns);
            assert(self@ =~= other@);
        }
        true
    }
}

/// Exact character-for-character equality of two strings.
pub fn string_eq(a: &String, b: &String) -> (r: bool)
    ensures
        r == (a@ == b@),
{
    *a == *b
}

} // verus!
