//! The parsed form of a schema: an ordered sequence of table declarations,
//! each with its columns, semantic column types and primary-key columns.

use vstd::prelude::*;

verus! {

/// The finite semantic vocabulary a declared column type is normalized
/// into, so that code emission never re-parses raw type tokens. A token
/// outside the vocabulary is carried through verbatim.
#[derive(Debug)]
pub enum ColumnType {
    SmallInt,
    Integer,
    BigInt,
    Text,
    Boolean,
    Timestamp,
    Date,
    Binary,
    Numeric,
    Nullable(Box<ColumnType>),
    Array(Box<ColumnType>),
    Custom(String),
}

/// One column of a table: its name, the raw type token as declared, the
/// normalized semantic type, and whether the declared type was wrapped in
/// the nullable marker.
#[derive(Debug)]
pub struct ColumnDeclaration {
    pub name: String,
    pub type_token: String,
    pub ty: ColumnType,
    pub is_nullable: bool,
}

/// One table declaration parsed out of the schema, together with the code
/// generated for it.
#[derive(Debug)]
pub struct ParsedTableMacro {
    pub name: String,
    pub columns: Vec<ColumnDeclaration>,
    pub primary_key_columns: Vec<String>,
    pub generated_code: String,
}

/// A character an identifier may contain.
pub open spec fn is_ident_char(c: char) -> bool {
    ('a' <= c && c <= 'z') || ('A' <= c && c <= 'Z') || ('0' <= c && c <= '9') || c == '_'
}

/// A character an identifier may start with.
pub open spec fn is_ident_start(c: char) -> bool {
    ('a' <= c && c <= 'z') || ('A' <= c && c <= 'Z') || c == '_'
}

/// A valid identifier: nonempty, starting with a letter or underscore,
/// containing only identifier characters.
pub open spec fn is_valid_ident(s: Seq<char>) -> bool {
    s.len() > 0 && is_ident_start(s[0]) && (forall|i: int|
        0 <= i < s.len() ==> is_ident_char(s[i]))
}

/// Membership of a name in a list of names, compared by contents.
pub open spec fn name_in(names: Seq<Seq<char>>, n: Seq<char>) -> bool {
    exists|i: int| 0 <= i < names.len() && names[i] == n
}

/// Distinct column names: no two columns share a name.
pub open spec fn columns_unique(cols: Seq<ColumnDeclaration>) -> bool {
    forall|i: int, j: int| 0 <= i < j < cols.len() ==> cols[i].name@ != cols[j].name@
}

/// The names of a table's columns, in declaration order.
pub open spec fn column_names(cols: Seq<ColumnDeclaration>) -> Seq<Seq<char>> {
    Seq::new(cols.len(), |i: int| cols[i].name@)
}

/// A well-formed table declaration: a valid identifier for a name, valid
/// and mutually distinct column names, and a resolved, nonempty primary
/// key each of whose columns is one of the table's columns.
pub open spec fn table_wf(t: ParsedTableMacro) -> bool {
    &&& is_valid_ident(t.name@)
    &&& columns_unique(t.columns@)
    &&& forall|i: int| 0 <= i < t.columns@.len() ==> is_valid_ident(t.columns@[i].name@)
    &&& t.primary_key_columns@.len() > 0
    &&& forall|i: int|
        0 <= i < t.primary_key_columns@.len() ==> name_in(
            column_names(t.columns@),
            t.primary_key_columns@[i]@,
        )
}

impl ColumnType {
    /// A structural copy, equal to the original.
    pub fn clone_type(&self) -> (r: ColumnType)
        ensures
            r == *self,
        decreases self,
    {
        match self {
            ColumnType::SmallInt => ColumnType::SmallInt,
            ColumnType::Integer => ColumnType::Integer,
            ColumnType::BigInt => ColumnType::BigInt,
            ColumnType::Text => ColumnType::Text,
            ColumnType::Boolean => ColumnType::Boolean,
            ColumnType::Timestamp => ColumnType::Timestamp,
            ColumnType::Date => ColumnType::Date,
            ColumnType::Binary => ColumnType::Binary,
            ColumnType::Numeric => ColumnType::Numeric,
            ColumnType::Nullable(b) => ColumnType::Nullable(Box::new(b.clone_type())),
            ColumnType::Array(b) => ColumnType::Array(Box::new(b.clone_type())),
            ColumnType::Custom(s) => ColumnType::Custom(s.clone()),
        }
    }
}

impl ColumnDeclaration {
    /// A field-wise copy, equal to the original.
    pub fn clone_col(&self) -> (r: ColumnDeclaration)
        ensures
            r == *self,
    {
        ColumnDeclaration {
            name: self.name.clone(),
            type_token: self.type_token.clone(),
            ty: self.ty.clone_type(),
            is_nullable: self.is_nullable,
        }
    }
}

/// Does `names` contain the string `n`?
pub fn name_in_exec(names: &Vec<String>, n: &str) -> (r: bool)
    ensures
        r == name_in(names.deep_view(), n@),
{
    let mut i: usize = 0;
    while i < names.len()
        invariant
            i <= names.len(),
            forall|j: int| 0 <= j < i ==> names.deep_view()[j] != n@,
        decreases names.len() - i,
    {
        proof {
            assert(names.deep_view()[i as int] == names@[i as int]@);
        }
        if crate::options::str_eq(names[i].as_str(), n) {
            return true;
        }
        i = i + 1;
    }
    proof {
        if name_in(names.deep_view(), n@) {
            let k = choose|k: int| 0 <= k < names.deep_view().len() && names.deep_view()[k] == n@;
            assert(names.deep_view()[k] != n@);
        }
    }
    false
}

/// Is every character of `s` an identifier character, the first a valid
/// identifier start, and `s` nonempty?
pub fn is_valid_ident_exec(s: &Vec<char>) -> (r: bool)
    ensures
        r == is_valid_ident(s@),
{
    if s.len() == 0 {
        return false;
    }
    let c0 = s[0];
    if !(('a' <= c0 && c0 <= 'z') || ('A' <= c0 && c0 <= 'Z') || c0 == '_') {
        return false;
    }
    let mut i: usize = 0;
    while i < s.len()
        invariant
            i <= s.len(),
            s@.len() > 0,
            is_ident_start(s@[0]),
            forall|j: int| 0 <= j < i ==> is_ident_char(s@[j]),
        decreases s.len() - i,
    {
        let c = s[i];
        if !(('a' <= c && c <= 'z') || ('A' <= c && c <= 'Z') || ('0' <= c && c <= '9') || c
            == '_') {
            return false;
        }
        i = i + 1;
    }
    true
}

} // verus!
