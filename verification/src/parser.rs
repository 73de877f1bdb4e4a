//! The schema parser: recognizes a sequence of table declarations in a
//! macro-like schema text and produces one structured declaration per
//! table. Unrecognized top-level constructs — comments, attributes,
//! helper declarations, blank lines — are skipped, never errors. Errors
//! inside a recognized table declaration are fatal and carry the table
//! context.
//!
//! What the parser returns is pinned exactly: `spec_parse_schema` is the
//! mathematical parse of the character sequence, and `parse_schema`'s
//! contract says its result corresponds to that parse — the recognized
//! tables in order of appearance, columns in declaration order, the
//! primary key resolved by annotation first and the `id` convention
//! second, and on failure the very error of the specification.

use vstd::prelude::*;
use crate::schema::ColumnDeclaration;
use crate::schema::ColumnType;
use crate::schema::ParsedTableMacro;
use crate::schema::column_names;
use crate::schema::columns_unique;
use crate::schema::is_ident_char;
use crate::schema::is_ident_start;
use crate::schema::is_valid_ident;
use crate::schema::name_in;
use crate::text::chars_eq;
use crate::text::chars_to_string;
use crate::text::str_to_chars;

verus! {

/// Why a parse failed. Positions are character offsets into the schema
/// text; table-level failures carry the table's name.
#[derive(Debug)]
pub enum ParseError {
    /// The text ended inside a table declaration.
    UnexpectedEnd,
    /// An identifier was required at this offset.
    ExpectedIdent(usize),
    /// A specific punctuation token was required at this offset.
    ExpectedToken(usize),
    /// The named table has no explicit primary key and no `id` column.
    NoPrimaryKey(String),
    /// The named table declares the named column twice.
    DuplicateColumn(String, String),
    /// The named table's explicit primary key names a column it lacks.
    UnknownPrimaryKeyColumn(String, String),
}

/// The specification-level column: name, raw type token, semantic type,
/// nullability.
pub struct SpecColumn {
    pub name: Seq<char>,
    pub type_token: Seq<char>,
    pub ty: SpecType,
    pub is_nullable: bool,
}

/// The specification-level semantic type vocabulary.
pub enum SpecType {
    SmallInt,
    Integer,
    BigInt,
    Text,
    Boolean,
    Timestamp,
    Date,
    Binary,
    Numeric,
    Nullable(Box<SpecType>),
    Array(Box<SpecType>),
    Custom(Seq<char>),
}

/// The specification-level table declaration.
pub struct SpecTable {
    pub name: Seq<char>,
    pub columns: Seq<SpecColumn>,
    pub primary_key: Seq<Seq<char>>,
}

/// The specification-level parse failure, mirroring `ParseError`.
pub enum SpecError {
    UnexpectedEnd,
    ExpectedIdent(int),
    ExpectedToken(int),
    NoPrimaryKey(Seq<char>),
    DuplicateColumn(Seq<char>, Seq<char>),
    UnknownPrimaryKeyColumn(Seq<char>, Seq<char>),
}

/// An executable error carries the same case and the same payload as its
/// specification-level counterpart.
pub open spec fn err_corresponds(e: ParseError, se: SpecError) -> bool {
    match se {
        SpecError::UnexpectedEnd => e is UnexpectedEnd,
        SpecError::ExpectedIdent(p) => e is ExpectedIdent && e->ExpectedIdent_0 as int == p,
        SpecError::ExpectedToken(p) => e is ExpectedToken && e->ExpectedToken_0 as int == p,
        SpecError::NoPrimaryKey(n) => e is NoPrimaryKey && e->NoPrimaryKey_0@ == n,
        SpecError::DuplicateColumn(t, c) => e is DuplicateColumn && e->DuplicateColumn_0@ == t
            && e->DuplicateColumn_1@ == c,
        SpecError::UnknownPrimaryKeyColumn(t, c) => e is UnknownPrimaryKeyColumn
            && e->UnknownPrimaryKeyColumn_0@ == t && e->UnknownPrimaryKeyColumn_1@ == c,
    }
}

/// An executable semantic type carries the same structure as its
/// specification-level counterpart, down to the raw text of a
/// passthrough token.
pub open spec fn ty_corresponds(t: ColumnType, st: SpecType) -> bool
    decreases st,
{
    match st {
        SpecType::SmallInt => t is SmallInt,
        SpecType::Integer => t is Integer,
        SpecType::BigInt => t is BigInt,
        SpecType::Text => t is Text,
        SpecType::Boolean => t is Boolean,
        SpecType::Timestamp => t is Timestamp,
        SpecType::Date => t is Date,
        SpecType::Binary => t is Binary,
        SpecType::Numeric => t is Numeric,
        SpecType::Nullable(b) => t is Nullable && ty_corresponds(*t->Nullable_0, *b),
        SpecType::Array(b) => t is Array && ty_corresponds(*t->Array_0, *b),
        SpecType::Custom(tok) => t is Custom && t->Custom_0@ == tok,
    }
}

/// Field-wise correspondence of one column.
pub open spec fn col_corresponds(c: ColumnDeclaration, sc: SpecColumn) -> bool {
    &&& c.name@ == sc.name
    &&& c.type_token@ == sc.type_token
    &&& ty_corresponds(c.ty, sc.ty)
    &&& c.is_nullable == sc.is_nullable
}

/// Element-wise correspondence of a column list.
pub open spec fn cols_correspond(cs: Seq<ColumnDeclaration>, scs: Seq<SpecColumn>) -> bool {
    cs.len() == scs.len() && (forall|k: int|
        0 <= k < cs.len() ==> col_corresponds(#[trigger] cs[k], scs[k]))
}

/// Field-wise correspondence of one table declaration.
pub open spec fn table_corresponds(t: ParsedTableMacro, st: SpecTable) -> bool {
    &&& t.name@ == st.name
    &&& cols_correspond(t.columns@, st.columns)
    &&& t.primary_key_columns.deep_view() == st.primary_key
}

/// Element-wise correspondence of the parsed table list.
pub open spec fn tables_correspond(ts: Seq<ParsedTableMacro>, sts: Seq<SpecTable>) -> bool {
    ts.len() == sts.len() && (forall|k: int|
        0 <= k < ts.len() ==> table_corresponds(#[trigger] ts[k], sts[k]))
}

/// Whitespace skipped between tokens.
pub open spec fn is_blank_char(c: char) -> bool {
    c == ' ' || c == '\t' || c == '\r' || c == '\n'
}

/// Where token scanning resumes after position `i`: whitespace is
/// consumed, and a `//` comment or a `#` attribute consumes the rest of
/// its line (`skipping` records being inside such a line).
pub open spec fn spec_skip_noise_state(s: Seq<char>, i: int, skipping: bool) -> int
    decreases s.len() - i,
{
    if i >= s.len() {
        i
    } else if skipping {
        if s[i] == '\n' {
            spec_skip_noise_state(s, i + 1, false)
        } else {
            spec_skip_noise_state(s, i + 1, true)
        }
    } else if is_blank_char(s[i]) {
        spec_skip_noise_state(s, i + 1, false)
    } else if s[i] == '/' && i + 1 < s.len() && s[i + 1] == '/' {
        spec_skip_noise_state(s, i + 2, true)
    } else if s[i] == '#' {
        spec_skip_noise_state(s, i + 1, true)
    } else {
        i
    }
}

/// Where token scanning resumes after position `i`.
pub open spec fn spec_skip_noise(s: Seq<char>, i: int) -> int {
    spec_skip_noise_state(s, i, false)
}

proof fn lemma_skip_noise_state_bounds(s: Seq<char>, i: int, skipping: bool)
    requires
        0 <= i <= s.len(),
    ensures
        i <= spec_skip_noise_state(s, i, skipping) <= s.len(),
    decreases s.len() - i,
{
    if i < s.len() {
        if skipping {
            lemma_skip_noise_state_bounds(s, i + 1, s[i] != '\n');
        } else if is_blank_char(s[i]) {
            lemma_skip_noise_state_bounds(s, i + 1, false);
        } else if s[i] == '/' && i + 1 < s.len() && s[i + 1] == '/' {
            lemma_skip_noise_state_bounds(s, i + 2, true);
        } else if s[i] == '#' {
            lemma_skip_noise_state_bounds(s, i + 1, true);
        }
    }
}

/// The skip never moves backwards nor past the end.
pub proof fn lemma_skip_noise_bounds(s: Seq<char>, i: int)
    requires
        0 <= i <= s.len(),
    ensures
        i <= spec_skip_noise(s, i) <= s.len(),
{
    lemma_skip_noise_state_bounds(s, i, false);
}

/// Advances past whitespace, line comments and attribute lines, which
/// never carry table structure.
fn skip_noise(chars: &Vec<char>, pos: usize) -> (r: usize)
    requires
        pos <= chars@.len(),
    ensures
        r as int == spec_skip_noise(chars@, pos as int),
        pos <= r <= chars@.len(),
{
    proof {
        lemma_skip_noise_bounds(chars@, pos as int);
    }
    let mut i = pos;
    let mut skipping: bool = false;
    loop
        invariant
            pos <= i <= chars@.len(),
            spec_skip_noise(chars@, pos as int) == spec_skip_noise_state(
                chars@,
                i as int,
                skipping,
            ),
        decreases chars@.len() - i,
    {
        if i >= chars.len() {
            proof {
                assert(spec_skip_noise_state(chars@, i as int, skipping) == i as int);
            }
            return i;
        }
        let c = chars[i];
        if skipping {
            if c == '\n' {
                skipping = false;
            }
            i = i + 1;
        } else if c == ' ' || c == '\t' || c == '\r' || c == '\n' {
            i = i + 1;
        } else if c == '/' && i + 1 < chars.len() && chars[i + 1] == '/' {
            skipping = true;
            i = i + 2;
        } else if c == '#' {
            skipping = true;
            i = i + 1;
        } else {
            proof {
                assert(spec_skip_noise_state(chars@, i as int, skipping) == i as int);
            }
            return i;
        }
    }
}

/// The end of the identifier-character run starting at `i`.
pub open spec fn ident_end(s: Seq<char>, i: int) -> int
    decreases s.len() - i,
{
    if 0 <= i < s.len() && is_ident_char(s[i]) {
        ident_end(s, i + 1)
    } else {
        i
    }
}

/// The identifier starting at `i`, where one starts there.
pub open spec fn spec_read_ident(s: Seq<char>, i: int) -> Option<(Seq<char>, int)> {
    if 0 <= i < s.len() && is_ident_start(s[i]) {
        Option::Some((s.subrange(i, ident_end(s, i)), ident_end(s, i)))
    } else {
        Option::None
    }
}

proof fn lemma_ident_end_bounds(s: Seq<char>, i: int)
    requires
        0 <= i <= s.len(),
    ensures
        i <= ident_end(s, i) <= s.len(),
        i < s.len() && is_ident_char(s[i]) ==> ident_end(s, i) > i,
    decreases s.len() - i,
{
    if i < s.len() && is_ident_char(s[i]) {
        lemma_ident_end_bounds(s, i + 1);
    }
}

proof fn lemma_ident_end_at(s: Seq<char>, start: int, k: int)
    requires
        0 <= start <= k <= s.len(),
        forall|q: int| start <= q < k ==> is_ident_char(s[q]),
        k == s.len() || !is_ident_char(s[k]),
    ensures
        ident_end(s, start) == k,
    decreases k - start,
{
    if start < k {
        lemma_ident_end_at(s, start + 1, k);
    }
}

/// Reads one identifier starting at `pos`, if one starts there.
fn read_ident(chars: &Vec<char>, pos: usize) -> (r: Option<(Vec<char>, usize)>)
    requires
        pos <= chars@.len(),
    ensures
        match r {
            Some(p) => spec_read_ident(chars@, pos as int) == Option::Some((p.0@, p.1 as int))
                && is_valid_ident(p.0@) && pos < p.1 <= chars@.len(),
            None => spec_read_ident(chars@, pos as int) is None,
        },
{
    if pos >= chars.len() {
        return None;
    }
    let c0 = chars[pos];
    if !(('a' <= c0 && c0 <= 'z') || ('A' <= c0 && c0 <= 'Z') || c0 == '_') {
        return None;
    }
    let mut out: Vec<char> = Vec::new();
    out.push(c0);
    let mut i = pos + 1;
    loop
        invariant
            pos < i <= chars@.len(),
            out@.len() == i - pos,
            forall|q: int| pos <= q < i ==> is_ident_char(chars@[q]),
            forall|q: int| 0 <= q < out@.len() ==> out@[q] == chars@[pos + q],
            is_ident_start(chars@[pos as int]),
        decreases chars@.len() - i,
    {
        if i >= chars.len() {
            proof {
                lemma_ident_end_at(chars@, pos as int, i as int);
                assert(out@ =~= chars@.subrange(pos as int, i as int));
            }
            return Some((out, i));
        }
        let c = chars[i];
        if !(('a' <= c && c <= 'z') || ('A' <= c && c <= 'Z') || ('0' <= c && c <= '9') || c
            == '_') {
            proof {
                lemma_ident_end_at(chars@, pos as int, i as int);
                assert(out@ =~= chars@.subrange(pos as int, i as int));
            }
            return Some((out, i));
        }
        out.push(c);
        i = i + 1;
    }
}

/// True when the identifier equals the keyword.
fn ident_is(id: &Vec<char>, word: &str) -> (r: bool)
    ensures
        r == (id@ == word@),
{
    let w = str_to_chars(word);
    chars_eq(id, &w)
}

/// The position of the first `;` at or after `i`, or the end of the text.
pub open spec fn semi_end(s: Seq<char>, i: int) -> int
    decreases s.len() - i,
{
    if 0 <= i < s.len() && s[i] != ';' {
        semi_end(s, i + 1)
    } else {
        i
    }
}

proof fn lemma_semi_end_bounds(s: Seq<char>, i: int)
    requires
        0 <= i <= s.len(),
    ensures
        i <= semi_end(s, i) <= s.len(),
    decreases s.len() - i,
{
    if i < s.len() && s[i] != ';' {
        lemma_semi_end_bounds(s, i + 1);
    }
}

proof fn lemma_semi_end_at(s: Seq<char>, start: int, k: int)
    requires
        0 <= start <= k <= s.len(),
        forall|q: int| start <= q < k ==> s[q] != ';',
        k == s.len() || s[k] == ';',
    ensures
        semi_end(s, start) == k,
    decreases k - start,
{
    if start < k {
        lemma_semi_end_at(s, start + 1, k);
    }
}

/// The semantic type a bare (non-generic) type token denotes.
pub open spec fn spec_base_type(tok: Seq<char>) -> SpecType {
    if tok == "SmallInt"@ || tok == "Int2"@ {
        SpecType::SmallInt
    } else if tok == "Integer"@ || tok == "Int4"@ || tok == "Serial"@ {
        SpecType::Integer
    } else if tok == "BigInt"@ || tok == "Int8"@ {
        SpecType::BigInt
    } else if tok == "Text"@ || tok == "Varchar"@ {
        SpecType::Text
    } else if tok == "Bool"@ {
        SpecType::Boolean
    } else if tok == "Timestamp"@ || tok == "Timestamptz"@ {
        SpecType::Timestamp
    } else if tok == "Date"@ {
        SpecType::Date
    } else if tok == "Binary"@ || tok == "Bytea"@ || tok == "Blob"@ {
        SpecType::Binary
    } else if tok == "Numeric"@ || tok == "Decimal"@ {
        SpecType::Numeric
    } else {
        SpecType::Custom(tok)
    }
}

/// The semantic type of a generic head applied to an inner type: the
/// nullable and array wrappers are semantic, any other head is carried
/// through as its raw text.
pub open spec fn spec_wrap_type(head: Seq<char>, raw: Seq<char>, inner: SpecType) -> SpecType {
    if head == "Nullable"@ {
        SpecType::Nullable(Box::new(inner))
    } else if head == "Array"@ {
        SpecType::Array(Box::new(inner))
    } else {
        SpecType::Custom(raw)
    }
}

/// One normalized type parsed at `i`: the semantic type, the raw token
/// text consumed, and the position after it.
pub open spec fn spec_parse_type(s: Seq<char>, i: int) -> Result<(SpecType, Seq<char>, int), SpecError>
    decreases s.len() - i,
    via spec_parse_type_dec
{
    match spec_read_ident(s, i) {
        Option::None => Result::Err(SpecError::ExpectedIdent(i)),
        Option::Some((id, j)) => {
            let after = spec_skip_noise(s, j);
            if after < s.len() && s[after] == '<' {
                match spec_parse_type(s, after + 1) {
                    Result::Err(e) => Result::Err(e),
                    Result::Ok((ity, iraw, j2)) => {
                        let k = spec_skip_noise(s, j2);
                        if k < s.len() && s[k] == '>' {
                            let raw = id + seq!['<'] + iraw + seq!['>'];
                            Result::Ok((spec_wrap_type(id, raw, ity), raw, k + 1))
                        } else {
                            Result::Err(SpecError::ExpectedToken(k))
                        }
                    },
                }
            } else {
                Result::Ok((spec_base_type(id), id, j))
            }
        },
    }
}

#[via_fn]
proof fn spec_parse_type_dec(s: Seq<char>, i: int) {
    match spec_read_ident(s, i) {
        Option::Some((id, j)) => {
            assert(0 <= i < s.len());
            lemma_ident_end_bounds(s, i);
            lemma_skip_noise_bounds(s, j);
        },
        Option::None => {},
    }
}

proof fn lemma_spec_parse_type_bounds(s: Seq<char>, i: int)
    requires
        0 <= i,
    ensures
        match spec_parse_type(s, i) {
            Result::Ok(p) => i < p.2 <= s.len(),
            Result::Err(_) => true,
        },
    decreases s.len() - i,
{
    match spec_read_ident(s, i) {
        Option::Some((id, j)) => {
            assert(0 <= i < s.len());
            lemma_ident_end_bounds(s, i);
            lemma_skip_noise_bounds(s, j);
            let after = spec_skip_noise(s, j);
            if after < s.len() && s[after] == '<' {
                lemma_spec_parse_type_bounds(s, after + 1);
                match spec_parse_type(s, after + 1) {
                    Result::Ok((ity, iraw, j2)) => {
                        lemma_skip_noise_bounds(s, j2);
                    },
                    Result::Err(_) => {},
                }
            }
        },
        Option::None => {},
    }
}

/// Maps a bare type token into the semantic vocabulary.
fn base_type(tok: &Vec<char>) -> (r: ColumnType)
    ensures
        ty_corresponds(r, spec_base_type(tok@)),
{
    if ident_is(tok, "SmallInt") || ident_is(tok, "Int2") {
        ColumnType::SmallInt
    } else if ident_is(tok, "Integer") || ident_is(tok, "Int4") || ident_is(tok, "Serial") {
        ColumnType::Integer
    } else if ident_is(tok, "BigInt") || ident_is(tok, "Int8") {
        ColumnType::BigInt
    } else if ident_is(tok, "Text") || ident_is(tok, "Varchar") {
        ColumnType::Text
    } else if ident_is(tok, "Bool") {
        ColumnType::Boolean
    } else if ident_is(tok, "Timestamp") || ident_is(tok, "Timestamptz") {
        ColumnType::Timestamp
    } else if ident_is(tok, "Date") {
        ColumnType::Date
    } else if ident_is(tok, "Binary") || ident_is(tok, "Bytea") || ident_is(tok, "Blob") {
        ColumnType::Binary
    } else if ident_is(tok, "Numeric") || ident_is(tok, "Decimal") {
        ColumnType::Numeric
    } else {
        ColumnType::Custom(chars_to_string(tok))
    }
}

/// One normalized semantic type parsed from a type expression, together
/// with the raw token text consumed; exactly `spec_parse_type`.
fn parse_type(chars: &Vec<char>, pos: usize) -> (r: Result<
    (ColumnType, Vec<char>, usize),
    ParseError,
>)
    requires
        pos <= chars@.len(),
    ensures
        ({
            let sr = spec_parse_type(chars@, pos as int);
            match r {
                Ok(p) => sr is Ok && ty_corresponds(p.0, sr->Ok_0.0) && p.1@ == sr->Ok_0.1
                    && p.2 as int == sr->Ok_0.2 && pos < p.2 <= chars@.len(),
                Err(e) => sr is Err && err_corresponds(e, sr->Err_0),
            }
        }),
    decreases chars@.len() - pos,
{
    proof {
        lemma_spec_parse_type_bounds(chars@, pos as int);
    }
    let got = read_ident(chars, pos);
    match got {
        None => {
            proof {
                assert(spec_parse_type(chars@, pos as int) == Result::<
                    (SpecType, Seq<char>, int),
                    SpecError,
                >::Err(SpecError::ExpectedIdent(pos as int)));
            }
            Err(ParseError::ExpectedIdent(pos))
        },
        Some((id, i)) => {
            let ghost id0 = id@;
            let head_nullable = ident_is(&id, "Nullable");
            let head_array = ident_is(&id, "Array");
            let mut raw = id;
            let after = skip_noise(chars, i);
            if after < chars.len() && chars[after] == '<' {
                let inner = parse_type(chars, after + 1);
                match inner {
                    Err(e) => Err(e),
                    Ok((ity, mut iraw, j)) => {
                        let ghost iraw0 = iraw@;
                        let k = skip_noise(chars, j);
                        if k < chars.len() && chars[k] == '>' {
                            raw.push('<');
                            raw.append(&mut iraw);
                            raw.push('>');
                            proof {
                                assert(raw@ =~= id0 + seq!['<'] + iraw0 + seq!['>']);
                            }
                            let ty = if head_nullable {
                                ColumnType::Nullable(Box::new(ity))
                            } else if head_array {
                                ColumnType::Array(Box::new(ity))
                            } else {
                                ColumnType::Custom(chars_to_string(&raw))
                            };
                            proof {
                                let sinner = spec_parse_type(chars@, after as int + 1)->Ok_0;
                                assert(ty_corresponds(ty, spec_wrap_type(id0, raw@, sinner.0)));
                            }
                            Ok((ty, raw, k + 1))
                        } else {
                            Err(ParseError::ExpectedToken(k))
                        }
                    },
                }
            } else {
                let ty = base_type(&raw);
                Ok((ty, raw, i))
            }
        },
    }
}

/// Skips the helper-import declarations a macro body may open with.
pub open spec fn spec_skip_uses(s: Seq<char>, i: int) -> Result<int, SpecError>
    decreases s.len() - i,
    via spec_skip_uses_dec
{
    match spec_read_ident(s, i) {
        Option::Some((id, j)) => {
            if id == "use"@ {
                let k = semi_end(s, j);
                if k >= s.len() {
                    Result::Err(SpecError::UnexpectedEnd)
                } else {
                    spec_skip_uses(s, spec_skip_noise(s, k + 1))
                }
            } else {
                Result::Ok(i)
            }
        },
        Option::None => Result::Ok(i),
    }
}

#[via_fn]
proof fn spec_skip_uses_dec(s: Seq<char>, i: int) {
    match spec_read_ident(s, i) {
        Option::Some((id, j)) => {
            assert(0 <= i < s.len());
            lemma_ident_end_bounds(s, i);
            lemma_semi_end_bounds(s, j);
            let k = semi_end(s, j);
            if k < s.len() {
                lemma_skip_noise_bounds(s, k + 1);
            }
        },
        Option::None => {},
    }
}

/// Skips `use …;` declarations, mirroring `spec_skip_uses`.
fn skip_uses(chars: &Vec<char>, pos: usize) -> (r: Result<usize, ParseError>)
    requires
        pos <= chars@.len(),
    ensures
        ({
            let sr = spec_skip_uses(chars@, pos as int);
            match r {
                Ok(p) => sr == Result::<int, SpecError>::Ok(p as int) && p <= chars@.len(),
                Err(e) => sr is Err && err_corresponds(e, sr->Err_0),
            }
        }),
    decreases chars@.len() - pos,
{
    match read_ident(chars, pos) {
        Some((id, j)) => {
            if ident_is(&id, "use") {
                let mut k = j;
                while k < chars.len() && chars[k] != ';'
                    invariant
                        j <= k <= chars@.len(),
                        forall|q: int| j <= q < k ==> chars@[q] != ';',
                    decreases chars@.len() - k,
                {
                    k = k + 1;
                }
                proof {
                    lemma_semi_end_at(chars@, j as int, k as int);
                }
                if k >= chars.len() {
                    return Err(ParseError::UnexpectedEnd);
                }
                let nxt = skip_noise(chars, k + 1);
                skip_uses(chars, nxt)
            } else {
                Ok(pos)
            }
        },
        None => Ok(pos),
    }
}

/// The explicit primary-key column list, the cursor standing on the
/// first name or the closing parenthesis.
pub open spec fn spec_parse_pk(s: Seq<char>, i: int) -> Result<(Seq<Seq<char>>, int), SpecError>
    decreases s.len() - i,
    via spec_parse_pk_dec
{
    if i >= s.len() {
        Result::Err(SpecError::UnexpectedEnd)
    } else if s[i] == ')' {
        Result::Ok((Seq::empty(), i + 1))
    } else {
        match spec_read_ident(s, i) {
            Option::None => Result::Err(SpecError::ExpectedIdent(i)),
            Option::Some((id, j)) => {
                let k = spec_skip_noise(s, j);
                let k2 = if k < s.len() && s[k] == ',' {
                    spec_skip_noise(s, k + 1)
                } else {
                    k
                };
                match spec_parse_pk(s, k2) {
                    Result::Err(e) => Result::Err(e),
                    Result::Ok((rest, e2)) => Result::Ok((seq![id] + rest, e2)),
                }
            },
        }
    }
}

#[via_fn]
proof fn spec_parse_pk_dec(s: Seq<char>, i: int) {
    if 0 <= i < s.len() && s[i] != ')' {
        match spec_read_ident(s, i) {
            Option::Some((id, j)) => {
                lemma_ident_end_bounds(s, i);
                lemma_skip_noise_bounds(s, j);
                let k = spec_skip_noise(s, j);
                if k < s.len() && s[k] == ',' {
                    lemma_skip_noise_bounds(s, k + 1);
                }
            },
            Option::None => {},
        }
    }
}

proof fn lemma_spec_parse_pk_bounds(s: Seq<char>, i: int)
    requires
        0 <= i,
    ensures
        match spec_parse_pk(s, i) {
            Result::Ok(p) => i < p.1 <= s.len(),
            Result::Err(_) => true,
        },
    decreases s.len() - i,
{
    if i < s.len() && s[i] != ')' {
        match spec_read_ident(s, i) {
            Option::Some((id, j)) => {
                lemma_ident_end_bounds(s, i);
                lemma_skip_noise_bounds(s, j);
                let k = spec_skip_noise(s, j);
                let k2 = if k < s.len() && s[k] == ',' {
                    spec_skip_noise(s, k + 1)
                } else {
                    k
                };
                if k < s.len() && s[k] == ',' {
                    lemma_skip_noise_bounds(s, k + 1);
                }
                lemma_spec_parse_pk_bounds(s, k2);
            },
            Option::None => {},
        }
    }
}

/// Parses the explicit primary-key list, mirroring `spec_parse_pk`.
fn parse_pk(chars: &Vec<char>, pos: usize) -> (r: Result<(Vec<String>, usize), ParseError>)
    requires
        pos <= chars@.len(),
    ensures
        ({
            let sr = spec_parse_pk(chars@, pos as int);
            match r {
                Ok(p) => sr is Ok && p.0.deep_view() == sr->Ok_0.0 && p.1 as int == sr->Ok_0.1
                    && p.1 <= chars@.len(),
                Err(e) => sr is Err && err_corresponds(e, sr->Err_0),
            }
        }),
    decreases chars@.len() - pos,
{
    proof {
        lemma_spec_parse_pk_bounds(chars@, pos as int);
    }
    if pos >= chars.len() {
        return Err(ParseError::UnexpectedEnd);
    }
    if chars[pos] == ')' {
        let out: Vec<String> = Vec::new();
        proof {
            assert(out.deep_view() =~= Seq::<Seq<char>>::empty());
        }
        return Ok((out, pos + 1));
    }
    match read_ident(chars, pos) {
        None => Err(ParseError::ExpectedIdent(pos)),
        Some((id, j)) => {
            let k = skip_noise(chars, j);
            let k2 = if k < chars.len() && chars[k] == ',' {
                skip_noise(chars, k + 1)
            } else {
                k
            };
            match parse_pk(chars, k2) {
                Err(e) => Err(e),
                Ok((mut rest, e2)) => {
                    let ghost old_dv = rest.deep_view();
                    rest.insert(0, chars_to_string(&id));
                    proof {
                        assert(rest.deep_view() =~~= seq![id@] + old_dv);
                    }
                    Ok((rest, e2))
                },
            }
        },
    }
}

/// The column declarations of a table body, the cursor standing on the
/// first column name or the closing brace.
pub open spec fn spec_parse_columns(s: Seq<char>, i: int) -> Result<
    (Seq<SpecColumn>, int),
    SpecError,
>
    decreases s.len() - i,
    via spec_parse_columns_dec
{
    if i >= s.len() {
        Result::Err(SpecError::UnexpectedEnd)
    } else if s[i] == '}' {
        Result::Ok((Seq::empty(), i + 1))
    } else {
        match spec_read_ident(s, i) {
            Option::None => Result::Err(SpecError::ExpectedIdent(i)),
            Option::Some((cname, j)) => {
                let k = spec_skip_noise(s, j);
                if !(k < s.len() && k + 1 < s.len() && s[k] == '-' && s[k + 1] == '>') {
                    Result::Err(SpecError::ExpectedToken(k))
                } else {
                    let k2 = spec_skip_noise(s, k + 2);
                    match spec_parse_type(s, k2) {
                        Result::Err(e) => Result::Err(e),
                        Result::Ok((ty, raw, m)) => {
                            let nullable = ty is Nullable;
                            let i2 = spec_skip_noise(s, m);
                            let i3 = if i2 < s.len() && s[i2] == ',' {
                                spec_skip_noise(s, i2 + 1)
                            } else {
                                i2
                            };
                            match spec_parse_columns(s, i3) {
                                Result::Err(e) => Result::Err(e),
                                Result::Ok((rest, e2)) => Result::Ok(
                                    (
                                        seq![
                                            SpecColumn {
                                                name: cname,
                                                type_token: raw,
                                                ty,
                                                is_nullable: nullable,
                                            },
                                        ] + rest,
                                        e2,
                                    ),
                                ),
                            }
                        },
                    }
                }
            },
        }
    }
}

#[via_fn]
proof fn spec_parse_columns_dec(s: Seq<char>, i: int) {
    if 0 <= i < s.len() && s[i] != '}' {
        match spec_read_ident(s, i) {
            Option::Some((cname, j)) => {
                lemma_ident_end_bounds(s, i);
                lemma_skip_noise_bounds(s, j);
                let k = spec_skip_noise(s, j);
                if k < s.len() && k + 1 < s.len() && s[k] == '-' && s[k + 1] == '>' {
                    lemma_skip_noise_bounds(s, k + 2);
                    let k2 = spec_skip_noise(s, k + 2);
                    lemma_spec_parse_type_bounds(s, k2);
                    match spec_parse_type(s, k2) {
                        Result::Ok((ty, raw, m)) => {
                            lemma_skip_noise_bounds(s, m);
                            let i2 = spec_skip_noise(s, m);
                            if i2 < s.len() && s[i2] == ',' {
                                lemma_skip_noise_bounds(s, i2 + 1);
                            }
                        },
                        Result::Err(_) => {},
                    }
                }
            },
            Option::None => {},
        }
    }
}

proof fn lemma_spec_parse_columns_bounds(s: Seq<char>, i: int)
    requires
        0 <= i,
    ensures
        match spec_parse_columns(s, i) {
            Result::Ok(p) => i < p.1 <= s.len(),
            Result::Err(_) => true,
        },
    decreases s.len() - i,
{
    if i < s.len() && s[i] != '}' {
        match spec_read_ident(s, i) {
            Option::Some((cname, j)) => {
                lemma_ident_end_bounds(s, i);
                lemma_skip_noise_bounds(s, j);
                let k = spec_skip_noise(s, j);
                if k < s.len() && k + 1 < s.len() && s[k] == '-' && s[k + 1] == '>' {
                    lemma_skip_noise_bounds(s, k + 2);
                    let k2 = spec_skip_noise(s, k + 2);
                    lemma_spec_parse_type_bounds(s, k2);
                    match spec_parse_type(s, k2) {
                        Result::Ok((ty, raw, m)) => {
                            lemma_skip_noise_bounds(s, m);
                            let i2 = spec_skip_noise(s, m);
                            let i3 = if i2 < s.len() && s[i2] == ',' {
                                spec_skip_noise(s, i2 + 1)
                            } else {
                                i2
                            };
                            if i2 < s.len() && s[i2] == ',' {
                                lemma_skip_noise_bounds(s, i2 + 1);
                            }
                            lemma_spec_parse_columns_bounds(s, i3);
                        },
                        Result::Err(_) => {},
                    }
                }
            },
            Option::None => {},
        }
    }
}

/// Parses the column list, mirroring `spec_parse_columns`.
fn parse_columns(chars: &Vec<char>, pos: usize) -> (r: Result<
    (Vec<ColumnDeclaration>, usize),
    ParseError,
>)
    requires
        pos <= chars@.len(),
    ensures
        ({
            let sr = spec_parse_columns(chars@, pos as int);
            match r {
                Ok(p) => sr is Ok && cols_correspond(p.0@, sr->Ok_0.0) && p.1 as int
                    == sr->Ok_0.1 && p.1 <= chars@.len() && (forall|k: int|
                    0 <= k < p.0@.len() ==> is_valid_ident(#[trigger] p.0@[k].name@)),
                Err(e) => sr is Err && err_corresponds(e, sr->Err_0),
            }
        }),
    decreases chars@.len() - pos,
{
    proof {
        lemma_spec_parse_columns_bounds(chars@, pos as int);
    }
    if pos >= chars.len() {
        return Err(ParseError::UnexpectedEnd);
    }
    if chars[pos] == '}' {
        let out: Vec<ColumnDeclaration> = Vec::new();
        return Ok((out, pos + 1));
    }
    match read_ident(chars, pos) {
        None => Err(ParseError::ExpectedIdent(pos)),
        Some((cname, j)) => {
            let k = skip_noise(chars, j);
            if !(k < chars.len() && k + 1 < chars.len() && chars[k] == '-' && chars[k + 1] == '>') {
                return Err(ParseError::ExpectedToken(k));
            }
            let k2 = skip_noise(chars, k + 2);
            match parse_type(chars, k2) {
                Err(e) => Err(e),
                Ok((ty, raw, m)) => {
                    let nullable = match &ty {
                        ColumnType::Nullable(_) => true,
                        _ => false,
                    };
                    let col = ColumnDeclaration {
                        name: chars_to_string(&cname),
                        type_token: chars_to_string(&raw),
                        ty,
                        is_nullable: nullable,
                    };
                    let i2 = skip_noise(chars, m);
                    let i3 = if i2 < chars.len() && chars[i2] == ',' {
                        skip_noise(chars, i2 + 1)
                    } else {
                        i2
                    };
                    match parse_columns(chars, i3) {
                        Err(e) => Err(e),
                        Ok((mut rest, e2)) => {
                            let ghost old_cols = rest@;
                            rest.insert(0, col);
                            proof {
                                assert(rest@ =~= seq![col] + old_cols);
                            }
                            Ok((rest, e2))
                        },
                    }
                },
            }
        },
    }
}

/// The names of a specification-level column list.
pub open spec fn spec_col_names(cols: Seq<SpecColumn>) -> Seq<Seq<char>> {
    Seq::new(cols.len(), |i: int| cols[i].name)
}

/// The first column that repeats an earlier column's name, scanned in
/// order.
pub open spec fn first_dup_from(names: Seq<Seq<char>>, j: int) -> Option<int>
    decreases names.len() - j,
{
    if j >= names.len() {
        Option::None
    } else if exists|a: int| 0 <= a < j && names[a] == names[j] {
        Option::Some(j)
    } else {
        first_dup_from(names, j + 1)
    }
}

/// The first duplicated name of the list, if any.
pub open spec fn spec_first_dup(names: Seq<Seq<char>>) -> Option<int> {
    first_dup_from(names, 1)
}

/// The first pair of equally named columns, scanned in order; exactly
/// `spec_first_dup` of the column names.
fn find_duplicate(cols: &Vec<ColumnDeclaration>) -> (r: Option<usize>)
    ensures
        match r {
            Some(j) => spec_first_dup(column_names(cols@)) == Option::Some(j as int) && j
                < cols@.len(),
            None => spec_first_dup(column_names(cols@)) is None && columns_unique(cols@),
        },
{
    let ghost names = column_names(cols@);
    let mut j: usize = 1;
    while j < cols.len()
        invariant
            1 <= j || cols@.len() == 0,
            j <= cols@.len() || cols@.len() == 0,
            names == column_names(cols@),
            first_dup_from(names, 1) == first_dup_from(names, j as int),
            forall|a: int, b: int|
                0 <= a < b < j && b < cols@.len() ==> cols@[a].name@ != cols@[b].name@,
        decreases cols@.len() - j,
    {
        let mut i: usize = 0;
        while i < j
            invariant
                i <= j < cols@.len(),
                names == column_names(cols@),
                first_dup_from(names, 1) == first_dup_from(names, j as int),
                forall|a: int| 0 <= a < i ==> cols@[a].name@ != cols@[j as int].name@,
            decreases j - i,
        {
            if crate::options::str_eq(cols[i].name.as_str(), cols[j].name.as_str()) {
                proof {
                    assert(names[i as int] == cols@[i as int].name@);
                    assert(names[j as int] == cols@[j as int].name@);
                    assert(0 <= i < j && names[i as int] == names[j as int]);
                    assert(exists|a: int| 0 <= a < j && names[a] == names[j as int]);
                    assert(first_dup_from(names, j as int) == Option::Some(j as int));
                }
                return Some(j);
            }
            i = i + 1;
        }
        proof {
            assert(forall|a: int| 0 <= a < j ==> names[a] == cols@[a].name@);
            assert(names[j as int] == cols@[j as int].name@);
            if exists|a: int| 0 <= a < j && names[a] == names[j as int] {
                let w = choose|a: int| 0 <= a < j && names[a] == names[j as int];
                assert(cols@[w].name@ != cols@[j as int].name@);
            }
            assert(first_dup_from(names, j as int) == first_dup_from(names, j as int + 1));
        }
        j = j + 1;
    }
    proof {
        if cols@.len() == 0 {
            assert(first_dup_from(names, 1) is None);
        } else {
            assert(first_dup_from(names, j as int) is None);
        }
    }
    None
}

/// The first explicit-key column the table lacks, scanned in order.
pub open spec fn spec_first_unknown(pk: Seq<Seq<char>>, names: Seq<Seq<char>>, j: int) -> Option<
    int,
>
    decreases pk.len() - j,
{
    if j >= pk.len() {
        Option::None
    } else if !name_in(names, pk[j]) {
        Option::Some(j)
    } else {
        spec_first_unknown(pk, names, j + 1)
    }
}

/// The convention fallback: the single column `id` when the table has
/// one, else the no-primary-key error for this table.
pub open spec fn spec_default_pk(names: Seq<Seq<char>>, tname: Seq<char>) -> Result<
    Seq<Seq<char>>,
    SpecError,
> {
    if name_in(names, "id"@) {
        Result::Ok(seq!["id"@])
    } else {
        Result::Err(SpecError::NoPrimaryKey(tname))
    }
}

/// The primary key a table resolves to: an explicit, nonempty annotation
/// is authoritative and each of its columns must exist; otherwise the
/// `id` convention applies.
pub open spec fn spec_resolve_pk(
    explicit: Option<Seq<Seq<char>>>,
    names: Seq<Seq<char>>,
    tname: Seq<char>,
) -> Result<Seq<Seq<char>>, SpecError> {
    match explicit {
        Option::Some(pk) => {
            if pk.len() > 0 {
                match spec_first_unknown(pk, names, 0) {
                    Option::None => Result::Ok(pk),
                    Option::Some(j) => Result::Err(
                        SpecError::UnknownPrimaryKeyColumn(tname, pk[j]),
                    ),
                }
            } else {
                spec_default_pk(names, tname)
            }
        },
        Option::None => spec_default_pk(names, tname),
    }
}

/// Resolves an explicit primary-key annotation; exactly the explicit arm
/// of `spec_resolve_pk`.
fn explicit_primary_key(
    v: Vec<String>,
    cols: &Vec<ColumnDeclaration>,
    tname: &str,
) -> (r: Result<Vec<String>, ParseError>)
    requires
        v@.len() > 0,
    ensures
        ({
            let su = spec_first_unknown(v.deep_view(), column_names(cols@), 0);
            match r {
                Ok(p) => su is None && p == v,
                Err(e) => su is Some && e is UnknownPrimaryKeyColumn
                    && e->UnknownPrimaryKeyColumn_0@ == tname@ && e->UnknownPrimaryKeyColumn_1@
                    == v.deep_view()[su->0],
            }
        }),
        match r {
            Ok(p) => p@.len() > 0 && (forall|q: int|
                0 <= q < p@.len() ==> name_in(column_names(cols@), #[trigger] p@[q]@)),
            Err(_) => true,
        },
{
    let ghost dv = v.deep_view();
    let ghost names = column_names(cols@);
    let mut i: usize = 0;
    while i < v.len()
        invariant
            i <= v@.len(),
            dv == v.deep_view(),
            names == column_names(cols@),
            spec_first_unknown(dv, names, 0) == spec_first_unknown(dv, names, i as int),
            forall|j: int| 0 <= j < i ==> name_in(column_names(cols@), #[trigger] v@[j]@),
        decreases v@.len() - i,
    {
        proof {
            assert(dv[i as int] == v@[i as int]@);
        }
        if !column_exists(cols, v[i].as_str()) {
            proof {
                assert(!name_in(names, dv[i as int]));
                assert(spec_first_unknown(dv, names, i as int) == Option::Some(i as int));
            }
            return Err(ParseError::UnknownPrimaryKeyColumn(string_of(tname), v[i].clone()));
        }
        proof {
            assert(spec_first_unknown(dv, names, i as int) == spec_first_unknown(
                dv,
                names,
                i as int + 1,
            ));
        }
        i = i + 1;
    }
    proof {
        assert(spec_first_unknown(dv, names, i as int) is None);
        assert(forall|q: int| 0 <= q < v@.len() ==> dv[q] == #[trigger] v@[q]@);
    }
    Ok(v)
}

/// The convention fallback itself; exactly `spec_default_pk`.
fn default_primary_key(cols: &Vec<ColumnDeclaration>, tname: &str) -> (r: Result<
    Vec<String>,
    ParseError,
>)
    ensures
        ({
            let sd = spec_default_pk(column_names(cols@), tname@);
            match r {
                Ok(p) => sd is Ok && p.deep_view() == sd->Ok_0,
                Err(e) => sd is Err && err_corresponds(e, sd->Err_0),
            }
        }),
        match r {
            Ok(p) => p@.len() > 0 && (forall|q: int|
                0 <= q < p@.len() ==> name_in(column_names(cols@), #[trigger] p@[q]@)),
            Err(_) => true,
        },
{
    if column_exists(cols, "id") {
        let mut pk: Vec<String> = Vec::new();
        pk.push(string_of("id"));
        proof {
            assert(pk.deep_view() =~= seq!["id"@]);
        }
        Ok(pk)
    } else {
        Err(ParseError::NoPrimaryKey(string_of(tname)))
    }
}

/// Does the table declare a column with this name?
fn column_exists(cols: &Vec<ColumnDeclaration>, name: &str) -> (r: bool)
    ensures
        r == name_in(column_names(cols@), name@),
{
    let mut i: usize = 0;
    while i < cols.len()
        invariant
            i <= cols@.len(),
            forall|j: int| 0 <= j < i ==> column_names(cols@)[j] != name@,
        decreases cols@.len() - i,
    {
        if crate::options::str_eq(cols[i].name.as_str(), name) {
            proof {
                assert(column_names(cols@)[i as int] == name@);
            }
            return true;
        }
        i = i + 1;
    }
    proof {
        if name_in(column_names(cols@), name@) {
            let k = choose|k: int|
                0 <= k < column_names(cols@).len() && column_names(cols@)[k] == name@;
            assert(column_names(cols@)[k] != name@);
        }
    }
    false
}

/// An owned copy of a string slice.
fn string_of(s: &str) -> (r: String)
    ensures
        r@ == s@,
{
    let v = str_to_chars(s);
    chars_to_string(&v)
}

/// The braced column block: the opening brace, the columns, the closing
/// brace of the block and the closing brace of the macro.
pub open spec fn spec_body_columns(s: Seq<char>, i: int) -> Result<(Seq<SpecColumn>, int), SpecError> {
    if !(i < s.len() && s[i] == '{') {
        Result::Err(SpecError::ExpectedToken(i))
    } else {
        match spec_parse_columns(s, spec_skip_noise(s, i + 1)) {
            Result::Err(e) => Result::Err(e),
            Result::Ok((cols, j)) => {
                let j2 = spec_skip_noise(s, j);
                if !(j2 < s.len() && s[j2] == '}') {
                    Result::Err(SpecError::ExpectedToken(j2))
                } else {
                    Result::Ok((cols, j2 + 1))
                }
            },
        }
    }
}

/// A table's body from the brace on: columns, duplicate check, primary
/// key resolution.
pub open spec fn spec_table_body(
    s: Seq<char>,
    i: int,
    name: Seq<char>,
    explicit: Option<Seq<Seq<char>>>,
) -> Result<(SpecTable, int), SpecError> {
    match spec_body_columns(s, i) {
        Result::Err(e) => Result::Err(e),
        Result::Ok((cols, end)) => {
            match spec_first_dup(spec_col_names(cols)) {
                Option::Some(d) => Result::Err(SpecError::DuplicateColumn(name, cols[d].name)),
                Option::None => {
                    match spec_resolve_pk(explicit, spec_col_names(cols), name) {
                        Result::Err(e) => Result::Err(e),
                        Result::Ok(pk) => Result::Ok(
                            (SpecTable { name, columns: cols, primary_key: pk }, end),
                        ),
                    }
                },
            }
        },
    }
}

/// One whole table declaration, the cursor standing right after the
/// macro's opening brace: helper imports, the table name, an optional
/// parenthesized key annotation, and the body.
pub open spec fn spec_parse_table(s: Seq<char>, i: int) -> Result<(SpecTable, int), SpecError> {
    let i1 = spec_skip_noise(s, i);
    match spec_skip_uses(s, i1) {
        Result::Err(e) => Result::Err(e),
        Result::Ok(i2) => {
            match spec_read_ident(s, i2) {
                Option::None => Result::Err(SpecError::ExpectedIdent(i2)),
                Option::Some((name, i3)) => {
                    let i4 = spec_skip_noise(s, i3);
                    if i4 < s.len() && s[i4] == '(' {
                        match spec_parse_pk(s, spec_skip_noise(s, i4 + 1)) {
                            Result::Err(e) => Result::Err(e),
                            Result::Ok((pk, i5)) => spec_table_body(
                                s,
                                spec_skip_noise(s, i5),
                                name,
                                Option::Some(pk),
                            ),
                        }
                    } else {
                        spec_table_body(s, i4, name, Option::None)
                    }
                },
            }
        },
    }
}

proof fn lemma_spec_table_body_bounds(s: Seq<char>, i: int, name: Seq<char>, explicit: Option<Seq<Seq<char>>>)
    requires
        0 <= i,
    ensures
        match spec_table_body(s, i, name, explicit) {
            Result::Ok(p) => p.1 <= s.len(),
            Result::Err(_) => true,
        },
{
    if i < s.len() && s[i] == '{' {
        lemma_skip_noise_bounds(s, i + 1);
        lemma_spec_parse_columns_bounds(s, spec_skip_noise(s, i + 1));
    }
}

/// The common part of finishing a table once its name and (possibly) an
/// explicit key list are read: columns, duplicate check, resolution, and
/// the built declaration.
fn parse_body_columns(chars: &Vec<char>, pos: usize) -> (r: Result<
    (Vec<ColumnDeclaration>, usize),
    ParseError,
>)
    requires
        pos <= chars@.len(),
    ensures
        ({
            let sr = spec_body_columns(chars@, pos as int);
            match r {
                Ok(p) => sr is Ok && cols_correspond(p.0@, sr->Ok_0.0) && p.1 as int
                    == sr->Ok_0.1 && p.1 <= chars@.len() && (forall|k: int|
                    0 <= k < p.0@.len() ==> is_valid_ident(#[trigger] p.0@[k].name@)),
                Err(e) => sr is Err && err_corresponds(e, sr->Err_0),
            }
        }),
{
    if !(pos < chars.len() && chars[pos] == '{') {
        return Err(ParseError::ExpectedToken(pos));
    }
    let start = skip_noise(chars, pos + 1);
    match parse_columns(chars, start) {
        Err(e) => Err(e),
        Ok((cols, j)) => {
            let j2 = skip_noise(chars, j);
            if !(j2 < chars.len() && chars[j2] == '}') {
                return Err(ParseError::ExpectedToken(j2));
            }
            Ok((cols, j2 + 1))
        },
    }
}

/// The exec and spec column names agree under correspondence.
proof fn lemma_col_names_agree(cs: Seq<ColumnDeclaration>, scs: Seq<SpecColumn>)
    requires
        cols_correspond(cs, scs),
    ensures
        column_names(cs) == spec_col_names(scs),
{
    assert(column_names(cs) =~= spec_col_names(scs));
}

/// What finishing a table must deliver, relative to the specification's
/// view of the body.
pub open spec fn finish_post(
    r: Result<(ParsedTableMacro, usize), ParseError>,
    sr: Result<(SpecTable, int), SpecError>,
    text_len: int,
) -> bool {
    match r {
        Ok(p) => sr is Ok && table_corresponds(p.0, sr->Ok_0.0) && p.1 as int == sr->Ok_0.1
            && crate::schema::table_wf(p.0) && p.0.generated_code@.len() == 0 && p.1 <= text_len,
        Err(e) => sr is Err && err_corresponds(e, sr->Err_0),
    }
}

/// Finishes a table that carried an explicit key annotation.
fn finish_table_with(chars: &Vec<char>, pos: usize, tname: String, pk_list: Vec<String>) -> (r:
    Result<(ParsedTableMacro, usize), ParseError>)
    requires
        pos <= chars@.len(),
        is_valid_ident(tname@),
    ensures
        finish_post(
            r,
            spec_table_body(chars@, pos as int, tname@, Option::Some(pk_list.deep_view())),
            chars@.len() as int,
        ),
{
    let ghost sbody = spec_body_columns(chars@, pos as int);
    let (cols, end) = match parse_body_columns(chars, pos) {
        Ok(p) => p,
        Err(e) => {
            return Err(e);
        },
    };
    let ghost scols = sbody->Ok_0.0;
    proof {
        lemma_col_names_agree(cols@, scols);
    }
    match find_duplicate(&cols) {
        Some(j) => {
            proof {
                assert(cols@[j as int].name@ == scols[j as int].name);
            }
            return Err(ParseError::DuplicateColumn(tname, cols[j].name.clone()));
        },
        None => {},
    }
    let ghost dv = pk_list.deep_view();
    proof {
        assert(dv.len() == pk_list@.len());
    }
    let resolved = if pk_list.len() > 0 {
        explicit_primary_key(pk_list, &cols, tname.as_str())
    } else {
        default_primary_key(&cols, tname.as_str())
    };
    let pk = match resolved {
        Ok(p) => p,
        Err(e) => {
            return Err(e);
        },
    };
    let t = ParsedTableMacro {
        name: tname,
        columns: cols,
        primary_key_columns: pk,
        generated_code: String::new(),
    };
    Ok((t, end))
}

/// Finishes a table that carried no key annotation: the convention
/// decides.
fn finish_table_plain(chars: &Vec<char>, pos: usize, tname: String) -> (r: Result<
    (ParsedTableMacro, usize),
    ParseError,
>)
    requires
        pos <= chars@.len(),
        is_valid_ident(tname@),
    ensures
        finish_post(
            r,
            spec_table_body(chars@, pos as int, tname@, Option::None),
            chars@.len() as int,
        ),
{
    let ghost sbody = spec_body_columns(chars@, pos as int);
    let (cols, end) = match parse_body_columns(chars, pos) {
        Ok(p) => p,
        Err(e) => {
            return Err(e);
        },
    };
    let ghost scols = sbody->Ok_0.0;
    proof {
        lemma_col_names_agree(cols@, scols);
    }
    match find_duplicate(&cols) {
        Some(j) => {
            proof {
                assert(cols@[j as int].name@ == scols[j as int].name);
            }
            return Err(ParseError::DuplicateColumn(tname, cols[j].name.clone()));
        },
        None => {},
    }
    let pk = match default_primary_key(&cols, tname.as_str()) {
        Ok(p) => p,
        Err(e) => {
            return Err(e);
        },
    };
    let t = ParsedTableMacro {
        name: tname,
        columns: cols,
        primary_key_columns: pk,
        generated_code: String::new(),
    };
    Ok((t, end))
}

/// Parses the body of one table declaration, the cursor standing right
/// after the opening brace of the macro; exactly `spec_parse_table`.
fn parse_table(chars: &Vec<char>, pos: usize) -> (r: Result<(ParsedTableMacro, usize), ParseError>)
    requires
        pos <= chars@.len(),
    ensures
        ({
            let sr = spec_parse_table(chars@, pos as int);
            match r {
                Ok(p) => sr is Ok && table_corresponds(p.0, sr->Ok_0.0) && p.1 as int
                    == sr->Ok_0.1 && crate::schema::table_wf(p.0) && p.0.generated_code@.len()
                    == 0 && p.1 <= chars@.len(),
                Err(e) => sr is Err && err_corresponds(e, sr->Err_0),
            }
        }),
{
    let i1 = skip_noise(chars, pos);
    let i2 = match skip_uses(chars, i1) {
        Ok(v) => v,
        Err(e) => {
            return Err(e);
        },
    };
    let (name_chars, i3) = match read_ident(chars, i2) {
        Some(p) => p,
        None => {
            return Err(ParseError::ExpectedIdent(i2));
        },
    };
    let table_name = chars_to_string(&name_chars);
    let i4 = skip_noise(chars, i3);
    if i4 < chars.len() && chars[i4] == '(' {
        let p0 = skip_noise(chars, i4 + 1);
        match parse_pk(chars, p0) {
            Err(e) => Err(e),
            Ok((pk_list, i5)) => {
                let i6 = skip_noise(chars, i5);
                finish_table_with(chars, i6, table_name, pk_list)
            },
        }
    } else {
        finish_table_plain(chars, i4, table_name)
    }
}

/// The whole schema: recognized table declarations in order of
/// appearance; everything else — comments, attributes, unrelated
/// declarations — is skipped.
pub open spec fn spec_parse_schema_from(s: Seq<char>, i: int) -> Result<Seq<SpecTable>, SpecError>
    decreases s.len() - i,
    when 0 <= i
    via spec_parse_schema_from_dec
{
    let j = spec_skip_noise(s, i);
    if j >= s.len() {
        Result::Ok(Seq::empty())
    } else {
        match spec_read_ident(s, j) {
            Option::Some((id, m)) => {
                if id == "table"@ {
                    let k = spec_skip_noise(s, m);
                    if k < s.len() && s[k] == '!' {
                        let k2 = spec_skip_noise(s, k + 1);
                        if k2 < s.len() && s[k2] == '{' {
                            match spec_parse_table(s, k2 + 1) {
                                Result::Err(e) => Result::Err(e),
                                Result::Ok((t, n)) => {
                                    let n2 = if n > k2 {
                                        n
                                    } else {
                                        k2 + 1
                                    };
                                    match spec_parse_schema_from(s, n2) {
                                        Result::Err(e) => Result::Err(e),
                                        Result::Ok(rest) => Result::Ok(seq![t] + rest),
                                    }
                                },
                            }
                        } else {
                            spec_parse_schema_from(s, k + 1)
                        }
                    } else {
                        spec_parse_schema_from(s, m)
                    }
                } else {
                    spec_parse_schema_from(s, m)
                }
            },
            Option::None => spec_parse_schema_from(s, j + 1),
        }
    }
}

#[via_fn]
proof fn spec_parse_schema_from_dec(s: Seq<char>, i: int) {
    if 0 <= i <= s.len() {
        lemma_skip_noise_bounds(s, i);
        let j = spec_skip_noise(s, i);
        if j < s.len() {
            match spec_read_ident(s, j) {
                Option::Some((id, m)) => {
                    lemma_ident_end_bounds(s, j);
                    lemma_skip_noise_bounds(s, m);
                    let k = spec_skip_noise(s, m);
                    if k < s.len() {
                        lemma_skip_noise_bounds(s, k + 1);
                        let k2 = spec_skip_noise(s, k + 1);
                        if k2 < s.len() && s[k2] == '{' {
                            lemma_spec_parse_table_bounds(s, k2 + 1);
                        }
                    }
                },
                Option::None => {},
            }
        }
    } else if i > s.len() {
        assert(spec_skip_noise_state(s, i, false) == i);
    }
}

proof fn lemma_spec_parse_table_bounds(s: Seq<char>, i: int)
    requires
        0 <= i,
    ensures
        match spec_parse_table(s, i) {
            Result::Ok(p) => p.1 <= s.len(),
            Result::Err(_) => true,
        },
{
    if i <= s.len() {
        lemma_skip_noise_bounds(s, i);
        let i1 = spec_skip_noise(s, i);
        match spec_skip_uses(s, i1) {
            Result::Ok(i2) => {
                match spec_read_ident(s, i2) {
                    Option::Some((name, i3)) => {
                        assert(0 <= i2 < s.len());
                        lemma_ident_end_bounds(s, i2);
                        lemma_skip_noise_bounds(s, i3);
                        let i4 = spec_skip_noise(s, i3);
                        if i4 < s.len() && s[i4] == '(' {
                            lemma_skip_noise_bounds(s, i4 + 1);
                            lemma_spec_parse_pk_bounds(s, spec_skip_noise(s, i4 + 1));
                            match spec_parse_pk(s, spec_skip_noise(s, i4 + 1)) {
                                Result::Ok((pk, i5)) => {
                                    lemma_skip_noise_bounds(s, i5);
                                    lemma_spec_table_body_bounds(
                                        s,
                                        spec_skip_noise(s, i5),
                                        name,
                                        Option::Some(pk),
                                    );
                                },
                                Result::Err(_) => {},
                            }
                        } else {
                            lemma_spec_table_body_bounds(s, i4, name, Option::None);
                        }
                    },
                    Option::None => {},
                }
            },
            Result::Err(_) => {},
        }
    } else {
        assert(spec_skip_noise_state(s, i, false) == i);
    }
}

/// The parse of a whole schema text.
pub open spec fn spec_parse_schema(s: Seq<char>) -> Result<Seq<SpecTable>, SpecError> {
    spec_parse_schema_from(s, 0)
}

/// Parses the whole schema text into its table declarations: exactly the
/// specification-level parse. On success every returned declaration is
/// also well-formed — a valid table name, valid and distinct column
/// names, a nonempty primary key drawn from the columns — and carries no
/// generated code yet; on failure the error corresponds to the
/// specification's, table context included.
pub fn parse_schema(text: &str) -> (r: Result<Vec<ParsedTableMacro>, ParseError>)
    ensures
        ({
            let sr = spec_parse_schema(text@);
            match r {
                Ok(ts) => sr is Ok && tables_correspond(ts@, sr->Ok_0) && (forall|k: int|
                    0 <= k < ts@.len() ==> crate::schema::table_wf(#[trigger] ts@[k])
                        && ts@[k].generated_code@.len() == 0),
                Err(e) => sr is Err && err_corresponds(e, sr->Err_0),
            }
        }),
{
    let chars = str_to_chars(text);
    let ghost full = text@;
    let mut tables: Vec<ParsedTableMacro> = Vec::new();
    let ghost mut sts: Seq<SpecTable> = Seq::empty();
    let mut i: usize = 0;
    proof {
        assert(tables_correspond(tables@, sts));
        assert(full == text@);
        assert(spec_parse_schema(text@) == spec_parse_schema_from(text@, 0));
        let s0 = spec_parse_schema_from(full, 0);
        if s0 is Ok {
            assert(Seq::<SpecTable>::empty() + s0->Ok_0 =~= s0->Ok_0);
        }
    }
    while i < chars.len()
        invariant
            i <= chars@.len(),
            chars@ == full,
            full == text@,
            tables_correspond(tables@, sts),
            forall|k: int|
                0 <= k < tables@.len() ==> crate::schema::table_wf(#[trigger] tables@[k])
                    && tables@[k].generated_code@.len() == 0,
            spec_parse_schema_from(full, 0) == (match spec_parse_schema_from(full, i as int) {
                Result::Ok(rest) => Result::<Seq<SpecTable>, SpecError>::Ok(sts + rest),
                Result::Err(e) => Result::<Seq<SpecTable>, SpecError>::Err(e),
            }),
        decreases chars@.len() - i,
    {
        let j = skip_noise(&chars, i);
        if j >= chars.len() {
            proof {
                assert(spec_parse_schema_from(full, i as int) == Result::<
                    Seq<SpecTable>,
                    SpecError,
                >::Ok(Seq::empty()));
                assert(sts + Seq::<SpecTable>::empty() =~= sts);
                assert(spec_parse_schema_from(full, 0) == Result::<
                    Seq<SpecTable>,
                    SpecError,
                >::Ok(sts));
                assert(spec_parse_schema(text@) == Result::<Seq<SpecTable>, SpecError>::Ok(sts));
            }
            return Ok(tables);
        }
        match read_ident(&chars, j) {
            Some((id, m)) => {
                if ident_is(&id, "table") {
                    let k = skip_noise(&chars, m);
                    if k < chars.len() && chars[k] == '!' {
                        let k2 = skip_noise(&chars, k + 1);
                        if k2 < chars.len() && chars[k2] == '{' {
                            match parse_table(&chars, k2 + 1) {
                                Ok((t, n)) => {
                                    let ghost st = spec_parse_table(full, k2 as int + 1)->Ok_0.0;
                                    let ghost pre = sts;
                                    tables.push(t);
                                    proof {
                                        sts = sts.push(st);
                                        assert(tables_correspond(tables@, sts));
                                    }
                                    let n2 = if n > k2 {
                                        n
                                    } else {
                                        k2 + 1
                                    };
                                    proof {
                                        assert(spec_parse_schema_from(full, i as int) == (
                                        match spec_parse_schema_from(full, n2 as int) {
                                            Result::Ok(rest) => Result::<
                                                Seq<SpecTable>,
                                                SpecError,
                                            >::Ok(seq![st] + rest),
                                            Result::Err(e) => Result::<
                                                Seq<SpecTable>,
                                                SpecError,
                                            >::Err(e),
                                        }));
                                        let tail = spec_parse_schema_from(full, n2 as int);
                                        if tail is Ok {
                                            assert(pre + (seq![st] + tail->Ok_0) =~= sts
                                                + tail->Ok_0);
                                        }
                                    }
                                    i = n2;
                                },
                                Err(e) => {
                                    proof {
                                        let sr_t = spec_parse_table(full, k2 as int + 1);
                                        assert(sr_t is Err);
                                        let se = sr_t->Err_0;
                                        assert(err_corresponds(e, se));
                                        assert(spec_parse_schema_from(full, i as int) == Result::<
                                            Seq<SpecTable>,
                                            SpecError,
                                        >::Err(se));
                                        assert(spec_parse_schema_from(full, 0) == Result::<
                                            Seq<SpecTable>,
                                            SpecError,
                                        >::Err(se));
                                        assert(spec_parse_schema(text@) == Result::<
                                            Seq<SpecTable>,
                                            SpecError,
                                        >::Err(se));
                                    }
                                    return Err(e);
                                },
                            }
                        } else {
                            proof {
                                assert(spec_parse_schema_from(full, i as int)
                                    == spec_parse_schema_from(full, k as int + 1));
                            }
                            i = k + 1;
                        }
                    } else {
                        proof {
                            assert(spec_parse_schema_from(full, i as int)
                                == spec_parse_schema_from(full, m as int));
                        }
                        i = m;
                    }
                } else {
                    proof {
                        assert(spec_parse_schema_from(full, i as int) == spec_parse_schema_from(
                            full,
                            m as int,
                        ));
                    }
                    i = m;
                }
            },
            None => {
                proof {
                    assert(spec_parse_schema_from(full, i as int) == spec_parse_schema_from(
                        full,
                        j as int + 1,
                    ));
                }
                i = j + 1;
            },
        }
    }
    proof {
        assert(spec_skip_noise(full, i as int) == i as int);
        assert(spec_parse_schema_from(full, i as int) == Result::<Seq<SpecTable>, SpecError>::Ok(
            Seq::empty(),
        ));
        assert(sts + Seq::<SpecTable>::empty() =~= sts);
        assert(spec_parse_schema(text@) == Result::<Seq<SpecTable>, SpecError>::Ok(sts));
    }
    Ok(tables)
}

} // verus!
