//! The code emitter: a pure function from one table declaration and its
//! resolved options to generated source text. Deterministic by
//! construction; the output's exact text is pinned by `emit_spec`, and it
//! always begins with the ownership signature so a later run recognizes
//! the file as generator-owned.

use vstd::prelude::*;
use crate::marked::signature_text;
use crate::options::TableOptions;
use crate::options::opt_bool;
use crate::options::spec_autogenerated_columns;
use crate::schema::ColumnDeclaration;
use crate::schema::ColumnType;
use crate::schema::ParsedTableMacro;
use crate::schema::name_in;
use crate::schema::name_in_exec;
use crate::text::lemma_filter_empty;
use crate::text::lemma_filter_take_step;
use crate::text::chars_to_string;
use crate::text::str_to_chars;

verus! {

/// An ASCII small letter raised to its capital form; all else unchanged.
pub open spec fn upper_char(c: char) -> char {
    if 'a' <= c && c <= 'z' {
        ((c as u32) - 32) as char
    } else {
        c
    }
}

/// The struct name for a table: the table name with its first character
/// capitalized.
pub open spec fn struct_name_spec(name: Seq<char>) -> Seq<char> {
    if name.len() == 0 {
        name
    } else {
        seq![upper_char(name[0])] + name.skip(1)
    }
}

/// The generated spelling of a semantic column type.
pub open spec fn rust_type_spec(t: ColumnType) -> Seq<char>
    decreases t,
{
    match t {
        ColumnType::SmallInt => "i16"@,
        ColumnType::Integer => "i32"@,
        ColumnType::BigInt => "i64"@,
        ColumnType::Text => "String"@,
        ColumnType::Boolean => "bool"@,
        ColumnType::Timestamp => "NaiveDateTime"@,
        ColumnType::Date => "NaiveDate"@,
        ColumnType::Binary => "Vec<u8>"@,
        ColumnType::Numeric => "BigDecimal"@,
        ColumnType::Nullable(b) => "Option<"@ + rust_type_spec(*b) + ">"@,
        ColumnType::Array(b) => "Vec<"@ + rust_type_spec(*b) + ">"@,
        ColumnType::Custom(s) => s@,
    }
}

/// One generated field line for a column.
pub open spec fn render_column(c: ColumnDeclaration) -> Seq<char> {
    "    pub "@ + c.name@ + ": "@ + rust_type_spec(c.ty) + ",\n"@
}

/// The field lines for a column list, in order.
pub open spec fn render_columns(cs: Seq<ColumnDeclaration>) -> Seq<char>
    decreases cs.len(),
{
    if cs.len() == 0 {
        Seq::empty()
    } else {
        render_columns(cs.drop_last()) + render_column(cs.last())
    }
}

/// The columns that belong in the new-record representation: all except
/// primary-key columns and autogenerated columns.
pub open spec fn insertable_columns(
    cs: Seq<ColumnDeclaration>,
    pk: Seq<Seq<char>>,
    auto: Seq<Seq<char>>,
) -> Seq<ColumnDeclaration> {
    cs.filter(|c: ColumnDeclaration| !name_in(pk, c.name@) && !name_in(auto, c.name@))
}

/// The attribute line the tsync option adds before each struct.
pub open spec fn tsync_attr(on: bool) -> Seq<char> {
    if on {
        "#[tsync]\n"@
    } else {
        Seq::empty()
    }
}

/// The full generated text for one table: the ownership signature, the
/// full-record struct with every column, and the new-record struct with
/// the insertable columns only.
pub open spec fn emit_spec(
    name: Seq<char>,
    cs: Seq<ColumnDeclaration>,
    pk: Seq<Seq<char>>,
    auto: Seq<Seq<char>>,
    tsync: bool,
) -> Seq<char> {
    signature_text() + seq!['\n'] + seq!['\n'] + tsync_attr(tsync) + "pub struct "@
        + struct_name_spec(name) + " {\n"@ + render_columns(cs) + "}\n"@ + seq!['\n'] + tsync_attr(
        tsync,
    ) + "pub struct New"@ + struct_name_spec(name) + " {\n"@ + render_columns(
        insertable_columns(cs, pk, auto),
    ) + "}\n"@
}

/// Every emitted file is recognized as generator-owned on a later run:
/// its first line is exactly the ownership signature.
pub proof fn lemma_emit_is_signed(
    name: Seq<char>,
    cs: Seq<ColumnDeclaration>,
    pk: Seq<Seq<char>>,
    auto: Seq<Seq<char>>,
    tsync: bool,
)
    ensures
        crate::marked::has_signature_spec(
            crate::text::split_lines_spec(emit_spec(name, cs, pk, auto, tsync)),
        ),
{
    let sig = signature_text();
    reveal_strlit("/* @generated and managed by dsync */");
    assert(forall|i: int| 0 <= i < sig.len() ==> sig[i] != '\n') by {
        assert(sig.len() == 37);
    }
    let e = emit_spec(name, cs, pk, auto, tsync);
    let rest = seq!['\n'] + tsync_attr(tsync) + "pub struct "@ + struct_name_spec(name) + " {\n"@
        + render_columns(cs) + "}\n"@ + seq!['\n'] + tsync_attr(tsync) + "pub struct New"@
        + struct_name_spec(name) + " {\n"@ + render_columns(insertable_columns(cs, pk, auto))
        + "}\n"@;
    assert(e =~= sig + seq!['\n'] + rest);
    crate::text::lemma_split_first_line(sig, rest);
    let parts = crate::text::split_lines_spec(e);
    assert(parts[0] == sig);
    assert(sig[0] == '/');
    assert(sig[sig.len() - 1] == '/');
    crate::text::lemma_trim_nonblank_ends(sig);
}

/// Appends the characters of a string slice.
fn push_str_chars(out: &mut Vec<char>, s: &str)
    ensures
        final (out)@ == old(out)@ + s@,
{
    let mut v = str_to_chars(s);
    out.append(&mut v);
}

/// The generated spelling of a semantic type, as characters.
fn rust_type_chars(t: &ColumnType) -> (r: Vec<char>)
    ensures
        r@ == rust_type_spec(*t),
    decreases *t,
{
    match t {
        ColumnType::SmallInt => str_to_chars("i16"),
        ColumnType::Integer => str_to_chars("i32"),
        ColumnType::BigInt => str_to_chars("i64"),
        ColumnType::Text => str_to_chars("String"),
        ColumnType::Boolean => str_to_chars("bool"),
        ColumnType::Timestamp => str_to_chars("NaiveDateTime"),
        ColumnType::Date => str_to_chars("NaiveDate"),
        ColumnType::Binary => str_to_chars("Vec<u8>"),
        ColumnType::Numeric => str_to_chars("BigDecimal"),
        ColumnType::Nullable(b) => {
            let mut v = str_to_chars("Option<");
            let mut inner = rust_type_chars(b);
            v.append(&mut inner);
            let mut end = str_to_chars(">");
            v.append(&mut end);
            v
        },
        ColumnType::Array(b) => {
            let mut v = str_to_chars("Vec<");
            let mut inner = rust_type_chars(b);
            v.append(&mut inner);
            let mut end = str_to_chars(">");
            v.append(&mut end);
            v
        },
        ColumnType::Custom(s) => str_to_chars(s.as_str()),
    }
}

/// The struct name for a table, as characters.
fn struct_name_chars(name: &str) -> (r: Vec<char>)
    ensures
        r@ == struct_name_spec(name@),
{
    let mut v = str_to_chars(name);
    if v.len() > 0 {
        let c = v[0];
        let up: char = if 'a' <= c && c <= 'z' {
            (((c as u32) - 32) as u8) as char
        } else {
            c
        };
        v.set(0, up);
        proof {
            assert(v@ =~= struct_name_spec(name@));
        }
    }
    v
}

/// One generated field line for a column, as characters.
fn render_column_chars(c: &ColumnDeclaration) -> (r: Vec<char>)
    ensures
        r@ == render_column(*c),
{
    let mut out = str_to_chars("    pub ");
    push_str_chars(&mut out, c.name.as_str());
    push_str_chars(&mut out, ": ");
    let mut ty = rust_type_chars(&c.ty);
    out.append(&mut ty);
    push_str_chars(&mut out, ",\n");
    out
}

/// Generates the source text for one table under its resolved options.
/// The exact output is `emit_spec` of the table's pieces: deterministic,
/// signature-stamped, full record with every column, new-record struct
/// without primary-key or autogenerated columns.
pub fn emit(table: &ParsedTableMacro, options: &TableOptions) -> (r: String)
    ensures
        r@ == emit_spec(
            table.name@,
            table.columns@,
            table.primary_key_columns.deep_view(),
            spec_autogenerated_columns(*options),
            opt_bool(options.tsync),
        ),
{
    let ghost pk = table.primary_key_columns.deep_view();
    let ghost auto = spec_autogenerated_columns(*options);
    let tsync = options.get_tsync();
    let autogen = options.get_autogenerated_columns();
    let mut out = str_to_chars(crate::marked::FILE_SIGNATURE);
    out.push('\n');
    out.push('\n');
    if tsync {
        push_str_chars(&mut out, "#[tsync]\n");
    }
    push_str_chars(&mut out, "pub struct ");
    let mut sn = struct_name_chars(table.name.as_str());
    let ghost sn_view = sn@;
    out.append(&mut sn);
    push_str_chars(&mut out, " {\n");
    let ghost base1 = out@;
    let mut i: usize = 0;
    while i < table.columns.len()
        invariant
            i <= table.columns.len(),
            out@ == base1 + render_columns(table.columns@.take(i as int)),
        decreases table.columns.len() - i,
    {
        let mut piece = render_column_chars(&table.columns[i]);
        out.append(&mut piece);
        proof {
            assert(table.columns@.take(i as int + 1).drop_last() =~= table.columns@.take(
                i as int,
            ));
            assert(table.columns@.take(i as int + 1).last() == table.columns@[i as int]);
        }
        i = i + 1;
    }
    proof {
        assert(table.columns@.take(table.columns@.len() as int) =~= table.columns@);
    }
    push_str_chars(&mut out, "}\n");
    out.push('\n');
    if tsync {
        push_str_chars(&mut out, "#[tsync]\n");
    }
    push_str_chars(&mut out, "pub struct New");
    let mut sn2 = struct_name_chars(table.name.as_str());
    out.append(&mut sn2);
    push_str_chars(&mut out, " {\n");
    let ghost base2 = out@;
    let ghost pred = (|c: ColumnDeclaration| !name_in(pk, c.name@) && !name_in(auto, c.name@));
    let mut j: usize = 0;
    proof {
        assert(table.columns@.take(0) =~= Seq::<ColumnDeclaration>::empty());
        lemma_filter_empty(pred);
    }
    while j < table.columns.len()
        invariant
            j <= table.columns.len(),
            auto == spec_autogenerated_columns(*options),
            autogen.deep_view() == auto,
            pk == table.primary_key_columns.deep_view(),
            pred == (|c: ColumnDeclaration| !name_in(pk, c.name@) && !name_in(auto, c.name@)),
            out@ == base2 + render_columns(table.columns@.take(j as int).filter(pred)),
        decreases table.columns.len() - j,
    {
        proof {
            lemma_filter_take_step(table.columns@, pred, j as int);
        }
        let in_pk = name_in_exec(&table.primary_key_columns, table.columns[j].name.as_str());
        let in_auto = name_in_exec(&autogen, table.columns[j].name.as_str());
        if !in_pk && !in_auto {
            let ghost before = table.columns@.take(j as int).filter(pred);
            let mut piece = render_column_chars(&table.columns[j]);
            out.append(&mut piece);
            proof {
                assert(pred(table.columns@[j as int]));
                let after = table.columns@.take(j as int + 1).filter(pred);
                assert(after == before.push(table.columns@[j as int]));
                assert(after.drop_last() =~= before);
                assert(after.last() == table.columns@[j as int]);
                assert(render_columns(after) == render_columns(before) + render_column(
                    table.columns@[j as int],
                ));
            }
        }
        j = j + 1;
    }
    proof {
        assert(table.columns@.take(table.columns@.len() as int) =~= table.columns@);
    }
    push_str_chars(&mut out, "}\n");
    chars_to_string(&out)
}

} // verus!
