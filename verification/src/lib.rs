//! Generates per-table source modules from a declarative schema and keeps an
//! output tree of generated files synchronized with the schema across runs,
//! preserving hand-written content placed alongside the generated code.

pub mod codegen;
pub mod marked;
pub mod options;
pub mod parser;
pub mod reconcile;
pub mod schema;
pub mod text;

pub use marked::FILE_SIGNATURE;
pub use options::GenerationConfig;
pub use options::TableOptions;
pub use parser::ParseError;
pub use schema::ParsedTableMacro;

use vstd::prelude::*;
use crate::codegen::emit_spec;
use crate::options::resolved_auto;
use crate::options::resolved_tsync;
use crate::schema::ColumnDeclaration;
use crate::schema::table_wf;

verus! {

/// An element-wise copy of a column list, equal to its source.
fn clone_columns(v: &Vec<ColumnDeclaration>) -> (r: Vec<ColumnDeclaration>)
    ensures
        r@ == v@,
{
    let mut out: Vec<ColumnDeclaration> = Vec::new();
    let mut i: usize = 0;
    while i < v.len()
        invariant
            i <= v.len(),
            out@ == v@.subrange(0, i as int),
        decreases v.len() - i,
    {
        out.push(v[i].clone_col());
        i = i + 1;
    }
    proof {
        assert(out@ =~= v@);
    }
    out
}

/// The tables of a specification-level parse that the configuration
/// does not ignore, in order.
pub open spec fn kept_spec_tables(
    sts: Seq<crate::parser::SpecTable>,
    c: GenerationConfig,
) -> Seq<crate::parser::SpecTable> {
    sts.filter(|st: crate::parser::SpecTable| !crate::options::resolved_ignore(c, st.name))
}

/// Parses the schema text and emits each table's code from its resolved
/// options. The table list is exactly the specification's parse of the
/// text with the ignored tables omitted — same order, same columns, same
/// keys — and on failure the specification's error. Every returned
/// table's generated text is exactly the emitter's output under its
/// resolved options, and so begins with the ownership signature.
pub fn generate_code(
    diesel_schema_file_contents: String,
    config: GenerationConfig,
) -> (r: Result<Vec<ParsedTableMacro>, ParseError>)
    ensures
        ({
            let sr = crate::parser::spec_parse_schema(diesel_schema_file_contents@);
            match r {
                Ok(ts) => sr is Ok && ts@.len() == kept_spec_tables(sr->Ok_0, config).len() && (
                forall|k: int|
                    0 <= k < ts@.len() ==> crate::parser::table_corresponds(
                        #[trigger] ts@[k],
                        kept_spec_tables(sr->Ok_0, config)[k],
                    )),
                Err(e) => sr is Err && crate::parser::err_corresponds(e, sr->Err_0),
            }
        }),
        match r {
            Ok(ts) => forall|k: int|
                0 <= k < ts@.len() ==> {
                    &&& table_wf(#[trigger] ts@[k])
                    &&& !crate::options::resolved_ignore(config, ts@[k].name@)
                    &&& ts@[k].generated_code@ == emit_spec(
                        ts@[k].name@,
                        ts@[k].columns@,
                        ts@[k].primary_key_columns.deep_view(),
                        resolved_auto(config, ts@[k].name@),
                        resolved_tsync(config, ts@[k].name@),
                    )
                    &&& crate::marked::has_signature_spec(
                        crate::text::split_lines_spec(ts@[k].generated_code@),
                    )
                },
            Err(_) => true,
        },
{
    let ghost sts = crate::parser::spec_parse_schema(diesel_schema_file_contents@)->Ok_0;
    let ghost keep = (|st: crate::parser::SpecTable|
        !crate::options::resolved_ignore(config, st.name));
    let parsed = match parser::parse_schema(diesel_schema_file_contents.as_str()) {
        Ok(ts) => ts,
        Err(e) => {
            return Err(e);
        },
    };
    let mut out: Vec<ParsedTableMacro> = Vec::new();
    let mut i: usize = 0;
    proof {
        assert(sts.take(0) =~= Seq::<crate::parser::SpecTable>::empty());
        crate::text::lemma_filter_empty(keep);
    }
    while i < parsed.len()
        invariant
            i <= parsed@.len(),
            crate::parser::spec_parse_schema(diesel_schema_file_contents@) == Result::<
                Seq<crate::parser::SpecTable>,
                crate::parser::SpecError,
            >::Ok(sts),
            keep == (|st: crate::parser::SpecTable|
                !crate::options::resolved_ignore(config, st.name)),
            crate::parser::tables_correspond(parsed@, sts),
            out@.len() == sts.take(i as int).filter(keep).len(),
            forall|k: int|
                0 <= k < out@.len() ==> crate::parser::table_corresponds(
                    #[trigger] out@[k],
                    sts.take(i as int).filter(keep)[k],
                ),
            forall|k: int|
                0 <= k < parsed@.len() ==> table_wf(#[trigger] parsed@[k]),
            forall|k: int|
                0 <= k < out@.len() ==> {
                    &&& table_wf(#[trigger] out@[k])
                    &&& !crate::options::resolved_ignore(config, out@[k].name@)
                    &&& out@[k].generated_code@ == emit_spec(
                        out@[k].name@,
                        out@[k].columns@,
                        out@[k].primary_key_columns.deep_view(),
                        resolved_auto(config, out@[k].name@),
                        resolved_tsync(config, out@[k].name@),
                    )
                    &&& crate::marked::has_signature_spec(
                        crate::text::split_lines_spec(out@[k].generated_code@),
                    )
                },
        decreases parsed@.len() - i,
    {
        let ghost kept_pre = sts.take(i as int).filter(keep);
        proof {
            crate::text::lemma_filter_take_step(sts, keep, i as int);
            assert(crate::parser::table_corresponds(parsed@[i as int], sts[i as int]));
        }
        let t = &parsed[i];
        let opts = config.table(t.name.as_str());
        proof {
            crate::options::lemma_resolved_options(config, t.name@, opts);
        }
        if !opts.get_ignore() {
            let filled = ParsedTableMacro {
                name: t.name.clone(),
                columns: clone_columns(&t.columns),
                primary_key_columns: crate::options::clone_string_vec(&t.primary_key_columns),
                generated_code: String::new(),
            };
            let code = codegen::emit(&filled, &opts);
            let done = ParsedTableMacro {
                name: filled.name,
                columns: filled.columns,
                primary_key_columns: filled.primary_key_columns,
                generated_code: code,
            };
            proof {
                assert(done.columns@ =~= parsed@[i as int].columns@);
                assert(done.primary_key_columns@ =~= parsed@[i as int].primary_key_columns@);
                assert(table_wf(done));
                assert(done.primary_key_columns.deep_view()
                    =~= parsed@[i as int].primary_key_columns.deep_view());
                assert(crate::parser::table_corresponds(done, sts[i as int]));
                assert(keep(sts[i as int]));
                assert(sts.take(i as int + 1).filter(keep) == kept_pre.push(sts[i as int]));
                crate::codegen::lemma_emit_is_signed(
                    done.name@,
                    done.columns@,
                    done.primary_key_columns.deep_view(),
                    resolved_auto(config, done.name@),
                    resolved_tsync(config, done.name@),
                );
            }
            out.push(done);
        } else {
            proof {
                assert(!keep(sts[i as int]));
                assert(sts.take(i as int + 1).filter(keep) == kept_pre);
            }
        }
        i = i + 1;
    }
    proof {
        assert(sts.take(sts.len() as int) =~= sts);
    }
    Ok(out)
}

} // verus!
