//! The reconciliation driver's decision core: a pure function from the
//! parsed schema, the configuration and a snapshot of the output tree to
//! a plan of writes and deletions. The caller performs the filesystem
//! work; everything decided here — which tables get files, which
//! directories are orphans, what every aggregator file ends up holding —
//! is computed and specified in memory.

use vstd::prelude::*;
use crate::marked::MarkedFile;
use crate::marked::ensure_mod_spec;
use crate::marked::ensure_use_spec;
use crate::marked::has_signature_spec;
use crate::marked::is_blank_spec;
use crate::marked::remove_mod_spec;
use crate::marked::remove_use_spec;
use crate::options::GenerationConfig;
use crate::options::resolved_ignore;
use crate::schema::ParsedTableMacro;
use crate::text::eq_ignore_case;
use crate::text::join_lines_spec;
use crate::text::lemma_filter_empty;
use crate::text::lemma_filter_take_step;
use crate::text::lower_seq;
use crate::text::split_lines_spec;
use crate::text::str_to_chars;

verus! {

/// A snapshot of one immediate subdirectory of the output root: its name,
/// the contents of its generated file and aggregator file where those
/// exist as files, and whether anything else lives in the directory.
pub struct TableDir {
    pub name: String,
    pub generated: Option<MarkedFile>,
    pub mod_file: Option<MarkedFile>,
    pub has_other_entries: bool,
}

/// What to write for one table that is present in the schema: its
/// directory name, the full generated text, and the new contents of the
/// directory's aggregator file.
pub struct TableOutput {
    pub name: String,
    pub generated: String,
    pub mod_text: String,
}

/// What becomes of an orphaned directory's aggregator file.
pub enum AggregatorAction {
    /// There was no aggregator file; nothing to do.
    Keep,
    /// Write this text back.
    Rewrite(String),
    /// Only whitespace would be left: delete the file instead.
    Delete,
}

/// The cleanup for one orphaned directory: its generated file is always
/// deleted; the aggregator file is handled as stated; the directory
/// itself is removed when nothing would remain in it.
pub struct OrphanAction {
    pub name: String,
    pub aggregator: AggregatorAction,
    pub remove_dir: bool,
}

/// One full run's decisions.
pub struct Plan {
    pub outputs: Vec<TableOutput>,
    pub orphans: Vec<OrphanAction>,
    pub root_mod_text: String,
}

/// The tables a run generates for: those the configuration does not
/// ignore.
pub open spec fn kept_tables(ts: Seq<ParsedTableMacro>, c: GenerationConfig) -> Seq<
    ParsedTableMacro,
> {
    ts.filter(|t: ParsedTableMacro| !resolved_ignore(c, t.name@))
}

/// The names of the kept tables, in order.
pub open spec fn expected_names(ts: Seq<ParsedTableMacro>, c: GenerationConfig) -> Seq<Seq<char>> {
    kept_tables(ts, c).map_values(|t: ParsedTableMacro| t.name@)
}

/// The update a run applies to a table directory's aggregator file:
/// register the generated module and re-export its contents, both
/// idempotently.
pub open spec fn table_mod_update(lines: Seq<Seq<char>>) -> Seq<Seq<char>> {
    ensure_use_spec(ensure_mod_spec(lines, "generated"@), "generated::*"@)
}

/// The update orphan cleanup applies to that file: take both lines out
/// again, leaving everything else.
pub open spec fn orphan_mod_update(lines: Seq<Seq<char>>) -> Seq<Seq<char>> {
    remove_use_spec(remove_mod_spec(lines, "generated"@), "generated::*"@)
}

/// The aggregator lines a table starts from: the directory's existing
/// aggregator file where the directory and file exist, else an empty
/// file.
pub open spec fn existing_mod_lines(dirs: Seq<TableDir>, name: Seq<char>) -> Seq<Seq<char>>
    decreases dirs.len(),
{
    if dirs.len() == 0 {
        split_lines_spec(Seq::<char>::empty())
    } else if dirs[0].name@ == name {
        match dirs[0].mod_file {
            Option::Some(m) => m@,
            Option::None => split_lines_spec(Seq::<char>::empty()),
        }
    } else {
        existing_mod_lines(dirs.skip(1), name)
    }
}

/// A directory the generator owns: it holds a generated file carrying
/// the ownership signature.
pub open spec fn is_managed(d: TableDir) -> bool {
    match d.generated {
        Option::Some(g) => has_signature_spec(g@),
        Option::None => false,
    }
}

/// Case-insensitive membership of a directory name among table names:
/// a table and its directory match regardless of ASCII case.
pub open spec fn ci_matches(names: Seq<Seq<char>>, n: Seq<char>) -> bool {
    exists|k: int| 0 <= k < names.len() && lower_seq(names[k]) == lower_seq(n)
}

/// A directory that the generator owns but that no kept table claims.
pub open spec fn is_orphan(d: TableDir, names: Seq<Seq<char>>) -> bool {
    is_managed(d) && !ci_matches(names, d.name@)
}

/// The cleanup an orphaned directory must receive.
pub open spec fn orphan_action_ok(d: TableDir, a: OrphanAction) -> bool {
    &&& a.name@ == d.name@
    &&& match d.mod_file {
        Option::Some(m) => {
            if is_blank_spec(orphan_mod_update(m@)) {
                a.aggregator is Delete
            } else {
                a.aggregator is Rewrite && a.aggregator->Rewrite_0@ == join_lines_spec(
                    orphan_mod_update(m@),
                )
            }
        },
        Option::None => a.aggregator is Keep,
    }
    &&& a.remove_dir == (!d.has_other_entries && (match d.mod_file {
        Option::Some(m) => is_blank_spec(orphan_mod_update(m@)),
        Option::None => true,
    }))
}

/// The root aggregator after a module line is ensured for each name.
pub open spec fn ensure_mods(lines: Seq<Seq<char>>, names: Seq<Seq<char>>) -> Seq<Seq<char>>
    decreases names.len(),
{
    if names.len() == 0 {
        lines
    } else {
        ensure_mods(ensure_mod_spec(lines, names[0]), names.skip(1))
    }
}

/// The root aggregator after a module line is removed for each name.
pub open spec fn remove_mods(lines: Seq<Seq<char>>, names: Seq<Seq<char>>) -> Seq<Seq<char>>
    decreases names.len(),
{
    if names.len() == 0 {
        lines
    } else {
        remove_mods(remove_mod_spec(lines, names[0]), names.skip(1))
    }
}

/// Folding one more name into `ensure_mods` ensures it last.
pub proof fn lemma_ensure_mods_push(lines: Seq<Seq<char>>, names: Seq<Seq<char>>, n: Seq<char>)
    ensures
        ensure_mods(lines, names.push(n)) == ensure_mod_spec(ensure_mods(lines, names), n),
    decreases names.len(),
{
    let p = names.push(n);
    assert(p.len() == names.len() + 1);
    if names.len() == 0 {
        assert(p[0] == n);
        assert(p.skip(1) =~= Seq::<Seq<char>>::empty());
        assert(ensure_mods(lines, p) == ensure_mods(ensure_mod_spec(lines, n), p.skip(1)));
        assert(ensure_mods(ensure_mod_spec(lines, n), p.skip(1)) == ensure_mod_spec(lines, n));
        assert(ensure_mods(lines, names) == lines);
    } else {
        assert(p[0] == names[0]);
        assert(p.skip(1) =~= names.skip(1).push(n));
        assert(ensure_mods(lines, p) == ensure_mods(ensure_mod_spec(lines, names[0]), p.skip(1)));
        lemma_ensure_mods_push(ensure_mod_spec(lines, names[0]), names.skip(1), n);
        assert(ensure_mods(lines, names) == ensure_mods(
            ensure_mod_spec(lines, names[0]),
            names.skip(1),
        ));
    }
}

/// Folding one more name into `remove_mods` removes it last.
pub proof fn lemma_remove_mods_push(lines: Seq<Seq<char>>, names: Seq<Seq<char>>, n: Seq<char>)
    ensures
        remove_mods(lines, names.push(n)) == remove_mod_spec(remove_mods(lines, names), n),
    decreases names.len(),
{
    let p = names.push(n);
    assert(p.len() == names.len() + 1);
    if names.len() == 0 {
        assert(p[0] == n);
        assert(p.skip(1) =~= Seq::<Seq<char>>::empty());
        assert(remove_mods(lines, p) == remove_mods(remove_mod_spec(lines, n), p.skip(1)));
        assert(remove_mods(remove_mod_spec(lines, n), p.skip(1)) == remove_mod_spec(lines, n));
        assert(remove_mods(lines, names) == lines);
    } else {
        assert(p[0] == names[0]);
        assert(p.skip(1) =~= names.skip(1).push(n));
        assert(remove_mods(lines, p) == remove_mods(remove_mod_spec(lines, names[0]), p.skip(1)));
        lemma_remove_mods_push(remove_mod_spec(lines, names[0]), names.skip(1), n);
        assert(remove_mods(lines, names) == remove_mods(
            remove_mod_spec(lines, names[0]),
            names.skip(1),
        ));
    }
}

/// Idempotence of the per-directory aggregator update: registering a
/// table's generated module twice is the same as registering it once, so
/// a rerun on an unchanged tree rewrites the same bytes.
pub proof fn lemma_table_mod_update_idempotent(lines: Seq<Seq<char>>)
    ensures
        table_mod_update(table_mod_update(lines)) == table_mod_update(lines),
{
    let g = "generated"@;
    let gu = "generated::*"@;
    reveal_strlit("generated");
    reveal_strlit("generated::*");
    assert(!crate::text::is_space(g[0]));
    assert(!crate::text::is_space(gu[0]));
    let e1 = ensure_mod_spec(lines, g);
    let u1 = ensure_use_spec(e1, gu);
    assert(crate::marked::has_mod_line(e1, g)) by {
        if !crate::marked::has_mod_line(lines, g) {
            crate::marked::lemma_canonical_mod_line_matches(g);
            assert(e1[lines.len() as int] == crate::marked::mod_line_pub(g));
        }
    }
    assert(crate::marked::has_mod_line(u1, g)) by {
        if !crate::marked::has_use_line(e1, gu) {
            crate::marked::lemma_push_keeps_mod_line(e1, crate::marked::use_line_pub(gu), g);
        }
    }
    assert(crate::marked::has_use_line(u1, gu)) by {
        if !crate::marked::has_use_line(e1, gu) {
            crate::marked::lemma_canonical_use_line_matches(gu);
            assert(u1[e1.len() as int] == crate::marked::use_line_pub(gu));
        }
    }
    assert(ensure_mod_spec(u1, g) == u1);
    assert(ensure_use_spec(u1, gu) == u1);
}

/// Round trip of one table directory's aggregator file: on a buffer that
/// carries no generated lines yet, a run's registration followed by
/// orphan cleanup restores the buffer exactly — deleting a table leaves
/// no residue, and re-adding it reproduces the original bytes.
pub proof fn lemma_table_mod_roundtrip(lines: Seq<Seq<char>>)
    requires
        !crate::marked::has_mod_line(lines, "generated"@),
        !crate::marked::has_use_line(lines, "generated::*"@),
    ensures
        orphan_mod_update(table_mod_update(lines)) == lines,
{
    let g = "generated"@;
    let gu = "generated::*"@;
    reveal_strlit("generated");
    reveal_strlit("generated::*");
    assert(!crate::text::is_space(g[0]));
    assert(!crate::text::is_space(gu[0]));
    let ml = crate::marked::mod_line_pub(g);
    let ul = crate::marked::use_line_pub(gu);
    crate::marked::lemma_canonical_mod_line_matches(g);
    crate::marked::lemma_canonical_use_line_matches(gu);
    crate::marked::lemma_mod_use_distinct(g, gu);
    crate::marked::lemma_mod_use_distinct(gu, g);
    let e1 = lines.push(ml);
    assert(ensure_mod_spec(lines, g) == e1);
    assert(!crate::marked::has_use_line(e1, gu)) by {
        if crate::marked::has_use_line(e1, gu) {
            let k = choose|k: int|
                0 <= k < e1.len() && crate::marked::is_use_line(e1[k], gu);
            if k < lines.len() {
                assert(crate::marked::is_use_line(lines[k], gu));
            } else {
                assert(e1[k] == ml);
            }
        }
    }
    let u1 = e1.push(ul);
    assert(table_mod_update(lines) == u1);
    let r1 = remove_mod_spec(u1, g);
    assert(r1 == lines.push(ul)) by {
        reveal(Seq::filter);
        assert(u1.drop_last() =~= e1);
        assert(u1.last() == ul);
        assert(!crate::marked::is_mod_line(ul, g));
        assert(remove_mod_spec(u1, g) == remove_mod_spec(e1, g).push(ul));
        assert(e1.drop_last() =~= lines);
        assert(e1.last() == ml);
        assert(crate::marked::is_mod_line(ml, g));
        assert(remove_mod_spec(e1, g) == remove_mod_spec(lines, g));
        crate::marked::lemma_remove_mod_noop(lines, g);
    }
    let r2 = remove_use_spec(r1, gu);
    assert(r2 == lines) by {
        reveal(Seq::filter);
        assert(r1.drop_last() =~= lines);
        assert(r1.last() == ul);
        assert(crate::marked::is_use_line(ul, gu));
        crate::marked::lemma_remove_use_noop(lines, gu);
    }
}

/// Hand-written lines survive the per-directory update: any predicate
/// that selects neither generated line selects the same lines, in the
/// same order, before and after registration and before and after orphan
/// cleanup.
pub proof fn lemma_table_mod_update_preserves(lines: Seq<Seq<char>>, hand: spec_fn(Seq<char>) -> bool)
    requires
        !hand(crate::marked::mod_line_pub("generated"@)),
        !hand(crate::marked::use_line_pub("generated::*"@)),
        forall|l: Seq<char>| #[trigger] hand(l) ==> !crate::marked::is_mod_line(l, "generated"@),
        forall|l: Seq<char>| #[trigger] hand(l) ==> !crate::marked::is_use_line(
            l,
            "generated::*"@,
        ),
    ensures
        table_mod_update(lines).filter(hand) == lines.filter(hand),
        orphan_mod_update(lines).filter(hand) == lines.filter(hand),
{
    let g = "generated"@;
    let gu = "generated::*"@;
    crate::marked::lemma_ensure_mod_preserves(lines, g, hand);
    crate::marked::lemma_ensure_use_preserves(ensure_mod_spec(lines, g), gu, hand);
    crate::marked::lemma_remove_mod_preserves(lines, g, hand);
    crate::marked::lemma_remove_use_preserves(remove_mod_spec(lines, g), gu, hand);
}

/// Writing a table directory's aggregator to disk and updating what a
/// later run reads back changes nothing: the registration pass is stable
/// across the round trip through the file's text.
pub proof fn lemma_table_mod_update_stable_on_disk(lines: Seq<Seq<char>>)
    requires
        lines.len() >= 1,
        forall|k: int| 0 <= k < lines.len() ==> crate::text::no_newline(#[trigger] lines[k]),
    ensures
        table_mod_update(
            crate::text::split_lines_spec(crate::text::join_lines_spec(table_mod_update(lines))),
        ) == table_mod_update(lines),
{
    let g = "generated"@;
    let gu = "generated::*"@;
    reveal_strlit("generated");
    reveal_strlit("generated::*");
    assert(crate::text::no_newline(g));
    assert(crate::text::no_newline(gu));
    crate::marked::lemma_canonical_lines_one_line(g);
    crate::marked::lemma_canonical_lines_one_line(gu);
    let e1 = ensure_mod_spec(lines, g);
    let u = ensure_use_spec(e1, gu);
    assert(e1.len() >= lines.len());
    assert(forall|k: int| 0 <= k < e1.len() ==> crate::text::no_newline(#[trigger] e1[k])) by {
        if !crate::marked::has_mod_line(lines, g) {
            assert(forall|k: int| 0 <= k < lines.len() ==> e1[k] == #[trigger] lines[k]);
            assert(e1[lines.len() as int] == crate::marked::mod_line_pub(g));
        }
    }
    assert(forall|k: int| 0 <= k < u.len() ==> crate::text::no_newline(#[trigger] u[k])) by {
        if !crate::marked::has_use_line(e1, gu) {
            assert(forall|k: int| 0 <= k < e1.len() ==> u[k] == #[trigger] e1[k]);
            assert(u[e1.len() as int] == crate::marked::use_line_pub(gu));
        }
    }
    crate::text::lemma_split_join_inverse(u);
    lemma_table_mod_update_idempotent(lines);
}

/// The registration fold never shrinks the buffer and, for newline-free
/// names, keeps every line newline-free.
pub proof fn lemma_ensure_mods_no_newline(lines: Seq<Seq<char>>, names: Seq<Seq<char>>)
    requires
        forall|k: int| 0 <= k < lines.len() ==> crate::text::no_newline(#[trigger] lines[k]),
        forall|k: int| 0 <= k < names.len() ==> crate::text::no_newline(#[trigger] names[k]),
    ensures
        ensure_mods(lines, names).len() >= lines.len(),
        forall|k: int|
            0 <= k < ensure_mods(lines, names).len() ==> crate::text::no_newline(
                #[trigger] ensure_mods(lines, names)[k],
            ),
    decreases names.len(),
{
    if names.len() > 0 {
        let e1 = ensure_mod_spec(lines, names[0]);
        crate::marked::lemma_canonical_lines_one_line(names[0]);
        assert(forall|k: int| 0 <= k < e1.len() ==> crate::text::no_newline(#[trigger] e1[k]))
            by {
            if !crate::marked::has_mod_line(lines, names[0]) {
                assert(forall|k: int| 0 <= k < lines.len() ==> e1[k] == #[trigger] lines[k]);
                assert(e1[lines.len() as int] == crate::marked::mod_line_pub(names[0]));
            }
        }
        assert(forall|k: int|
            0 <= k < names.skip(1).len() ==> crate::text::no_newline(
                #[trigger] names.skip(1)[k],
            )) by {
            assert(forall|k: int|
                0 <= k < names.skip(1).len() ==> names.skip(1)[k] == #[trigger] names[k + 1]);
        }
        lemma_ensure_mods_no_newline(e1, names.skip(1));
    }
}

/// Writing the root aggregator to disk and registering the same names
/// against what a later run reads back changes nothing: the root
/// registration pass is stable across the round trip through the file's
/// text. Table names are newline-free by construction, being valid
/// identifiers.
pub proof fn lemma_root_registration_stable_on_disk(
    lines: Seq<Seq<char>>,
    names: Seq<Seq<char>>,
)
    requires
        lines.len() >= 1,
        forall|k: int| 0 <= k < lines.len() ==> crate::text::no_newline(#[trigger] lines[k]),
        forall|k: int| 0 <= k < names.len() ==> crate::text::no_newline(#[trigger] names[k]),
        forall|k: int|
            0 <= k < names.len() ==> ((#[trigger] names[k]).len() == 0 || !crate::text::is_space(
                names[k][0],
            )),
    ensures
        ensure_mods(
            crate::text::split_lines_spec(
                crate::text::join_lines_spec(ensure_mods(lines, names)),
            ),
            names,
        ) == ensure_mods(lines, names),
{
    lemma_ensure_mods_no_newline(lines, names);
    crate::text::lemma_split_join_inverse(ensure_mods(lines, names));
    lemma_ensure_mods_idempotent(lines, names);
}

/// Every kept table is one of the run's tables and is not ignored.
proof fn lemma_kept_tables_members(ts: Seq<ParsedTableMacro>, c: GenerationConfig)
    ensures
        forall|i: int|
            0 <= i < kept_tables(ts, c).len() ==> !resolved_ignore(
                c,
                (#[trigger] kept_tables(ts, c)[i]).name@,
            ),
        forall|i: int|
            0 <= i < kept_tables(ts, c).len() ==> exists|j: int|
                0 <= j < ts.len() && ts[j] == #[trigger] kept_tables(ts, c)[i],
        forall|j: int|
            0 <= j < ts.len() && !resolved_ignore(c, (#[trigger] ts[j]).name@) ==> exists|i: int|
                0 <= i < kept_tables(ts, c).len() && kept_tables(ts, c)[i] == ts[j],
    decreases ts.len(),
{
    reveal(Seq::filter);
    if ts.len() > 0 {
        lemma_kept_tables_members(ts.drop_last(), c);
        let sub = kept_tables(ts.drop_last(), c);
        let whole = kept_tables(ts, c);
        assert(ts.drop_last().len() < ts.len());
        assert(forall|j: int|
            0 <= j < ts.drop_last().len() ==> #[trigger] ts.drop_last()[j] == ts[j]);
        if !resolved_ignore(c, ts.last().name@) {
            assert(whole == sub.push(ts.last()));
            assert(forall|i: int| 0 <= i < sub.len() ==> whole[i] == #[trigger] sub[i]);
            assert(whole[whole.len() - 1] == ts.last());
            assert(ts[ts.len() - 1] == ts.last());
        } else {
            assert(whole == sub);
        }
        assert forall|j: int|
            0 <= j < ts.len() && !resolved_ignore(c, (#[trigger] ts[j]).name@) implies exists|
                i: int,
            | 0 <= i < whole.len() && whole[i] == ts[j] by {
            if j < ts.len() - 1 {
                assert(ts.drop_last()[j] == ts[j]);
                assert(!resolved_ignore(c, ts.drop_last()[j].name@));
                let i = choose|i: int| 0 <= i < sub.len() && sub[i] == ts.drop_last()[j];
                assert(whole[i] == ts[j]);
            } else {
                assert(ts[j] == ts.last());
                assert(whole[whole.len() - 1] == ts[j]);
            }
        }
    }
}

/// A declared, kept table shields its directory whatever the
/// capitalization: a directory whose name equals a non-ignored table's
/// name up to ASCII case is never an orphan.
pub proof fn lemma_matched_directory_is_kept(
    ts: Seq<ParsedTableMacro>,
    c: GenerationConfig,
    d: TableDir,
    k: int,
)
    requires
        0 <= k < ts.len(),
        !resolved_ignore(c, ts[k].name@),
        lower_seq(ts[k].name@) == lower_seq(d.name@),
    ensures
        !is_orphan(d, expected_names(ts, c)),
{
    let kept = kept_tables(ts, c);
    let names = expected_names(ts, c);
    lemma_kept_tables_members(ts, c);
    let i = choose|i: int| 0 <= i < kept.len() && kept[i] == ts[k];
    assert(names[i] == kept[i].name@);
    assert(lower_seq(names[i]) == lower_seq(d.name@));
    assert(ci_matches(names, d.name@));
}

/// An ignored table's leftover directory is an orphan: a generator-owned
/// directory whose name matches, in any capitalization, only tables the
/// configuration ignores is cleaned up exactly as any orphan is.
pub proof fn lemma_ignored_directory_is_orphaned(
    ts: Seq<ParsedTableMacro>,
    c: GenerationConfig,
    d: TableDir,
)
    requires
        is_managed(d),
        forall|k: int|
            0 <= k < ts.len() ==> (lower_seq((#[trigger] ts[k]).name@) == lower_seq(d.name@)
                ==> resolved_ignore(c, ts[k].name@)),
    ensures
        is_orphan(d, expected_names(ts, c)),
{
    let kept = kept_tables(ts, c);
    let names = expected_names(ts, c);
    lemma_kept_tables_members(ts, c);
    if ci_matches(names, d.name@) {
        let w = choose|w: int|
            0 <= w < names.len() && lower_seq(names[w]) == lower_seq(d.name@);
        assert(names[w] == kept[w].name@);
        assert(!resolved_ignore(c, kept[w].name@));
        let j = choose|j: int| 0 <= j < ts.len() && ts[j] == kept[w];
        assert(lower_seq(ts[j].name@) == lower_seq(d.name@));
        assert(resolved_ignore(c, ts[j].name@));
        assert(false);
    }
}

/// Orphan cleanup leaves every other table alone: what a table's
/// aggregator update reads depends only on the directory bearing the
/// table's name, so changes to any other directory — an orphan's
/// deletion among them — cannot alter the table's planned output, whose
/// remaining inputs are the table itself and its options.
pub proof fn lemma_existing_mod_frame(d1: Seq<TableDir>, d2: Seq<TableDir>, name: Seq<char>)
    requires
        d1.len() == d2.len(),
        forall|j: int|
            0 <= j < d1.len() ==> ((#[trigger] d1[j].name@ == name) == (d2[j].name@ == name)),
        forall|j: int|
            0 <= j < d1.len() && (#[trigger] d1[j].name@) == name ==> {
                &&& (d1[j].mod_file is Some) == (d2[j].mod_file is Some)
                &&& (d1[j].mod_file is Some ==> d1[j].mod_file->0@ == d2[j].mod_file->0@)
            },
    ensures
        existing_mod_lines(d1, name) == existing_mod_lines(d2, name),
    decreases d1.len(),
{
    if d1.len() > 0 {
        if d1[0].name@ == name {
        } else {
            assert(forall|j: int|
                0 <= j < d1.skip(1).len() ==> #[trigger] d1.skip(1)[j] == d1[j + 1]);
            assert(forall|j: int|
                0 <= j < d2.skip(1).len() ==> #[trigger] d2.skip(1)[j] == d2[j + 1]);
            lemma_existing_mod_frame(d1.skip(1), d2.skip(1), name);
        }
    }
}

/// Idempotence of a full rerun, in one statement per written artifact.
/// A second run on a tree the first run wrote rewrites byte-identical
/// aggregator texts: the table directory's file (registration applied to
/// what is read back from the first run's write) and the root file (the
/// registration fold over the same table names, which a second parse of
/// the unchanged schema yields). A generated file needs no own clause:
/// its bytes are a pure function of the table and its options, pinned by
/// the emitter's contract. Together with the orphan passes being empty
/// on a synchronized tree, a rerun makes no change.
pub proof fn lemma_rerun_writes_same_bytes(
    mod_lines: Seq<Seq<char>>,
    root_lines: Seq<Seq<char>>,
    names: Seq<Seq<char>>,
)
    requires
        mod_lines.len() >= 1,
        root_lines.len() >= 1,
        forall|k: int| 0 <= k < mod_lines.len() ==> crate::text::no_newline(#[trigger] mod_lines[k]),
        forall|k: int|
            0 <= k < root_lines.len() ==> crate::text::no_newline(#[trigger] root_lines[k]),
        forall|k: int| 0 <= k < names.len() ==> crate::text::no_newline(#[trigger] names[k]),
        forall|k: int|
            0 <= k < names.len() ==> ((#[trigger] names[k]).len() == 0 || !crate::text::is_space(
                names[k][0],
            )),
    ensures
        crate::text::join_lines_spec(
            table_mod_update(
                crate::text::split_lines_spec(
                    crate::text::join_lines_spec(table_mod_update(mod_lines)),
                ),
            ),
        ) == crate::text::join_lines_spec(table_mod_update(mod_lines)),
        crate::text::join_lines_spec(
            ensure_mods(
                crate::text::split_lines_spec(
                    crate::text::join_lines_spec(ensure_mods(root_lines, names)),
                ),
                names,
            ),
        ) == crate::text::join_lines_spec(ensure_mods(root_lines, names)),
{
    lemma_table_mod_update_stable_on_disk(mod_lines);
    lemma_root_registration_stable_on_disk(root_lines, names);
}

/// Deletion then re-addition, in one statement. On a directory
/// aggregator that carries no generated lines yet and a root aggregator
/// that does not register the table yet: a run's registration followed
/// by orphan cleanup restores both buffers exactly, and registering
/// again writes byte-identical text to the first run's. The generated
/// file recurs identically because emission is a pure function of the
/// table and its options.
pub proof fn lemma_delete_then_readd_same_bytes(
    mod_lines: Seq<Seq<char>>,
    root_lines: Seq<Seq<char>>,
    name: Seq<char>,
)
    requires
        !crate::marked::has_mod_line(mod_lines, "generated"@),
        !crate::marked::has_use_line(mod_lines, "generated::*"@),
        !crate::marked::has_mod_line(root_lines, name),
        name.len() == 0 || !crate::text::is_space(name[0]),
    ensures
        orphan_mod_update(table_mod_update(mod_lines)) == mod_lines,
        crate::marked::remove_mod_spec(
            crate::marked::ensure_mod_spec(root_lines, name),
            name,
        ) == root_lines,
        crate::text::join_lines_spec(
            table_mod_update(orphan_mod_update(table_mod_update(mod_lines))),
        ) == crate::text::join_lines_spec(table_mod_update(mod_lines)),
        crate::text::join_lines_spec(
            crate::marked::ensure_mod_spec(
                crate::marked::remove_mod_spec(
                    crate::marked::ensure_mod_spec(root_lines, name),
                    name,
                ),
                name,
            ),
        ) == crate::text::join_lines_spec(crate::marked::ensure_mod_spec(root_lines, name)),
{
    lemma_table_mod_roundtrip(mod_lines);
    crate::marked::lemma_ensure_remove_mod_roundtrip(root_lines, name);
}

/// After ensuring module lines for a list of names, every name in the
/// list has its line. Holds for names that do not open with whitespace —
/// every identifier qualifies.
pub proof fn lemma_ensure_mods_all_present(lines: Seq<Seq<char>>, names: Seq<Seq<char>>)
    requires
        forall|k: int|
            0 <= k < names.len() ==> ((#[trigger] names[k]).len() == 0 || !crate::text::is_space(
                names[k][0],
            )),
    ensures
        forall|k: int|
            0 <= k < names.len() ==> crate::marked::has_mod_line(
                ensure_mods(lines, names),
                #[trigger] names[k],
            ),
    decreases names.len(),
{
    if names.len() > 0 {
        let e1 = ensure_mod_spec(lines, names[0]);
        lemma_ensure_mods_all_present(e1, names.skip(1));
        assert(crate::marked::has_mod_line(e1, names[0])) by {
            if !crate::marked::has_mod_line(lines, names[0]) {
                crate::marked::lemma_canonical_mod_line_matches(names[0]);
                assert(e1[lines.len() as int] == crate::marked::mod_line_pub(names[0]));
            }
        }
        lemma_ensure_mods_keeps_mod_line(e1, names.skip(1), names[0]);
        assert(forall|k: int|
            1 <= k < names.len() ==> names.skip(1)[k - 1] == #[trigger] names[k]);
    }
}

/// Ensuring more module lines never loses one that is present.
pub proof fn lemma_ensure_mods_keeps_mod_line(
    lines: Seq<Seq<char>>,
    names: Seq<Seq<char>>,
    m: Seq<char>,
)
    requires
        crate::marked::has_mod_line(lines, m),
    ensures
        crate::marked::has_mod_line(ensure_mods(lines, names), m),
    decreases names.len(),
{
    if names.len() > 0 {
        let e1 = ensure_mod_spec(lines, names[0]);
        assert(crate::marked::has_mod_line(e1, m)) by {
            if !crate::marked::has_mod_line(lines, names[0]) {
                crate::marked::lemma_push_keeps_mod_line(
                    lines,
                    crate::marked::mod_line_pub(names[0]),
                    m,
                );
            }
        }
        lemma_ensure_mods_keeps_mod_line(e1, names.skip(1), m);
    }
}

/// Ensuring module lines that are all already present changes nothing.
pub proof fn lemma_ensure_mods_noop(lines: Seq<Seq<char>>, names: Seq<Seq<char>>)
    requires
        forall|k: int|
            0 <= k < names.len() ==> crate::marked::has_mod_line(lines, #[trigger] names[k]),
    ensures
        ensure_mods(lines, names) == lines,
    decreases names.len(),
{
    if names.len() > 0 {
        assert(ensure_mod_spec(lines, names[0]) == lines);
        assert(forall|k: int|
            0 <= k < names.skip(1).len() ==> crate::marked::has_mod_line(
                lines,
                #[trigger] names.skip(1)[k],
            )) by {
            assert(forall|k: int|
                0 <= k < names.skip(1).len() ==> names.skip(1)[k] == #[trigger] names[k + 1]);
        }
        lemma_ensure_mods_noop(lines, names.skip(1));
    }
}

/// Idempotence of the root aggregator's registration pass: a second run
/// over the same names rewrites the same lines.
pub proof fn lemma_ensure_mods_idempotent(lines: Seq<Seq<char>>, names: Seq<Seq<char>>)
    requires
        forall|k: int|
            0 <= k < names.len() ==> ((#[trigger] names[k]).len() == 0 || !crate::text::is_space(
                names[k][0],
            )),
    ensures
        ensure_mods(ensure_mods(lines, names), names) == ensure_mods(lines, names),
{
    lemma_ensure_mods_all_present(lines, names);
    lemma_ensure_mods_noop(ensure_mods(lines, names), names);
}

/// Hand-written lines survive the root aggregator's full update: any
/// predicate that selects no canonical module line of the ensured names
/// and no module line of the removed names selects the same lines, in
/// the same order, before and after the run.
pub proof fn lemma_root_update_preserves(
    lines: Seq<Seq<char>>,
    ens: Seq<Seq<char>>,
    rem: Seq<Seq<char>>,
    hand: spec_fn(Seq<char>) -> bool,
)
    requires
        forall|k: int| 0 <= k < ens.len() ==> !hand(crate::marked::mod_line_pub(#[trigger] ens[k])),
        forall|l: Seq<char>, k: int|
            #[trigger] hand(l) && 0 <= k < rem.len() ==> !crate::marked::is_mod_line(
                l,
                #[trigger] rem[k],
            ),
    ensures
        remove_mods(ensure_mods(lines, ens), rem).filter(hand) == lines.filter(hand),
{
    lemma_ensure_mods_preserves(lines, ens, hand);
    lemma_remove_mods_preserves(ensure_mods(lines, ens), rem, hand);
}

/// Preservation through the registration fold.
pub proof fn lemma_ensure_mods_preserves(
    lines: Seq<Seq<char>>,
    names: Seq<Seq<char>>,
    hand: spec_fn(Seq<char>) -> bool,
)
    requires
        forall|k: int|
            0 <= k < names.len() ==> !hand(crate::marked::mod_line_pub(#[trigger] names[k])),
    ensures
        ensure_mods(lines, names).filter(hand) == lines.filter(hand),
    decreases names.len(),
{
    if names.len() > 0 {
        crate::marked::lemma_ensure_mod_preserves(lines, names[0], hand);
        assert(forall|k: int|
            0 <= k < names.skip(1).len() ==> names.skip(1)[k] == #[trigger] names[k + 1]);
        lemma_ensure_mods_preserves(ensure_mod_spec(lines, names[0]), names.skip(1), hand);
    }
}

/// Preservation through the removal fold.
pub proof fn lemma_remove_mods_preserves(
    lines: Seq<Seq<char>>,
    names: Seq<Seq<char>>,
    hand: spec_fn(Seq<char>) -> bool,
)
    requires
        forall|l: Seq<char>, k: int|
            #[trigger] hand(l) && 0 <= k < names.len() ==> !crate::marked::is_mod_line(
                l,
                #[trigger] names[k],
            ),
    ensures
        remove_mods(lines, names).filter(hand) == lines.filter(hand),
    decreases names.len(),
{
    if names.len() > 0 {
        crate::marked::lemma_remove_mod_preserves(lines, names[0], hand);
        assert(forall|k: int|
            0 <= k < names.skip(1).len() ==> names.skip(1)[k] == #[trigger] names[k + 1]);
        lemma_remove_mods_preserves(remove_mod_spec(lines, names[0]), names.skip(1), hand);
    }
}

/// The names of the directories classified as orphans, in scan order.
pub open spec fn orphan_names(dirs: Seq<TableDir>, names: Seq<Seq<char>>) -> Seq<Seq<char>> {
    dirs.filter(|d: TableDir| is_orphan(d, names)).map_values(|d: TableDir| d.name@)
}

/// Is this directory name, case-insensitively, among the kept names?
fn ci_member(names: &Vec<String>, n: &str) -> (r: bool)
    ensures
        r == ci_matches(names.deep_view(), n@),
{
    let nc = str_to_chars(n);
    let mut k: usize = 0;
    while k < names.len()
        invariant
            k <= names@.len(),
            nc@ == n@,
            forall|j: int|
                0 <= j < k ==> lower_seq(names.deep_view()[j]) != lower_seq(n@),
        decreases names@.len() - k,
    {
        let mc = str_to_chars(names[k].as_str());
        if eq_ignore_case(&mc, &nc) {
            proof {
                assert(names.deep_view()[k as int] == names@[k as int]@);
            }
            return true;
        }
        proof {
            assert(names.deep_view()[k as int] == names@[k as int]@);
        }
        k = k + 1;
    }
    proof {
        if ci_matches(names.deep_view(), n@) {
            let w = choose|w: int|
                0 <= w < names.deep_view().len() && lower_seq(names.deep_view()[w]) == lower_seq(
                    n@,
                );
            assert(lower_seq(names.deep_view()[w]) != lower_seq(n@));
        }
    }
    false
}

/// The existing aggregator lines for a table's directory, copied out of
/// the snapshot; an empty file where the directory or file is missing.
fn find_existing_mod(dirs: &Vec<TableDir>, name: &str) -> (r: MarkedFile)
    ensures
        r@ == existing_mod_lines(dirs@, name@),
{
    proof {
        assert(dirs@.skip(0) =~= dirs@);
    }
    let mut i: usize = 0;
    while i < dirs.len()
        invariant
            i <= dirs@.len(),
            existing_mod_lines(dirs@, name@) == existing_mod_lines(dirs@.skip(i as int), name@),
        decreases dirs@.len() - i,
    {
        proof {
            assert(dirs@.skip(i as int)[0] == dirs@[i as int]);
            assert(dirs@.skip(i as int).skip(1) =~= dirs@.skip(i as int + 1));
        }
        if crate::options::str_eq(dirs[i].name.as_str(), name) {
            match &dirs[i].mod_file {
                Some(m) => {
                    return m.duplicate();
                },
                None => {
                    return MarkedFile::empty();
                },
            }
        }
        i = i + 1;
    }
    MarkedFile::empty()
}

/// Decides one full run: code and aggregator contents for every kept
/// table, cleanup for every orphaned directory, and the root aggregator's
/// final text. Pure; the snapshot is the only view of the disk it uses.
pub fn plan_generation(
    tables: &Vec<ParsedTableMacro>,
    config: &GenerationConfig,
    root_mod: MarkedFile,
    dirs: &Vec<TableDir>,
) -> (r: Plan)
    ensures
        ({
            let kept = kept_tables(tables@, *config);
            let names = expected_names(tables@, *config);
            let orphs = dirs@.filter(|d: TableDir| is_orphan(d, names));
            &&& r.outputs@.len() == kept.len()
            &&& forall|k: int|
                0 <= k < kept.len() ==> {
                    &&& (#[trigger] r.outputs@[k]).name@ == kept[k].name@
                    &&& r.outputs@[k].generated@ == kept[k].generated_code@
                    &&& r.outputs@[k].mod_text@ == join_lines_spec(
                        table_mod_update(existing_mod_lines(dirs@, kept[k].name@)),
                    )
                }
            &&& r.orphans@.len() == orphs.len()
            &&& forall|k: int|
                0 <= k < orphs.len() ==> orphan_action_ok(orphs[k], #[trigger] r.orphans@[k])
            &&& r.root_mod_text@ == join_lines_spec(
                remove_mods(ensure_mods(root_mod@, names), orphan_names(dirs@, names)),
            )
        }),
{
    let ghost cfg = *config;
    let ghost keep_pred = (|t: ParsedTableMacro| !resolved_ignore(cfg, t.name@));
    let mut outputs: Vec<TableOutput> = Vec::new();
    let mut expected: Vec<String> = Vec::new();
    let mut root = root_mod;
    let ghost root0 = root_mod@;
    let mut i: usize = 0;
    proof {
        assert(tables@.take(0) =~= Seq::<ParsedTableMacro>::empty());
        lemma_filter_empty(keep_pred);
        assert(expected.deep_view() =~= Seq::<Seq<char>>::empty());
        assert(kept_tables(tables@.take(0), cfg).map_values(|t: ParsedTableMacro| t.name@)
            =~= Seq::<Seq<char>>::empty());
    }
    while i < tables.len()
        invariant
            i <= tables@.len(),
            cfg == *config,
            keep_pred == (|t: ParsedTableMacro| !resolved_ignore(cfg, t.name@)),
            outputs@.len() == tables@.take(i as int).filter(keep_pred).len(),
            expected.deep_view() == expected_names(tables@.take(i as int), cfg),
            expected@.len() == outputs@.len(),
            root@ == ensure_mods(root0, expected_names(tables@.take(i as int), cfg)),
            forall|k: int|
                0 <= k < outputs@.len() ==> {
                    &&& (#[trigger] outputs@[k]).name@ == tables@.take(i as int).filter(
                        keep_pred,
                    )[k].name@
                    &&& outputs@[k].generated@ == tables@.take(i as int).filter(
                        keep_pred,
                    )[k].generated_code@
                    &&& outputs@[k].mod_text@ == join_lines_spec(
                        table_mod_update(
                            existing_mod_lines(
                                dirs@,
                                tables@.take(i as int).filter(keep_pred)[k].name@,
                            ),
                        ),
                    )
                },
        decreases tables@.len() - i,
    {
        let ghost before_flt = tables@.take(i as int).filter(keep_pred);
        let ghost before_names = expected_names(tables@.take(i as int), cfg);
        proof {
            lemma_filter_take_step(tables@, keep_pred, i as int);
        }
        let t = &tables[i];
        let opts = config.table(t.name.as_str());
        if !opts.get_ignore() {
            let mut mf = find_existing_mod(dirs, t.name.as_str());
            mf.ensure_mod_stmt("generated");
            mf.ensure_use_stmt("generated::*");
            let mod_text = mf.to_text();
            outputs.push(
                TableOutput {
                    name: t.name.clone(),
                    generated: t.generated_code.clone(),
                    mod_text,
                },
            );
            expected.push(t.name.clone());
            root.ensure_mod_stmt(t.name.as_str());
            proof {
                let after_flt = tables@.take(i as int + 1).filter(keep_pred);
                assert(keep_pred(tables@[i as int]));
                assert(after_flt == before_flt.push(tables@[i as int]));
                let after_names = expected_names(tables@.take(i as int + 1), cfg);
                assert(after_names =~= before_names.push(tables@[i as int].name@));
                assert(expected.deep_view() =~~= after_names);
                lemma_ensure_mods_push(root0, before_names, tables@[i as int].name@);
                assert(forall|k: int|
                    0 <= k < before_flt.len() ==> after_flt[k] == #[trigger] before_flt[k]);
            }
        } else {
            proof {
                assert(!keep_pred(tables@[i as int]));
                assert(tables@.take(i as int + 1).filter(keep_pred) == before_flt);
                assert(expected_names(tables@.take(i as int + 1), cfg) =~= before_names);
            }
        }
        i = i + 1;
    }
    proof {
        assert(tables@.take(tables@.len() as int) =~= tables@);
    }
    let ghost names = expected_names(tables@, cfg);
    let ghost orphan_pred = (|d: TableDir| is_orphan(d, names));
    let mut orphans: Vec<OrphanAction> = Vec::new();
    let mut j: usize = 0;
    proof {
        assert(dirs@.take(0) =~= Seq::<TableDir>::empty());
        lemma_filter_empty(orphan_pred);
        assert(orphan_names(dirs@.take(0), names) =~= Seq::<Seq<char>>::empty());
        assert(Seq::<TableDir>::empty().filter(orphan_pred).map_values(
            |d: TableDir| d.name@,
        ) =~= Seq::<Seq<char>>::empty());
    }
    while j < dirs.len()
        invariant
            j <= dirs@.len(),
            cfg == *config,
            names == expected_names(tables@, cfg),
            expected.deep_view() == names,
            orphan_pred == (|d: TableDir| is_orphan(d, names)),
            orphans@.len() == dirs@.take(j as int).filter(orphan_pred).len(),
            forall|k: int|
                0 <= k < orphans@.len() ==> orphan_action_ok(
                    dirs@.take(j as int).filter(orphan_pred)[k],
                    #[trigger] orphans@[k],
                ),
            root@ == remove_mods(
                ensure_mods(root0, names),
                orphan_names(dirs@.take(j as int), names),
            ),
        decreases dirs@.len() - j,
    {
        let ghost before_flt = dirs@.take(j as int).filter(orphan_pred);
        let ghost before_names = orphan_names(dirs@.take(j as int), names);
        proof {
            lemma_filter_take_step(dirs@, orphan_pred, j as int);
        }
        let d = &dirs[j];
        let managed = match &d.generated {
            Some(g) => g.has_file_signature(),
            None => false,
        };
        let matched = ci_member(&expected, d.name.as_str());
        if managed && !matched {
            let (aggregator, mod_gone) = match &d.mod_file {
                Some(m) => {
                    let mut mm = m.duplicate();
                    mm.remove_mod_stmt("generated");
                    mm.remove_use_stmt("generated::*");
                    if mm.is_blank() {
                        (AggregatorAction::Delete, true)
                    } else {
                        (AggregatorAction::Rewrite(mm.to_text()), false)
                    }
                },
                None => (AggregatorAction::Keep, true),
            };
            let remove_dir = !d.has_other_entries && mod_gone;
            orphans.push(OrphanAction { name: d.name.clone(), aggregator, remove_dir });
            root.remove_mod_stmt(d.name.as_str());
            proof {
                assert(is_orphan(dirs@[j as int], names));
                assert(orphan_pred(dirs@[j as int]));
                let after_flt = dirs@.take(j as int + 1).filter(orphan_pred);
                assert(after_flt == before_flt.push(dirs@[j as int]));
                let after_names = orphan_names(dirs@.take(j as int + 1), names);
                assert(after_names =~= before_names.push(dirs@[j as int].name@));
                lemma_remove_mods_push(ensure_mods(root0, names), before_names, dirs@[j as int].name@);
                assert(orphan_action_ok(dirs@[j as int], orphans@[orphans@.len() - 1]));
                assert(forall|k: int|
                    0 <= k < before_flt.len() ==> after_flt[k] == #[trigger] before_flt[k]);
            }
        } else {
            proof {
                assert(!is_orphan(dirs@[j as int], names));
                assert(dirs@.take(j as int + 1).filter(orphan_pred) == before_flt);
                assert(orphan_names(dirs@.take(j as int + 1), names) =~= before_names);
            }
        }
        j = j + 1;
    }
    proof {
        assert(dirs@.take(dirs@.len() as int) =~= dirs@);
    }
    let root_mod_text = root.to_text();
    Plan { outputs, orphans, root_mod_text }
}

} // verus!
