//! Per-table generation options and the run-wide configuration.
//!
//! A `TableOptions` value is a bag of independently optional settings; a
//! `GenerationConfig` maps table names to such bags and supplies a default
//! bag. Resolution is field by field: an unset field falls back to the
//! default's field, never the whole bag at once.

use vstd::prelude::*;

verus! {

/// `a.or(b)` at the spec level: the first option if set, else the second.
pub open spec fn opt_or<T>(a: Option<T>, b: Option<T>) -> Option<T> {
    match a {
        Option::Some(x) => Option::Some(x),
        Option::None => b,
    }
}

/// A `bool` option resolved to its value, with `false` for unset.
pub open spec fn opt_bool(o: Option<bool>) -> bool {
    match o {
        Option::Some(b) => b,
        Option::None => false,
    }
}

/// Options for generating one table's code. Every field is optional so that
/// a per-table value can override any subset of the defaults.
#[derive(Debug, Clone)]
pub struct TableOptions {
    /// Skip this table entirely: no code is generated and any previously
    /// generated artifacts are treated as orphans.
    pub ignore: Option<bool>,
    /// Names of autogenerated columns (for example `created_at`) which are
    /// excluded from new-record representations but kept in full records.
    pub autogenerated_columns: Option<Vec<String>>,
    /// Mark generated structs for TypeScript-binding generation.
    pub tsync: Option<bool>,
    /// Generate asynchronous database accessors.
    pub use_async: Option<bool>,
}

/// The autogenerated-column list an options bag resolves to: the explicit
/// list if set, else empty.
pub open spec fn spec_autogenerated_columns(o: TableOptions) -> Seq<Seq<char>> {
    match o.autogenerated_columns {
        Option::Some(v) => v.deep_view(),
        Option::None => Seq::empty(),
    }
}

/// Field-by-field fallback: `r` has each field of `a` if set, else of `b`.
/// The column list is compared by contents, since it lives in a vector.
pub open spec fn resolves_to(a: TableOptions, b: TableOptions, r: TableOptions) -> bool {
    &&& r.ignore == opt_or(a.ignore, b.ignore)
    &&& r.tsync == opt_or(a.tsync, b.tsync)
    &&& r.use_async == opt_or(a.use_async, b.use_async)
    &&& r.autogenerated_columns.deep_view() == opt_or(
        a.autogenerated_columns,
        b.autogenerated_columns,
    ).deep_view()
}

impl Default for TableOptions {
    /// The bag with nothing set, as `unset` builds it.
    fn default() -> (r: Self)
        ensures
            r.ignore is None,
            r.autogenerated_columns is None,
            r.tsync is None,
            r.use_async is None,
    {
        TableOptions::unset()
    }
}

impl TableOptions {
    /// An options bag with nothing set: every field falls back to defaults.
    pub fn unset() -> (r: TableOptions)
        ensures
            r.ignore is None,
            r.autogenerated_columns is None,
            r.tsync is None,
            r.use_async is None,
    {
        TableOptions { ignore: None, autogenerated_columns: None, tsync: None, use_async: None }
    }

    pub fn get_ignore(&self) -> (r: bool)
        ensures
            r == opt_bool(self.ignore),
    {
        match self.ignore {
            Some(b) => b,
            None => false,
        }
    }

    pub fn get_tsync(&self) -> (r: bool)
        ensures
            r == opt_bool(self.tsync),
    {
        match self.tsync {
            Some(b) => b,
            None => false,
        }
    }

    pub fn get_async(&self) -> (r: bool)
        ensures
            r == opt_bool(self.use_async),
    {
        match self.use_async {
            Some(b) => b,
            None => false,
        }
    }

    pub fn get_autogenerated_columns(&self) -> (r: Vec<String>)
        ensures
            r.deep_view() == spec_autogenerated_columns(*self),
    {
        match &self.autogenerated_columns {
            Some(v) => clone_string_vec(v),
            None => Vec::new(),
        }
    }

    /// Builder: returns `self` with the ignore flag set.
    pub fn ignore(self) -> (r: Self)
        ensures
            r.ignore == Option::Some(true),
            r.autogenerated_columns == self.autogenerated_columns,
            r.tsync == self.tsync,
            r.use_async == self.use_async,
    {
        Self { ignore: Some(true), ..self }
    }

    /// Builder: returns `self` with the tsync flag set.
    pub fn tsync(self) -> (r: Self)
        ensures
            r.tsync == Option::Some(true),
            r.ignore == self.ignore,
            r.autogenerated_columns == self.autogenerated_columns,
            r.use_async == self.use_async,
    {
        Self { tsync: Some(true), ..self }
    }

    /// Builder: returns `self` with the async flag set.
    pub fn use_async(self) -> (r: Self)
        ensures
            r.use_async == Option::Some(true),
            r.ignore == self.ignore,
            r.autogenerated_columns == self.autogenerated_columns,
            r.tsync == self.tsync,
    {
        Self { use_async: Some(true), ..self }
    }

    /// Builder: returns `self` with the autogenerated-column list set.
    pub fn autogenerated_columns(self, cols: Vec<String>) -> (r: Self)
        ensures
            r.autogenerated_columns == Option::Some(cols),
            r.ignore == self.ignore,
            r.tsync == self.tsync,
            r.use_async == self.use_async,
    {
        Self { autogenerated_columns: Some(cols), ..self }
    }

    /// Fills any unset field with the corresponding field of `other`.
    pub fn apply_defaults(&self, other: &TableOptions) -> (r: Self)
        ensures
            resolves_to(*self, *other, r),
    {
        Self {
            ignore: match self.ignore {
                Some(b) => Some(b),
                None => other.ignore,
            },
            autogenerated_columns: match &self.autogenerated_columns {
                Some(v) => Some(clone_string_vec(v)),
                None => match &other.autogenerated_columns {
                    Some(v) => Some(clone_string_vec(v)),
                    None => None,
                },
            },
            tsync: match self.tsync {
                Some(b) => Some(b),
                None => other.tsync,
            },
            use_async: match self.use_async {
                Some(b) => Some(b),
                None => other.use_async,
            },
        }
    }
}

/// An element-wise copy of a vector of strings, equal to its source.
pub fn clone_string_vec(v: &Vec<String>) -> (r: Vec<String>)
    ensures
        r@ == v@,
        r.deep_view() == v.deep_view(),
{
    let mut out: Vec<String> = Vec::new();
    let mut i: usize = 0;
    while i < v.len()
        invariant
            i <= v.len(),
            out@ == v@.subrange(0, i as int),
        decreases v.len() - i,
    {
        out.push(v[i].clone());
        i = i + 1;
    }
    proof {
        assert(out@ =~= v@);
        assert(out.deep_view() =~= v.deep_view());
    }
    out
}

/// The whole run's configuration: per-table options, a default options bag,
/// and the name of the database-connection type, carried for emission
/// templates outside this library's scope.
#[derive(Debug, Clone)]
pub struct GenerationConfig {
    /// Table name to options. Unlike a map, the list admits a repeated
    /// name; lookup takes the first match, so a later entry for the same
    /// name has no effect.
    pub table_options: Vec<(String, TableOptions)>,
    pub default_table_options: TableOptions,
    pub connection_type: String,
}

/// The first options bag paired with `name`, if any.
pub open spec fn spec_lookup(m: Seq<(String, TableOptions)>, name: Seq<char>) -> Option<
    TableOptions,
>
    decreases m.len(),
{
    if m.len() == 0 {
        Option::None
    } else if m[0].0@ == name {
        Option::Some(m[0].1)
    } else {
        spec_lookup(m.skip(1), name)
    }
}

/// The options bag a name selects before defaults are applied: the table's
/// own entry if present, else the default bag itself.
pub open spec fn spec_selected(c: GenerationConfig, name: Seq<char>) -> TableOptions {
    match spec_lookup(c.table_options@, name) {
        Option::Some(t) => t,
        Option::None => c.default_table_options,
    }
}

/// The effective ignore flag for a table, after field-level fallback.
pub open spec fn resolved_ignore(c: GenerationConfig, name: Seq<char>) -> bool {
    opt_bool(opt_or(spec_selected(c, name).ignore, c.default_table_options.ignore))
}

/// The effective tsync flag for a table, after field-level fallback.
pub open spec fn resolved_tsync(c: GenerationConfig, name: Seq<char>) -> bool {
    opt_bool(opt_or(spec_selected(c, name).tsync, c.default_table_options.tsync))
}

/// The effective autogenerated-column list for a table, after
/// field-level fallback; empty when neither bag sets one.
pub open spec fn resolved_auto(c: GenerationConfig, name: Seq<char>) -> Seq<Seq<char>> {
    match opt_or(
        spec_selected(c, name).autogenerated_columns,
        c.default_table_options.autogenerated_columns,
    ) {
        Option::Some(v) => v.deep_view(),
        Option::None => Seq::empty(),
    }
}

impl GenerationConfig {
    /// The effective options for table `name`. Total: every name resolves,
    /// falling back to the default options where no entry or field is set.
    pub fn table(&self, name: &str) -> (r: TableOptions)
        ensures
            resolves_to(spec_selected(*self, name@), self.default_table_options, r),
    {
        proof {
            assert(self.table_options@.skip(0) =~= self.table_options@);
        }
        let mut i: usize = 0;
        while i < self.table_options.len()
            invariant
                i <= self.table_options.len(),
                spec_lookup(self.table_options@, name@) == spec_lookup(
                    self.table_options@.skip(i as int),
                    name@,
                ),
            decreases self.table_options.len() - i,
        {
            if str_eq(self.table_options[i].0.as_str(), name) {
                proof {
                    assert(self.table_options@.skip(i as int)[0] == self.table_options@[i as int]);
                }
                return self.table_options[i].1.apply_defaults(&self.default_table_options);
            }
            proof {
                assert(self.table_options@.skip(i as int).skip(1) =~= self.table_options@.skip(
                    i as int + 1,
                ));
                assert(self.table_options@.skip(i as int)[0] == self.table_options@[i as int]);
            }
            i = i + 1;
        }
        proof {
            assert(self.table_options@.skip(i as int).len() == 0);
        }
        self.default_table_options.apply_defaults(&self.default_table_options)
    }
}

/// An options bag resolved against the defaults answers each getter with
/// the effective, fallback-applied value.
pub proof fn lemma_resolved_options(c: GenerationConfig, name: Seq<char>, r: TableOptions)
    requires
        resolves_to(spec_selected(c, name), c.default_table_options, r),
    ensures
        opt_bool(r.ignore) == resolved_ignore(c, name),
        opt_bool(r.tsync) == resolved_tsync(c, name),
        spec_autogenerated_columns(r) == resolved_auto(c, name),
{
    let merged = opt_or(
        spec_selected(c, name).autogenerated_columns,
        c.default_table_options.autogenerated_columns,
    );
    match merged {
        Option::Some(w) => {
            assert(r.autogenerated_columns.deep_view() == Option::Some(w.deep_view()));
            match r.autogenerated_columns {
                Option::Some(v) => {
                    assert(v.deep_view() == w.deep_view());
                },
                Option::None => {
                    assert(false);
                },
            }
        },
        Option::None => {
            match r.autogenerated_columns {
                Option::Some(v) => {
                    assert(false);
                },
                Option::None => {},
            }
        },
    }
}

/// Two string slices are equal exactly when their character sequences
/// are.
pub fn str_eq(a: &str, b: &str) -> (r: bool)
    ensures
        r == (a@ == b@),
{
    let va = crate::text::str_to_chars(a);
    let vb = crate::text::str_to_chars(b);
    crate::text::chars_eq(&va, &vb)
}

} // verus!
