//! Character-level text utilities: conversions between strings and character
//! vectors, whitespace trimming, ASCII case folding, and splitting a file's
//! text into lines (and joining it back, losslessly).

use vstd::prelude::*;

verus! {

/// Relies on `str::chars`: iterating a string slice yields exactly the
/// characters of its view, in order.
#[verifier::external_body]
pub fn str_to_chars(s: &str) -> (r: Vec<char>)
    ensures
        r@ == s@,
{
    s.chars().collect()
}

/// Relies on `FromIterator<char> for String`: collecting characters builds
/// the string with exactly those characters, in order.
#[verifier::external_body]
pub fn chars_to_string(v: &Vec<char>) -> (r: String)
    ensures
        r@ == v@,
{
    v.iter().collect()
}

/// Horizontal whitespace, for the purpose of recognizing generator-owned
/// lines under cosmetic formatting differences.
pub open spec fn is_space(c: char) -> bool {
    c == ' ' || c == '\t' || c == '\r'
}

pub fn is_space_exec(c: char) -> (r: bool)
    ensures
        r == is_space(c),
{
    c == ' ' || c == '\t' || c == '\r'
}

/// The sequence with leading whitespace removed.
pub open spec fn trim_start_spec(s: Seq<char>) -> Seq<char>
    decreases s.len(),
{
    if s.len() > 0 && is_space(s[0]) {
        trim_start_spec(s.skip(1))
    } else {
        s
    }
}

/// The sequence with trailing whitespace removed.
pub open spec fn trim_end_spec(s: Seq<char>) -> Seq<char>
    decreases s.len(),
{
    if s.len() > 0 && is_space(s[s.len() - 1]) {
        trim_end_spec(s.drop_last())
    } else {
        s
    }
}

/// The sequence with whitespace removed from both ends.
pub open spec fn trim_spec(s: Seq<char>) -> Seq<char> {
    trim_end_spec(trim_start_spec(s))
}

/// Dropping a known-blank prefix is what `trim_start_spec` does.
pub proof fn lemma_trim_start_skip(s: Seq<char>, k: int)
    requires
        0 <= k <= s.len(),
        forall|i: int| 0 <= i < k ==> is_space(s[i]),
        k == s.len() || !is_space(s[k]),
    ensures
        trim_start_spec(s) == s.skip(k),
    decreases k,
{
    if k == 0 {
        assert(s.skip(0) =~= s);
    } else {
        assert(is_space(s[0]));
        assert(s.len() > 0);
        let t = s.skip(1);
        assert(forall|i: int| 0 <= i < k - 1 ==> is_space(#[trigger] t[i]));
        assert(k - 1 == t.len() || !is_space(t[k - 1]));
        lemma_trim_start_skip(t, k - 1);
        assert(t.skip(k - 1) =~= s.skip(k));
    }
}

/// Keeping a known-blank-free-tail prefix is what `trim_end_spec` does.
proof fn lemma_trim_end_take(s: Seq<char>, k: int)
    requires
        0 <= k <= s.len(),
        forall|i: int| k <= i < s.len() ==> is_space(s[i]),
        k == 0 || !is_space(s[k - 1]),
    ensures
        trim_end_spec(s) == s.take(k),
    decreases s.len() - k,
{
    if k == s.len() {
        if s.len() > 0 && is_space(s[s.len() - 1]) {
            assert(!is_space(s[k - 1]));
        }
        assert(s.take(k) =~= s);
    } else {
        assert(is_space(s[s.len() - 1]));
        let t = s.drop_last();
        assert(forall|i: int| k <= i < t.len() ==> is_space(#[trigger] t[i]));
        lemma_trim_end_take(t, k);
        assert(t.take(k) =~= s.take(k));
    }
}

/// A sequence whose two ends are not whitespace trims to itself.
pub proof fn lemma_trim_nonblank_ends(s: Seq<char>)
    requires
        s.len() > 0,
        !is_space(s[0]),
        !is_space(s[s.len() - 1]),
    ensures
        trim_spec(s) == s,
{
    lemma_trim_start_skip(s, 0);
    assert(s.skip(0) =~= s);
    lemma_trim_end_take(s, s.len() as int);
    assert(s.take(s.len() as int) =~= s);
}

/// Whitespace trimmed from both ends of a character vector.
pub fn trim_chars(v: &Vec<char>) -> (r: Vec<char>)
    ensures
        r@ == trim_spec(v@),
{
    let mut start: usize = 0;
    while start < v.len() && is_space_exec(v[start])
        invariant
            start <= v.len(),
            forall|i: int| 0 <= i < start ==> is_space(v@[i]),
        decreases v.len() - start,
    {
        start = start + 1;
    }
    proof {
        lemma_trim_start_skip(v@, start as int);
    }
    let ghost t = v@.skip(start as int);
    let mut end: usize = v.len();
    while end > start && is_space_exec(v[end - 1])
        invariant
            start <= end <= v.len(),
            forall|i: int| end <= i < v.len() ==> is_space(v@[i]),
        decreases end,
    {
        end = end - 1;
    }
    proof {
        assert(forall|i: int| end - start <= i < t.len() ==> is_space(#[trigger] t[i]));
        assert(end - start == 0 || !is_space(t[end - start - 1]));
        lemma_trim_end_take(t, end - start);
    }
    let mut out: Vec<char> = Vec::new();
    let mut i: usize = start;
    while i < end
        invariant
            start <= i <= end <= v.len(),
            out@ == v@.subrange(start as int, i as int),
        decreases end - i,
    {
        out.push(v[i]);
        i = i + 1;
    }
    proof {
        assert(out@ =~= t.take(end - start));
    }
    out
}

/// Element-wise equality of two character vectors.
pub fn chars_eq(a: &Vec<char>, b: &Vec<char>) -> (r: bool)
    ensures
        r == (a@ == b@),
{
    if a.len() != b.len() {
        return false;
    }
    let mut i: usize = 0;
    while i < a.len()
        invariant
            i <= a.len(),
            a.len() == b.len(),
            forall|j: int| 0 <= j < i ==> a@[j] == b@[j],
        decreases a.len() - i,
    {
        if a[i] != b[i] {
            return false;
        }
        i = i + 1;
    }
    proof {
        assert(a@ =~= b@);
    }
    true
}

/// An ASCII capital letter folded to its small form; all else unchanged.
pub open spec fn lower_char(c: char) -> char {
    if 'A' <= c && c <= 'Z' {
        ((c as u32) + 32) as char
    } else {
        c
    }
}

/// A character sequence folded to ASCII lower case.
pub open spec fn lower_seq(s: Seq<char>) -> Seq<char> {
    Seq::new(s.len(), |i: int| lower_char(s[i]))
}

pub fn lower_char_exec(c: char) -> (r: char)
    ensures
        r == lower_char(c),
{
    if 'A' <= c && c <= 'Z' {
        (((c as u32) + 32) as u8) as char
    } else {
        c
    }
}

/// True exactly when the two vectors are equal up to ASCII case.
pub fn eq_ignore_case(a: &Vec<char>, b: &Vec<char>) -> (r: bool)
    ensures
        r == (lower_seq(a@) == lower_seq(b@)),
{
    proof {
        assert(lower_seq(a@).len() == a@.len());
        assert(lower_seq(b@).len() == b@.len());
    }
    if a.len() != b.len() {
        return false;
    }
    let mut i: usize = 0;
    while i < a.len()
        invariant
            i <= a.len(),
            a.len() == b.len(),
            forall|j: int| 0 <= j < i ==> lower_char(a@[j]) == lower_char(b@[j]),
        decreases a.len() - i,
    {
        if lower_char_exec(a[i]) != lower_char_exec(b[i]) {
            proof {
                assert(lower_seq(a@)[i as int] == lower_char(a@[i as int]));
                assert(lower_seq(b@)[i as int] == lower_char(b@[i as int]));
            }
            return false;
        }
        i = i + 1;
    }
    proof {
        assert(lower_seq(a@) =~= lower_seq(b@));
    }
    true
}

/// The lines of a text: maximal runs of characters between newline
/// characters. A text of `n` newlines has `n + 1` lines; the newlines
/// themselves belong to no line, so joining the lines back with newlines
/// restores the text exactly.
pub open spec fn split_lines_spec(s: Seq<char>) -> Seq<Seq<char>>
    decreases s.len(),
{
    if s.len() == 0 {
        seq![Seq::empty()]
    } else if s[0] == '\n' {
        seq![Seq::empty()] + split_lines_spec(s.skip(1))
    } else {
        let rest = split_lines_spec(s.skip(1));
        seq![seq![s[0]] + rest[0]] + rest.skip(1)
    }
}

/// A split always yields at least one line.
pub proof fn lemma_split_nonempty(s: Seq<char>)
    ensures
        split_lines_spec(s).len() >= 1,
    decreases s.len(),
{
    if s.len() > 0 {
        lemma_split_nonempty(s.skip(1))
    }
}

/// The text whose lines are `lines`, joined with newlines.
pub open spec fn join_lines_spec(lines: Seq<Seq<char>>) -> Seq<char>
    decreases lines.len(),
{
    if lines.len() == 0 {
        Seq::empty()
    } else if lines.len() == 1 {
        lines[0]
    } else {
        lines[0] + seq!['\n'] + join_lines_spec(lines.skip(1))
    }
}

/// Appending one more line to a join adds one separator and the line.
pub proof fn lemma_join_push(lines: Seq<Seq<char>>, x: Seq<char>)
    ensures
        join_lines_spec(lines.push(x)) == if lines.len() == 0 {
            x
        } else {
            join_lines_spec(lines) + seq!['\n'] + x
        },
    decreases lines.len(),
{
    let p = lines.push(x);
    if lines.len() == 0 {
        assert(p.len() == 1);
        assert(p[0] == x);
    } else if lines.len() == 1 {
        assert(p.len() == 2);
        assert(p.skip(1) =~= seq![x]);
        assert(join_lines_spec(p) == p[0] + seq!['\n'] + join_lines_spec(seq![x]));
        assert(join_lines_spec(seq![x]) == x);
    } else {
        lemma_join_push(lines.skip(1), x);
        assert(p.skip(1) =~= lines.skip(1).push(x));
        assert(join_lines_spec(p) == p[0] + seq!['\n'] + join_lines_spec(lines.skip(1).push(x)));
        assert(lines[0] + seq!['\n'] + (join_lines_spec(lines.skip(1)) + seq!['\n'] + x) =~= (
        lines[0] + seq!['\n'] + join_lines_spec(lines.skip(1))) + seq!['\n'] + x);
    }
}

/// Splitting and rejoining a text restores it exactly: no character is
/// lost or added by the line-oriented view of a file.
pub proof fn lemma_join_split(s: Seq<char>)
    ensures
        join_lines_spec(split_lines_spec(s)) == s,
    decreases s.len(),
{
    if s.len() == 0 {
        assert(split_lines_spec(s) == seq![Seq::<char>::empty()]);
    } else if s[0] == '\n' {
        let rest = split_lines_spec(s.skip(1));
        lemma_split_nonempty(s.skip(1));
        lemma_join_split(s.skip(1));
        let parts = seq![Seq::<char>::empty()] + rest;
        assert(parts.len() >= 2);
        assert(parts.skip(1) =~= rest);
        assert(parts[0] =~= Seq::<char>::empty());
        assert(join_lines_spec(parts) == parts[0] + seq!['\n'] + join_lines_spec(rest));
        assert(parts[0] + seq!['\n'] + s.skip(1) =~= s);
    } else {
        let rest = split_lines_spec(s.skip(1));
        lemma_split_nonempty(s.skip(1));
        lemma_join_split(s.skip(1));
        let parts = seq![seq![s[0]] + rest[0]] + rest.skip(1);
        if rest.len() == 1 {
            assert(parts.len() == 1);
            assert(join_lines_spec(parts) == seq![s[0]] + rest[0]);
            assert(join_lines_spec(rest) == rest[0]);
            assert(seq![s[0]] + rest[0] =~= s);
        } else {
            assert(parts.len() >= 2);
            assert(parts.skip(1) =~= rest.skip(1));
            assert(join_lines_spec(parts) == parts[0] + seq!['\n'] + join_lines_spec(
                rest.skip(1),
            ));
            assert(join_lines_spec(rest) == rest[0] + seq!['\n'] + join_lines_spec(rest.skip(1)));
            assert((seq![s[0]] + rest[0]) + seq!['\n'] + join_lines_spec(rest.skip(1)) =~= seq![
                s[0],
            ] + (rest[0] + seq!['\n'] + join_lines_spec(rest.skip(1))));
            assert(seq![s[0]] + s.skip(1) =~= s);
        }
    }
}

/// Filtering an empty sequence leaves an empty sequence.
pub proof fn lemma_filter_empty<A>(pred: spec_fn(A) -> bool)
    ensures
        Seq::<A>::empty().filter(pred) == Seq::<A>::empty(),
{
    reveal(Seq::filter);
}

/// One step of a left-to-right filter: extending the prefix by one element
/// appends it to the filtered prefix exactly when it satisfies the
/// predicate.
pub proof fn lemma_filter_take_step<A>(s: Seq<A>, pred: spec_fn(A) -> bool, i: int)
    requires
        0 <= i < s.len(),
    ensures
        s.take(i + 1).filter(pred) == if pred(s[i]) {
            s.take(i).filter(pred).push(s[i])
        } else {
            s.take(i).filter(pred)
        },
{
    reveal(Seq::filter);
    assert(s.take(i + 1).drop_last() =~= s.take(i));
    assert(s.take(i + 1).last() == s[i]);
}

/// Filtering keeps only original elements, so a property of every
/// element survives a filter.
pub proof fn lemma_filter_preserves_all<A>(
    s: Seq<A>,
    pred: spec_fn(A) -> bool,
    prop: spec_fn(A) -> bool,
)
    requires
        forall|i: int| 0 <= i < s.len() ==> prop(#[trigger] s[i]),
    ensures
        forall|i: int| 0 <= i < s.filter(pred).len() ==> prop(#[trigger] s.filter(pred)[i]),
    decreases s.len(),
{
    reveal(Seq::filter);
    if s.len() > 0 {
        assert(forall|i: int| 0 <= i < s.drop_last().len() ==> prop(#[trigger] s.drop_last()[i]));
        lemma_filter_preserves_all(s.drop_last(), pred, prop);
        let f = s.filter(pred);
        let g = s.drop_last().filter(pred);
        if pred(s.last()) {
            assert(f == g.push(s.last()));
            assert(forall|i: int| 0 <= i < g.len() ==> f[i] == #[trigger] g[i]);
            assert(prop(f[f.len() - 1]));
        }
    }
}

/// A filter that keeps every element is the identity.
pub proof fn lemma_filter_all<A>(s: Seq<A>, pred: spec_fn(A) -> bool)
    requires
        forall|i: int| 0 <= i < s.len() ==> pred(s[i]),
    ensures
        s.filter(pred) == s,
    decreases s.len(),
{
    reveal(Seq::filter);
    if s.len() > 0 {
        assert(forall|i: int| 0 <= i < s.drop_last().len() ==> pred(#[trigger] s.drop_last()[i]));
        lemma_filter_all(s.drop_last(), pred);
        assert(s.drop_last().push(s.last()) =~= s);
    }
}

/// A sequence with no newline character: one line of a file.
pub open spec fn no_newline(s: Seq<char>) -> bool {
    forall|i: int| 0 <= i < s.len() ==> s[i] != '\n'
}

/// Splitting a text that starts with a newline-free prefix followed by a
/// newline yields that prefix as the first line, followed by the split of
/// the remainder.
pub proof fn lemma_split_first_line(p: Seq<char>, rest: Seq<char>)
    requires
        no_newline(p),
    ensures
        split_lines_spec(p + seq!['\n'] + rest).len() >= 2,
        split_lines_spec(p + seq!['\n'] + rest)[0] == p,
        split_lines_spec(p + seq!['\n'] + rest) == seq![p] + split_lines_spec(rest),
    decreases p.len(),
{
    let s = p + seq!['\n'] + rest;
    lemma_split_nonempty(rest);
    if p.len() == 0 {
        assert(s[0] == '\n');
        assert(s.skip(1) =~= rest);
        assert(split_lines_spec(s) == seq![Seq::<char>::empty()] + split_lines_spec(rest));
        assert(split_lines_spec(s)[0] =~= p);
        assert(seq![Seq::<char>::empty()] =~= seq![p]);
    } else {
        assert(s[0] == p[0]);
        assert(s[0] != '\n');
        let p2 = p.skip(1);
        assert(forall|i: int| 0 <= i < p2.len() ==> p2[i] != '\n');
        lemma_split_first_line(p2, rest);
        assert(s.skip(1) =~= p2 + seq!['\n'] + rest);
        let inner = split_lines_spec(p2 + seq!['\n'] + rest);
        assert(split_lines_spec(s) == seq![seq![s[0]] + inner[0]] + inner.skip(1));
        assert(seq![s[0]] + p2 =~= p);
        assert(inner.skip(1) =~= split_lines_spec(rest));
        assert(split_lines_spec(s) =~= seq![p] + split_lines_spec(rest));
    }
}

/// A newline-free text is one line.
pub proof fn lemma_split_single(s: Seq<char>)
    requires
        no_newline(s),
    ensures
        split_lines_spec(s) == seq![s],
    decreases s.len(),
{
    if s.len() == 0 {
        assert(s =~= Seq::<char>::empty());
        assert(seq![Seq::<char>::empty()] =~= seq![s]);
    } else {
        assert(s[0] != '\n');
        let p2 = s.skip(1);
        assert(forall|i: int| 0 <= i < p2.len() ==> p2[i] != '\n');
        lemma_split_single(p2);
        let rest = split_lines_spec(p2);
        assert(rest[0] == p2);
        assert(rest.skip(1) =~= Seq::<Seq<char>>::empty());
        assert(split_lines_spec(s) == seq![seq![s[0]] + p2] + rest.skip(1));
        assert(seq![s[0]] + p2 =~= s);
        assert(seq![seq![s[0]] + p2] + rest.skip(1) =~= seq![s]);
    }
}

/// Every line a split produces is newline-free.
pub proof fn lemma_split_lines_no_newline(s: Seq<char>)
    ensures
        forall|k: int|
            0 <= k < split_lines_spec(s).len() ==> no_newline(#[trigger] split_lines_spec(s)[k]),
    decreases s.len(),
{
    if s.len() == 0 {
    } else if s[0] == '\n' {
        lemma_split_lines_no_newline(s.skip(1));
        let parts = split_lines_spec(s);
        let rest = split_lines_spec(s.skip(1));
        assert(forall|k: int| 1 <= k < parts.len() ==> parts[k] == #[trigger] rest[k - 1]);
        assert(parts[0] =~= Seq::<char>::empty());
        assert(no_newline(parts[0]));
    } else {
        lemma_split_lines_no_newline(s.skip(1));
        lemma_split_nonempty(s.skip(1));
        let parts = split_lines_spec(s);
        let rest = split_lines_spec(s.skip(1));
        assert(parts[0] == seq![s[0]] + rest[0]);
        assert(no_newline(rest[0]));
        assert(no_newline(parts[0])) by {
            assert(forall|i: int| 1 <= i < parts[0].len() ==> parts[0][i] == rest[0][i - 1]);
            assert(parts[0][0] == s[0]);
        }
        assert(forall|k: int| 1 <= k < parts.len() ==> parts[k] == #[trigger] rest.skip(1)[k - 1]);
        assert(forall|k: int|
            0 <= k < rest.skip(1).len() ==> rest.skip(1)[k] == #[trigger] rest[k + 1]);
    }
}

/// Joining newline-free lines and splitting the result restores the
/// lines exactly: what a run writes line by line, a later run reads back
/// line by line.
pub proof fn lemma_split_join_inverse(lines: Seq<Seq<char>>)
    requires
        lines.len() >= 1,
        forall|k: int| 0 <= k < lines.len() ==> no_newline(#[trigger] lines[k]),
    ensures
        split_lines_spec(join_lines_spec(lines)) == lines,
    decreases lines.len(),
{
    if lines.len() == 1 {
        lemma_split_single(lines[0]);
        assert(join_lines_spec(lines) == lines[0]);
        assert(seq![lines[0]] =~= lines);
    } else {
        assert(join_lines_spec(lines) == lines[0] + seq!['\n'] + join_lines_spec(lines.skip(1)));
        assert(forall|k: int|
            0 <= k < lines.skip(1).len() ==> no_newline(#[trigger] lines.skip(1)[k])) by {
            assert(forall|k: int|
                0 <= k < lines.skip(1).len() ==> lines.skip(1)[k] == #[trigger] lines[k + 1]);
        }
        lemma_split_join_inverse(lines.skip(1));
        lemma_split_first_line(lines[0], join_lines_spec(lines.skip(1)));
        assert(seq![lines[0]] + lines.skip(1) =~= lines);
    }
}

/// The first line of a split extended on the left by a newline-free prefix.
pub open spec fn prepend_first(p: Seq<char>, lines: Seq<Seq<char>>) -> Seq<Seq<char>> {
    seq![p + lines[0]] + lines.skip(1)
}

/// A text split at its newlines, one vector per line.
pub fn split_lines(v: &Vec<char>) -> (r: Vec<Vec<char>>)
    ensures
        r.deep_view() == split_lines_spec(v@),
        r.len() >= 1,
{
    let mut out: Vec<Vec<char>> = Vec::new();
    let mut cur: Vec<char> = Vec::new();
    let mut i: usize = 0;
    let ghost full = v@;
    proof {
        lemma_split_nonempty(full);
        assert(full.skip(0) =~= full);
        assert(prepend_first(Seq::empty(), split_lines_spec(full)) =~= split_lines_spec(full)) by {
            assert(Seq::<char>::empty() + split_lines_spec(full)[0] =~= split_lines_spec(full)[0]);
        }
    }
    while i < v.len()
        invariant
            i <= v.len(),
            full == v@,
            split_lines_spec(full) == out.deep_view() + prepend_first(
                cur@,
                split_lines_spec(full.skip(i as int)),
            ),
        decreases v.len() - i,
    {
        let ghost pre_out = out.deep_view();
        let ghost pre_cur = cur@;
        let ghost tail = full.skip(i as int);
        let ghost tail2 = full.skip(i as int + 1);
        proof {
            assert(tail.len() > 0);
            assert(tail[0] == full[i as int]);
            assert(tail.skip(1) =~= tail2);
            lemma_split_nonempty(tail2);
        }
        if v[i] == '\n' {
            out.push(cur);
            cur = Vec::new();
            proof {
                let s2 = split_lines_spec(tail2);
                assert(split_lines_spec(tail) == seq![Seq::<char>::empty()] + s2);
                assert(prepend_first(pre_cur, seq![Seq::<char>::empty()] + s2) =~= seq![pre_cur]
                    + s2) by {
                    assert((seq![Seq::<char>::empty()] + s2)[0] =~= Seq::<char>::empty());
                    assert(pre_cur + (seq![Seq::<char>::empty()] + s2)[0] =~= pre_cur);
                    assert((seq![Seq::<char>::empty()] + s2).skip(1) =~= s2);
                }
                assert(out.deep_view() =~~= pre_out + seq![pre_cur]);
                assert(prepend_first(cur@, s2) =~= s2) by {
                    assert(cur@ + s2[0] =~= s2[0]);
                    assert(seq![s2[0]] + s2.skip(1) =~= s2);
                }
                assert((pre_out + seq![pre_cur]) + s2 =~= pre_out + (seq![pre_cur] + s2));
            }
        } else {
            let c = v[i];
            cur.push(c);
            proof {
                let s2 = split_lines_spec(tail2);
                assert(split_lines_spec(tail) == seq![seq![full[i as int]] + s2[0]] + s2.skip(1));
                assert(prepend_first(pre_cur, split_lines_spec(tail)) =~= prepend_first(
                    cur@,
                    s2,
                )) by {
                    assert((seq![seq![full[i as int]] + s2[0]] + s2.skip(1))[0] == seq![
                        full[i as int],
                    ] + s2[0]);
                    assert(pre_cur + (seq![full[i as int]] + s2[0]) =~= (pre_cur.push(
                        full[i as int],
                    )) + s2[0]);
                    assert(cur@ =~= pre_cur.push(full[i as int]));
                    assert((seq![seq![full[i as int]] + s2[0]] + s2.skip(1)).skip(1) =~= s2.skip(
                        1,
                    ));
                }
            }
        }
        i = i + 1;
    }
    proof {
        assert(full.skip(i as int) =~= Seq::empty());
        assert(split_lines_spec(Seq::<char>::empty()) == seq![Seq::<char>::empty()]);
        assert(prepend_first(cur@, seq![Seq::<char>::empty()]) =~= seq![cur@]) by {
            assert(cur@ + Seq::<char>::empty() =~= cur@);
            assert((seq![Seq::<char>::empty()]).skip(1) =~= Seq::<Seq<char>>::empty());
        }
    }
    let ghost pre_out = out.deep_view();
    let ghost last = cur@;
    out.push(cur);
    proof {
        assert(out.deep_view() =~~= pre_out + seq![last]);
        assert(out.deep_view() =~~= split_lines_spec(full));
    }
    out
}

/// The lines joined back into one text with newline separators.
pub fn join_lines(lines: &Vec<Vec<char>>) -> (r: Vec<char>)
    ensures
        r@ == join_lines_spec(lines.deep_view()),
{
    let mut out: Vec<char> = Vec::new();
    let mut i: usize = 0;
    proof {
        assert(lines.deep_view().take(0) =~= Seq::<Seq<char>>::empty());
    }
    while i < lines.len()
        invariant
            i <= lines.len(),
            out@ == join_lines_spec(lines.deep_view().take(i as int)),
        decreases lines.len() - i,
    {
        let ghost pre = out@;
        if i > 0 {
            out.push('\n');
        }
        let mut j: usize = 0;
        let ghost mid = out@;
        let line = &lines[i];
        while j < line.len()
            invariant
                j <= line.len(),
                i < lines.len(),
                line == &lines[i as int],
                out@ == mid + line@.take(j as int),
            decreases line.len() - j,
        {
            let ghost before = out@;
            out.push(line[j]);
            proof {
                assert(line@.take(j as int).push(line@[j as int]) =~= line@.take(j as int + 1));
                assert(before.push(line@[j as int]) =~= mid + line@.take(j as int + 1));
            }
            j = j + 1;
        }
        proof {
            let dv = lines.deep_view();
            assert(line@.take(line@.len() as int) =~= line@);
            assert(dv[i as int] == line@);
            assert(dv.take(i as int + 1) =~= dv.take(i as int).push(dv[i as int]));
            lemma_join_push(dv.take(i as int), dv[i as int]);
            if i == 0 {
                assert(pre =~= Seq::<char>::empty());
                assert(mid == pre);
                assert(out@ =~= line@);
            } else {
                assert(dv.take(i as int).len() > 0);
                assert(mid =~= pre + seq!['\n']);
                assert(out@ =~= (pre + seq!['\n']) + line@);
                assert((pre + seq!['\n']) + line@ =~= pre + seq!['\n'] + line@);
            }
        }
        i = i + 1;
    }
    proof {
        assert(lines.deep_view().take(i as int) =~= lines.deep_view());
    }
    out
}

} // verus!
