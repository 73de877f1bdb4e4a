//! The marked file: an in-memory, line-oriented editor for files that mix
//! generator-owned lines with hand-written content.
//!
//! A file is either fully owned by the generator — it carries the ownership
//! signature and may be regenerated or deleted wholesale — or partially
//! owned: the generator may only add or remove its own module and re-export
//! lines, recognized structurally, and must leave every other line alone.
//! Reading a file from disk and persisting the edited buffer are the
//! caller's business; everything here is a pure text transform.

use vstd::prelude::*;
use crate::text::chars_eq;
use crate::text::chars_to_string;
use crate::text::is_space;
use crate::text::is_space_exec;
use crate::text::lemma_trim_start_skip;
use crate::text::trim_start_spec;
use crate::text::join_lines;
use crate::text::lemma_filter_all;
use crate::text::lemma_filter_preserves_all;
use crate::text::lemma_filter_empty;
use crate::text::lemma_filter_take_step;
use crate::text::join_lines_spec;
use crate::text::lemma_trim_nonblank_ends;
use crate::text::split_lines;
use crate::text::split_lines_spec;
use crate::text::str_to_chars;
use crate::text::trim_chars;
use crate::text::trim_spec;

verus! {

/// The ownership signature: a file that begins with this line is wholly
/// generator-owned and safe to regenerate or delete.
pub const FILE_SIGNATURE: &'static str = "/* @generated and managed by dsync */";

/// The signature as a character sequence.
pub open spec fn signature_text() -> Seq<char> {
    "/* @generated and managed by dsync */"@
}

/// `pub mod <name>;` — the canonical module line the generator writes.
pub open spec fn mod_line_pub(name: Seq<char>) -> Seq<char> {
    "pub mod "@ + name + ";"@
}

/// `pub use <name>;` — the canonical re-export line the generator writes.
pub open spec fn use_line_pub(name: Seq<char>) -> Seq<char> {
    "pub use "@ + name + ";"@
}

/// The remainder of `s` after a leading keyword `w` followed by at least
/// one whitespace character, that whitespace removed; nothing when `s`
/// does not open with the keyword as its own word.
pub open spec fn strip_kw(s: Seq<char>, w: Seq<char>) -> Option<Seq<char>> {
    if s.len() > w.len() && s.take(w.len() as int) == w && is_space(s[w.len() as int]) {
        Option::Some(crate::text::trim_start_spec(s.skip(w.len() as int)))
    } else {
        Option::None
    }
}

/// The tail of a recognized line: the declared name, then the closing
/// semicolon, with any whitespace between them.
pub open spec fn name_then_semi(r: Seq<char>, name: Seq<char>) -> bool {
    r.len() > name.len() && r.take(name.len() as int) == name
        && crate::text::trim_start_spec(r.skip(name.len() as int)) == ";"@
}

/// A line declares module `name` when, token by token, it reads
/// `mod name;` with an optional `pub` in front, whatever the spacing
/// around and between the tokens. Matching is structural, by the declared
/// name, so cosmetic formatting differences do not duplicate lines.
pub open spec fn is_mod_line(line: Seq<char>, name: Seq<char>) -> bool {
    let t = trim_spec(line);
    let u = match strip_kw(t, "pub"@) {
        Option::Some(r) => r,
        Option::None => t,
    };
    match strip_kw(u, "mod"@) {
        Option::Some(r) => name_then_semi(r, name),
        Option::None => false,
    }
}

/// A line re-exports `name` when, token by token, it reads `use name;`
/// with an optional `pub` in front, whatever the spacing.
pub open spec fn is_use_line(line: Seq<char>, name: Seq<char>) -> bool {
    let t = trim_spec(line);
    let u = match strip_kw(t, "pub"@) {
        Option::Some(r) => r,
        Option::None => t,
    };
    match strip_kw(u, "use"@) {
        Option::Some(r) => name_then_semi(r, name),
        Option::None => false,
    }
}

/// Some line of the buffer declares module `name`.
pub open spec fn has_mod_line(lines: Seq<Seq<char>>, name: Seq<char>) -> bool {
    exists|i: int| 0 <= i < lines.len() && is_mod_line(lines[i], name)
}

/// Some line of the buffer re-exports `name`.
pub open spec fn has_use_line(lines: Seq<Seq<char>>, name: Seq<char>) -> bool {
    exists|i: int| 0 <= i < lines.len() && is_use_line(lines[i], name)
}

/// The buffer after an idempotent module-line insertion: unchanged when a
/// line for `name` is already present, else the canonical line appended.
pub open spec fn ensure_mod_spec(lines: Seq<Seq<char>>, name: Seq<char>) -> Seq<Seq<char>> {
    if has_mod_line(lines, name) {
        lines
    } else {
        lines.push(mod_line_pub(name))
    }
}

/// The buffer after an idempotent re-export insertion.
pub open spec fn ensure_use_spec(lines: Seq<Seq<char>>, name: Seq<char>) -> Seq<Seq<char>> {
    if has_use_line(lines, name) {
        lines
    } else {
        lines.push(use_line_pub(name))
    }
}

/// The buffer with every module line for `name` removed and every other
/// line kept, in its original order.
pub open spec fn remove_mod_spec(lines: Seq<Seq<char>>, name: Seq<char>) -> Seq<Seq<char>> {
    lines.filter(|l: Seq<char>| !is_mod_line(l, name))
}

/// The buffer with every re-export line for `name` removed and every other
/// line kept, in its original order.
pub open spec fn remove_use_spec(lines: Seq<Seq<char>>, name: Seq<char>) -> Seq<Seq<char>> {
    lines.filter(|l: Seq<char>| !is_use_line(l, name))
}

/// The buffer carries the ownership signature: its first line, ignoring
/// surrounding whitespace, is the signature.
pub open spec fn has_signature_spec(lines: Seq<Seq<char>>) -> bool {
    lines.len() > 0 && trim_spec(lines[0]) == signature_text()
}

/// The buffer after an idempotent signature stamp: unchanged when already
/// signed, else the signature line prepended.
pub open spec fn ensure_signature_spec(lines: Seq<Seq<char>>) -> Seq<Seq<char>> {
    if has_signature_spec(lines) {
        lines
    } else {
        seq![signature_text()] + lines
    }
}

/// Nothing but whitespace in any line.
pub open spec fn is_blank_spec(lines: Seq<Seq<char>>) -> bool {
    forall|i: int| 0 <= i < lines.len() ==> trim_spec(lines[i]).len() == 0
}

/// One file's contents, held as lines of characters; the view is the
/// sequence of those lines.
pub struct MarkedFile {
    pub lines: Vec<Vec<char>>,
}

impl View for MarkedFile {
    type V = Seq<Seq<char>>;

    open spec fn view(&self) -> Seq<Seq<char>> {
        self.lines.deep_view()
    }
}

/// One line of a buffer, seen through the buffer's deep view: the views
/// agree element by element.
pub proof fn lemma_line_view(v: &Vec<Vec<char>>, i: int)
    requires
        0 <= i < v.len(),
    ensures
        v.deep_view()[i] == v@[i]@,
{
    assert(v.deep_view()[i] == v@[i].deep_view());
    assert(v@[i].deep_view() =~= v@[i]@);
}

/// The three pieces of a recognized line, concatenated into one buffer.
fn make_line(a: &str, name: &str, b: &str) -> (r: Vec<char>)
    ensures
        r@ == a@ + name@ + b@,
{
    let mut out = str_to_chars(a);
    let mut mid = str_to_chars(name);
    let mut end = str_to_chars(b);
    out.append(&mut mid);
    out.append(&mut end);
    out
}

/// The remainder after a recognized keyword word, or nothing.
fn match_after_kw(t: &Vec<char>, kw: &str) -> (r: Option<Vec<char>>)
    ensures
        match r {
            Some(v) => strip_kw(t@, kw@) == Option::Some(v@),
            None => strip_kw(t@, kw@) is None,
        },
{
    let w = str_to_chars(kw);
    if t.len() <= w.len() {
        return None;
    }
    let mut q: usize = 0;
    while q < w.len()
        invariant
            q <= w.len() < t.len(),
            w@ == kw@,
            forall|j: int| 0 <= j < q ==> t@[j] == w@[j],
        decreases w.len() - q,
    {
        if t[q] != w[q] {
            proof {
                assert(t@.take(w@.len() as int)[q as int] == t@[q as int]);
            }
            return None;
        }
        q = q + 1;
    }
    proof {
        assert(t@.take(w@.len() as int) =~= w@);
    }
    if !is_space_exec(t[w.len()]) {
        return None;
    }
    let mut p = w.len();
    while p < t.len() && is_space_exec(t[p])
        invariant
            w@.len() <= p <= t@.len(),
            w@ == kw@,
            forall|j: int| w@.len() <= j < p ==> is_space(t@[j]),
        decreases t.len() - p,
    {
        p = p + 1;
    }
    proof {
        let s = t@.skip(w@.len() as int);
        assert(forall|j: int| 0 <= j < p - w@.len() ==> is_space(#[trigger] s[j]));
        assert(p - w@.len() == s.len() || !is_space(s[p - w@.len()]));
        lemma_trim_start_skip(s, p as int - w@.len() as int);
        assert(s.skip(p as int - w@.len() as int) =~= t@.skip(p as int));
    }
    let mut out: Vec<char> = Vec::new();
    let mut z = p;
    while z < t.len()
        invariant
            p <= z <= t.len(),
            out@ == t@.subrange(p as int, z as int),
        decreases t.len() - z,
    {
        out.push(t[z]);
        z = z + 1;
    }
    proof {
        assert(out@ =~= t@.skip(p as int));
    }
    Some(out)
}

/// Is this remainder the declared name followed by the semicolon?
fn name_semi_exec(r: &Vec<char>, name: &str) -> (b: bool)
    ensures
        b == name_then_semi(r@, name@),
{
    let n = str_to_chars(name);
    if r.len() <= n.len() {
        return false;
    }
    let mut q: usize = 0;
    while q < n.len()
        invariant
            q <= n.len() < r.len(),
            n@ == name@,
            forall|j: int| 0 <= j < q ==> r@[j] == n@[j],
        decreases n.len() - q,
    {
        if r[q] != n[q] {
            proof {
                assert(r@.take(n@.len() as int)[q as int] == r@[q as int]);
            }
            return false;
        }
        q = q + 1;
    }
    proof {
        assert(r@.take(n@.len() as int) =~= n@);
    }
    let mut p = n.len();
    while p < r.len() && is_space_exec(r[p])
        invariant
            n@.len() <= p <= r@.len(),
            n@ == name@,
            forall|j: int| n@.len() <= j < p ==> is_space(r@[j]),
        decreases r.len() - p,
    {
        p = p + 1;
    }
    proof {
        let s = r@.skip(n@.len() as int);
        assert(forall|j: int| 0 <= j < p - n@.len() ==> is_space(#[trigger] s[j]));
        assert(p - n@.len() == s.len() || !is_space(s[p - n@.len()]));
        lemma_trim_start_skip(s, p as int - n@.len() as int);
        assert(s.skip(p as int - n@.len() as int) =~= r@.skip(p as int));
        reveal_strlit(";");
    }
    if p < r.len() && r[p] == ';' && p + 1 == r.len() {
        proof {
            assert(r@.skip(p as int) =~= ";"@);
        }
        true
    } else {
        proof {
            let tail = r@.skip(p as int);
            if p >= r.len() {
                assert(tail.len() == 0);
            } else if r@[p as int] != ';' {
                assert(tail[0] != ';');
                assert(";"@[0] == ';');
            } else {
                assert(tail.len() >= 2);
            }
            assert(tail != ";"@);
        }
        false
    }
}

/// Does this line declare module `name`?
fn is_mod_line_exec(line: &Vec<char>, name: &str) -> (r: bool)
    ensures
        r == is_mod_line(line@, name@),
{
    let t = trim_chars(line);
    let u = match match_after_kw(&t, "pub") {
        Some(v) => v,
        None => t,
    };
    match match_after_kw(&u, "mod") {
        Some(rest) => name_semi_exec(&rest, name),
        None => false,
    }
}

/// Does this line re-export `name`?
fn is_use_line_exec(line: &Vec<char>, name: &str) -> (r: bool)
    ensures
        r == is_use_line(line@, name@),
{
    let t = trim_chars(line);
    let u = match match_after_kw(&t, "pub") {
        Some(v) => v,
        None => t,
    };
    match match_after_kw(&u, "use") {
        Some(rest) => name_semi_exec(&rest, name),
        None => false,
    }
}

impl MarkedFile {
    /// Every line of the buffer is newline-free, so the text written out
    /// line by line reads back as the same lines. Constructors establish
    /// this and every editing operation preserves it.
    pub open spec fn wf(&self) -> bool {
        forall|k: int| 0 <= k < self@.len() ==> crate::text::no_newline(#[trigger] self@[k])
    }

    /// An empty buffer: one empty line, as an empty text splits to.
    pub fn empty() -> (r: MarkedFile)
        ensures
            r@ == split_lines_spec(Seq::<char>::empty()),
            r.wf(),
    {
        let mut lines: Vec<Vec<char>> = Vec::new();
        lines.push(Vec::new());
        proof {
            assert(lines.deep_view() =~~= seq![Seq::<char>::empty()]);
        }
        MarkedFile { lines }
    }

    /// A buffer holding the given text, split into lines.
    pub fn from_text(text: &str) -> (r: MarkedFile)
        ensures
            r@ == split_lines_spec(text@),
            r.wf(),
    {
        let chars = str_to_chars(text);
        let lines = split_lines(&chars);
        proof {
            crate::text::lemma_split_lines_no_newline(text@);
        }
        MarkedFile { lines }
    }

    /// The buffer's full text, lines joined with newlines.
    pub fn to_text(&self) -> (r: String)
        ensures
            r@ == join_lines_spec(self@),
    {
        let joined = join_lines(&self.lines);
        chars_to_string(&joined)
    }

    /// True when the buffer carries the ownership signature on its first
    /// line (ignoring surrounding whitespace).
    pub fn has_file_signature(&self) -> (r: bool)
        ensures
            r == has_signature_spec(self@),
    {
        if self.lines.len() == 0 {
            return false;
        }
        proof {
            lemma_line_view(&self.lines, 0);
        }
        let t = trim_chars(&self.lines[0]);
        let sig = str_to_chars(FILE_SIGNATURE);
        chars_eq(&t, &sig)
    }

    /// Stamps the ownership signature: a no-op when present, else the
    /// signature line is prepended. Never duplicates the signature.
    pub fn ensure_file_signature(&mut self)
        ensures
            final (self)@ == ensure_signature_spec(old(self)@),
            old(self).wf() ==> final (self).wf(),
    {
        if !self.has_file_signature() {
            let sig = str_to_chars(FILE_SIGNATURE);
            let ghost pre = self.lines.deep_view();
            self.lines.insert(0, sig);
            proof {
                assert(self.lines.deep_view() =~~= seq![signature_text()] + pre);
                lemma_signature_one_line();
                if old(self).wf() {
                    assert(forall|k: int|
                        1 <= k < self@.len() ==> self@[k] == #[trigger] pre[k - 1]);
                    assert(self@[0] == signature_text());
                }
            }
        }
    }

    /// Idempotently inserts a module line for `name`: a no-op when any
    /// line already declares it, else the canonical `pub mod name;` line
    /// is appended.
    pub fn ensure_mod_stmt(&mut self, name: &str)
        ensures
            final (self)@ == ensure_mod_spec(old(self)@, name@),
            old(self).wf() && crate::text::no_newline(name@) ==> final (self).wf(),
    {
        let mut i: usize = 0;
        while i < self.lines.len()
            invariant
                i <= self.lines.len(),
                self == old(self),
                forall|j: int| 0 <= j < i ==> !is_mod_line(old(self)@[j], name@),
            decreases self.lines.len() - i,
        {
            proof {
                lemma_line_view(&self.lines, i as int);
            }
            if is_mod_line_exec(&self.lines[i], name) {
                proof {
                    assert(is_mod_line(old(self)@[i as int], name@));
                    assert(has_mod_line(old(self)@, name@));
                }
                return ;
            }
            i = i + 1;
        }
        let line = make_line("pub mod ", name, ";");
        let ghost pre = self.lines.deep_view();
        self.lines.push(line);
        proof {
            assert(pre == old(self)@);
            if has_mod_line(pre, name@) {
                let k = choose|k: int| 0 <= k < pre.len() && is_mod_line(pre[k], name@);
                assert(!is_mod_line(old(self)@[k], name@));
            }
            assert(!has_mod_line(pre, name@));
            assert(self.lines.deep_view() =~~= pre.push(mod_line_pub(name@)));
            if old(self).wf() && crate::text::no_newline(name@) {
                lemma_canonical_lines_one_line(name@);
                assert(forall|k: int| 0 <= k < pre.len() ==> self@[k] == #[trigger] pre[k]);
                assert(self@[pre.len() as int] == mod_line_pub(name@));
            }
        }
    }

    /// Idempotently inserts a re-export line for `name`.
    pub fn ensure_use_stmt(&mut self, name: &str)
        ensures
            final (self)@ == ensure_use_spec(old(self)@, name@),
            old(self).wf() && crate::text::no_newline(name@) ==> final (self).wf(),
    {
        let mut i: usize = 0;
        while i < self.lines.len()
            invariant
                i <= self.lines.len(),
                self == old(self),
                forall|j: int| 0 <= j < i ==> !is_use_line(old(self)@[j], name@),
            decreases self.lines.len() - i,
        {
            proof {
                lemma_line_view(&self.lines, i as int);
            }
            if is_use_line_exec(&self.lines[i], name) {
                proof {
                    assert(is_use_line(old(self)@[i as int], name@));
                    assert(has_use_line(old(self)@, name@));
                }
                return ;
            }
            i = i + 1;
        }
        let line = make_line("pub use ", name, ";");
        let ghost pre = self.lines.deep_view();
        self.lines.push(line);
        proof {
            assert(pre == old(self)@);
            if has_use_line(pre, name@) {
                let k = choose|k: int| 0 <= k < pre.len() && is_use_line(pre[k], name@);
                assert(!is_use_line(old(self)@[k], name@));
            }
            assert(!has_use_line(pre, name@));
            assert(self.lines.deep_view() =~~= pre.push(use_line_pub(name@)));
            if old(self).wf() && crate::text::no_newline(name@) {
                lemma_canonical_lines_one_line(name@);
                assert(forall|k: int| 0 <= k < pre.len() ==> self@[k] == #[trigger] pre[k]);
                assert(self@[pre.len() as int] == use_line_pub(name@));
            }
        }
    }

    /// Removes every module line for `name`; every other line is kept in
    /// its original order. A no-op when no line matches.
    pub fn remove_mod_stmt(&mut self, name: &str)
        ensures
            final (self)@ == remove_mod_spec(old(self)@, name@),
            old(self).wf() ==> final (self).wf(),
    {
        let ghost pred = |l: Seq<char>| !is_mod_line(l, name@);
        let ghost dv = self.lines.deep_view();
        let mut out: Vec<Vec<char>> = Vec::new();
        let mut i: usize = 0;
        proof {
            assert(dv.take(0) =~= Seq::<Seq<char>>::empty());
            lemma_filter_empty(pred);
            assert(out.deep_view() =~~= dv.take(0).filter(pred));
        }
        while i < self.lines.len()
            invariant
                i <= self.lines.len(),
                self == old(self),
                dv == self.lines.deep_view(),
                out.deep_view() == dv.take(i as int).filter(pred),
                pred == (|l: Seq<char>| !is_mod_line(l, name@)),
            decreases self.lines.len() - i,
        {
            let ghost pre = out.deep_view();
            proof {
                lemma_filter_take_step(dv, pred, i as int);
                lemma_line_view(&self.lines, i as int);
            }
            if !is_mod_line_exec(&self.lines[i], name) {
                let ghost el = dv[i as int];
                let kept = clone_chars(&self.lines[i]);
                out.push(kept);
                proof {
                    assert(out.deep_view() =~~= pre.push(el));
                }
            }
            i = i + 1;
        }
        proof {
            assert(dv.take(i as int) =~= dv);
        }
        self.lines = out;
        proof {
            if old(self).wf() {
                let prop = |l: Seq<char>| crate::text::no_newline(l);
                assert(dv == old(self)@);
                assert forall|k: int| 0 <= k < dv.len() implies #[trigger] prop(dv[k]) by {
                    assert(crate::text::no_newline(old(self)@[k]));
                }
                lemma_filter_preserves_all(dv, pred, prop);
                assert forall|k: int| 0 <= k < self@.len() implies crate::text::no_newline(
                    #[trigger] self@[k],
                ) by {
                    assert(prop(self@[k]));
                }
            }
        }
    }

    /// Removes every re-export line for `name`; every other line is kept
    /// in its original order. A no-op when no line matches.
    pub fn remove_use_stmt(&mut self, name: &str)
        ensures
            final (self)@ == remove_use_spec(old(self)@, name@),
            old(self).wf() ==> final (self).wf(),
    {
        let ghost pred = |l: Seq<char>| !is_use_line(l, name@);
        let ghost dv = self.lines.deep_view();
        let mut out: Vec<Vec<char>> = Vec::new();
        let mut i: usize = 0;
        proof {
            assert(dv.take(0) =~= Seq::<Seq<char>>::empty());
            lemma_filter_empty(pred);
            assert(out.deep_view() =~~= dv.take(0).filter(pred));
        }
        while i < self.lines.len()
            invariant
                i <= self.lines.len(),
                self == old(self),
                dv == self.lines.deep_view(),
                out.deep_view() == dv.take(i as int).filter(pred),
                pred == (|l: Seq<char>| !is_use_line(l, name@)),
            decreases self.lines.len() - i,
        {
            let ghost pre = out.deep_view();
            proof {
                lemma_filter_take_step(dv, pred, i as int);
                lemma_line_view(&self.lines, i as int);
            }
            if !is_use_line_exec(&self.lines[i], name) {
                let ghost el = dv[i as int];
                let kept = clone_chars(&self.lines[i]);
                out.push(kept);
                proof {
                    assert(out.deep_view() =~~= pre.push(el));
                }
            }
            i = i + 1;
        }
        proof {
            assert(dv.take(i as int) =~= dv);
        }
        self.lines = out;
        proof {
            if old(self).wf() {
                let prop = |l: Seq<char>| crate::text::no_newline(l);
                assert(dv == old(self)@);
                assert forall|k: int| 0 <= k < dv.len() implies #[trigger] prop(dv[k]) by {
                    assert(crate::text::no_newline(old(self)@[k]));
                }
                lemma_filter_preserves_all(dv, pred, prop);
                assert forall|k: int| 0 <= k < self@.len() implies crate::text::no_newline(
                    #[trigger] self@[k],
                ) by {
                    assert(prop(self@[k]));
                }
            }
        }
    }

    /// A copy of the buffer with the same lines.
    pub fn duplicate(&self) -> (r: MarkedFile)
        ensures
            r@ == self@,
    {
        let mut lines: Vec<Vec<char>> = Vec::new();
        let mut i: usize = 0;
        while i < self.lines.len()
            invariant
                i <= self.lines.len(),
                lines.deep_view() == self.lines.deep_view().take(i as int),
            decreases self.lines.len() - i,
        {
            let ghost pre = lines.deep_view();
            proof {
                lemma_line_view(&self.lines, i as int);
            }
            lines.push(clone_chars(&self.lines[i]));
            proof {
                assert(lines.deep_view() =~~= pre.push(self.lines.deep_view()[i as int]));
                assert(lines.deep_view() =~= self.lines.deep_view().take(i as int + 1));
            }
            i = i + 1;
        }
        proof {
            assert(self.lines.deep_view().take(self.lines@.len() as int)
                =~= self.lines.deep_view());
        }
        MarkedFile { lines }
    }

    /// True when nothing but whitespace is left in the buffer — the state
    /// in which an aggregator file is deleted rather than written.
    pub fn is_blank(&self) -> (r: bool)
        ensures
            r == is_blank_spec(self@),
    {
        let mut i: usize = 0;
        while i < self.lines.len()
            invariant
                i <= self.lines.len(),
                forall|j: int| 0 <= j < i ==> trim_spec(self@[j]).len() == 0,
            decreases self.lines.len() - i,
        {
            proof {
                lemma_line_view(&self.lines, i as int);
            }
            let t = trim_chars(&self.lines[i]);
            if t.len() != 0 {
                return false;
            }
            i = i + 1;
        }
        true
    }
}

/// An element-wise copy of a character vector.
fn clone_chars(v: &Vec<char>) -> (r: Vec<char>)
    ensures
        r@ == v@,
{
    let mut out: Vec<char> = Vec::new();
    let mut i: usize = 0;
    while i < v.len()
        invariant
            i <= v.len(),
            out@ == v@.subrange(0, i as int),
        decreases v.len() - i,
    {
        out.push(v[i]);
        i = i + 1;
    }
    proof {
        assert(out@ =~= v@);
    }
    out
}

/// The canonical module line declares its own name: stamping is stable.
/// Holds for any name that does not itself open with whitespace — every
/// identifier does.
pub proof fn lemma_canonical_mod_line_matches(name: Seq<char>)
    requires
        name.len() == 0 || !is_space(name[0]),
    ensures
        is_mod_line(mod_line_pub(name), name),
{
    reveal_strlit("pub mod ");
    reveal_strlit("pub");
    reveal_strlit("mod");
    reveal_strlit(";");
    let l = mod_line_pub(name);
    assert(l[0] == 'p');
    assert(l[l.len() - 1] == ';');
    lemma_trim_nonblank_ends(l);
    assert(l.len() == 9 + name.len());
    assert(l.take(3) =~= "pub"@);
    assert(is_space(l[3]));
    let s0 = l.skip(3);
    assert(is_space(s0[0]) && !is_space(s0[1])) by {
        assert(s0[0] == l[3]);
        assert(s0[1] == l[4] && l[4] == 'm');
    }
    lemma_trim_start_skip(s0, 1);
    let u = s0.skip(1);
    assert(strip_kw(l, "pub"@) == Option::Some(u));
    assert(u =~= l.skip(4));
    assert(u.take(3) =~= "mod"@);
    assert(is_space(u[3])) by {
        assert(u[3] == l[7] && l[7] == ' ');
    }
    let s1 = u.skip(3);
    assert(s1.len() == 2 + name.len());
    assert(is_space(s1[0])) by {
        assert(s1[0] == l[7]);
    }
    assert(!is_space(s1[1])) by {
        if name.len() == 0 {
            assert(s1[1] == l[8] && l[8] == ';');
        } else {
            assert(s1[1] == l[8] && l[8] == name[0]);
        }
    }
    lemma_trim_start_skip(s1, 1);
    let r2 = s1.skip(1);
    assert(strip_kw(u, "mod"@) == Option::Some(r2));
    assert(r2 =~= name + ";"@);
    assert(r2.take(name.len() as int) =~= name);
    assert(r2.skip(name.len() as int) =~= ";"@);
    assert(trim_start_spec(";"@) == ";"@) by {
        assert(!is_space(";"@[0]));
    }
    assert(name_then_semi(r2, name));
}

/// The canonical re-export line re-exports its own name.
pub proof fn lemma_canonical_use_line_matches(name: Seq<char>)
    requires
        name.len() == 0 || !is_space(name[0]),
    ensures
        is_use_line(use_line_pub(name), name),
{
    reveal_strlit("pub use ");
    reveal_strlit("pub");
    reveal_strlit("use");
    reveal_strlit(";");
    let l = use_line_pub(name);
    assert(l[0] == 'p');
    assert(l[l.len() - 1] == ';');
    lemma_trim_nonblank_ends(l);
    assert(l.len() == 9 + name.len());
    assert(l.take(3) =~= "pub"@);
    assert(is_space(l[3]));
    let s0 = l.skip(3);
    assert(is_space(s0[0]) && !is_space(s0[1])) by {
        assert(s0[0] == l[3]);
        assert(s0[1] == l[4] && l[4] == 'u');
    }
    lemma_trim_start_skip(s0, 1);
    let u = s0.skip(1);
    assert(strip_kw(l, "pub"@) == Option::Some(u));
    assert(u =~= l.skip(4));
    assert(u.take(3) =~= "use"@);
    assert(is_space(u[3])) by {
        assert(u[3] == l[7] && l[7] == ' ');
    }
    let s1 = u.skip(3);
    assert(s1.len() == 2 + name.len());
    assert(is_space(s1[0])) by {
        assert(s1[0] == l[7]);
    }
    assert(!is_space(s1[1])) by {
        if name.len() == 0 {
            assert(s1[1] == l[8] && l[8] == ';');
        } else {
            assert(s1[1] == l[8] && l[8] == name[0]);
        }
    }
    lemma_trim_start_skip(s1, 1);
    let r2 = s1.skip(1);
    assert(strip_kw(u, "use"@) == Option::Some(r2));
    assert(r2 =~= name + ";"@);
    assert(r2.take(name.len() as int) =~= name);
    assert(r2.skip(name.len() as int) =~= ";"@);
    assert(trim_start_spec(";"@) == ";"@) by {
        assert(!is_space(";"@[0]));
    }
    assert(name_then_semi(r2, name));
}

/// The ownership signature holds no newline: stamping keeps a buffer
/// well-formed.
pub proof fn lemma_signature_one_line()
    ensures
        crate::text::no_newline(signature_text()),
{
    reveal_strlit("/* @generated and managed by dsync */");
    assert(crate::text::no_newline(signature_text())) by {
        assert(signature_text().len() == 37);
    }
}

/// A canonical line built from a newline-free name is itself one line.
pub proof fn lemma_canonical_lines_one_line(name: Seq<char>)
    requires
        crate::text::no_newline(name),
    ensures
        crate::text::no_newline(mod_line_pub(name)),
        crate::text::no_newline(use_line_pub(name)),
{
    reveal_strlit("pub mod ");
    reveal_strlit("pub use ");
    reveal_strlit(";");
    let ml = mod_line_pub(name);
    assert forall|i: int| 0 <= i < ml.len() implies ml[i] != '\n' by {
        if i < 8 {
            assert(ml[i] == "pub mod "@[i]);
        } else if i < 8 + name.len() {
            assert(ml[i] == name[i - 8]);
        } else {
            assert(ml[i] == ";"@[i - 8 - name.len()]);
        }
    }
    let ul = use_line_pub(name);
    assert forall|i: int| 0 <= i < ul.len() implies ul[i] != '\n' by {
        if i < 8 {
            assert(ul[i] == "pub use "@[i]);
        } else if i < 8 + name.len() {
            assert(ul[i] == name[i - 8]);
        } else {
            assert(ul[i] == ";"@[i - 8 - name.len()]);
        }
    }
}

/// A canonical module line is never taken for a re-export line, and a
/// canonical re-export line never for a module line, whatever the names:
/// the keyword tokens differ.
pub proof fn lemma_mod_use_distinct(a: Seq<char>, b: Seq<char>)
    ensures
        !is_use_line(mod_line_pub(a), b),
        !is_mod_line(use_line_pub(a), b),
{
    reveal_strlit("pub mod ");
    reveal_strlit("pub use ");
    reveal_strlit("pub");
    reveal_strlit("mod");
    reveal_strlit("use");
    reveal_strlit(";");
    let ml = mod_line_pub(a);
    assert(ml[0] == 'p');
    assert(ml[ml.len() - 1] == ';');
    lemma_trim_nonblank_ends(ml);
    assert(ml.take(3) =~= "pub"@);
    assert(is_space(ml[3]));
    let s0 = ml.skip(3);
    assert(is_space(s0[0]) && !is_space(s0[1])) by {
        assert(s0[0] == ml[3]);
        assert(s0[1] == ml[4] && ml[4] == 'm');
    }
    lemma_trim_start_skip(s0, 1);
    let u = s0.skip(1);
    assert(strip_kw(ml, "pub"@) == Option::Some(u));
    assert(u[0] == ml[4] && ml[4] == 'm');
    assert(strip_kw(u, "use"@) is None) by {
        if u.len() > 3 && u.take(3) == "use"@ && is_space(u[3]) {
            assert(u.take(3)[0] == u[0]);
            assert("use"@[0] == 'u');
            assert(false);
        }
    }
    assert(!is_use_line(ml, b));
    let ul = use_line_pub(a);
    assert(ul[0] == 'p');
    assert(ul[ul.len() - 1] == ';');
    lemma_trim_nonblank_ends(ul);
    assert(ul.take(3) =~= "pub"@);
    assert(is_space(ul[3]));
    let s1 = ul.skip(3);
    assert(is_space(s1[0]) && !is_space(s1[1])) by {
        assert(s1[0] == ul[3]);
        assert(s1[1] == ul[4] && ul[4] == 'u');
    }
    lemma_trim_start_skip(s1, 1);
    let u2 = s1.skip(1);
    assert(strip_kw(ul, "pub"@) == Option::Some(u2));
    assert(u2[0] == ul[4] && ul[4] == 'u');
    assert(strip_kw(u2, "mod"@) is None) by {
        if u2.len() > 3 && u2.take(3) == "mod"@ && is_space(u2[3]) {
            assert(u2.take(3)[0] == u2[0]);
            assert("mod"@[0] == 'm');
            assert(false);
        }
    }
    assert(!is_mod_line(ul, b));
}

/// An insertion never loses a module line that is already present, for
/// any name.
pub proof fn lemma_push_keeps_mod_line(lines: Seq<Seq<char>>, x: Seq<char>, m: Seq<char>)
    requires
        has_mod_line(lines, m),
    ensures
        has_mod_line(lines.push(x), m),
{
    let k = choose|k: int| 0 <= k < lines.len() && is_mod_line(lines[k], m);
    assert(lines.push(x)[k] == lines[k]);
}

/// Inserting a module line twice is the same as inserting it once: the
/// second insertion finds the line the first one put there.
pub proof fn lemma_ensure_mod_idempotent(lines: Seq<Seq<char>>, name: Seq<char>)
    requires
        name.len() == 0 || !is_space(name[0]),
    ensures
        ensure_mod_spec(ensure_mod_spec(lines, name), name) == ensure_mod_spec(lines, name),
{
    if !has_mod_line(lines, name) {
        lemma_canonical_mod_line_matches(name);
        let pushed = lines.push(mod_line_pub(name));
        assert(pushed[lines.len() as int] == mod_line_pub(name));
        assert(has_mod_line(pushed, name));
    }
}

/// Inserting a re-export line twice is the same as inserting it once.
pub proof fn lemma_ensure_use_idempotent(lines: Seq<Seq<char>>, name: Seq<char>)
    requires
        name.len() == 0 || !is_space(name[0]),
    ensures
        ensure_use_spec(ensure_use_spec(lines, name), name) == ensure_use_spec(lines, name),
{
    if !has_use_line(lines, name) {
        lemma_canonical_use_line_matches(name);
        let pushed = lines.push(use_line_pub(name));
        assert(pushed[lines.len() as int] == use_line_pub(name));
        assert(has_use_line(pushed, name));
    }
}

/// Stamping the signature twice is the same as stamping it once.
pub proof fn lemma_ensure_signature_idempotent(lines: Seq<Seq<char>>)
    ensures
        ensure_signature_spec(ensure_signature_spec(lines)) == ensure_signature_spec(lines),
{
    if !has_signature_spec(lines) {
        let sig = signature_text();
        reveal_strlit("/* @generated and managed by dsync */");
        assert(sig[0] == '/');
        assert(sig[sig.len() - 1] == '/');
        lemma_trim_nonblank_ends(sig);
        let pushed = seq![sig] + lines;
        assert(pushed[0] == sig);
        assert(has_signature_spec(pushed));
    }
}

/// Removing a name no line carries changes nothing.
pub proof fn lemma_remove_mod_noop(lines: Seq<Seq<char>>, name: Seq<char>)
    requires
        !has_mod_line(lines, name),
    ensures
        remove_mod_spec(lines, name) == lines,
{
    assert(forall|i: int|
        0 <= i < lines.len() ==> (|l: Seq<char>| !is_mod_line(l, name))(#[trigger] lines[i]));
    lemma_filter_all(lines, |l: Seq<char>| !is_mod_line(l, name));
}

/// Removing a re-export no line carries changes nothing.
pub proof fn lemma_remove_use_noop(lines: Seq<Seq<char>>, name: Seq<char>)
    requires
        !has_use_line(lines, name),
    ensures
        remove_use_spec(lines, name) == lines,
{
    assert(forall|i: int|
        0 <= i < lines.len() ==> (|l: Seq<char>| !is_use_line(l, name))(#[trigger] lines[i]));
    lemma_filter_all(lines, |l: Seq<char>| !is_use_line(l, name));
}

/// Round trip: on a buffer that does not yet declare `name`, inserting the
/// module line and then removing it restores the buffer exactly, so a
/// table deleted and re-added leaves no residue.
pub proof fn lemma_ensure_remove_mod_roundtrip(lines: Seq<Seq<char>>, name: Seq<char>)
    requires
        !has_mod_line(lines, name),
        name.len() == 0 || !is_space(name[0]),
    ensures
        remove_mod_spec(ensure_mod_spec(lines, name), name) == lines,
{
    lemma_canonical_mod_line_matches(name);
    let pred = |l: Seq<char>| !is_mod_line(l, name);
    let pushed = lines.push(mod_line_pub(name));
    reveal(Seq::filter);
    assert(pushed.drop_last() =~= lines);
    assert(pushed.last() == mod_line_pub(name));
    assert(pushed.filter(pred) == lines.filter(pred));
    lemma_remove_mod_noop(lines, name);
}

/// Round trip for re-export lines.
pub proof fn lemma_ensure_remove_use_roundtrip(lines: Seq<Seq<char>>, name: Seq<char>)
    requires
        !has_use_line(lines, name),
        name.len() == 0 || !is_space(name[0]),
    ensures
        remove_use_spec(ensure_use_spec(lines, name), name) == lines,
{
    lemma_canonical_use_line_matches(name);
    let pred = |l: Seq<char>| !is_use_line(l, name);
    let pushed = lines.push(use_line_pub(name));
    reveal(Seq::filter);
    assert(pushed.drop_last() =~= lines);
    assert(pushed.last() == use_line_pub(name));
    assert(pushed.filter(pred) == lines.filter(pred));
    lemma_remove_use_noop(lines, name);
}

/// Hand-written lines survive an insertion: for any predicate that no
/// generator module line satisfies, the lines selected by the predicate
/// are the same, in the same order, before and after the insertion.
pub proof fn lemma_ensure_mod_preserves(
    lines: Seq<Seq<char>>,
    name: Seq<char>,
    hand: spec_fn(Seq<char>) -> bool,
)
    requires
        !hand(mod_line_pub(name)),
    ensures
        ensure_mod_spec(lines, name).filter(hand) == lines.filter(hand),
{
    if !has_mod_line(lines, name) {
        let pushed = lines.push(mod_line_pub(name));
        reveal(Seq::filter);
        assert(pushed.drop_last() =~= lines);
    }
}

/// Hand-written lines survive a re-export insertion.
pub proof fn lemma_ensure_use_preserves(
    lines: Seq<Seq<char>>,
    name: Seq<char>,
    hand: spec_fn(Seq<char>) -> bool,
)
    requires
        !hand(use_line_pub(name)),
    ensures
        ensure_use_spec(lines, name).filter(hand) == lines.filter(hand),
{
    if !has_use_line(lines, name) {
        let pushed = lines.push(use_line_pub(name));
        reveal(Seq::filter);
        assert(pushed.drop_last() =~= lines);
    }
}

/// Filtering by `hand` ignores a removal pass, provided every line the
/// predicate selects is one the removal keeps.
pub proof fn lemma_filter_absorbs(
    lines: Seq<Seq<char>>,
    keep: spec_fn(Seq<char>) -> bool,
    hand: spec_fn(Seq<char>) -> bool,
)
    requires
        forall|l: Seq<char>| #[trigger] hand(l) ==> keep(l),
    ensures
        lines.filter(keep).filter(hand) == lines.filter(hand),
    decreases lines.len(),
{
    reveal(Seq::filter);
    if lines.len() > 0 {
        lemma_filter_absorbs(lines.drop_last(), keep, hand);
        let l = lines.last();
        if keep(l) {
            assert(lines.filter(keep) == lines.drop_last().filter(keep).push(l));
            assert(lines.filter(keep).drop_last() =~= lines.drop_last().filter(keep));
            assert(lines.filter(keep).last() == l);
        }
    }
}

/// Hand-written lines survive a removal: for any predicate under which
/// every selected line is not a module line for `name`, the lines selected
/// by the predicate are unchanged by the removal.
pub proof fn lemma_remove_mod_preserves(
    lines: Seq<Seq<char>>,
    name: Seq<char>,
    hand: spec_fn(Seq<char>) -> bool,
)
    requires
        forall|l: Seq<char>| #[trigger] hand(l) ==> !is_mod_line(l, name),
    ensures
        remove_mod_spec(lines, name).filter(hand) == lines.filter(hand),
{
    lemma_filter_absorbs(lines, |l: Seq<char>| !is_mod_line(l, name), hand);
}

/// Hand-written lines survive a re-export removal.
pub proof fn lemma_remove_use_preserves(
    lines: Seq<Seq<char>>,
    name: Seq<char>,
    hand: spec_fn(Seq<char>) -> bool,
)
    requires
        forall|l: Seq<char>| #[trigger] hand(l) ==> !is_use_line(l, name),
    ensures
        remove_use_spec(lines, name).filter(hand) == lines.filter(hand),
{
    lemma_filter_absorbs(lines, |l: Seq<char>| !is_use_line(l, name), hand);
}

} // verus!
