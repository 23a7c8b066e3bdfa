//! Colon-separated attribute manifests (`MANIFEST.MF`).
//!
//! Each non-blank line is split on `:` and its pieces are trimmed; the
//! greatest piece, in the order of `str`, is the key and the least is the
//! value. That reads a well-formed `Name: value` line correctly wherever the
//! name sorts after the value. A line without any `:` is skipped. The first
//! line for a key wins.
use vstd::prelude::*;
use vstd::string::StringExecFns;
use crate::table::{assoc_map, keys_unique, lemma_assoc_absent, lemma_assoc_lookup};
use crate::text::{
    chars_of, lemma_split_join, lemma_split_no_sep, lemma_split_nonempty, lemma_split_pieces,
    lemma_trim_twice, lemma_trimmed_ends, split, split_ranges,
    str_eq, substring, trim, trim_bounds, trim_end, trim_start,
};

verus! {

/// The order of `str`: lexicographic over code points.
pub open spec fn lex_lt(a: Seq<char>, b: Seq<char>) -> bool
    decreases a.len(),
{
    if a.len() == 0 {
        b.len() > 0
    } else if b.len() == 0 {
        false
    } else if a[0] != b[0] {
        (a[0] as int) < (b[0] as int)
    } else {
        lex_lt(a.drop_first(), b.drop_first())
    }
}

/// The greatest of `toks`, the last of equals, as `Iterator::max` picks it.
pub open spec fn max_token(toks: Seq<Seq<char>>) -> Seq<char>
    decreases toks.len(),
{
    if toks.len() <= 1 {
        toks[0]
    } else {
        let m = max_token(toks.drop_last());
        if lex_lt(toks.last(), m) {
            m
        } else {
            toks.last()
        }
    }
}

/// The least of `toks`, the first of equals, as `Iterator::min` picks it.
pub open spec fn min_token(toks: Seq<Seq<char>>) -> Seq<char>
    decreases toks.len(),
{
    if toks.len() <= 1 {
        toks[0]
    } else {
        let m = min_token(toks.drop_last());
        if lex_lt(toks.last(), m) {
            toks.last()
        } else {
            m
        }
    }
}

/// The trimmed `:`-separated pieces of a line.
pub open spec fn tokens(line: Seq<char>) -> Seq<Seq<char>> {
    split(line, ':').map_values(|t: Seq<char>| trim(t))
}

/// The key and value that a raw line gives, if any.
pub open spec fn attr_entry(raw: Seq<char>) -> Option<(Seq<char>, Seq<char>)> {
    let line = trim(raw);
    if line.len() == 0 || tokens(line).len() < 2 {
        None
    } else {
        Some((max_token(tokens(line)), min_token(tokens(line))))
    }
}

pub open spec fn has_key(s: Seq<(Seq<char>, Seq<char>)>, k: Seq<char>) -> bool {
    exists|i: int| 0 <= i < s.len() && s[i].0 == k
}

/// The attributes that a sequence of lines gives, in order of first
/// appearance; a later line for a key already present is dropped.
pub open spec fn attrs_of(lines: Seq<Seq<char>>) -> Seq<(Seq<char>, Seq<char>)>
    decreases lines.len(),
{
    if lines.len() == 0 {
        Seq::empty()
    } else {
        let p = attrs_of(lines.drop_last());
        match attr_entry(lines.last()) {
            Some(e) => if has_key(p, e.0) {
                p
            } else {
                p.push(e)
            },
            None => p,
        }
    }
}

/// The attributes of manifest text; lines are split on `\n`.
pub open spec fn manifest_of(text: Seq<char>) -> Seq<(Seq<char>, Seq<char>)> {
    attrs_of(split(text, '\n'))
}

/// The attributes of a manifest, in order of first appearance, each key once.
pub struct AttributeTable {
    entries: Vec<(String, String)>,
}

impl AttributeTable {
    pub closed spec fn model(&self) -> Seq<(Seq<char>, Seq<char>)> {
        self.entries@.map_values(|e: (String, String)| (e.0@, e.1@))
    }

    pub open spec fn view(&self) -> Map<Seq<char>, Seq<char>> {
        assoc_map(self.model())
    }

    pub open spec fn wf(&self) -> bool {
        keys_unique(self.model())
    }

    fn index_of(&self, key: &str) -> (r: Option<usize>)
        ensures
            match r {
                Some(i) => i < self.model().len() && self.model()[i as int].0 == key@,
                None => !has_key(self.model(), key@),
            },
    {
        let mut i: usize = 0;
        while i < self.entries.len()
            invariant
                i <= self.entries@.len(),
                forall|j: int| 0 <= j < i ==> self.model()[j].0 != key@,
            decreases self.entries@.len() - i,
        {
            if str_eq(self.entries[i].0.as_str(), key) {
                return Some(i);
            }
            i = i + 1;
        }
        None
    }

    /// The value of `key`, if the manifest has it.
    pub fn get(&self, key: &str) -> (r: Option<&String>)
        requires
            self.wf(),
        ensures
            r is None <==> !self.view().contains_key(key@),
            r is Some ==> r.unwrap()@ == self.view()[key@],
    {
        match self.index_of(key) {
            Some(i) => {
                proof {
                    lemma_assoc_lookup(self.model(), i as int);
                }
                Some(&self.entries[i].1)
            },
            None => {
                proof {
                    lemma_assoc_absent(self.model(), key@);
                }
                None
            },
        }
    }

    /// Whether the manifest has `key`.
    pub fn contains_key(&self, key: &str) -> (r: bool)
        requires
            self.wf(),
        ensures
            r == self.view().contains_key(key@),
    {
        self.get(key).is_some()
    }

    /// The number of attributes.
    pub fn len(&self) -> (r: usize)
        ensures
            r == self.model().len(),
    {
        self.entries.len()
    }

    /// The manifest text of the table: one `key: value` line per attribute,
    /// each ended by `\n`.
    pub fn to_text(&self) -> (r: String)
        ensures
            r@ == render(self.model()),
    {
        let mut out = String::new();
        let mut i: usize = 0;
        while i < self.entries.len()
            invariant
                i <= self.entries@.len(),
                out@ == render(self.model().subrange(0, i as int)),
            decreases self.entries@.len() - i,
        {
            assert(self.model().subrange(0, i + 1).drop_last() =~= self.model().subrange(
                0,
                i as int,
            ));
            out.append(self.entries[i].0.as_str());
            out.append(": ");
            out.append(self.entries[i].1.as_str());
            out.append("\n");
            proof {
                reveal_strlit("\n");
                reveal_strlit(": ");
            }
            assert(out@ =~= render(self.model().subrange(0, i + 1)));
            i = i + 1;
        }
        assert(self.model().subrange(0, i as int) =~= self.model());
        out
    }
}

/// The line `key: value`.
pub open spec fn render_line(e: (Seq<char>, Seq<char>)) -> Seq<char> {
    e.0 + seq![':', ' '] + e.1
}

/// The lines of `s`, each followed by `\n`.
pub open spec fn render(s: Seq<(Seq<char>, Seq<char>)>) -> Seq<char>
    decreases s.len(),
{
    if s.len() == 0 {
        Seq::empty()
    } else {
        render(s.drop_last()) + render_line(s.last()) + seq!['\n']
    }
}

/// Whether `v[a1..b1]` sorts before `v[a2..b2]`.
fn lex_less(v: &Vec<char>, a1: usize, b1: usize, a2: usize, b2: usize) -> (r: bool)
    requires
        a1 <= b1 <= v@.len(),
        a2 <= b2 <= v@.len(),
    ensures
        r == lex_lt(v@.subrange(a1 as int, b1 as int), v@.subrange(a2 as int, b2 as int)),
{
    let mut i: usize = 0;
    while a1 + i < b1 && a2 + i < b2 && v[a1 + i] == v[a2 + i]
        invariant
            a1 + i <= b1 <= v@.len(),
            a2 + i <= b2 <= v@.len(),
            lex_lt(v@.subrange(a1 as int, b1 as int), v@.subrange(a2 as int, b2 as int))
                == lex_lt(v@.subrange(a1 + i, b1 as int), v@.subrange(a2 + i, b2 as int)),
        decreases b1 - a1 - i,
    {
        assert(v@.subrange(a1 + i, b1 as int).drop_first() =~= v@.subrange(a1 + i + 1, b1 as int));
        assert(v@.subrange(a2 + i, b2 as int).drop_first() =~= v@.subrange(a2 + i + 1, b2 as int));
        i = i + 1;
    }
    if a1 + i == b1 {
        a2 + i < b2
    } else if a2 + i == b2 {
        false
    } else {
        v[a1 + i] < v[a2 + i]
    }
}

/// The key and value that the line `v[lo..hi]` gives, as ranges of `v`.
fn entry_ranges(v: &Vec<char>, lo: usize, hi: usize) -> (r: Option<((usize, usize), (usize, usize))>)
    requires
        lo <= hi <= v@.len(),
    ensures
        match r {
            None => attr_entry(v@.subrange(lo as int, hi as int)) is None,
            Some(p) => {
                &&& p.0.0 <= p.0.1 <= v@.len()
                &&& p.1.0 <= p.1.1 <= v@.len()
                &&& attr_entry(v@.subrange(lo as int, hi as int)) == Some(
                    (
                        v@.subrange(p.0.0 as int, p.0.1 as int),
                        v@.subrange(p.1.0 as int, p.1.1 as int),
                    ),
                )
            },
        },
{
    let (a, b) = trim_bounds(v, lo, hi);
    let ghost line = v@.subrange(a as int, b as int);
    if a == b {
        return None;
    }
    let pieces = split_ranges(v, a, b, ':');
    let ghost toks = tokens(line);
    if pieces.len() < 2 {
        return None;
    }
    let (p0, q0) = pieces[0];
    let (ka, kb) = trim_bounds(v, p0, q0);
    let mut max_r: (usize, usize) = (ka, kb);
    let mut min_r: (usize, usize) = (ka, kb);
    let mut j: usize = 1;
    assert(toks.subrange(0, 1).len() == 1);
    while j < pieces.len()
        invariant
            1 <= j <= pieces@.len(),
            pieces@.len() == toks.len(),
            toks == tokens(line),
            line == v@.subrange(a as int, b as int),
            a <= b <= v@.len(),
            forall|i: int|
                0 <= i < pieces@.len() ==> a <= (#[trigger] pieces@[i]).0 <= pieces@[i].1 <= b
                    && v@.subrange(pieces@[i].0 as int, pieces@[i].1 as int) == split(
                    line,
                    ':',
                )[i],
            max_r.0 <= max_r.1 <= v@.len(),
            min_r.0 <= min_r.1 <= v@.len(),
            v@.subrange(max_r.0 as int, max_r.1 as int) == max_token(toks.subrange(0, j as int)),
            v@.subrange(min_r.0 as int, min_r.1 as int) == min_token(toks.subrange(0, j as int)),
        decreases pieces@.len() - j,
    {
        let (p, q) = pieces[j];
        let (ta, tb) = trim_bounds(v, p, q);
        assert(toks.subrange(0, j + 1).drop_last() =~= toks.subrange(0, j as int));
        assert(toks.subrange(0, j + 1).last() == toks[j as int]);
        if !lex_less(v, ta, tb, max_r.0, max_r.1) {
            max_r = (ta, tb);
        }
        if lex_less(v, ta, tb, min_r.0, min_r.1) {
            min_r = (ta, tb);
        }
        j = j + 1;
    }
    assert(toks.subrange(0, j as int) =~= toks);
    Some((max_r, min_r))
}

/// Parses manifest text into its attributes.
pub fn parse(data: &str) -> (r: AttributeTable)
    ensures
        r.wf(),
        r.model() == manifest_of(data@),
{
    let v = chars_of(data);
    let lines = split_ranges(&v, 0, v.len(), '\n');
    let ghost all = split(v@, '\n');
    assert(v@.subrange(0, v@.len() as int) =~= v@);
    let mut table = AttributeTable { entries: Vec::new() };
    assert(table.model() =~= Seq::<(Seq<char>, Seq<char>)>::empty());
    let mut i: usize = 0;
    assert(all.subrange(0, 0) =~= Seq::<Seq<char>>::empty());
    while i < lines.len()
        invariant
            v@ == data@,
            all == split(v@, '\n'),
            lines@.len() == all.len(),
            forall|j: int|
                0 <= j < lines@.len() ==> (#[trigger] lines@[j]).0 <= lines@[j].1 <= v@.len()
                    && v@.subrange(lines@[j].0 as int, lines@[j].1 as int) == all[j],
            i <= lines@.len(),
            table.wf(),
            table.model() == attrs_of(all.subrange(0, i as int)),
        decreases lines@.len() - i,
    {
        let (lo, hi) = lines[i];
        assert(all.subrange(0, i + 1).drop_last() =~= all.subrange(0, i as int));
        match entry_ranges(&v, lo, hi) {
            Some((kr, vr)) => {
                let key = substring(data, kr.0, kr.1);
                let value = substring(data, vr.0, vr.1);
                if table.index_of(key.as_str()).is_none() {
                    let ghost before = table.model();
                    let ghost e = (key@, value@);
                    table.entries.push((key, value));
                    assert(table.model() =~= before.push(e));
                }
            },
            None => {},
        }
        i = i + 1;
    }
    assert(all.subrange(0, i as int) =~= all);
    table
}

/// An attribute that a `key:value` line gives back as it is: neither side
/// holds `:` or a line break or has white space at its ends, and the key
/// does not sort before the value.
pub open spec fn canonical_entry(e: (Seq<char>, Seq<char>)) -> bool {
    &&& !e.0.contains(':')
    &&& !e.1.contains(':')
    &&& !e.0.contains('\n')
    &&& !e.1.contains('\n')
    &&& trim(e.0) == e.0
    &&& trim(e.1) == e.1
    &&& (lex_lt(e.1, e.0) || e.1 == e.0)
}

proof fn lemma_line_entry(e: (Seq<char>, Seq<char>))
    requires
        canonical_entry(e),
    ensures
        attr_entry(render_line(e)) == Some(e),
        !render_line(e).contains('\n'),
{
    let (k, v) = e;
    let line = render_line(e);
    let sv = seq![' '] + v;
    assert(line =~= k + seq![':'] + sv);
    assert(line[k.len() as int] == ':');
    if k.len() > 0 {
        lemma_trimmed_ends(k);
        assert(line[0] == k[0]);
    }
    assert(trim_start(line) == line);
    assert(!sv.contains(':')) by {
        if sv.contains(':') {
            let j = choose|j: int| 0 <= j < sv.len() && sv[j] == ':';
            assert(v[j - 1] == ':');
        }
    }
    lemma_split_no_sep(k, ':');
    lemma_split_no_sep(sv, ':');
    assert(sv.drop_first() =~= v);
    assert(trim_start(sv) == trim_start(v));
    if v.len() > 0 {
        lemma_trimmed_ends(v);
        assert(line.last() == v.last());
        assert(trim_end(line) == line);
        assert(trim(line) == line);
        lemma_split_join(k, sv, ':');
        assert(split(line, ':') =~= seq![k, sv]);
        assert(trim_start(v) == v);
        assert(trim(sv) == v);
    } else {
        let kc = k + seq![':'];
        assert(line.drop_last() =~= kc);
        assert(kc.last() == ':');
        assert(trim_end(kc) == kc);
        assert(trim_end(line) == kc);
        assert(trim(line) == kc);
        assert(kc =~= k + seq![':'] + v);
        lemma_split_join(k, v, ':');
        lemma_split_no_sep(v, ':');
        assert(split(kc, ':') =~= seq![k, v]);
    }
    let toks = tokens(trim(line));
    assert(toks =~= seq![k, v]);
    assert(toks.drop_last() =~= seq![k]);
    assert(max_token(toks.drop_last()) == k);
    assert(min_token(toks.drop_last()) == k);
    assert(max_token(toks) == k);
    assert(min_token(toks) == v);
    assert(trim(line).len() > 0);
    assert(!line.contains('\n')) by {
        if line.contains('\n') {
            let j = choose|j: int| 0 <= j < line.len() && line[j] == '\n';
            if j < k.len() {
                assert(k[j] == '\n');
            } else if j > k.len() + 1 {
                assert(v[j - k.len() - 2] == '\n');
            }
        }
    }
}

/// Splitting on `sep` after appending text without `sep` extends the last
/// piece.
proof fn lemma_split_append(a: Seq<char>, b: Seq<char>, sep: char)
    requires
        !b.contains(sep),
    ensures
        split(a + b, sep) == split(a, sep).update(
            split(a, sep).len() - 1,
            split(a, sep).last() + b,
        ),
    decreases b.len(),
{
    lemma_split_nonempty(a, sep);
    if b.len() == 0 {
        assert(a + b =~= a);
        assert(split(a, sep).last() + b =~= split(a, sep).last());
        assert(split(a, sep).update(split(a, sep).len() - 1, split(a, sep).last())
            =~= split(a, sep));
    } else {
        assert(!b.drop_last().contains(sep)) by {
            if b.drop_last().contains(sep) {
                let j = choose|j: int| 0 <= j < b.drop_last().len() && b.drop_last()[j] == sep;
                assert(b[j] == sep);
            }
        }
        assert(b.last() != sep) by {
            assert(b[b.len() - 1] == b.last());
        }
        lemma_split_append(a, b.drop_last(), sep);
        assert((a + b).drop_last() =~= a + b.drop_last());
        assert((a + b).last() == b.last());
        assert((split(a, sep).last() + b.drop_last()).push(b.last()) =~= split(a, sep).last() + b);
        assert(split(a + b, sep) =~= split(a, sep).update(
            split(a, sep).len() - 1,
            split(a, sep).last() + b,
        ));
    }
}

proof fn lemma_render_lines(s: Seq<(Seq<char>, Seq<char>)>)
    requires
        forall|i: int| 0 <= i < s.len() ==> canonical_entry(#[trigger] s[i]),
    ensures
        split(render(s), '\n') == s.map_values(|e: (Seq<char>, Seq<char>)| render_line(e)).push(
            Seq::<char>::empty(),
        ),
    decreases s.len(),
{
    if s.len() == 0 {
        assert(split(render(s), '\n') =~= seq![Seq::<char>::empty()]);
        assert(s.map_values(|e: (Seq<char>, Seq<char>)| render_line(e)).push(Seq::<char>::empty())
            =~= seq![Seq::<char>::empty()]);
    } else {
        let prev = render(s.drop_last());
        let line = render_line(s.last());
        lemma_line_entry(s.last());
        lemma_render_lines(s.drop_last());
        lemma_split_append(prev, line, '\n');
        assert(render(s) =~= (prev + line) + seq!['\n'] + Seq::<char>::empty());
        lemma_split_join(prev + line, Seq::<char>::empty(), '\n');
        assert(split(Seq::<char>::empty(), '\n') =~= seq![Seq::<char>::empty()]);
        assert(Seq::<char>::empty() + line =~= line);
        assert(s.drop_last().map_values(|e: (Seq<char>, Seq<char>)| render_line(e)).push(line)
            =~= s.map_values(|e: (Seq<char>, Seq<char>)| render_line(e)));
        assert(split(render(s), '\n') =~= s.map_values(|e: (Seq<char>, Seq<char>)| render_line(e)).push(
            Seq::<char>::empty(),
        ));
    }
}

proof fn lemma_attrs_of_lines(s: Seq<(Seq<char>, Seq<char>)>)
    requires
        keys_unique(s),
        forall|i: int| 0 <= i < s.len() ==> canonical_entry(#[trigger] s[i]),
    ensures
        attrs_of(s.map_values(|e: (Seq<char>, Seq<char>)| render_line(e))) == s,
    decreases s.len(),
{
    let lines = s.map_values(|e: (Seq<char>, Seq<char>)| render_line(e));
    if s.len() > 0 {
        assert(lines.drop_last() =~= s.drop_last().map_values(
            |e: (Seq<char>, Seq<char>)| render_line(e),
        ));
        lemma_attrs_of_lines(s.drop_last());
        lemma_line_entry(s.last());
        assert(!has_key(s.drop_last(), s.last().0));
        assert(s.drop_last().push(s.last()) =~= s);
    }
}

proof fn lemma_render_reparse(s: Seq<(Seq<char>, Seq<char>)>)
    requires
        keys_unique(s),
        forall|i: int| 0 <= i < s.len() ==> canonical_entry(#[trigger] s[i]),
    ensures
        manifest_of(render(s)) == s,
{
    let lines = s.map_values(|e: (Seq<char>, Seq<char>)| render_line(e));
    lemma_render_lines(s);
    lemma_attrs_of_lines(s);
    assert(lines.push(Seq::<char>::empty()).drop_last() =~= lines);
    assert(trim(Seq::<char>::empty()) =~= Seq::<char>::empty());
    assert(attr_entry(Seq::<char>::empty()) is None);
    assert(attrs_of(lines.push(Seq::<char>::empty())) == attrs_of(lines));
}

/// Rendering a table whose attributes are canonical, one `key: value` line
/// each, and parsing the text again gives back the same attributes in the
/// same order.
pub proof fn law_render_reparse(t: AttributeTable)
    requires
        t.wf(),
        forall|i: int| 0 <= i < t.model().len() ==> canonical_entry(#[trigger] t.model()[i]),
    ensures
        manifest_of(render(t.model())) == t.model(),
{
    lemma_render_reparse(t.model());
}

proof fn lemma_lex_total(a: Seq<char>, b: Seq<char>)
    ensures
        !lex_lt(b, a) ==> (lex_lt(a, b) || a == b),
    decreases a.len(),
{
    if a.len() > 0 && b.len() > 0 {
        if a[0] == b[0] {
            lemma_lex_total(a.drop_first(), b.drop_first());
            if a.drop_first() == b.drop_first() {
                assert(a =~= seq![a[0]] + a.drop_first());
                assert(b =~= seq![b[0]] + b.drop_first());
            }
        } else {
            assert((a[0] as int) != (b[0] as int));
        }
    } else if a.len() == 0 && b.len() == 0 {
        assert(a =~= b);
    }
}

/// Every non-blank line, once trimmed, has exactly two `:`-separated pieces.
pub open spec fn two_piece_lines(text: Seq<char>) -> bool {
    forall|i: int|
        0 <= i < split(text, '\n').len() ==> trim(#[trigger] split(text, '\n')[i]).len() == 0
            || split(trim(split(text, '\n')[i]), ':').len() == 2
}

proof fn lemma_two_piece_line(l: Seq<char>)
    requires
        !l.contains('\n'),
        trim(l).len() == 0 || split(trim(l), ':').len() == 2,
    ensures
        attr_entry(l) matches Some(e) ==> canonical_entry(e),
{
    let tl = trim(l);
    if tl.len() > 0 {
        let p = split(tl, ':');
        let toks = tokens(tl);
        let t0 = toks[0];
        let t1 = toks[1];
        assert(t0 == trim(p[0]) && t1 == trim(p[1]));
        lemma_split_pieces(tl, ':', 0, '\n');
        lemma_split_pieces(tl, ':', 1, '\n');
        lemma_trim_twice(p[0], ':');
        lemma_trim_twice(p[1], ':');
        lemma_trim_twice(p[0], '\n');
        lemma_trim_twice(p[1], '\n');
        lemma_trim_twice(l, '\n');
        assert(toks.drop_last() =~= seq![t0]);
        assert(max_token(toks.drop_last()) == t0);
        assert(min_token(toks.drop_last()) == t0);
        lemma_lex_total(t0, t1);
        assert(toks.last() == t1);
    }
}

proof fn lemma_attrs_canonical(lines: Seq<Seq<char>>)
    requires
        forall|i: int|
            0 <= i < lines.len() ==> (attr_entry(#[trigger] lines[i]) matches Some(e)
                ==> canonical_entry(e)),
    ensures
        keys_unique(attrs_of(lines)),
        forall|i: int| 0 <= i < attrs_of(lines).len() ==> canonical_entry(#[trigger] attrs_of(lines)[i]),
    decreases lines.len(),
{
    if lines.len() > 0 {
        let d = lines.drop_last();
        assert forall|i: int| 0 <= i < d.len() implies (attr_entry(#[trigger] d[i]) matches Some(e)
            ==> canonical_entry(e)) by {
            assert(d[i] == lines[i]);
        }
        lemma_attrs_canonical(d);
        assert(lines.last() == lines[lines.len() - 1]);
    }
}

/// Parsing manifest text in which every non-blank line holds one `:`,
/// rendering the result, and parsing again gives the first result back.
pub proof fn law_parse_render_parse(text: Seq<char>)
    requires
        two_piece_lines(text),
    ensures
        manifest_of(render(manifest_of(text))) == manifest_of(text),
{
    let lines = split(text, '\n');
    assert forall|i: int| 0 <= i < lines.len() implies (attr_entry(#[trigger] lines[i]) matches Some(e)
        ==> canonical_entry(e)) by {
        lemma_split_pieces(text, '\n', i, '\n');
        lemma_two_piece_line(lines[i]);
    }
    lemma_attrs_canonical(lines);
    lemma_render_reparse(manifest_of(text));
}

} // verus!
