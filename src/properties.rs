//! The server's `key=value` configuration text and the typed table it
//! becomes.
use vstd::prelude::*;
use crate::table::{
    assoc_map, keys_unique, lemma_assoc_absent, lemma_assoc_lookup, lemma_assoc_update,
};
use crate::text::{
    chars_of, is_white, is_white_char, lemma_split_no_sep, split, split_ranges, str_eq, substring,
};

verus! {

/// A configuration value, typed by the first reading of its text that
/// succeeds: empty, then integer, then boolean, then text.
#[derive(Debug, Clone, PartialEq, Eq)]
pub enum ConfigValue {
    Integer(u32),
    String(String),
    Boolean(bool),
    Absent,
}

/// What a [`ConfigValue`] holds, with its text as characters.
pub enum ValueModel {
    Integer(u32),
    Text(Seq<char>),
    Boolean(bool),
    Absent,
}

impl View for ConfigValue {
    type V = ValueModel;

    open spec fn view(&self) -> ValueModel {
        match self {
            ConfigValue::Integer(n) => ValueModel::Integer(*n),
            ConfigValue::String(s) => ValueModel::Text(s@),
            ConfigValue::Boolean(b) => ValueModel::Boolean(*b),
            ConfigValue::Absent => ValueModel::Absent,
        }
    }
}

impl ConfigValue {
    pub fn as_u32(&self) -> (r: Option<u32>)
        ensures
            r == (match self@ {
                ValueModel::Integer(n) => Some(n),
                _ => None::<u32>,
            }),
    {
        match self {
            ConfigValue::Integer(n) => Some(*n),
            _ => None,
        }
    }

    pub fn as_string(&self) -> (r: Option<String>)
        ensures
            match self@ {
                ValueModel::Text(t) => r.is_some() && r.unwrap()@ == t,
                _ => r.is_none(),
            },
    {
        match self {
            ConfigValue::String(s) => Some(s.clone()),
            _ => None,
        }
    }

    pub fn as_bool(&self) -> (r: Option<bool>)
        ensures
            r == (match self@ {
                ValueModel::Boolean(b) => Some(b),
                _ => None::<bool>,
            }),
    {
        match self {
            ConfigValue::Boolean(b) => Some(*b),
            _ => None,
        }
    }
}

pub open spec fn is_digit(c: char) -> bool {
    48 <= c as u32 && c as u32 <= 57
}

/// The number that a string of decimal digits writes.
pub open spec fn digits_value(s: Seq<char>) -> nat
    decreases s.len(),
{
    if s.len() == 0 {
        0
    } else {
        digits_value(s.drop_last()) * 10 + (s.last() as u32 - 48) as nat
    }
}

/// `s` without one leading `+`.
pub open spec fn unsigned_digits(s: Seq<char>) -> Seq<char> {
    if s.len() > 0 && s[0] == '+' {
        s.drop_first()
    } else {
        s
    }
}

/// The `u32` that `s` writes, as `str::parse::<u32>` reads it: an optional
/// `+`, then one or more decimal digits, the value in range.
pub open spec fn u32_of(s: Seq<char>) -> Option<u32> {
    let d = unsigned_digits(s);
    if d.len() > 0 && (forall|i: int| 0 <= i < d.len() ==> is_digit(d[i])) && digits_value(d)
        <= u32::MAX {
        Some(digits_value(d) as u32)
    } else {
        None
    }
}

/// The value that the text right of `=` stands for.
pub open spec fn coerce(v: Seq<char>) -> ValueModel {
    if forall|i: int| 0 <= i < v.len() ==> is_white(#[trigger] v[i]) {
        ValueModel::Absent
    } else if u32_of(v) is Some {
        ValueModel::Integer(u32_of(v).unwrap())
    } else if v == "true"@ {
        ValueModel::Boolean(true)
    } else if v == "false"@ {
        ValueModel::Boolean(false)
    } else {
        ValueModel::Text(v)
    }
}

/// The entry that one line contributes: none for a comment; else the text
/// before the first `=` as key, and the rest after it as value, or `Absent`
/// where the line holds no `=`.
pub open spec fn line_entry(line: Seq<char>) -> Option<(Seq<char>, ValueModel)> {
    if line.len() > 0 && line[0] == '#' {
        None
    } else {
        let key = split(line, '=')[0];
        if key.len() == line.len() {
            Some((key, ValueModel::Absent))
        } else {
            Some((key, coerce(line.subrange(key.len() as int + 1, line.len() as int))))
        }
    }
}

/// The table that a sequence of lines builds: a later line overrides an
/// earlier one with the same key.
pub open spec fn table_of(lines: Seq<Seq<char>>) -> Map<Seq<char>, ValueModel>
    decreases lines.len(),
{
    if lines.len() == 0 {
        Map::empty()
    } else {
        let m = table_of(lines.drop_last());
        match line_entry(lines.last()) {
            Some(e) => m.insert(e.0, e.1),
            None => m,
        }
    }
}

/// The table that configuration text stands for; lines are split on `\n`.
pub open spec fn config_of(text: Seq<char>) -> Map<Seq<char>, ValueModel> {
    table_of(split(text, '\n'))
}

/// A typed configuration table: each key once.
pub struct ConfigTable {
    entries: Vec<(String, ConfigValue)>,
}

impl ConfigTable {
    pub closed spec fn model(&self) -> Seq<(Seq<char>, ValueModel)> {
        self.entries@.map_values(|e: (String, ConfigValue)| (e.0@, e.1@))
    }

    pub closed spec fn wf(&self) -> bool {
        keys_unique(self.model())
    }

    pub open spec fn view(&self) -> Map<Seq<char>, ValueModel> {
        assoc_map(self.model())
    }

    pub fn new() -> (r: ConfigTable)
        ensures
            r.wf(),
            r.view() == Map::<Seq<char>, ValueModel>::empty(),
    {
        let r = ConfigTable { entries: Vec::new() };
        assert(r.model() =~= Seq::<(Seq<char>, ValueModel)>::empty());
        r
    }

    fn index_of(&self, key: &str) -> (r: Option<usize>)
        ensures
            match r {
                Some(i) => i < self.model().len() && self.model()[i as int].0 == key@,
                None => forall|i: int| 0 <= i < self.model().len() ==> self.model()[i].0 != key@,
            },
    {
        let mut i: usize = 0;
        while i < self.entries.len()
            invariant
                i <= self.entries@.len(),
                forall|j: int| 0 <= j < i ==> self.model()[j].0 != key@,
            decreases self.entries@.len() - i,
        {
            if str_eq(self.entries[i].0.as_str(), key) {
                return Some(i);
            }
            i = i + 1;
        }
        None
    }

    /// Sets `key` to `value`, replacing what it held.
    pub fn insert(&mut self, key: String, value: ConfigValue)
        requires
            old(self).wf(),
        ensures
            final(self).wf(),
            final(self).view() == old(self).view().insert(key@, value@),
    {
        match self.index_of(key.as_str()) {
            Some(i) => {
                proof {
                    lemma_assoc_update(self.model(), i as int, value@);
                }
                let ghost k = key@;
                self.entries.set(i, (key, value));
                assert(self.model() =~= old(self).model().update(i as int, (k, value@)));
            },
            None => {
                let ghost k = key@;
                let ghost v = value@;
                self.entries.push((key, value));
                assert(self.model().drop_last() =~= old(self).model());
                assert(self.model() =~= old(self).model().push((k, v)));
            },
        }
    }

    /// The value that `key` holds, if any.
    pub fn get(&self, key: &str) -> (r: Option<&ConfigValue>)
        requires
            self.wf(),
        ensures
            r is None <==> !self.view().contains_key(key@),
            r is Some ==> r.unwrap()@ == self.view()[key@],
    {
        match self.index_of(key) {
            Some(i) => {
                proof {
                    lemma_assoc_lookup(self.model(), i as int);
                }
                Some(&self.entries[i].1)
            },
            None => {
                proof {
                    lemma_assoc_absent(self.model(), key@);
                }
                None
            },
        }
    }

    /// The number of keys.
    pub fn len(&self) -> (r: usize)
        requires
            self.wf(),
        ensures
            r == self.view().len(),
    {
        proof {
            lemma_unique_len(self.model());
        }
        self.entries.len()
    }
}

proof fn lemma_unique_len<M>(s: Seq<(Seq<char>, M)>)
    requires
        keys_unique(s),
    ensures
        assoc_map(s).len() == s.len(),
        assoc_map(s).dom().finite(),
    decreases s.len(),
{
    if s.len() > 0 {
        lemma_unique_len(s.drop_last());
        assert forall|i: int| 0 <= i < s.drop_last().len() implies s.drop_last()[i].0 != s.last().0 by {
        }
        lemma_assoc_absent(s.drop_last(), s.last().0);
    }
}

proof fn lemma_digits_prefix(s: Seq<char>, k: int)
    requires
        0 <= k <= s.len(),
    ensures
        digits_value(s) >= digits_value(s.subrange(0, k)),
    decreases s.len(),
{
    if k < s.len() {
        assert(s.drop_last().subrange(0, k) =~= s.subrange(0, k));
        lemma_digits_prefix(s.drop_last(), k);
    } else {
        assert(s.subrange(0, k) =~= s);
    }
}

/// Reads `v[lo..hi]` as `str::parse::<u32>` does.
fn parse_u32(v: &Vec<char>, lo: usize, hi: usize) -> (r: Option<u32>)
    requires
        lo <= hi <= v@.len(),
    ensures
        r == u32_of(v@.subrange(lo as int, hi as int)),
{
    let ghost s = v@.subrange(lo as int, hi as int);
    let mut start: usize = lo;
    if start < hi && v[start] == '+' {
        start = start + 1;
        assert(s.drop_first() =~= v@.subrange(start as int, hi as int));
    } else {
        assert(s =~= v@.subrange(start as int, hi as int));
    }
    let ghost d = v@.subrange(start as int, hi as int);
    assert(unsigned_digits(s) == d);
    if start == hi {
        return None;
    }
    let mut acc: u64 = 0;
    let mut i: usize = start;
    assert(v@.subrange(start as int, start as int) =~= Seq::<char>::empty());
    while i < hi
        invariant
            start <= i <= hi <= v@.len(),
            d == v@.subrange(start as int, hi as int),
            unsigned_digits(v@.subrange(lo as int, hi as int)) == d,
            acc == digits_value(v@.subrange(start as int, i as int)),
            acc <= u32::MAX,
            forall|j: int| 0 <= j < i - start ==> is_digit(d[j]),
        decreases hi - i,
    {
        let c = v[i];
        if !(48 <= c as u32 && c as u32 <= 57) {
            assert(!is_digit(d[i - start]));
            return None;
        }
        let ghost p = v@.subrange(start as int, i + 1);
        assert(p.drop_last() =~= v@.subrange(start as int, i as int));
        acc = acc * 10 + ((c as u32) - 48) as u64;
        i = i + 1;
        if acc > 4294967295 {
            proof {
                assert(d.subrange(0, i - start) =~= p);
                lemma_digits_prefix(d, i - start);
            }
            return None;
        }
    }
    assert(v@.subrange(start as int, i as int) =~= d);
    Some(acc as u32)
}

/// The value that the text `v[lo..hi]` stands for.
fn coerce_range(data: &str, v: &Vec<char>, lo: usize, hi: usize) -> (r: ConfigValue)
    requires
        v@ == data@,
        lo <= hi <= v@.len(),
    ensures
        r@ == coerce(v@.subrange(lo as int, hi as int)),
{
    let ghost s = v@.subrange(lo as int, hi as int);
    let mut i: usize = lo;
    while i < hi && is_white_char(v[i])
        invariant
            lo <= i <= hi <= v@.len(),
            s == v@.subrange(lo as int, hi as int),
            forall|j: int| 0 <= j < i - lo ==> is_white(#[trigger] s[j]),
        decreases hi - i,
    {
        i = i + 1;
    }
    if i == hi {
        return ConfigValue::Absent;
    }
    assert(!is_white(s[i - lo]));
    match parse_u32(v, lo, hi) {
        Some(n) => ConfigValue::Integer(n),
        None => {
            let t = substring(data, lo, hi);
            if str_eq(t.as_str(), "true") {
                ConfigValue::Boolean(true)
            } else if str_eq(t.as_str(), "false") {
                ConfigValue::Boolean(false)
            } else {
                ConfigValue::String(t)
            }
        },
    }
}

/// The entry that the line `v[lo..hi]` contributes.
fn line_entry_range(data: &str, v: &Vec<char>, lo: usize, hi: usize) -> (r: Option<(String, ConfigValue)>)
    requires
        v@ == data@,
        lo <= hi <= v@.len(),
    ensures
        match r {
            None => line_entry(v@.subrange(lo as int, hi as int)) is None,
            Some(e) => line_entry(v@.subrange(lo as int, hi as int)) == Some((e.0@, e.1@)),
        },
{
    let ghost line = v@.subrange(lo as int, hi as int);
    if lo < hi && v[lo] == '#' {
        return None;
    }
    let parts = split_ranges(v, lo, hi, '=');
    proof {
        lemma_first_piece_start(line, '=');
    }
    assert(parts@.len() >= 1);
    let (klo, khi) = parts[0];
    let key = substring(data, klo, khi);
    assert(key@ == split(line, '=')[0]);
    if khi == hi {
        assert(v@.subrange(klo as int, khi as int).len() == khi - klo);
        proof {
            lemma_first_piece_start(line, '=');
        }
        Some((key, ConfigValue::Absent))
    } else {
        proof {
            lemma_first_piece_start(line, '=');
        }
        assert(klo == lo);
        assert(line.subrange(key@.len() as int + 1, line.len() as int) =~= v@.subrange(
            khi + 1,
            hi as int,
        ));
        let value = coerce_range(data, v, khi + 1, hi);
        Some((key, value))
    }
}

/// The first piece of a split starts the text, and is all of it where it
/// is the only piece.
proof fn lemma_first_piece_start(s: Seq<char>, sep: char)
    ensures
        split(s, sep).len() >= 1,
        split(s, sep)[0].len() <= s.len(),
        split(s, sep)[0] == s.subrange(0, split(s, sep)[0].len() as int),
        split(s, sep).len() == 1 ==> split(s, sep)[0] == s,
    decreases s.len(),
{
    if s.len() == 0 {
        assert(s.subrange(0, 0) =~= s);
    } else {
        let d = s.drop_last();
        lemma_first_piece_start(d, sep);
        let p = split(d, sep);
        let f = p[0];
        assert(d.subrange(0, f.len() as int) =~= s.subrange(0, f.len() as int));
        if s.last() != sep && p.len() == 1 {
            assert(f.push(s.last()) =~= s);
            assert(s.subrange(0, s.len() as int) =~= s);
        }
    }
}

/// Parses configuration text into its table.
pub fn parse(data: &str) -> (r: ConfigTable)
    ensures
        r.wf(),
        r.view() == config_of(data@),
{
    let v = chars_of(data);
    let lines = split_ranges(&v, 0, v.len(), '\n');
    let ghost all = split(v@, '\n');
    assert(v@.subrange(0, v@.len() as int) =~= v@);
    let mut table = ConfigTable::new();
    let mut i: usize = 0;
    assert(all.subrange(0, 0) =~= Seq::<Seq<char>>::empty());
    while i < lines.len()
        invariant
            v@ == data@,
            all == split(v@, '\n'),
            lines@.len() == all.len(),
            forall|j: int|
                0 <= j < lines@.len() ==> (#[trigger] lines@[j]).0 <= lines@[j].1 <= v@.len()
                    && v@.subrange(lines@[j].0 as int, lines@[j].1 as int) == all[j],
            i <= lines@.len(),
            table.wf(),
            table.view() == table_of(all.subrange(0, i as int)),
        decreases lines@.len() - i,
    {
        let (lo, hi) = lines[i];
        assert(all.subrange(0, i + 1).drop_last() =~= all.subrange(0, i as int));
        match line_entry_range(data, &v, lo, hi) {
            Some((key, value)) => table.insert(key, value),
            None => {},
        }
        i = i + 1;
    }
    assert(all.subrange(0, i as int) =~= all);
    table
}

proof fn lemma_split_first_stays(s: Seq<char>, t: Seq<char>, sep: char)
    requires
        split(s, sep).len() >= 2,
    ensures
        split(s + t, sep).len() >= 2,
        split(s + t, sep)[0] == split(s, sep)[0],
    decreases t.len(),
{
    if t.len() > 0 {
        assert((s + t).drop_last() =~= s + t.drop_last());
        lemma_split_first_stays(s, t.drop_last(), sep);
    } else {
        assert(s + t =~= s);
    }
}

/// The key and value that an assignment line `key=value` holds, where the key
/// holds no `=`.
proof fn lemma_assignment_entry(key: Seq<char>, value: Seq<char>)
    requires
        !key.contains('='),
        key.len() == 0 || key[0] != '#',
    ensures
        line_entry(key + "="@ + value) == Some((key, coerce(value))),
{
    reveal_strlit("=");
    let line = key + "="@ + value;
    lemma_split_no_sep(key, '=');
    let head = key + "="@;
    assert(head.drop_last() =~= key);
    assert(split(head, '=').len() == 2);
    assert(line =~= head + value);
    lemma_split_first_stays(head, value, '=');
    assert(line.subrange(key.len() as int + 1, line.len() as int) =~= value);
    if key.len() == 0 {
        assert(line[0] == '=');
    } else {
        assert(line[0] == key[0]);
    }
}

proof fn lemma_table_last_entry(lines: Seq<Seq<char>>, i: int, key: Seq<char>, m: ValueModel)
    requires
        0 <= i < lines.len(),
        line_entry(lines[i]) == Some((key, m)),
        forall|j: int|
            i < j < lines.len() ==> !(line_entry(#[trigger] lines[j]) matches Some(e) && e.0
                == key),
    ensures
        table_of(lines).contains_key(key),
        table_of(lines)[key] == m,
    decreases lines.len(),
{
    if i < lines.len() - 1 {
        lemma_table_last_entry(lines.drop_last(), i, key, m);
        assert(lines.last() == lines[lines.len() - 1]);
    }
}

/// A line `key=value` of configuration text, with no later line for the same
/// key, gives `key` the value that `value` reads as: `5` an integer, `true` a
/// boolean, empty text nothing, other text itself.
pub proof fn law_assignment_line(text: Seq<char>, i: int, key: Seq<char>, value: Seq<char>)
    requires
        0 <= i < split(text, '\n').len(),
        split(text, '\n')[i] == key + "="@ + value,
        !key.contains('='),
        key.len() == 0 || key[0] != '#',
        forall|j: int|
            i < j < split(text, '\n').len() ==> !(line_entry(#[trigger] split(text, '\n')[j])
                matches Some(e) && e.0 == key),
    ensures
        config_of(text).contains_key(key),
        config_of(text)[key] == coerce(value),
{
    lemma_assignment_entry(key, value);
    lemma_table_last_entry(split(text, '\n'), i, key, coerce(value));
}

/// A line that is only a key, with no later line for the same key, leaves
/// that key present with no value.
pub proof fn law_bare_key_line(text: Seq<char>, i: int, key: Seq<char>)
    requires
        0 <= i < split(text, '\n').len(),
        split(text, '\n')[i] == key,
        !key.contains('='),
        key.len() == 0 || key[0] != '#',
        forall|j: int|
            i < j < split(text, '\n').len() ==> !(line_entry(#[trigger] split(text, '\n')[j])
                matches Some(e) && e.0 == key),
    ensures
        config_of(text).contains_key(key),
        config_of(text)[key] == ValueModel::Absent,
{
    lemma_split_no_sep(key, '=');
    lemma_table_last_entry(split(text, '\n'), i, key, ValueModel::Absent);
}

proof fn lemma_table_skip(lines: Seq<Seq<char>>, i: int)
    requires
        0 <= i < lines.len(),
        line_entry(lines[i]) is None,
    ensures
        table_of(lines) == table_of(lines.remove(i)),
    decreases lines.len(),
{
    if i == lines.len() - 1 {
        assert(lines.remove(i) =~= lines.drop_last());
    } else {
        assert(lines.remove(i).drop_last() =~= lines.drop_last().remove(i));
        assert(lines.remove(i).last() == lines.last());
        lemma_table_skip(lines.drop_last(), i);
    }
}

/// A line that starts with `#` adds nothing: the table is the one that the
/// other lines build.
pub proof fn law_comment_line_ignored(text: Seq<char>, i: int)
    requires
        0 <= i < split(text, '\n').len(),
        split(text, '\n')[i].len() > 0,
        split(text, '\n')[i][0] == '#',
    ensures
        config_of(text) == table_of(split(text, '\n').remove(i)),
{
    lemma_table_skip(split(text, '\n'), i);
}

} // verus!
