//! Scripts: a fetch query and a text to produce for each row it returns.
//!
//! This module holds the plain form, whose text names a row's columns
//! between escape characters (`|name|`); `render` holds the templated form
//! with raw and scope fetch modes.
use vstd::prelude::*;
use crate::text::{first_index_some, lemma_first_index_prefix};

pub mod render;

verus! {

/// A fetch query and the text that each returned row fills in.
#[derive(Debug, Clone)]
pub struct Script {
    pub fetch: String,
    pub act: String,
    pub escape_char: char,
}

/// Why running a script produced nothing.
#[derive(Debug, Clone, PartialEq, Eq)]
pub enum RunError {
    /// The fetch query returned no rows.
    NoRows,
}

/// The escape character used when a script names none.
pub fn default_char() -> (r: char)
    ensures
        r == '|',
{
    '|'
}

/// A run with `n` result rows goes on only if there is at least one.
pub fn check_row_count(n: usize) -> (r: Result<(), RunError>)
    ensures
        n == 0 ==> r == Err::<(), RunError>(RunError::NoRows),
        n > 0 ==> r is Ok,
{
    if n == 0 {
        Err(RunError::NoRows)
    } else {
        Ok(())
    }
}

/// The column name between two escape characters.
pub open spec fn marker(esc: char, name: Seq<char>) -> Seq<char> {
    seq![esc] + name + seq![esc]
}

pub open spec fn marker_pick(act: Seq<char>, esc: char, tokens: Seq<Seq<char>>) -> spec_fn(int) -> Option<int> {
    |t: int| if act.len() >= marker(esc, tokens[t]).len() && act.take(marker(esc, tokens[t]).len() as int) == marker(esc, tokens[t]) { Some(t) } else { None }
}

/// The first column whose marker starts `act`.
pub open spec fn marker_at(act: Seq<char>, esc: char, tokens: Seq<Seq<char>>) -> Option<int> {
    first_index_some(tokens.len() as int, marker_pick(act, esc, tokens))
}

/// The text put in for column `t`: its value, or its name when the row has
/// no text or integer value there.
pub open spec fn filler(tokens: Seq<Seq<char>>, values: Seq<Option<String>>, t: int) -> Seq<char> {
    match values[t] {
        Some(v) => v@,
        None => tokens[t],
    }
}

/// The text with every marker, scanning from the front, replaced by its
/// column's filler; other characters are kept.
pub open spec fn filled(act: Seq<char>, esc: char, tokens: Seq<Seq<char>>, values: Seq<Option<String>>) -> Seq<char>
    decreases act.len(),
{
    if act.len() == 0 {
        Seq::empty()
    } else {
        match marker_at(act, esc, tokens) {
            // a found marker always fits in `act`
            Some(t) => if tokens[t].len() + 2 <= act.len() {
                filler(tokens, values, t) + filled(act.skip(tokens[t].len() as int + 2), esc, tokens, values)
            } else {
                Seq::empty()
            },
            None => seq![act[0]] + filled(act.skip(1), esc, tokens, values),
        }
    }
}

/// Whether the marker of `name` starts at character `i` of `act`.
fn marker_starts(act: &str, n: usize, i: usize, esc: char, name: &str) -> (r: bool)
    requires
        n == act@.len(),
        i <= n,
    ensures
        r == (act@.skip(i as int).len() >= marker(esc, name@).len()
            && act@.skip(i as int).take(marker(esc, name@).len() as int) == marker(esc, name@)),
{
    let m = name.unicode_len();
    let ghost mk = marker(esc, name@);
    let ghost rest = act@.skip(i as int);
    if n - i < 2 || n - i - 2 < m {
        return false;
    }
    if act.get_char(i) != esc || act.get_char(i + m + 1) != esc {
        assert(rest.take(mk.len() as int)[0] != mk[0] || rest.take(mk.len() as int)[m + 1] != mk[m + 1]);
        return false;
    }
    let mut k: usize = 0;
    while k < m
        invariant
            n == act@.len(),
            m == name@.len(),
            i + m + 2 <= n,
            forall|q: int| 0 <= q < k ==> act@[i + 1 + q] == name@[q],
            0 <= k <= m,
            mk == marker(esc, name@),
            rest == act@.skip(i as int),
        decreases m - k,
    {
        if act.get_char(i + 1 + k) != name.get_char(k) {
            assert(rest.take(mk.len() as int)[k + 1] != mk[k + 1]);
            return false;
        }
        k = k + 1;
    }
    assert(rest.take(mk.len() as int) =~= mk);
    true
}

impl Script {
    /// Fills the script's text for one row: `tokens` are the result's column
    /// names and `values` the row's text for each (`None` where it has no
    /// text or integer value).
    pub fn fill_data(&self, values: &Vec<Option<String>>, tokens: &Vec<String>) -> (r: String)
        requires
            values@.len() == tokens@.len(),
        ensures
            r@ == filled(self.act@, self.escape_char, tokens@.map_values(|t: String| t@), values@),
    {
        let ghost tv = tokens@.map_values(|t: String| t@);
        let ghost whole = filled(self.act@, self.escape_char, tv, values@);
        let act = self.act.as_str();
        let n = act.unicode_len();
        let mut out = String::new();
        let mut i: usize = 0;
        assert(act@.skip(0) =~= act@);
        while i < n
            invariant
                tv == tokens@.map_values(|t: String| t@),
                values@.len() == tokens@.len(),
                act@ == self.act@,
                n == act@.len(),
                0 <= i <= n,
                whole == filled(self.act@, self.escape_char, tv, values@),
                out@ + filled(act@.skip(i as int), self.escape_char, tv, values@) == whole,
            decreases n - i,
        {
            let ghost rest = act@.skip(i as int);
            let ghost f = marker_pick(rest, self.escape_char, tv);
            let mut t: usize = 0;
            let mut found = false;
            while t < tokens.len() && !found
                invariant
                    tv == tokens@.map_values(|t: String| t@),
                    n == act@.len(),
                    i < n,
                    rest == act@.skip(i as int),
                    f == marker_pick(rest, self.escape_char, tv),
                    0 <= t <= tokens@.len(),
                    first_index_some(t as int, f) is None,
                    found ==> t < tokens@.len() && f(t as int) == Some(t as int),
                decreases tokens@.len() - t + (if found { 0int } else { 1int }),
            {
                if marker_starts(act, n, i, self.escape_char, tokens[t].as_str()) {
                    found = true;
                } else {
                    t = t + 1;
                }
            }
            if found {
                proof { lemma_first_index_prefix(t as int + 1, tokens@.len() as int, f); }
                let m = tokens[t].unicode_len();
                match &values[t] {
                    Some(v) => out.append(v.as_str()),
                    None => out.append(tokens[t].as_str()),
                }
                assert(act@.skip(i as int).skip(m as int + 2) =~= act@.skip(i + m + 2));
                i = i + m + 2;
            } else {
                let c = act.substring_char(i, i + 1);
                out.append(c);
                assert(c@ =~= seq![rest[0]]);
                assert(act@.skip(i as int).skip(1) =~= act@.skip(i + 1));
                i = i + 1;
            }
        }
        assert(act@.skip(i as int) =~= Seq::<char>::empty());
        assert(out@ =~= whole);
        out
    }
}

} // verus!
