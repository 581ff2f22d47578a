//! Character-level helpers on strings, stated over their `Seq<char>` views.
use vstd::prelude::*;

verus! {

/// The first `Some` that `f` gives on the elements of `s`, scanning from the front.
pub open spec fn first_some<A, B>(s: Seq<A>, f: spec_fn(A) -> Option<B>) -> Option<B>
    decreases s.len(),
{
    if s.len() == 0 {
        None
    } else {
        match first_some(s.drop_last(), f) {
            Some(b) => Some(b),
            None => f(s.last()),
        }
    }
}

/// `first_some` finds nothing exactly when `f` gives `None` on every element.
pub proof fn lemma_first_some_none<A, B>(s: Seq<A>, f: spec_fn(A) -> Option<B>)
    ensures
        first_some(s, f) is None <==> forall|i: int| 0 <= i < s.len() ==> (#[trigger] f(s[i])) is None,
    decreases s.len(),
{
    if s.len() > 0 {
        lemma_first_some_none(s.drop_last(), f);
        if first_some(s, f) is None {
            assert forall|i: int| 0 <= i < s.len() implies (#[trigger] f(s[i])) is None by {
                if i < s.len() - 1 {
                    assert(s.drop_last()[i] == s[i]);
                }
            }
        } else {
            if first_some(s.drop_last(), f) is Some {
                let j = choose|j: int| 0 <= j < s.drop_last().len() && (#[trigger] f(s.drop_last()[j])) is Some;
                assert(f(s[j]) is Some);
            } else {
                assert(f(s[s.len() - 1]) is Some);
            }
        }
    }
}

/// Extending the scanned prefix by one element whose predecessors gave nothing.
pub proof fn lemma_first_some_push<A, B>(s: Seq<A>, n: int, f: spec_fn(A) -> Option<B>)
    requires
        0 <= n < s.len(),
        first_some(s.take(n), f) is None,
    ensures
        first_some(s.take(n + 1), f) == f(s[n]),
{
    assert(s.take(n + 1).drop_last() =~= s.take(n));
}

/// Once a prefix has found something, the whole sequence finds the same.
pub proof fn lemma_first_some_prefix<A, B>(s: Seq<A>, n: int, f: spec_fn(A) -> Option<B>)
    requires
        0 <= n <= s.len(),
        first_some(s.take(n), f) is Some,
    ensures
        first_some(s, f) == first_some(s.take(n), f),
    decreases s.len(),
{
    if n == s.len() {
        assert(s.take(n) =~= s);
    } else {
        assert(s.drop_last().take(n) =~= s.take(n));
        lemma_first_some_prefix(s.drop_last(), n, f);
    }
}

/// The first `Some` that `f` gives on the indices `0 .. n`, in increasing order.
pub open spec fn first_index_some<B>(n: int, f: spec_fn(int) -> Option<B>) -> Option<B>
    decreases n,
{
    if n <= 0 {
        None
    } else {
        match first_index_some(n - 1, f) {
            Some(b) => Some(b),
            None => f(n - 1),
        }
    }
}

/// `first_index_some` finds nothing exactly when `f` gives `None` on every index.
pub proof fn lemma_first_index_none<B>(n: int, f: spec_fn(int) -> Option<B>)
    ensures
        first_index_some(n, f) is None <==> forall|i: int| 0 <= i < n ==> (#[trigger] f(i)) is None,
    decreases n,
{
    if n > 0 {
        lemma_first_index_none(n - 1, f);
    }
}

/// Once the indices below `a` have found something, any longer range finds the same.
pub proof fn lemma_first_index_prefix<B>(a: int, b: int, f: spec_fn(int) -> Option<B>)
    requires
        0 <= a <= b,
        first_index_some(a, f) is Some,
    ensures
        first_index_some(b, f) == first_index_some(a, f),
    decreases b,
{
    if b > a {
        lemma_first_index_prefix(a, b - 1, f);
    }
}

/// Two functions that agree below `n` find the same thing there.
pub proof fn lemma_first_index_ext<B>(n: int, f: spec_fn(int) -> Option<B>, g: spec_fn(int) -> Option<B>)
    requires
        forall|i: int| 0 <= i < n ==> #[trigger] f(i) == g(i),
    ensures
        first_index_some(n, f) == first_index_some(n, g),
    decreases n,
{
    if n > 0 {
        lemma_first_index_ext(n - 1, f, g);
    }
}

/// What `first_index_some` finds is what `f` gives at some index below `n`.
pub proof fn lemma_first_index_witness<B>(n: int, f: spec_fn(int) -> Option<B>)
    requires
        first_index_some(n, f) is Some,
    ensures
        exists|i: int| 0 <= i < n && (#[trigger] f(i)) == first_index_some(n, f) && forall|j: int| 0 <= j < i ==> (#[trigger] f(j)) is None,
    decreases n,
{
    if first_index_some(n - 1, f) is Some {
        lemma_first_index_witness(n - 1, f);
    } else {
        lemma_first_index_none(n - 1, f);
        assert(f(n - 1) == first_index_some(n, f));
    }
}

/// A character allowed in an SQL identifier written into generated statements.
pub open spec fn is_ident_char(c: char) -> bool {
    ('a' <= c && c <= 'z') || ('A' <= c && c <= 'Z') || ('0' <= c && c <= '9') || c == '_'
}

/// A simple identifier: one or more ASCII letters, digits or underscores.
pub open spec fn is_identifier(s: Seq<char>) -> bool {
    s.len() > 0 && forall|i: int| 0 <= i < s.len() ==> is_ident_char(#[trigger] s[i])
}

/// The character's code, with ASCII upper-case letters taken to lower case.
pub open spec fn ascii_lower(c: char) -> int {
    if 'A' <= c && c <= 'Z' {
        (c as u32) + 32
    } else {
        c as u32 as int
    }
}

/// Equal up to ASCII case.
pub open spec fn eq_ignore_ascii_case(a: Seq<char>, b: Seq<char>) -> bool {
    a.len() == b.len() && forall|i: int| 0 <= i < a.len() ==> ascii_lower(#[trigger] a[i]) == ascii_lower(b[i])
}

/// Character-wise equality of two texts.
pub fn str_eq(a: &str, b: &str) -> (r: bool)
    ensures
        r == (a@ == b@),
{
    let n = a.unicode_len();
    if n != b.unicode_len() {
        return false;
    }
    let mut i: usize = 0;
    while i < n
        invariant
            n == a@.len(),
            n == b@.len(),
            0 <= i <= n,
            forall|j: int| 0 <= j < i ==> a@[j] == b@[j],
        decreases n - i,
    {
        if a.get_char(i) != b.get_char(i) {
            return false;
        }
        i = i + 1;
    }
    assert(a@ =~= b@);
    true
}

/// Whether `c` may appear in a simple identifier.
pub fn is_ident_char_exec(c: char) -> (r: bool)
    ensures
        r == is_ident_char(c),
{
    ('a' <= c && c <= 'z') || ('A' <= c && c <= 'Z') || ('0' <= c && c <= '9') || c == '_'
}

/// Whether `s` is a simple identifier.
pub fn check_identifier(s: &str) -> (r: bool)
    ensures
        r == is_identifier(s@),
{
    let n = s.unicode_len();
    if n == 0 {
        return false;
    }
    let mut i: usize = 0;
    while i < n
        invariant
            n == s@.len(),
            0 <= i <= n,
            forall|j: int| 0 <= j < i ==> is_ident_char(#[trigger] s@[j]),
        decreases n - i,
    {
        if !is_ident_char_exec(s.get_char(i)) {
            return false;
        }
        i = i + 1;
    }
    true
}

fn ascii_lower_exec(c: char) -> (r: u32)
    ensures
        r == ascii_lower(c),
{
    if 'A' <= c && c <= 'Z' {
        (c as u32) + 32
    } else {
        c as u32
    }
}

/// Equality of two texts up to ASCII case.
pub fn str_eq_ignore_ascii_case(a: &str, b: &str) -> (r: bool)
    ensures
        r == eq_ignore_ascii_case(a@, b@),
{
    let n = a.unicode_len();
    if n != b.unicode_len() {
        return false;
    }
    let mut i: usize = 0;
    while i < n
        invariant
            n == a@.len(),
            n == b@.len(),
            0 <= i <= n,
            forall|j: int| 0 <= j < i ==> ascii_lower(#[trigger] a@[j]) == ascii_lower(b@[j]),
        decreases n - i,
    {
        if ascii_lower_exec(a.get_char(i)) != ascii_lower_exec(b.get_char(i)) {
            return false;
        }
        i = i + 1;
    }
    true
}

/// A character with the Unicode `White_Space` property.
pub open spec fn is_space(c: char) -> bool {
    let u = c as u32;
    ||| 0x09 <= u && u <= 0x0D
    ||| u == 0x20 || u == 0x85 || u == 0xA0 || u == 0x1680
    ||| 0x2000 <= u && u <= 0x200A
    ||| u == 0x2028 || u == 0x2029 || u == 0x202F || u == 0x205F || u == 0x3000
}

/// Whether `c` is white space.
pub fn is_space_exec(c: char) -> (r: bool)
    ensures
        r == is_space(c),
{
    let u = c as u32;
    (0x09 <= u && u <= 0x0D) || u == 0x20 || u == 0x85 || u == 0xA0 || u == 0x1680
        || (0x2000 <= u && u <= 0x200A) || u == 0x2028 || u == 0x2029 || u == 0x202F
        || u == 0x205F || u == 0x3000
}

/// The maximal runs of non-space characters, in order.
pub open spec fn words(s: Seq<char>) -> Seq<Seq<char>>
    decreases s.len(),
{
    if s.len() == 0 {
        seq![]
    } else {
        let w = words(s.drop_last());
        let c = s.last();
        if is_space(c) {
            w
        } else if s.len() >= 2 && !is_space(s[s.len() - 2]) {
            w.update(w.len() - 1, w.last().push(c))
        } else {
            w.push(seq![c])
        }
    }
}

/// The text without its trailing semicolons.
pub open spec fn trim_semicolons(s: Seq<char>) -> Seq<char>
    decreases s.len(),
{
    if s.len() > 0 && s.last() == ';' {
        trim_semicolons(s.drop_last())
    } else {
        s
    }
}

/// The text without its trailing semicolons.
pub fn trim_end_semicolons(s: &str) -> (r: &str)
    ensures
        r@ == trim_semicolons(s@),
{
    let mut n = s.unicode_len();
    assert(s@.take(n as int) =~= s@);
    while n > 0 && s.get_char(n - 1) == ';'
        invariant
            n <= s@.len(),
            trim_semicolons(s@) == trim_semicolons(s@.take(n as int)),
        decreases n,
    {
        assert(s@.take(n as int).drop_last() =~= s@.take(n - 1));
        n = n - 1;
    }
    assert(s@.take(n as int) =~= s@.subrange(0, n as int));
    s.substring_char(0, n)
}

/// Splits a text into its words, as `words` states.
pub fn split_words(s: &str) -> (r: Vec<String>)
    ensures
        r@.map_values(|w: String| w@) == words(s@),
{
    let n = s.unicode_len();
    let mut out: Vec<String> = Vec::new();
    let mut start: usize = 0;
    let mut in_word = false;
    let mut i: usize = 0;
    while i < n
        invariant
            n == s@.len(),
            0 <= start <= i <= n,
            in_word ==> start < i && !is_space(s@[i - 1]) && words(s@.take(i as int)) == out@.map_values(|w: String| w@).push(s@.subrange(start as int, i as int)),
            !in_word ==> (i == 0 || is_space(s@[i - 1])) && words(s@.take(i as int)) == out@.map_values(|w: String| w@),
        decreases n - i,
    {
        let c = s.get_char(i);
        let ghost prev = s@.take(i as int);
        assert(s@.take(i as int + 1).drop_last() =~= prev);
        if is_space_exec(c) {
            if in_word {
                let w = s.substring_char(start, i);
                let ghost before = out@;
                out.push(w.to_string());
                assert(out@.map_values(|w: String| w@) =~= before.map_values(|w: String| w@).push(s@.subrange(start as int, i as int)));
                in_word = false;
            }
        } else {
            if in_word {
                assert(s@.subrange(start as int, i as int + 1) =~= s@.subrange(start as int, i as int).push(c));
            } else {
                start = i;
                assert(s@.subrange(start as int, i as int + 1) =~= seq![c]);
            }
            in_word = true;
        }
        i = i + 1;
    }
    assert(s@.take(n as int) =~= s@);
    if in_word {
        let w = s.substring_char(start, n);
        let ghost before = out@;
        out.push(w.to_string());
        assert(out@.map_values(|w: String| w@) =~= before.map_values(|w: String| w@).push(s@.subrange(start as int, n as int)));
    }
    out
}

/// The pieces of a text between dots, empty pieces kept (`"a..b"` has three).
pub open spec fn dot_segments(s: Seq<char>) -> Seq<Seq<char>>
    decreases s.len(),
{
    if s.len() == 0 {
        seq![Seq::empty()]
    } else {
        let w = dot_segments(s.drop_last());
        if s.last() == '.' {
            w.push(Seq::empty())
        } else {
            w.update(w.len() - 1, w.last().push(s.last()))
        }
    }
}

proof fn lemma_dot_segments_nonempty(s: Seq<char>)
    ensures
        dot_segments(s).len() >= 1,
    decreases s.len(),
{
    if s.len() > 0 {
        lemma_dot_segments_nonempty(s.drop_last());
    }
}

/// Splits a dotted path into its segments, as `dot_segments` states.
pub fn split_dots(s: &str) -> (r: Vec<String>)
    ensures
        r@.map_values(|w: String| w@) == dot_segments(s@),
        r@.len() >= 1,
{
    let n = s.unicode_len();
    let mut out: Vec<String> = Vec::new();
    let mut start: usize = 0;
    let mut i: usize = 0;
    assert(s@.take(0) =~= Seq::<char>::empty());
    assert(s@.subrange(0, 0) =~= Seq::<char>::empty());
    assert(out@.map_values(|w: String| w@) =~= Seq::<Seq<char>>::empty());
    assert(dot_segments(s@.take(0)) =~= out@.map_values(|w: String| w@).push(s@.subrange(0, 0)));
    while i < n
        invariant
            n == s@.len(),
            0 <= start <= i <= n,
            dot_segments(s@.take(i as int)) == out@.map_values(|w: String| w@).push(s@.subrange(start as int, i as int)),
        decreases n - i,
    {
        let c = s.get_char(i);
        assert(s@.take(i as int + 1).drop_last() =~= s@.take(i as int));
        proof { lemma_dot_segments_nonempty(s@.take(i as int)); }
        if c == '.' {
            let w = s.substring_char(start, i);
            let ghost before = out@;
            out.push(w.to_string());
            assert(out@.map_values(|w: String| w@) =~= before.map_values(|w: String| w@).push(s@.subrange(start as int, i as int)));
            start = i + 1;
            assert(s@.subrange(start as int, i as int + 1) =~= Seq::<char>::empty());
        } else {
            assert(s@.subrange(start as int, i as int + 1) =~= s@.subrange(start as int, i as int).push(c));
        }
        i = i + 1;
    }
    assert(s@.take(n as int) =~= s@);
    let w = s.substring_char(start, n);
    let ghost before = out@;
    out.push(w.to_string());
    assert(out@.map_values(|w: String| w@) =~= before.map_values(|w: String| w@).push(s@.subrange(start as int, n as int)));
    out
}

} // verus!
