//! Characters and sequences of characters: what the parsers are stated in,
//! and the scans that they are made of.

use vstd::prelude::*;

verus! {

// Characters

/// Whether `c` has the Unicode `White_Space` property.
pub open spec fn is_whitespace(c: char) -> bool {
    let n = c as u32;
    ||| 0x09 <= n <= 0x0D
    ||| n == 0x20
    ||| n == 0x85
    ||| n == 0xA0
    ||| n == 0x1680
    ||| 0x2000 <= n <= 0x200A
    ||| n == 0x2028
    ||| n == 0x2029
    ||| n == 0x202F
    ||| n == 0x205F
    ||| n == 0x3000
}

/// Whether `c` is whitespace.
pub fn char_is_whitespace(c: char) -> (r: bool)
    ensures
        r == is_whitespace(c),
{
    let n: u32 = c as u32;
    (0x09 <= n && n <= 0x0D) || n == 0x20 || n == 0x85 || n == 0xA0 || n == 0x1680 || (0x2000 <= n
        && n <= 0x200A) || n == 0x2028 || n == 0x2029 || n == 0x202F || n == 0x205F || n == 0x3000
}

/// `c` with an ASCII upper-case letter replaced by its lower-case form; every
/// other character is left as it is.
pub open spec fn ascii_lower(c: char) -> char {
    if 'A' <= c <= 'Z' {
        ((c as u8) + 32) as char
    } else {
        c
    }
}

/// `c`, in lower case where it is an ASCII letter.
pub fn char_ascii_lower(c: char) -> (r: char)
    ensures
        r == ascii_lower(c),
{
    if 'A' <= c && c <= 'Z' {
        ((c as u8) + 32) as char
    } else {
        c
    }
}

/// A set of characters that a scan can run over.
#[derive(Clone, Copy, Debug)]
pub enum CharSet {
    /// The whitespace characters.
    Space,
    /// Every character that is not whitespace.
    NonSpace,
    /// Every character but the given one.
    AllBut(char),
}

impl CharSet {
    /// Whether `c` is in the set.
    pub open spec fn has(self, c: char) -> bool {
        match self {
            CharSet::Space => is_whitespace(c),
            CharSet::NonSpace => !is_whitespace(c),
            CharSet::AllBut(x) => c != x,
        }
    }

    /// Whether `c` is in the set.
    pub fn contains(&self, c: char) -> (r: bool)
        ensures
            r == self.has(c),
    {
        match self {
            CharSet::Space => char_is_whitespace(c),
            CharSet::NonSpace => !char_is_whitespace(c),
            CharSet::AllBut(x) => c != *x,
        }
    }
}

// Runs of characters

/// Length of the longest prefix of `s` whose characters all lie in `set`.
pub open spec fn prefix_len(s: Seq<char>, set: CharSet) -> nat
    decreases s.len(),
{
    if s.len() > 0 && set.has(s.first()) {
        1 + prefix_len(s.drop_first(), set)
    } else {
        0
    }
}

/// Length of the longest suffix of `s` whose characters all lie in `set`.
pub open spec fn suffix_len(s: Seq<char>, set: CharSet) -> nat
    decreases s.len(),
{
    if s.len() > 0 && set.has(s.last()) {
        1 + suffix_len(s.drop_last(), set)
    } else {
        0
    }
}

/// `prefix_len` ends at the first character outside `set`, or at the end of `s`.
pub proof fn lemma_prefix_len(s: Seq<char>, set: CharSet)
    ensures
        prefix_len(s, set) <= s.len(),
        forall|i: int| 0 <= i < prefix_len(s, set) ==> set.has(#[trigger] s[i]),
        prefix_len(s, set) < s.len() ==> !set.has(s[prefix_len(s, set) as int]),
    decreases s.len(),
{
    if s.len() > 0 && set.has(s.first()) {
        let t = s.drop_first();
        lemma_prefix_len(t, set);
        assert forall|i: int| 0 <= i < prefix_len(s, set) implies set.has(#[trigger] s[i]) by {
            if i > 0 {
                assert(s[i] == t[i - 1]);
            }
        }
        if prefix_len(s, set) < s.len() {
            assert(s[prefix_len(s, set) as int] == t[prefix_len(t, set) as int]);
        }
    }
}

/// A prefix inside `set` that stops at a character outside it, or at the end
/// of `s`, is the longest one.
pub proof fn lemma_prefix_len_is(s: Seq<char>, set: CharSet, n: int)
    requires
        0 <= n <= s.len(),
        forall|i: int| 0 <= i < n ==> set.has(#[trigger] s[i]),
        n < s.len() ==> !set.has(s[n]),
    ensures
        prefix_len(s, set) == n,
    decreases s.len(),
{
    if n > 0 {
        let t = s.drop_first();
        assert forall|i: int| 0 <= i < n - 1 implies set.has(#[trigger] t[i]) by {
            assert(t[i] == s[i + 1]);
        }
        lemma_prefix_len_is(t, set, n - 1);
    }
}

/// `suffix_len` ends at the last character outside `set`, or at the start of `s`.
pub proof fn lemma_suffix_len(s: Seq<char>, set: CharSet)
    ensures
        suffix_len(s, set) <= s.len(),
        forall|i: int| s.len() - suffix_len(s, set) <= i < s.len() ==> set.has(#[trigger] s[i]),
        suffix_len(s, set) < s.len() ==> !set.has(s[s.len() - suffix_len(s, set) - 1]),
    decreases s.len(),
{
    if s.len() > 0 && set.has(s.last()) {
        let t = s.drop_last();
        lemma_suffix_len(t, set);
        assert forall|i: int| s.len() - suffix_len(s, set) <= i < s.len() implies set.has(
            #[trigger] s[i],
        ) by {
            if i < s.len() - 1 {
                assert(s[i] == t[i]);
            }
        }
        if suffix_len(s, set) < s.len() {
            assert(s[s.len() - suffix_len(s, set) - 1] == t[t.len() - suffix_len(t, set) - 1]);
        }
    }
}

/// A suffix inside `set` that starts after a character outside it, or at the
/// start of `s`, is the longest one.
pub proof fn lemma_suffix_len_is(s: Seq<char>, set: CharSet, n: int)
    requires
        0 <= n <= s.len(),
        forall|i: int| s.len() - n <= i < s.len() ==> set.has(#[trigger] s[i]),
        n < s.len() ==> !set.has(s[s.len() - n - 1]),
    ensures
        suffix_len(s, set) == n,
    decreases s.len(),
{
    if n > 0 {
        let t = s.drop_last();
        assert forall|i: int| t.len() - (n - 1) <= i < t.len() implies set.has(#[trigger] t[i]) by {
            assert(t[i] == s[i]);
        }
        lemma_suffix_len_is(t, set, n - 1);
    }
}

/// The end of the longest run of characters in `set` that starts at `from`.
pub fn scan(s: &[char], from: usize, set: CharSet) -> (to: usize)
    requires
        from <= s@.len(),
    ensures
        to == from + prefix_len(s@.skip(from as int), set),
        from <= to <= s@.len(),
{
    let mut to = from;
    while to < s.len() && set.contains(s[to])
        invariant
            from <= to <= s@.len(),
            forall|i: int| from <= i < to ==> set.has(#[trigger] s@[i]),
        decreases s@.len() - to,
    {
        to += 1;
    }
    proof {
        lemma_prefix_len_is(s@.skip(from as int), set, to - from);
    }
    to
}

/// The start of the longest run of characters in `set` that ends before `to`.
pub fn scan_back(s: &[char], to: usize, set: CharSet) -> (from: usize)
    requires
        to <= s@.len(),
    ensures
        from == to - suffix_len(s@.take(to as int), set),
        from <= to,
{
    let mut from = to;
    while from > 0 && set.contains(s[from - 1])
        invariant
            from <= to <= s@.len(),
            forall|i: int| from <= i < to ==> set.has(#[trigger] s@[i]),
        decreases from,
    {
        from -= 1;
    }
    proof {
        lemma_suffix_len_is(s@.take(to as int), set, to - from);
    }
    from
}

// Parts of a sequence

/// `s` without its leading whitespace.
pub open spec fn trimmed_start(s: Seq<char>) -> Seq<char> {
    s.skip(prefix_len(s, CharSet::Space) as int)
}

/// `s` without its trailing whitespace.
pub open spec fn trimmed_end(s: Seq<char>) -> Seq<char> {
    s.take(s.len() - suffix_len(s, CharSet::Space))
}

/// `s` without its leading and trailing whitespace.
pub open spec fn trimmed(s: Seq<char>) -> Seq<char> {
    trimmed_end(trimmed_start(s))
}

/// A trimmed sequence starts and ends with a character that is not
/// whitespace, and is empty only where all of `s` is whitespace.
pub proof fn lemma_trimmed(s: Seq<char>)
    ensures
        trimmed(s).len() == 0 <==> prefix_len(s, CharSet::Space) == s.len(),
        trimmed(s).len() > 0 ==> {
            &&& trimmed(s).first() == s[prefix_len(s, CharSet::Space) as int]
            &&& !is_whitespace(trimmed(s).first())
            &&& !is_whitespace(trimmed(s).last())
        },
{
    let p = prefix_len(s, CharSet::Space);
    let t = s.skip(p as int);
    lemma_prefix_len(s, CharSet::Space);
    lemma_suffix_len(t, CharSet::Space);
    if p < s.len() {
        assert(t.first() == s[p as int]);
    }
}

/// Whitespace around a sequence that neither starts nor ends with
/// whitespace is what trimming takes away.
pub proof fn lemma_trimmed_is(left: Seq<char>, core: Seq<char>, right: Seq<char>)
    requires
        forall|i: int| 0 <= i < left.len() ==> is_whitespace(#[trigger] left[i]),
        forall|i: int| 0 <= i < right.len() ==> is_whitespace(#[trigger] right[i]),
        core.len() > 0 ==> !is_whitespace(core.first()) && !is_whitespace(core.last()),
    ensures
        trimmed(left + core + right) == core,
{
    let s = left + core + right;
    if core.len() == 0 {
        assert forall|i: int| 0 <= i < s.len() implies CharSet::Space.has(#[trigger] s[i]) by {
            if i < left.len() {
                assert(s[i] == left[i]);
            } else {
                assert(s[i] == right[i - left.len()]);
            }
        }
        lemma_prefix_len_is(s, CharSet::Space, s.len() as int);
        assert(trimmed(s) == core);
    } else {
        assert forall|i: int| 0 <= i < left.len() implies CharSet::Space.has(#[trigger] s[i]) by {
            assert(s[i] == left[i]);
        }
        assert(s[left.len() as int] == core.first());
        lemma_prefix_len_is(s, CharSet::Space, left.len() as int);
        let t = s.skip(left.len() as int);
        assert(t == core + right);
        assert forall|i: int| t.len() - right.len() <= i < t.len() implies CharSet::Space.has(
            #[trigger] t[i],
        ) by {
            assert(t[i] == right[i - core.len()]);
        }
        assert(t[t.len() - right.len() - 1] == core.last());
        lemma_suffix_len_is(t, CharSet::Space, right.len() as int);
        assert(t.take(t.len() - right.len()) == core);
    }
}

/// `s` without its leading and trailing whitespace.
pub fn trim(s: &[char]) -> (r: &[char])
    ensures
        r@ == trimmed(s@),
{
    let lo = scan(s, 0, CharSet::Space);
    assert(s@.skip(0) == s@);
    if lo == s.len() {
        let r = vstd::slice::slice_subrange(s, lo, lo);
        assert(suffix_len(s@.skip(lo as int), CharSet::Space) == 0);
        r
    } else {
        let hi = scan_back(s, s.len(), CharSet::Space);
        assert(s@.take(s@.len() as int) == s@);
        proof {
            lemma_prefix_len(s@, CharSet::Space);
            lemma_suffix_len(s@, CharSet::Space);
            lemma_suffix_len_is(s@.skip(lo as int), CharSet::Space, s@.len() - hi);
        }
        let r = vstd::slice::slice_subrange(s, lo, hi);
        assert(r@ == trimmed(s@));
        r
    }
}

/// The part of `s` before the first `c`; all of `s` where it holds no `c`.
pub open spec fn before(s: Seq<char>, c: char) -> Seq<char> {
    s.take(prefix_len(s, CharSet::AllBut(c)) as int)
}

/// A sequence without a `c` in it stands wholly before the first `c`.
pub proof fn lemma_before_all(s: Seq<char>, c: char)
    requires
        !s.contains(c),
    ensures
        before(s, c) == s,
{
    assert forall|i: int| 0 <= i < s.len() implies CharSet::AllBut(c).has(#[trigger] s[i]) by {
        assert(s.contains(s[i]));
    }
    lemma_prefix_len_is(s, CharSet::AllBut(c), s.len() as int);
    assert(s.take(s.len() as int) == s);
}

/// The part of `s` before the first `c`; all of `s` where it holds no `c`.
pub fn cut(s: &[char], c: char) -> (r: &[char])
    ensures
        r@ == before(s@, c),
{
    let n = scan(s, 0, CharSet::AllBut(c));
    assert(s@.skip(0) == s@);
    vstd::slice::slice_subrange(s, 0, n)
}

/// Whether `c` occurs in `s`.
pub fn has_char(s: &[char], c: char) -> (r: bool)
    ensures
        r == s@.contains(c),
{
    let n = scan(s, 0, CharSet::AllBut(c));
    assert(s@.skip(0) == s@);
    proof {
        lemma_prefix_len(s@, CharSet::AllBut(c));
    }
    n < s.len()
}

/// What follows `prefix` in `s`, where `s` starts with it.
pub open spec fn after_prefix(s: Seq<char>, prefix: Seq<char>) -> Option<Seq<char>> {
    if s.len() >= prefix.len() && s.take(prefix.len() as int) == prefix {
        Some(s.skip(prefix.len() as int))
    } else {
        None
    }
}

/// What follows `prefix` in `s`, where `s` starts with it.
pub fn strip_prefix<'a>(s: &'a [char], prefix: &[char]) -> (r: Option<&'a [char]>)
    ensures
        match r {
            Some(rest) => after_prefix(s@, prefix@) == Some(rest@),
            None => after_prefix(s@, prefix@) is None,
        },
{
    if s.len() >= prefix.len() && same_chars(
        vstd::slice::slice_subrange(s, 0, prefix.len()),
        prefix,
    ) {
        Some(vstd::slice::slice_subrange(s, prefix.len(), s.len()))
    } else {
        None
    }
}

/// Whether `a` and `b` hold the same characters.
pub fn same_chars(a: &[char], b: &[char]) -> (r: bool)
    ensures
        r == (a@ == b@),
{
    if a.len() != b.len() {
        return false;
    }
    let mut i: usize = 0;
    while i < a.len()
        invariant
            i <= a@.len(),
            a@.len() == b@.len(),
            a@.take(i as int) == b@.take(i as int),
        decreases a@.len() - i,
    {
        if a[i] != b[i] {
            return false;
        }
        i += 1;
        assert(a@.take(i as int) == a@.take(i - 1).push(a@[i - 1]));
        assert(b@.take(i as int) == b@.take(i - 1).push(b@[i - 1]));
    }
    assert(a@.take(a@.len() as int) == a@);
    assert(b@.take(b@.len() as int) == b@);
    true
}

// Words

/// The maximal runs of non-whitespace characters in `s`, in order.
pub open spec fn words(s: Seq<char>) -> Seq<Seq<char>>
    decreases s.len(),
    via words_decreases
{
    let t = trimmed_start(s);
    if t.len() == 0 {
        Seq::empty()
    } else {
        let n = prefix_len(t, CharSet::NonSpace);
        seq![t.take(n as int)] + words(t.skip(n as int))
    }
}

#[via_fn]
proof fn words_decreases(s: Seq<char>) {
    let t = trimmed_start(s);
    lemma_prefix_len(s, CharSet::Space);
    if t.len() != 0 {
        lemma_prefix_len(t, CharSet::NonSpace);
        assert(t.first() == s[prefix_len(s, CharSet::Space) as int]);
    }
}

/// A sequence of whitespace alone holds no word.
pub proof fn lemma_words_of_blank(s: Seq<char>)
    requires
        forall|i: int| 0 <= i < s.len() ==> is_whitespace(#[trigger] s[i]),
    ensures
        words(s).len() == 0,
{
    lemma_prefix_len_is(s, CharSet::Space, s.len() as int);
}

/// The maximal runs of non-whitespace characters in `s`, in order.
pub fn split_words(s: &[char]) -> (r: Vec<&[char]>)
    ensures
        r@.len() == words(s@).len(),
        forall|k: int| 0 <= k < r@.len() ==> (#[trigger] r@[k])@ == words(s@)[k],
{
    let mut r: Vec<&[char]> = Vec::new();
    let ghost mut done: Seq<Seq<char>> = Seq::empty();
    let mut i: usize = 0;
    assert(s@.skip(0) == s@);
    loop
        invariant
            i <= s@.len(),
            r@.len() == done.len(),
            forall|k: int| 0 <= k < r@.len() ==> (#[trigger] r@[k])@ == done[k],
            words(s@) == done + words(s@.skip(i as int)),
        decreases s@.len() - i,
    {
        let j = scan(s, i, CharSet::Space);
        assert(trimmed_start(s@.skip(i as int)) == s@.skip(j as int));
        if j == s.len() {
            assert(words(s@.skip(i as int)) == Seq::<Seq<char>>::empty());
            assert(done + Seq::<Seq<char>>::empty() == done);
            return r;
        }
        let k = scan(s, j, CharSet::NonSpace);
        let w = vstd::slice::slice_subrange(s, j, k);
        proof {
            let t = s@.skip(j as int);
            lemma_prefix_len(s@.skip(i as int), CharSet::Space);
            assert(t.first() == s@.skip(i as int)[j - i]);
            assert(t.take(k - j) == w@);
            assert(t.skip(k - j) == s@.skip(k as int));
            assert(words(s@.skip(i as int)) == seq![w@] + words(s@.skip(k as int)));
            assert(done + (seq![w@] + words(s@.skip(k as int))) == done.push(w@) + words(
                s@.skip(k as int),
            ));
            done = done.push(w@);
        }
        r.push(w);
        i = k;
    }
}

// Lines

/// The pieces of `s` between its line feeds, in order.
pub open spec fn lines(s: Seq<char>) -> Seq<Seq<char>>
    decreases s.len(),
{
    let n = prefix_len(s, CharSet::AllBut('\n'));
    if n >= s.len() {
        seq![s]
    } else {
        seq![s.take(n as int)] + lines(s.skip(n as int + 1))
    }
}

/// A line without a line feed in it, with a line feed behind it, is the
/// first of the lines.
pub proof fn lemma_lines_first(line: Seq<char>, rest: Seq<char>)
    requires
        !line.contains('\n'),
    ensures
        lines(line + seq!['\n'] + rest) == seq![line] + lines(rest),
{
    lemma_split_line(line, rest);
}

/// A sequence without a line feed in it is one line.
pub proof fn lemma_lines_one(line: Seq<char>)
    requires
        !line.contains('\n'),
    ensures
        lines(line) == seq![line],
{
    lemma_before_all(line, '\n');
    lemma_prefix_len(line, CharSet::AllBut('\n'));
}

/// The pieces of `s` between its line feeds, in order.
pub fn split_lines(s: &[char]) -> (r: Vec<&[char]>)
    ensures
        r@.len() == lines(s@).len(),
        forall|k: int| 0 <= k < r@.len() ==> (#[trigger] r@[k])@ == lines(s@)[k],
{
    let mut r: Vec<&[char]> = Vec::new();
    let ghost mut done: Seq<Seq<char>> = Seq::empty();
    let mut i: usize = 0;
    assert(s@.skip(0) == s@);
    loop
        invariant
            i <= s@.len(),
            r@.len() == done.len(),
            forall|k: int| 0 <= k < r@.len() ==> (#[trigger] r@[k])@ == done[k],
            lines(s@) == done + lines(s@.skip(i as int)),
        decreases s@.len() - i,
    {
        let j = scan(s, i, CharSet::AllBut('\n'));
        let line = vstd::slice::slice_subrange(s, i, j);
        proof {
            let rest = s@.skip(i as int);
            assert(rest.take(j - i) == line@);
            if j < s@.len() {
                assert(rest.skip(j - i + 1) == s@.skip(j + 1));
                assert(done + (seq![line@] + lines(s@.skip(j + 1))) == done.push(line@) + lines(
                    s@.skip(j + 1),
                ));
            } else {
                assert(rest == line@);
                assert(done + seq![line@] == done.push(line@));
                assert(done.push(line@) + Seq::<Seq<char>>::empty() == done.push(line@));
            }
            done = done.push(line@);
        }
        r.push(line);
        if j == s.len() {
            return r;
        }
        i = j + 1;
    }
}

/// Where `s` holds a line feed: the line before the first one, and what
/// follows that line feed.
pub open spec fn split_line(s: Seq<char>) -> Option<(Seq<char>, Seq<char>)> {
    let n = prefix_len(s, CharSet::AllBut('\n'));
    if n < s.len() {
        Some((s.take(n as int), s.skip(n as int + 1)))
    } else {
        None
    }
}

/// A line without a line feed in it, and a line feed behind it, is split off
/// as it is.
pub proof fn lemma_split_line(line: Seq<char>, rest: Seq<char>)
    requires
        !line.contains('\n'),
    ensures
        split_line(line + seq!['\n'] + rest) == Some((line, rest)),
{
    let s = line + seq!['\n'] + rest;
    assert forall|i: int| 0 <= i < line.len() implies CharSet::AllBut('\n').has(
        #[trigger] s[i],
    ) by {
        assert(s[i] == line[i]);
        assert(line.contains(line[i]));
    }
    lemma_prefix_len_is(s, CharSet::AllBut('\n'), line.len() as int);
    assert(s.take(line.len() as int) == line);
    assert(s.skip(line.len() as int + 1) == rest);
}

/// Splits `s` at its first line feed.
pub fn take_line(s: &[char]) -> (r: Option<(&[char], &[char])>)
    ensures
        match r {
            Some((line, rest)) => split_line(s@) == Some((line@, rest@)),
            None => split_line(s@) is None,
        },
{
    let n = scan(s, 0, CharSet::AllBut('\n'));
    assert(s@.skip(0) == s@);
    if n < s.len() {
        let line = vstd::slice::slice_subrange(s, 0, n);
        let rest = vstd::slice::slice_subrange(s, n + 1, s.len());
        Some((line, rest))
    } else {
        None
    }
}

// Strings

/// `s` with every ASCII upper-case letter replaced by its lower-case form.
pub open spec fn lowercased(s: Seq<char>) -> Seq<char> {
    Seq::new(s.len(), |i: int| ascii_lower(s[i]))
}

/// Appends `c` to `s` by `String::push`, which adds the one character at the
/// end and leaves the characters before it as they are.
#[verifier::external_body]
pub(crate) fn push_char(s: &mut String, c: char)
    ensures
        final(s)@ == old(s)@.push(c),
{
    s.push(c);
}

/// A string of the characters of `s`, with ASCII letters in lower case.
pub fn lowercase_string(s: &[char]) -> (r: String)
    ensures
        r@ == lowercased(s@),
{
    let mut r = String::new();
    let mut i: usize = 0;
    while i < s.len()
        invariant
            i <= s@.len(),
            r@ == lowercased(s@.take(i as int)),
        decreases s@.len() - i,
    {
        push_char(&mut r, char_ascii_lower(s[i]));
        i += 1;
        assert(r@ == lowercased(s@.take(i as int)));
    }
    assert(s@.take(s@.len() as int) == s@);
    r
}

/// The views of `v`, in order.
pub open spec fn strings_view(v: Seq<String>) -> Seq<Seq<char>> {
    Seq::new(v.len(), |i: int| v[i]@)
}

/// The characters of `s`, in order.
pub fn chars_of(s: &str) -> (v: Vec<char>)
    ensures
        v@ == s@,
{
    let mut v: Vec<char> = Vec::new();
    for c in it: s.chars()
        invariant
            v@ == it.seq().take(it.index() as int),
            it.seq() == s@,
    {
        v.push(c);
    }
    v
}

} // verus!
