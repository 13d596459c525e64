//! Domain names: their canonical spelling, and the lines of a gravity list.

use crate::text::{
    ascii_lower, before, chars_of, cut, has_char, is_whitespace, lemma_prefix_len,
    lemma_prefix_len_is, lemma_suffix_len, lemma_suffix_len_is, lemma_trimmed, lemma_words_of_blank, lowercase_string,
    lowercased, prefix_len, scan, split_words, suffix_len, trim, trimmed, words, CharSet,
};
use vstd::prelude::*;

verus! {

/// `s` without the dot of a fully qualified name: one trailing `.` is dropped.
pub open spec fn without_root_dot(s: Seq<char>) -> Seq<char> {
    if s.len() > 0 && s.last() == '.' {
        s.drop_last()
    } else {
        s
    }
}

/// The canonical spelling of the raw domain `s`: surrounding whitespace
/// trimmed, then one trailing dot dropped, then ASCII letters in lower case.
pub open spec fn canonical(s: Seq<char>) -> Seq<char> {
    lowercased(without_root_dot(trimmed(s)))
}

/// The normalized form of the raw domain `s`: its canonical spelling, unless
/// that is empty or holds no `.`, as with a bare host name.
pub open spec fn normalized(s: Seq<char>) -> Option<Seq<char>> {
    let d = canonical(s);
    if d.len() == 0 || !d.contains('.') {
        None
    } else {
        Some(d)
    }
}

/// What every normalized domain satisfies: it is not empty, holds a `.`,
/// does not start with whitespace and holds no ASCII upper-case letter.
pub open spec fn is_normalized(d: Seq<char>) -> bool {
    &&& d.len() > 0
    &&& d.contains('.')
    &&& !is_whitespace(d.first())
    &&& forall|i: int| 0 <= i < d.len() ==> !('A' <= #[trigger] d[i] <= 'Z')
}

/// Whether `s` holds a character of wildcard, regular-expression or
/// ad-block filter syntax.
pub open spec fn has_filter_syntax(s: Seq<char>) -> bool {
    s.contains('*') || s.contains('/') || s.contains('|')
}

/// The word of `line` that stands where a domain is expected: with the
/// comment cut off, the only word of the line, or the second of two.
pub open spec fn candidate(line: Seq<char>) -> Option<Seq<char>> {
    let w = words(before(line, '#'));
    if w.len() == 1 {
        Some(w[0])
    } else if w.len() == 2 {
        Some(w[1])
    } else {
        None
    }
}

/// The domain that a line of a gravity list names, if it names one.
pub open spec fn parsed_line(line: Seq<char>) -> Option<Seq<char>> {
    match candidate(line) {
        Some(c) => if has_filter_syntax(c) {
            None
        } else {
            normalized(c)
        },
        None => None,
    }
}

/// Lower-casing neither adds nor removes a `.`.
pub proof fn lemma_lowercased_dot(s: Seq<char>)
    ensures
        lowercased(s).contains('.') <==> s.contains('.'),
{
    if s.contains('.') {
        let i = choose|i: int| 0 <= i < s.len() && s[i] == '.';
        assert(lowercased(s)[i] == '.');
    }
    if lowercased(s).contains('.') {
        let i = choose|i: int| 0 <= i < lowercased(s).len() && lowercased(s)[i] == '.';
        assert(s[i] == '.');
    }
}

/// A normalized form satisfies `is_normalized`.
pub proof fn lemma_normalized_form(s: Seq<char>)
    requires
        normalized(s) is Some,
    ensures
        is_normalized(normalized(s).unwrap()),
{
    let t = trimmed(s);
    let x = without_root_dot(t);
    let d = lowercased(x);
    lemma_trimmed(s);
    assert(d.first() == ascii_lower(x.first()));
    assert(x.first() == t.first());
}

/// Whatever satisfies `is_normalized` is the normalized form of some raw
/// domain: of itself with a dot behind it.
pub proof fn lemma_normalized_reached(d: Seq<char>)
    requires
        is_normalized(d),
    ensures
        normalized(d + seq!['.']) == Some(d),
{
    let s = d + seq!['.'];
    assert(s.first() == d.first());
    lemma_prefix_len_is(s, CharSet::Space, 0);
    lemma_suffix_len_is(s, CharSet::Space, 0);
    assert(s.skip(0) == s);
    assert(s.take(s.len() as int) == s);
    assert(s.drop_last() == d);
    assert(lowercased(d) == d);
}

/// Normalizing a normalized form again gives the same form exactly where
/// that form ends neither in a `.` nor in whitespace. A second trailing dot,
/// or whitespace before the dot that was dropped, is what the second pass
/// would still take away.
pub proof fn lemma_normalize_again(s: Seq<char>)
    requires
        normalized(s) is Some,
    ensures
        ({
            let d = normalized(s).unwrap();
            normalized(d) == Some(d) <==> d.last() != '.' && !is_whitespace(d.last())
        }),
{
    let d = normalized(s).unwrap();
    lemma_normalized_form(s);
    lemma_prefix_len_is(d, CharSet::Space, 0);
    assert(d.skip(0) == d);
    lemma_suffix_len(d, CharSet::Space);
    let t = trimmed(d);
    let x = without_root_dot(t);
    if d.last() != '.' && !is_whitespace(d.last()) {
        assert(suffix_len(d, CharSet::Space) == 0);
        assert(t == d);
        assert(x == d);
        assert(lowercased(d) == d);
    }
    if normalized(d) == Some(d) {
        assert(lowercased(x).len() == d.len());
        assert(t.len() == d.len());
        assert(t == d);
    }
}

/// Normalizes the characters of a raw domain.
pub fn normalize_chars(raw: &[char]) -> (r: Option<String>)
    ensures
        match r {
            Some(d) => normalized(raw@) == Some(d@),
            None => normalized(raw@) is None,
        },
{
    let t = trim(raw);
    let n = t.len();
    let d = if n > 0 && t[n - 1] == '.' {
        vstd::slice::slice_subrange(t, 0, n - 1)
    } else {
        t
    };
    assert(d@ == without_root_dot(t@));
    proof {
        lemma_lowercased_dot(d@);
    }
    if d.len() == 0 || !has_char(d, '.') {
        return None;
    }
    Some(lowercase_string(d))
}

/// Brings a raw domain into the form in which domains are compared:
/// surrounding whitespace trimmed, one trailing `.` dropped, ASCII letters
/// in lower case. Gives `None` where nothing is left or no `.` is left, as
/// with a bare host name.
pub fn normalize_domain(domain: &str) -> (r: Option<String>)
    ensures
        match r {
            Some(d) => normalized(domain@) == Some(d@) && is_normalized(d@),
            None => normalized(domain@) is None,
        },
        r is None <==> canonical(domain@).len() == 0 || !canonical(domain@).contains('.'),
{
    let v = chars_of(domain);
    let r = normalize_chars(v.as_slice());
    proof {
        if r is Some {
            lemma_normalized_form(domain@);
        }
    }
    r
}

/// A line that is blank, or whose first character after leading whitespace
/// is `#`, names no domain.
pub proof fn lemma_blank_or_comment(line: Seq<char>)
    requires
        trimmed(line).len() == 0 || trimmed(line).first() == '#',
    ensures
        parsed_line(line) is None,
{
    let p = prefix_len(line, CharSet::Space);
    lemma_trimmed(line);
    lemma_prefix_len(line, CharSet::Space);
    lemma_prefix_len_is(line, CharSet::AllBut('#'), p as int);
    lemma_words_of_blank(before(line, '#'));
}

/// The domain that a line names is a normalized one.
pub proof fn lemma_parsed_line_form(line: Seq<char>)
    ensures
        parsed_line(line) matches Some(d) ==> is_normalized(d),
{
    if parsed_line(line) is Some {
        lemma_normalized_form(candidate(line).unwrap());
    }
}

/// Reads the characters of one line of a gravity list, as
/// `parse_gravity_line` reads the line.
pub fn parse_gravity_chars(s: &[char]) -> (r: Option<String>)
    ensures
        match r {
            Some(d) => parsed_line(s@) == Some(d@) && is_normalized(d@),
            None => parsed_line(s@) is None,
        },
{
    let start = scan(s, 0, CharSet::Space);
    assert(s@.skip(0) == s@);
    if start == s.len() || s[start] == '#' {
        proof {
            lemma_trimmed(s@);
            lemma_blank_or_comment(s@);
        }
        return None;
    }
    let parts = split_words(cut(s, '#'));
    let word = if parts.len() == 1 {
        parts[0]
    } else if parts.len() == 2 {
        parts[1]
    } else {
        return None;
    };
    assert(candidate(s@) == Some(word@));
    if has_char(word, '*') || has_char(word, '/') || has_char(word, '|') {
        return None;
    }
    let r = normalize_chars(word);
    proof {
        if r is Some {
            lemma_normalized_form(word@);
        }
    }
    r
}

/// Reads one line of a gravity list: a bare domain, or an address and a
/// domain as in a hosts file, either of them with a `#` comment behind it.
/// Blank lines and comment lines name no domain, nor do lines of three words
/// or more, nor a word with `*`, `/` or `|` in it; what is left is
/// normalized as `normalize_domain` does it. The address is never looked at.
pub fn parse_gravity_line(line: &str) -> (r: Option<String>)
    ensures
        match r {
            Some(d) => parsed_line(line@) == Some(d@) && is_normalized(d@),
            None => parsed_line(line@) is None,
        },
        trimmed(line@).len() == 0 || trimmed(line@).first() == '#' ==> r is None,
        candidate(line@) is None ==> r is None,
        candidate(line@) matches Some(c) && has_filter_syntax(c) ==> r is None,
{
    proof {
        if trimmed(line@).len() == 0 || trimmed(line@).first() == '#' {
            lemma_blank_or_comment(line@);
        }
    }
    let v = chars_of(line);
    parse_gravity_chars(v.as_slice())
}

} // verus!
