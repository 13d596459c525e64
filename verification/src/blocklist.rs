//! The reference set: every domain that the curated reference lists name.

use crate::domain::{is_normalized, lemma_parsed_line_form, parse_gravity_chars, parsed_line};
use crate::text::{chars_of, lines, split_lines, strings_view};
use vstd::hash_set::StringHashSet;
use vstd::prelude::*;

verus! {

/// The domains that the given lines of a gravity list name.
pub open spec fn domains_in(lines: Seq<Seq<char>>) -> Set<Seq<char>> {
    Set::new(
        |d: Seq<char>|
            exists|i: int| 0 <= i < lines.len() && parsed_line(#[trigger] lines[i]) == Some(d),
    )
}

/// The domains that a reference list with the given text names.
pub open spec fn domains_of_text(text: Seq<char>) -> Set<Seq<char>> {
    domains_in(lines(text))
}

/// The domains that reference lists with the given texts name between them.
pub open spec fn domains_of_texts(texts: Seq<Seq<char>>) -> Set<Seq<char>> {
    Set::new(
        |d: Seq<char>|
            exists|k: int| 0 <= k < texts.len() && domains_of_text(#[trigger] texts[k]).contains(d),
    )
}

/// What one more line adds to the domains that lines name.
pub proof fn lemma_domains_in_push(done: Seq<Seq<char>>, line: Seq<char>)
    ensures
        domains_in(done.push(line)) == match parsed_line(line) {
            Some(d) => domains_in(done).insert(d),
            None => domains_in(done),
        },
{
    let more = done.push(line);
    let expected = match parsed_line(line) {
        Some(d) => domains_in(done).insert(d),
        None => domains_in(done),
    };
    assert forall|d: Seq<char>| domains_in(more).contains(d) implies expected.contains(d) by {
        let i = choose|i: int| 0 <= i < more.len() && parsed_line(#[trigger] more[i]) == Some(d);
        if i < done.len() {
            assert(parsed_line(done[i]) == Some(d));
        }
    }
    assert forall|d: Seq<char>| expected.contains(d) implies domains_in(more).contains(d) by {
        if domains_in(done).contains(d) {
            let i = choose|i: int|
                0 <= i < done.len() && parsed_line(#[trigger] done[i]) == Some(d);
            assert(parsed_line(more[i]) == Some(d));
        } else {
            assert(parsed_line(more[done.len() as int]) == Some(d));
        }
    }
    assert(domains_in(more) =~= expected);
}

/// What one more reference list adds to the domains that lists name.
pub proof fn lemma_domains_of_texts_push(done: Seq<Seq<char>>, text: Seq<char>)
    ensures
        domains_of_texts(done.push(text)) == domains_of_texts(done).union(domains_of_text(text)),
{
    let more = done.push(text);
    let expected = domains_of_texts(done).union(domains_of_text(text));
    assert forall|d: Seq<char>| domains_of_texts(more).contains(d) implies expected.contains(
        d,
    ) by {
        let k = choose|k: int|
            0 <= k < more.len() && domains_of_text(#[trigger] more[k]).contains(d);
        if k < done.len() {
            assert(domains_of_text(done[k]).contains(d));
        }
    }
    assert forall|d: Seq<char>| expected.contains(d) implies domains_of_texts(more).contains(
        d,
    ) by {
        if domains_of_texts(done).contains(d) {
            let k = choose|k: int|
                0 <= k < done.len() && domains_of_text(#[trigger] done[k]).contains(d);
            assert(domains_of_text(more[k]).contains(d));
        } else {
            assert(domains_of_text(more[done.len() as int]).contains(d));
        }
    }
    assert(domains_of_texts(more) =~= expected);
}

/// Which domains lines name depends on which lines there are, not on their
/// order or on how often one occurs.
pub proof fn lemma_domains_by_lines(a: Seq<Seq<char>>, b: Seq<Seq<char>>)
    requires
        a.to_set() == b.to_set(),
    ensures
        domains_in(a) == domains_in(b),
{
    assert forall|d: Seq<char>| domains_in(a).contains(d) <==> domains_in(b).contains(d) by {
        if domains_in(a).contains(d) {
            let i = choose|i: int| 0 <= i < a.len() && parsed_line(#[trigger] a[i]) == Some(d);
            assert(a.to_set().contains(a[i]));
            assert(b.contains(a[i]));
            let j = choose|j: int| 0 <= j < b.len() && b[j] == a[i];
            assert(parsed_line(b[j]) == Some(d));
        }
        if domains_in(b).contains(d) {
            let i = choose|i: int| 0 <= i < b.len() && parsed_line(#[trigger] b[i]) == Some(d);
            assert(b.to_set().contains(b[i]));
            assert(a.contains(b[i]));
            let j = choose|j: int| 0 <= j < a.len() && a[j] == b[i];
            assert(parsed_line(a[j]) == Some(d));
        }
    }
    assert(domains_in(a) =~= domains_in(b));
}

/// The domains that lines name are finitely many, and normalized ones.
pub proof fn lemma_domains_in_form(lines: Seq<Seq<char>>)
    ensures
        domains_in(lines).finite(),
        forall|d: Seq<char>| domains_in(lines).contains(d) ==> is_normalized(d),
    decreases lines.len(),
{
    if lines.len() == 0 {
        assert(domains_in(lines) =~= Set::<Seq<char>>::empty());
    } else {
        lemma_domains_in_form(lines.drop_last());
        lemma_domains_in_push(lines.drop_last(), lines.last());
        lemma_parsed_line_form(lines.last());
        assert(lines.drop_last().push(lines.last()) == lines);
    }
}

/// A set of normalized domains, gathered from reference lists.
pub struct ReferenceSet {
    domains: StringHashSet,
}

impl View for ReferenceSet {
    type V = Set<Seq<char>>;

    closed spec fn view(&self) -> Set<Seq<char>> {
        self.domains@
    }
}

impl ReferenceSet {
    /// What holds of every reference set that was made from lists: it is
    /// finite, and its domains are normalized ones.
    pub open spec fn wf(&self) -> bool {
        &&& self@.finite()
        &&& forall|d: Seq<char>| self@.contains(d) ==> is_normalized(d)
    }

    /// The empty reference set.
    pub fn new() -> (r: Self)
        ensures
            r@ == Set::<Seq<char>>::empty(),
            r.wf(),
    {
        ReferenceSet { domains: StringHashSet::new() }
    }

    /// Whether the set holds no domain at all.
    pub fn is_empty(&self) -> (r: bool)
        ensures
            r == (self@ == Set::<Seq<char>>::empty()),
    {
        self.domains.is_empty()
    }

    /// The number of domains in the set.
    pub fn len(&self) -> (r: usize)
        ensures
            r == self@.len(),
    {
        self.domains.len()
    }

    /// Whether `domain`, taken as it is spelled, is in the set.
    pub fn contains(&self, domain: &str) -> (r: bool)
        ensures
            r == self@.contains(domain@),
    {
        self.domains.contains(domain)
    }

    /// Adds the domain that the line of the given characters names.
    fn add_chars(&mut self, line: &[char])
        ensures
            final(self)@ == match parsed_line(line@) {
                Some(d) => old(self)@.insert(d),
                None => old(self)@,
            },
    {
        if let Some(d) = parse_gravity_chars(line) {
            self.domains.insert(d);
        }
    }

    /// Adds the domain that `line` names, if it names one.
    pub fn add_line(&mut self, line: &str)
        ensures
            final(self)@ == match parsed_line(line@) {
                Some(d) => old(self)@.insert(d),
                None => old(self)@,
            },
            old(self).wf() ==> final(self).wf(),
    {
        proof {
            lemma_parsed_line_form(line@);
        }
        let v = chars_of(line);
        self.add_chars(v.as_slice());
    }

    /// Adds every domain that a line of `text` names.
    pub fn add_text(&mut self, text: &str)
        ensures
            final(self)@ == old(self)@.union(domains_of_text(text@)),
            old(self).wf() ==> final(self).wf(),
    {
        let v = chars_of(text);
        let all = split_lines(v.as_slice());
        let ghost before = self@;
        let mut k: usize = 0;
        assert(before.union(domains_in(lines(text@).take(0))) =~= before);
        while k < all.len()
            invariant
                k <= all@.len(),
                all@.len() == lines(text@).len(),
                forall|i: int| 0 <= i < all@.len() ==> (#[trigger] all@[i])@ == lines(text@)[i],
                self@ == before.union(domains_in(lines(text@).take(k as int))),
            decreases all@.len() - k,
        {
            self.add_chars(all[k]);
            proof {
                let done = lines(text@).take(k as int);
                assert(lines(text@).take(k + 1) == done.push(all@[k as int]@));
                lemma_domains_in_push(done, all@[k as int]@);
                assert(before.union(domains_in(done.push(all@[k as int]@))) =~= self@);
            }
            k += 1;
        }
        proof {
            assert(lines(text@).take(all@.len() as int) == lines(text@));
            lemma_domains_in_form(lines(text@));
        }
    }

    /// The set of every domain that the reference lists with the given
    /// texts name.
    pub fn from_texts(texts: &Vec<String>) -> (r: Self)
        ensures
            r@ == domains_of_texts(strings_view(texts@)),
            r.wf(),
    {
        let mut r = Self::new();
        let mut k: usize = 0;
        assert(domains_of_texts(strings_view(texts@).take(0)) =~= Set::<Seq<char>>::empty());
        while k < texts.len()
            invariant
                k <= texts@.len(),
                r.wf(),
                r@ == domains_of_texts(strings_view(texts@).take(k as int)),
            decreases texts@.len() - k,
        {
            r.add_text(texts[k].as_str());
            proof {
                let all = strings_view(texts@);
                assert(all.take(k + 1) == all.take(k as int).push(texts@[k as int]@));
                lemma_domains_of_texts_push(all.take(k as int), texts@[k as int]@);
            }
            k += 1;
        }
        assert(strings_view(texts@).take(texts@.len() as int) == strings_view(texts@));
        r
    }
}

} // verus!
