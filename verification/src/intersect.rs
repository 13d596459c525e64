//! The decision: which of the domains that were queried are to be blocked.

use crate::blocklist::ReferenceSet;
use crate::ftl::{stats_view, DomainStats, DomainStatsView};
use crate::text::strings_view;
use vstd::prelude::*;

verus! {

/// The selection: the domain of each of `stats` that is in `reference`, in
/// the order of `stats`. The count plays no part.
pub open spec fn selected(stats: Seq<DomainStatsView>, reference: Set<Seq<char>>) -> Seq<
    Seq<char>,
>
    decreases stats.len(),
{
    if stats.len() == 0 {
        Seq::empty()
    } else {
        let init = selected(stats.drop_last(), reference);
        if reference.contains(stats.last().domain) {
            init.push(stats.last().domain)
        } else {
            init
        }
    }
}

/// The domains that `stats` speak of.
pub open spec fn stat_domains(stats: Seq<DomainStatsView>) -> Set<Seq<char>> {
    Set::new(|d: Seq<char>| exists|i: int| 0 <= i < stats.len() && (#[trigger] stats[i]).domain == d)
}

/// A domain is selected exactly where statistics speak of it and the
/// reference set holds it.
pub proof fn lemma_selected_members(stats: Seq<DomainStatsView>, reference: Set<Seq<char>>)
    ensures
        selected(stats, reference).to_set() == stat_domains(stats).intersect(reference),
    decreases stats.len(),
{
    let sel = selected(stats, reference);
    let both = stat_domains(stats).intersect(reference);
    if stats.len() > 0 {
        let init = stats.drop_last();
        let last = stats.last().domain;
        lemma_selected_members(init, reference);
        assert forall|d: Seq<char>| sel.to_set().contains(d) implies both.contains(d) by {
            let i = choose|i: int| 0 <= i < sel.len() && sel[i] == d;
            if i < selected(init, reference).len() {
                assert(selected(init, reference).to_set().contains(d));
                let k = choose|k: int| 0 <= k < init.len() && (#[trigger] init[k]).domain == d;
                assert(stats[k].domain == d);
            } else {
                assert(stats[stats.len() - 1].domain == d);
            }
        }
        assert forall|d: Seq<char>| both.contains(d) implies sel.to_set().contains(d) by {
            let k = choose|k: int| 0 <= k < stats.len() && (#[trigger] stats[k]).domain == d;
            if k < init.len() {
                assert(init[k].domain == d);
                assert(stat_domains(init).intersect(reference).contains(d));
                let i = choose|i: int|
                    0 <= i < selected(init, reference).len() && selected(init, reference)[i] == d;
                assert(sel[i] == d);
            } else {
                assert(sel[sel.len() - 1] == d);
            }
        }
    }
    assert(sel.to_set() =~= both);
}

/// Which domains are selected depends on the set of domains that the
/// statistics speak of and on the reference set, not on the order of the
/// statistics, on repetitions among them, or on their counts.
pub proof fn lemma_selection_by_sets(
    stats_a: Seq<DomainStatsView>,
    stats_b: Seq<DomainStatsView>,
    reference: Set<Seq<char>>,
)
    requires
        stat_domains(stats_a) == stat_domains(stats_b),
    ensures
        selected(stats_a, reference).to_set() == selected(stats_b, reference).to_set(),
{
    lemma_selected_members(stats_a, reference);
    lemma_selected_members(stats_b, reference);
}

/// Against an empty reference set nothing is selected.
pub proof fn lemma_selected_empty_reference(stats: Seq<DomainStatsView>)
    ensures
        selected(stats, Set::empty()) == Seq::<Seq<char>>::empty(),
    decreases stats.len(),
{
    if stats.len() > 0 {
        lemma_selected_empty_reference(stats.drop_last());
    }
}

/// Selects the domains to block: the domain of each of `stats` that the
/// reference set holds, in the order of `stats`, however often it was
/// queried.
pub fn intersect(stats: Vec<DomainStats>, reference: ReferenceSet) -> (r: Vec<String>)
    ensures
        strings_view(r@) == selected(stats_view(stats@), reference@),
        strings_view(r@).to_set() == stat_domains(stats_view(stats@)).intersect(reference@),
        reference@ == Set::<Seq<char>>::empty() ==> r@.len() == 0,
{
    let mut r: Vec<String> = Vec::new();
    let mut i: usize = 0;
    while i < stats.len()
        invariant
            i <= stats@.len(),
            strings_view(r@) == selected(stats_view(stats@).take(i as int), reference@),
        decreases stats@.len() - i,
    {
        assert(stats_view(stats@).take(i + 1).drop_last() == stats_view(stats@).take(i as int));
        if reference.contains(stats[i].domain.as_str()) {
            r.push(stats[i].domain.clone());
        }
        i += 1;
        assert(strings_view(r@) == selected(stats_view(stats@).take(i as int), reference@));
    }
    assert(stats_view(stats@).take(stats@.len() as int) == stats_view(stats@));
    proof {
        lemma_selected_members(stats_view(stats@), reference@);
        if reference@ == Set::<Seq<char>>::empty() {
            lemma_selected_empty_reference(stats_view(stats@));
        }
    }
    r
}

} // verus!
