//! Per-domain query counts, as the resolver's query history gives them.

use crate::domain::{is_normalized, lemma_normalized_form, normalize_domain, normalized};
use vstd::prelude::*;

verus! {

/// How often a domain was queried and allowed to resolve.
#[derive(Clone, Debug, PartialEq, Eq)]
pub struct DomainStats {
    /// The domain, normalized.
    pub domain: String,
    /// The number of its queries that were allowed.
    pub count: u32,
}

/// A `DomainStats` as contracts see it.
pub struct DomainStatsView {
    pub domain: Seq<char>,
    pub count: u32,
}

impl View for DomainStats {
    type V = DomainStatsView;

    open spec fn view(&self) -> DomainStatsView {
        DomainStatsView { domain: self.domain@, count: self.count }
    }
}

/// The views of `stats`, in order.
pub open spec fn stats_view(stats: Seq<DomainStats>) -> Seq<DomainStatsView> {
    Seq::new(stats.len(), |i: int| stats[i]@)
}

/// The statistics that the rows of a history query amount to: each row whose
/// domain can be normalized, under the normalized domain and with its count,
/// in the order of the rows. A row whose domain cannot be normalized is left
/// out.
pub open spec fn stats_of(rows: Seq<(String, u32)>) -> Seq<DomainStatsView>
    decreases rows.len(),
{
    if rows.len() == 0 {
        Seq::empty()
    } else {
        let init = stats_of(rows.drop_last());
        match normalized(rows.last().0@) {
            Some(d) => init.push(DomainStatsView { domain: d, count: rows.last().1 }),
            None => init,
        }
    }
}

/// Every domain in `stats_of` is a normalized one.
pub proof fn lemma_stats_normalized(rows: Seq<(String, u32)>)
    ensures
        forall|i: int|
            0 <= i < stats_of(rows).len() ==> is_normalized(#[trigger] stats_of(rows)[i].domain),
    decreases rows.len(),
{
    if rows.len() > 0 {
        lemma_stats_normalized(rows.drop_last());
        if normalized(rows.last().0@) is Some {
            lemma_normalized_form(rows.last().0@);
        }
        let init = stats_of(rows.drop_last());
        assert forall|i: int| 0 <= i < stats_of(rows).len() implies is_normalized(
            #[trigger] stats_of(rows)[i].domain,
        ) by {
            if i < init.len() {
                assert(stats_of(rows)[i] == init[i]);
            }
        }
    }
}

/// Turns the rows of a history query, each a raw domain and the number of
/// its allowed queries, into statistics under normalized domains.
pub fn load_domain_stats(rows: Vec<(String, u32)>) -> (out: Vec<DomainStats>)
    ensures
        stats_view(out@) == stats_of(rows@),
        forall|i: int| 0 <= i < out@.len() ==> is_normalized(#[trigger] out@[i].domain@),
{
    let mut out: Vec<DomainStats> = Vec::new();
    let mut i: usize = 0;
    while i < rows.len()
        invariant
            i <= rows@.len(),
            stats_view(out@) == stats_of(rows@.take(i as int)),
        decreases rows@.len() - i,
    {
        assert(rows@.take(i + 1).drop_last() == rows@.take(i as int));
        if let Some(d) = normalize_domain(rows[i].0.as_str()) {
            out.push(DomainStats { domain: d, count: rows[i].1 });
        }
        i += 1;
        assert(stats_view(out@) == stats_of(rows@.take(i as int)));
    }
    assert(rows@.take(rows@.len() as int) == rows@);
    proof {
        lemma_stats_normalized(rows@);
        assert forall|i: int| 0 <= i < out@.len() implies is_normalized(
            #[trigger] out@[i].domain@,
        ) by {
            assert(stats_view(out@)[i].domain == out@[i].domain@);
        }
    }
    out
}

} // verus!
