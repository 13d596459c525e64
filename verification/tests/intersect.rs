use tmhole::blocklist::ReferenceSet;
use tmhole::ftl::DomainStats;
use tmhole::intersect::intersect;

fn stat(domain: &str, count: u32) -> DomainStats {
    DomainStats { domain: domain.to_string(), count }
}

fn reference(text: &str) -> ReferenceSet {
    let mut set = ReferenceSet::new();
    set.add_text(text);
    set
}

#[test]
fn intersect_selects_what_is_on_the_reference_list() {
    let selected = intersect(
        vec![stat("ads.example.com", 42), stat("safe.example.com", 3)],
        reference("ads.example.com\nother.example.com\n"),
    );
    assert_eq!(selected, vec!["ads.example.com".to_string()]);
}

#[test]
fn intersect_keeps_the_order_of_the_stats() {
    let selected = intersect(
        vec![stat("c.example", 1), stat("x.example", 1), stat("a.example", 1), stat("b.example", 1)],
        reference("a.example\nb.example\nc.example\n"),
    );
    assert_eq!(
        selected,
        vec!["c.example".to_string(), "a.example".to_string(), "b.example".to_string()]
    );
}

#[test]
fn intersect_does_not_look_at_the_count() {
    let selected = intersect(
        vec![stat("a.example", 0), stat("b.example", 1), stat("c.example", u32::MAX)],
        reference("a.example\nb.example\nc.example\n"),
    );
    assert_eq!(selected.len(), 3);
}

#[test]
fn intersect_with_empty_reference_selects_nothing() {
    let selected = intersect(
        vec![stat("ads.example.com", 42), stat("safe.example.com", 3)],
        ReferenceSet::new(),
    );
    assert!(selected.is_empty());
}

#[test]
fn intersect_of_no_stats_selects_nothing() {
    assert!(intersect(Vec::new(), reference("a.example\n")).is_empty());
}

#[test]
fn intersect_selects_the_same_domains_in_any_order() {
    let mut one = intersect(
        vec![stat("a.example", 1), stat("b.example", 2), stat("n.example", 3)],
        reference("b.example\na.example\nz.example\n"),
    );
    let mut other = intersect(
        vec![stat("n.example", 9), stat("b.example", 8), stat("a.example", 7)],
        reference("z.example\na.example\nb.example\n"),
    );
    one.sort();
    other.sort();
    assert_eq!(one, other);
    assert_eq!(one, vec!["a.example".to_string(), "b.example".to_string()]);
}

#[test]
fn intersect_compares_domains_as_they_are_spelled() {
    let selected = intersect(
        vec![stat("A.example", 1), stat("a.example.", 1), stat("a.example", 1)],
        reference("a.example\n"),
    );
    assert_eq!(selected, vec!["a.example".to_string()]);
}
