use tmhole::ftl::{load_domain_stats, DomainStats};

fn row(domain: &str, count: u32) -> (String, u32) {
    (domain.to_string(), count)
}

#[test]
fn stats_are_kept_under_normalized_domains() {
    let stats = load_domain_stats(vec![
        row("Ads.Example.COM.", 42),
        row("  safe.example.com ", 3),
    ]);
    assert_eq!(
        stats,
        vec![
            DomainStats { domain: "ads.example.com".into(), count: 42 },
            DomainStats { domain: "safe.example.com".into(), count: 3 },
        ]
    );
}

#[test]
fn stats_leave_out_rows_without_a_domain() {
    let stats = load_domain_stats(vec![
        row("localhost", 7),
        row("a.b", 0),
        row("   ", 1),
        row("printer", 9),
        row("c.d", u32::MAX),
    ]);
    assert_eq!(
        stats,
        vec![
            DomainStats { domain: "a.b".into(), count: 0 },
            DomainStats { domain: "c.d".into(), count: u32::MAX },
        ]
    );
}

#[test]
fn stats_keep_rows_that_normalize_alike() {
    let stats = load_domain_stats(vec![row("A.B", 1), row("a.b", 2)]);
    assert_eq!(
        stats,
        vec![
            DomainStats { domain: "a.b".into(), count: 1 },
            DomainStats { domain: "a.b".into(), count: 2 },
        ]
    );
}

#[test]
fn stats_of_no_rows_are_empty() {
    assert_eq!(load_domain_stats(Vec::new()), Vec::new());
}
