use tmhole::state::{status_report, RunState};

#[test]
fn state_from_selection_counts_the_domains() {
    let selected = vec!["a.example".to_string(), "b.example".to_string()];
    assert_eq!(
        RunState::from_selection(&selected, false, 1_700_000_000),
        RunState { domains_blocked: 2, last_run: 1_700_000_000, reference_was_empty: false }
    );
    assert_eq!(
        RunState::from_selection(&Vec::new(), true, 0),
        RunState { domains_blocked: 0, last_run: 0, reference_was_empty: true }
    );
}

#[test]
fn state_text_has_three_lines() {
    let state = RunState { domains_blocked: 42, last_run: 1_700_000_000, reference_was_empty: false };
    assert_eq!(
        state.encode(),
        "domains_blocked=42\nlast_run=1700000000\nreference_was_empty=false\n"
    );
    let state = RunState { domains_blocked: 0, last_run: u64::MAX, reference_was_empty: true };
    assert_eq!(
        state.encode(),
        "domains_blocked=0\nlast_run=18446744073709551615\nreference_was_empty=true\n"
    );
}

#[test]
fn state_text_is_read_back() {
    for state in [
        RunState { domains_blocked: 0, last_run: 0, reference_was_empty: false },
        RunState { domains_blocked: 1, last_run: 9, reference_was_empty: true },
        RunState { domains_blocked: 10, last_run: 100, reference_was_empty: false },
        RunState { domains_blocked: 1234567890, last_run: 1_700_000_000, reference_was_empty: true },
        RunState { domains_blocked: u64::MAX, last_run: u64::MAX, reference_was_empty: true },
    ] {
        assert_eq!(RunState::decode(&state.encode()), Some(state));
    }
}

#[test]
fn state_decode_takes_leading_zeros() {
    assert_eq!(
        RunState::decode("domains_blocked=007\nlast_run=00\nreference_was_empty=true\n"),
        Some(RunState { domains_blocked: 7, last_run: 0, reference_was_empty: true })
    );
}

#[test]
fn state_decode_refuses_numbers_beyond_64_bits() {
    assert_eq!(
        RunState::decode("domains_blocked=18446744073709551616\nlast_run=0\nreference_was_empty=true\n"),
        None
    );
    assert_eq!(
        RunState::decode("domains_blocked=0\nlast_run=99999999999999999999999\nreference_was_empty=true\n"),
        None
    );
    assert_eq!(
        RunState::decode("domains_blocked=18446744073709551615\nlast_run=0\nreference_was_empty=true\n"),
        Some(RunState { domains_blocked: u64::MAX, last_run: 0, reference_was_empty: true })
    );
}

#[test]
fn state_decode_refuses_other_texts() {
    for text in [
        "",
        "\n",
        "domains_blocked=1\nlast_run=2\nreference_was_empty=true",
        "domains_blocked=1\nlast_run=2\nreference_was_empty=true\n\n",
        "domains_blocked=1\nlast_run=2\nreference_was_empty=true\nmore=1\n",
        "last_run=2\ndomains_blocked=1\nreference_was_empty=true\n",
        "domains_blocked=1\nlast_run=2\n",
        "domains_blocked=\nlast_run=2\nreference_was_empty=true\n",
        "domains_blocked=-1\nlast_run=2\nreference_was_empty=true\n",
        "domains_blocked=+1\nlast_run=2\nreference_was_empty=true\n",
        "domains_blocked=1 \nlast_run=2\nreference_was_empty=true\n",
        "domains_blocked = 1\nlast_run=2\nreference_was_empty=true\n",
        "domains_blocked=1\r\nlast_run=2\r\nreference_was_empty=true\r\n",
        "domains_blocked=1\nlast_run=2\nreference_was_empty=yes\n",
        "domains_blocked=1\nlast_run=2\nreference_was_empty=True\n",
        "domains_blocked=1\nlast_run=2x\nreference_was_empty=true\n",
        "domains_blocked=\u{661}\nlast_run=2\nreference_was_empty=true\n",
        " domains_blocked=1\nlast_run=2\nreference_was_empty=true\n",
    ] {
        assert_eq!(RunState::decode(text), None, "{text:?}");
    }
}

#[test]
fn status_report_names_count_and_time() {
    let state = RunState { domains_blocked: 42, last_run: 1_700_000_000, reference_was_empty: false };
    assert_eq!(
        status_report(Some(state)),
        "Tune My Hole\nBlocked domains: 42\nLast run: 1700000000\n"
    );
    let state = RunState { domains_blocked: 0, last_run: 0, reference_was_empty: true };
    assert_eq!(
        status_report(Some(state)),
        "Tune My Hole\nBlocked domains: 0\nLast run: 0\n"
    );
}

#[test]
fn status_report_without_a_run_says_so() {
    assert_eq!(status_report(None), "No runs yet.\n");
}
