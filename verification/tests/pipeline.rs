use tmhole::config::{Config, OutputConfig};
use tmhole::pipeline::{render_blocklist, Action, Event, Pipeline, Stage};
use tmhole::state::RunState;

fn start(auto_reload: bool) -> Pipeline {
    Pipeline::new(&Config { output: OutputConfig { auto_reload } })
}

fn rows() -> Vec<(String, u32)> {
    vec![("ads.example.com".to_string(), 42), ("safe.example.com".to_string(), 3)]
}

fn at_publish(auto_reload: bool, texts: Vec<String>) -> Pipeline {
    start(auto_reload)
        .advance(Event::SourceChecked { present: true })
        .advance(Event::StatsLoaded { rows: rows() })
        .advance(Event::ReferenceLoaded { texts })
}

#[test]
fn render_puts_one_domain_on_each_line() {
    assert_eq!(render_blocklist(&Vec::new()), "");
    assert_eq!(render_blocklist(&vec!["a.example".to_string()]), "a.example\n");
    assert_eq!(
        render_blocklist(&vec!["b.example".to_string(), "a.example".to_string(), "b.example".to_string()]),
        "b.example\na.example\nb.example\n"
    );
}

#[test]
fn run_publishes_the_intersection_and_records_it() {
    let run = start(false);
    assert_eq!(run.stage(), Stage::CheckSource);
    assert_eq!(run.task(), Action::CheckSource);

    let run = run.advance(Event::SourceChecked { present: true });
    assert_eq!(run.stage(), Stage::LoadStats);
    assert_eq!(run.task(), Action::LoadStats);

    let run = run.advance(Event::StatsLoaded { rows: rows() });
    assert_eq!(run.stage(), Stage::LoadReference);
    assert_eq!(run.task(), Action::LoadReference);

    let run = run.advance(Event::ReferenceLoaded { texts: vec!["ads.example.com\n".to_string()] });
    assert_eq!(run.stage(), Stage::PublishFile);
    assert_eq!(run.task(), Action::Publish { text: "ads.example.com\n".to_string() });

    let run = run.advance(Event::Published { at: 1_700_000_000 });
    assert_eq!(run.stage(), Stage::PersistState);
    assert_eq!(
        run.task(),
        Action::Persist {
            state: RunState { domains_blocked: 1, last_run: 1_700_000_000, reference_was_empty: false },
        }
    );

    let run = run.advance(Event::StatePersisted);
    assert_eq!(run.stage(), Stage::Done);
    assert_eq!(run.task(), Action::Finish);
}

#[test]
fn run_reloads_where_the_options_ask_for_it() {
    let run = at_publish(true, vec!["ads.example.com\n".to_string()])
        .advance(Event::Published { at: 5 })
        .advance(Event::StatePersisted);
    assert_eq!(run.stage(), Stage::TriggerReload);
    assert_eq!(run.task(), Action::Reload);
    assert_eq!(run.advance(Event::ReloadTried { ok: true }), Pipeline::Done);
}

#[test]
fn run_ends_well_though_the_reload_failed() {
    let run = at_publish(true, Vec::new())
        .advance(Event::Published { at: 5 })
        .advance(Event::StatePersisted)
        .advance(Event::ReloadTried { ok: false });
    assert_eq!(run, Pipeline::Done);
    assert_eq!(run.task(), Action::Finish);
}

#[test]
fn run_fails_where_the_query_history_is_missing() {
    let run = start(true).advance(Event::SourceChecked { present: false });
    assert_eq!(run.stage(), Stage::Failed);
    assert_eq!(run.task(), Action::Abort);
    // Nothing brings it to publish afterwards.
    let run = run
        .advance(Event::SourceChecked { present: true })
        .advance(Event::StatsLoaded { rows: rows() })
        .advance(Event::ReferenceLoaded { texts: vec!["ads.example.com\n".to_string()] })
        .advance(Event::Published { at: 1 })
        .advance(Event::StatePersisted)
        .advance(Event::ReloadTried { ok: true });
    assert_eq!(run, Pipeline::Failed);
    assert_eq!(run.task(), Action::Abort);
}

#[test]
fn run_with_empty_reference_publishes_nothing_and_says_so() {
    for texts in [Vec::new(), vec![String::new()], vec!["# nothing\nlocalhost\n".to_string()]] {
        let run = at_publish(false, texts);
        assert_eq!(run.task(), Action::Publish { text: String::new() });
        let run = run.advance(Event::Published { at: 77 });
        assert_eq!(
            run.task(),
            Action::Persist {
                state: RunState { domains_blocked: 0, last_run: 77, reference_was_empty: true },
            }
        );
    }
}

#[test]
fn run_with_reference_that_matches_nothing_is_not_empty_reference() {
    let run = at_publish(false, vec!["other.example.com\n".to_string()]);
    assert_eq!(run.task(), Action::Publish { text: String::new() });
    let run = run.advance(Event::Published { at: 78 });
    assert_eq!(
        run.task(),
        Action::Persist {
            state: RunState { domains_blocked: 0, last_run: 78, reference_was_empty: false },
        }
    );
}

#[test]
fn run_stays_where_it_is_on_an_event_it_did_not_ask_for() {
    let run = start(false);
    for event in [
        Event::StatsLoaded { rows: rows() },
        Event::ReferenceLoaded { texts: Vec::new() },
        Event::Published { at: 1 },
        Event::StatePersisted,
        Event::ReloadTried { ok: true },
    ] {
        assert_eq!(run.clone().advance(event), run);
    }
    let run = at_publish(true, vec!["ads.example.com\n".to_string()]);
    for event in [
        Event::SourceChecked { present: false },
        Event::SourceChecked { present: true },
        Event::StatsLoaded { rows: Vec::new() },
        Event::ReferenceLoaded { texts: Vec::new() },
        Event::StatePersisted,
        Event::ReloadTried { ok: false },
    ] {
        assert_eq!(run.clone().advance(event), run);
    }
    let done = Pipeline::Done;
    assert_eq!(done.clone().advance(Event::SourceChecked { present: true }), done);
}

#[test]
fn run_normalizes_the_rows_it_is_given() {
    let run = start(false)
        .advance(Event::SourceChecked { present: true })
        .advance(Event::StatsLoaded {
            rows: vec![
                ("ADS.Example.com.".to_string(), 1),
                ("localhost".to_string(), 5),
                (" b.example ".to_string(), 2),
            ],
        })
        .advance(Event::ReferenceLoaded {
            texts: vec!["0.0.0.0 b.example\n".to_string(), "0.0.0.0 ads.example.com\n".to_string()],
        });
    assert_eq!(run.task(), Action::Publish { text: "ads.example.com\nb.example\n".to_string() });
}
