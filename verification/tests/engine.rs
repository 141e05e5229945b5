use story_engine::config::{db_url, ConfigDocument, DatabaseArgs};
use story_engine::progress::ProgressStore;
use story_engine::render::{format_passage, get_passage_links, render};
use story_engine::session::{
    advance, begin_session, message_from_passage, resolve_selection, tutorial_passage,
    SessionEvent, SessionStep, RESPONSE_TIMEOUT_SECONDS,
};
use story_engine::story::{parse, EngineError, Story};
use story_engine::StoryText;

fn sample_story_text() -> String {
    let mut text = String::new();
    text.push_str(":: Start\n");
    text.push_str("Welcome! [[Go north->Forest]] or [[Go south->Cave]]\n");
    text.push_str(":: Forest\n");
    text.push_str("A dark forest. [[Return->Start]]\n");
    text.push_str(":: Cave\n");
    text.push_str("A damp cave. The end.");
    text
}

fn sample_story() -> Story {
    parse(&sample_story_text()).expect("sample story parses")
}

#[test]
fn parse_sample_story() {
    let story = sample_story();
    let names: Vec<&str> = story.passages.iter().map(|p| p.name.as_str()).collect();
    assert_eq!(names, vec!["Start", "Forest", "Cave"]);
    assert_eq!(story.start.as_deref(), Some("Start"));
    assert_eq!(
        story.get_passage("Start").unwrap().raw_content,
        "Welcome! [[Go north->Forest]] or [[Go south->Cave]]"
    );
    assert_eq!(
        story.get_passage("Cave").unwrap().raw_content,
        "A damp cave. The end."
    );
    assert!(story.get_passage("Nowhere").is_none());
}

#[test]
fn parse_is_deterministic() {
    let text = sample_story_text();
    let s1 = parse(&text).unwrap();
    let s2 = parse(&text).unwrap();
    assert_eq!(s1.passages.len(), s2.passages.len());
    for (a, b) in s1.passages.iter().zip(s2.passages.iter()) {
        assert_eq!(a.name, b.name);
        assert_eq!(a.raw_content, b.raw_content);
    }
    assert_eq!(s1.start, s2.start);
}

#[test]
fn render_start_passage() {
    let story = sample_story();
    let start = story.get_passage("Start").unwrap();
    let (text, links) = render(start);
    assert_eq!(text, "Welcome! [[Go north]] or [[Go south]]");
    let pairs: Vec<(&str, &str)> = links
        .iter()
        .map(|l| (l.label.as_str(), l.target.as_str()))
        .collect();
    assert_eq!(pairs, vec![("Go north", "Forest"), ("Go south", "Cave")]);
}

#[test]
fn render_terminal_passage() {
    let story = sample_story();
    let cave = story.get_passage("Cave").unwrap();
    let (text, links) = render(cave);
    assert_eq!(text, "A damp cave. The end.");
    assert!(links.is_empty());
}

#[test]
fn render_is_idempotent() {
    let story = sample_story();
    let forest = story.get_passage("Forest").unwrap();
    let (t1, l1) = render(forest);
    let (t2, l2) = render(forest);
    assert_eq!(t1, t2);
    assert_eq!(l1.len(), l2.len());
    for (a, b) in l1.iter().zip(l2.iter()) {
        assert_eq!(a.label, b.label);
        assert_eq!(a.target, b.target);
    }
}

#[test]
fn render_emphasis() {
    let story = parse(":: Start\n''bold'' and //italic// text").unwrap();
    let text = format_passage(story.get_passage("Start").unwrap());
    assert_eq!(text, "**bold** and *italic* text");
}

#[test]
fn render_hides_emphasis_inside_target() {
    let story = parse(":: Start\nSee [[docs->http://example//docs]] now").unwrap();
    let start = story.get_passage("Start").unwrap();
    let (text, links) = render(start);
    assert_eq!(text, "See [[docs]] now");
    assert_eq!(links[0].label, "docs");
    assert_eq!(links[0].target, "http://example//docs");
}

#[test]
fn render_shorthand_link() {
    let story = parse(":: Start\nGo to the [[Forest]]!\n:: Forest\nTrees.").unwrap();
    let links = get_passage_links(story.get_passage("Start").unwrap());
    assert_eq!(links.len(), 1);
    assert_eq!(links[0].label, "Forest");
    assert_eq!(links[0].target, "Forest");
    let text = format_passage(story.get_passage("Start").unwrap());
    assert_eq!(text, "Go to the [[Forest]]!");
}

#[test]
fn render_keeps_duplicate_links() {
    let story = parse(":: Start\n[[A->B]] then [[A->B]]\n:: B\nEnd.").unwrap();
    let links = get_passage_links(story.get_passage("Start").unwrap());
    assert_eq!(links.len(), 2);
    assert_eq!(links[0].target, "B");
    assert_eq!(links[1].target, "B");
}

#[test]
fn parse_joins_content_lines() {
    let story = parse(":: Start\nline one\nline two\n:: End\nDone.").unwrap();
    assert_eq!(
        story.get_passage("Start").unwrap().raw_content,
        "line one\nline two"
    );
}

#[test]
fn parse_trims_passage_names() {
    let story = parse("::   Start  \nHello.").unwrap();
    assert_eq!(story.passages[0].name, "Start");
}

#[test]
fn parse_empty_text_fails() {
    assert!(matches!(parse(""), Err(EngineError::MalformedStory)));
}

#[test]
fn parse_text_before_first_header_fails() {
    assert!(matches!(
        parse("stray prose\n:: Start\nHello."),
        Err(EngineError::MalformedStory)
    ));
}

#[test]
fn parse_blank_lines_before_first_header_are_fine() {
    let story = parse("\n\n:: Start\nHello.").unwrap();
    assert_eq!(story.passages.len(), 1);
}

#[test]
fn parse_duplicate_passage_names_fail() {
    assert!(matches!(
        parse(":: Start\none\n:: Start\ntwo"),
        Err(EngineError::MalformedStory)
    ));
}

#[test]
fn parse_empty_passage_name_fails() {
    assert!(matches!(parse(":: Start\nhi\n::\nanonymous"), Err(EngineError::MalformedStory)));
}

#[test]
fn parse_unclosed_link_fails() {
    assert!(matches!(
        parse(":: Start\nbroken [[link"),
        Err(EngineError::MalformedStory)
    ));
}

#[test]
fn parse_without_start_passage_fails() {
    assert!(matches!(
        parse(":: Forest\nTrees everywhere."),
        Err(EngineError::NoStartPassage)
    ));
}

#[test]
fn first_time_reader_sees_tutorial() {
    let story = sample_story();
    let p = begin_session(&story, 5, None).unwrap();
    assert_eq!(p.controls.len(), 1);
    assert_eq!(p.controls[0].token, "5-0|Start");
    assert_eq!(p.controls[0].label, "Click here to start");
    assert!(p.text.starts_with("# Tutorial"));
    assert!(p.text.contains("[[Click here to start]]"));
}

#[test]
fn stale_progress_falls_back_to_tutorial() {
    let story = sample_story();
    let p = begin_session(&story, 5, Some("Removed passage")).unwrap();
    assert_eq!(p.controls.len(), 1);
    assert_eq!(p.controls[0].token, "5-0|Start");
}

#[test]
fn returning_reader_resumes_at_stored_passage() {
    let story = sample_story();
    let p = begin_session(&story, 5, Some("Forest")).unwrap();
    assert_eq!(p.text, "A dark forest. [[Return]]");
    assert_eq!(p.controls.len(), 1);
    assert_eq!(p.controls[0].token, "5-0|Start");
    assert_eq!(p.controls[0].label, "Return");
}

#[test]
fn message_tokens_carry_reader_index_and_target() {
    let story = sample_story();
    let start = story.get_passage("Start").unwrap();
    let p = message_from_passage(7, start);
    assert_eq!(p.controls.len(), 2);
    assert_eq!(p.controls[0].token, "7-0|Forest");
    assert_eq!(p.controls[0].label, "Go north");
    assert_eq!(p.controls[1].token, "7-1|Cave");
    assert_eq!(p.controls[1].label, "Go south");
}

#[test]
fn terminal_passage_offers_no_controls() {
    let story = sample_story();
    let cave = story.get_passage("Cave").unwrap();
    let p = message_from_passage(7, cave);
    assert!(p.controls.is_empty());
}

#[test]
fn tutorial_for_reader_zero() {
    let p = tutorial_passage(0, "Start");
    assert_eq!(p.controls[0].token, "0-0|Start");
}

#[test]
fn selection_advances_to_target() {
    let story = sample_story();
    let event = SessionEvent::ButtonPress {
        token: "5-0|Forest".to_string(),
    };
    match advance(&story, 5, &event) {
        SessionStep::Continue { target, next } => {
            assert_eq!(target, "Forest");
            assert_eq!(next.text, "A dark forest. [[Return]]");
            assert_eq!(next.controls[0].token, "5-0|Start");
        }
        _ => panic!("expected the session to continue"),
    }
}

#[test]
fn broken_link_fails_with_missing_passage() {
    let story = sample_story();
    let event = SessionEvent::ButtonPress {
        token: "5-0|Nowhere".to_string(),
    };
    match advance(&story, 5, &event) {
        SessionStep::Failed { error } => assert_eq!(error, EngineError::MissingPassage),
        _ => panic!("expected the session to fail"),
    }
}

#[test]
fn token_without_separator_is_internal_invariant() {
    let story = sample_story();
    let event = SessionEvent::ButtonPress {
        token: "garbage".to_string(),
    };
    match advance(&story, 5, &event) {
        SessionStep::Failed { error } => assert_eq!(error, EngineError::InternalInvariant),
        _ => panic!("expected the session to fail"),
    }
}

#[test]
fn unsupported_interaction_is_internal_invariant() {
    let story = sample_story();
    match advance(&story, 5, &SessionEvent::UnsupportedInteraction) {
        SessionStep::Failed { error } => assert_eq!(error, EngineError::InternalInvariant),
        _ => panic!("expected the session to fail"),
    }
}

#[test]
fn timeout_ends_session_and_keeps_progress() {
    let story = sample_story();
    let mut store = ProgressStore::new();
    store.set(5, "Forest".to_string());
    let step = resolve_selection(&story, &mut store, 5, 5, &SessionEvent::TimedOut);
    assert!(matches!(step, SessionStep::Ended));
    assert_eq!(store.get(5), Some("Forest".to_string()));
    assert_eq!(store.row_count(5), 1);
}

#[test]
fn progress_persists_only_after_target_resolves() {
    let story = sample_story();
    let mut store = ProgressStore::new();
    let bad = SessionEvent::ButtonPress {
        token: "5-0|Nowhere".to_string(),
    };
    let step = resolve_selection(&story, &mut store, 5, 5, &bad);
    assert!(matches!(step, SessionStep::Failed { .. }));
    assert_eq!(store.get(5), None);
    let good = SessionEvent::ButtonPress {
        token: "5-0|Forest".to_string(),
    };
    let step = resolve_selection(&story, &mut store, 5, 5, &good);
    assert!(matches!(step, SessionStep::Continue { .. }));
    assert_eq!(store.get(5), Some("Forest".to_string()));
}

#[test]
fn first_choice_creates_the_first_row() {
    let story = sample_story();
    let mut store = ProgressStore::new();
    let p = begin_session(&story, 5, None).unwrap();
    assert_eq!(store.row_count(5), 0);
    let event = SessionEvent::ButtonPress {
        token: p.controls[0].token.clone(),
    };
    let step = resolve_selection(&story, &mut store, 5, 5, &event);
    match step {
        SessionStep::Continue { target, .. } => assert_eq!(target, "Start"),
        _ => panic!("expected the session to continue"),
    }
    assert_eq!(store.row_count(5), 1);
    assert_eq!(store.get(5), Some("Start".to_string()));
}

#[test]
fn store_set_is_idempotent() {
    let mut store = ProgressStore::new();
    store.set(42, "Forest".to_string());
    store.set(42, "Forest".to_string());
    assert_eq!(store.row_count(42), 1);
    assert_eq!(store.get(42), Some("Forest".to_string()));
}

#[test]
fn store_set_updates_in_place() {
    let mut store = ProgressStore::new();
    store.set(42, "Forest".to_string());
    store.set(42, "Cave".to_string());
    assert_eq!(store.row_count(42), 1);
    assert_eq!(store.get(42), Some("Cave".to_string()));
}

#[test]
fn store_keeps_readers_apart() {
    let mut store = ProgressStore::new();
    store.set(1, "Forest".to_string());
    store.set(2, "Cave".to_string());
    assert_eq!(store.get(1), Some("Forest".to_string()));
    assert_eq!(store.get(2), Some("Cave".to_string()));
    assert_eq!(store.get(3), None);
}

#[test]
fn db_url_with_port() {
    let config = ConfigDocument {
        story_file: "story.twee".to_string(),
        discord_bot_token: "SECRET-REDACTED".to_string(),
        database: DatabaseArgs {
            host: "db.example".to_string(),
            port: Some(5432),
            username: "bot".to_string(),
            password: "pw".to_string(),
            database: "stories".to_string(),
        },
    };
    assert_eq!(db_url(&config), "postgres://bot:pw@db.example:5432/stories");
}

#[test]
fn db_url_without_port() {
    let config = ConfigDocument {
        story_file: "story.twee".to_string(),
        discord_bot_token: "SECRET-REDACTED".to_string(),
        database: DatabaseArgs {
            host: "localhost".to_string(),
            port: None,
            username: "bot".to_string(),
            password: "pw".to_string(),
            database: "stories".to_string(),
        },
    };
    assert_eq!(db_url(&config), "postgres://bot:pw@localhost/stories");
}

#[test]
fn story_text_round_trip() {
    let text = sample_story_text();
    let stored = StoryText::new(text.clone());
    assert_eq!(stored.get(), text.as_str());
}

#[test]
fn tokens_for_largest_reader_id() {
    let p = tutorial_passage(u64::MAX, "Start");
    assert_eq!(p.controls[0].token, "18446744073709551615-0|Start");
}

#[test]
fn render_multi_line_passage() {
    let story = parse(":: Start
First line.

Third line with [[a link->Start]].").unwrap();
    let (text, links) = render(story.get_passage("Start").unwrap());
    assert_eq!(text, "First line.

Third line with [[a link]].");
    assert_eq!(links.len(), 1);
    assert_eq!(links[0].label, "a link");
}

#[test]
fn timeout_constant_matches_design() {
    assert_eq!(RESPONSE_TIMEOUT_SECONDS, 600);
}
