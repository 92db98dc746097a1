//! The controller's loops and commands, the provider translation, the
//! room, identity derivation, and the HTML stripper.

use anemone::config;
use anemone::controller::{self, Controller, ErrorClass, LoopAction, ToolLoop};
use anemone::identity;
use anemone::movement;
use anemone::provider::{self, InputItem, WireCall};
use anemone::types::{BrainCommand, Position};
use anemone::web;

#[test]
fn tool_loop_stops_after_max_rounds_plus_one_calls() {
    let mut lp = ToolLoop::begin(3);
    let mut calls = 1u32;
    loop {
        let a = lp.on_reply(true);
        match a {
            LoopAction::RunToolsThenCall => {
                calls += 1;
            },
            LoopAction::FinishRoundLimit => break,
            _ => panic!("unexpected action"),
        }
    }
    assert_eq!(calls, 4);
    assert_eq!(lp.calls_made, 4);
    assert!(lp.done);
}

#[test]
fn tool_loop_finishes_on_a_plain_reply() {
    let mut lp = ToolLoop::begin(15);
    assert!(matches!(lp.on_reply(true), LoopAction::RunToolsThenCall));
    assert!(matches!(lp.on_reply(false), LoopAction::Finish));
    assert!(lp.done);
    assert_eq!(lp.calls_made, 2);
}

#[test]
fn transient_failure_is_retried_once_then_fatal() {
    let mut lp = ToolLoop::begin(15);
    assert!(matches!(lp.on_reply(true), LoopAction::RunToolsThenCall));
    assert!(matches!(lp.on_failure(true), LoopAction::RetryCall));
    let mut lp2 = ToolLoop::begin(15);
    assert!(matches!(lp2.on_reply(true), LoopAction::RunToolsThenCall));
    assert!(matches!(lp2.on_failure(true), LoopAction::RetryCall));
    assert!(matches!(lp2.on_failure(true), LoopAction::FinishError));
}

#[test]
fn a_five_hundred_is_transient_and_retried_once() {
    // a follow-up reasoning call answers 500; the retry succeeds and the
    // cycle continues without an error outcome
    assert!(matches!(controller::classify_status(500), ErrorClass::Transient));
    assert!(matches!(controller::classify_status(503), ErrorClass::Transient));
    assert!(matches!(controller::classify_status(401), ErrorClass::Fatal));
    assert!(matches!(controller::classify_status(404), ErrorClass::Fatal));
    let policy = controller::default_retry_policy();
    assert_eq!(policy.delay_secs, 2);
    assert!(controller::should_retry(policy, 1, ErrorClass::Transient));
    assert!(!controller::should_retry(policy, 2, ErrorClass::Transient));
    assert!(!controller::should_retry(policy, 1, ErrorClass::Fatal));

    let mut lp = ToolLoop::begin(15);
    assert!(matches!(lp.on_reply(true), LoopAction::RunToolsThenCall));
    let a = lp.on_failure(true);
    assert!(matches!(a, LoopAction::RetryCall));
    let a = lp.on_reply(false);
    assert!(matches!(a, LoopAction::Finish));
    assert!(lp.done);
}

#[test]
fn commands_land_where_they_belong() {
    let mut c = Controller::new();
    c.apply_command(BrainCommand::UserMessage(String::from("hello")));
    assert_eq!(c.user_message.as_deref(), Some("hello"));
    c.apply_command(BrainCommand::SetFocusMode(true));
    assert!(c.focus_mode);
    c.apply_command(BrainCommand::Snapshot(String::from("png")));
    assert_eq!(c.latest_snapshot.as_deref(), Some("png"));
    assert!(!c.stop_requested);
    c.apply_command(BrainCommand::Stop);
    assert!(c.stop_requested);
}

#[test]
fn a_late_reply_is_discarded_and_the_rendezvous_is_single_use() {
    let mut c = Controller::new();
    // no rendezvous outstanding: the reply is dropped
    c.apply_command(BrainCommand::ConversationReply(String::from("late")));
    assert!(c.pending_reply.is_none());
    // outstanding: the reply is delivered, then consumed exactly once
    c.open_rendezvous();
    c.apply_command(BrainCommand::ConversationReply(String::from("hi there")));
    let got = c.resolve_rendezvous();
    assert_eq!(got.as_deref(), Some("hi there"));
    assert!(!c.waiting_for_reply);
    assert!(c.resolve_rendezvous().is_none());
}

#[test]
fn research_counter_escalates_at_three_and_five() {
    let mut c = Controller::new();
    for _ in 0..2 {
        c.note_cycle_outcome(false, true);
    }
    assert_eq!(c.research_nudge_level(), 0);
    c.note_cycle_outcome(false, true);
    assert_eq!(c.research_nudge_level(), 1);
    c.note_cycle_outcome(false, true);
    c.note_cycle_outcome(false, true);
    assert_eq!(c.research_nudge_level(), 2);
    // a created file resets the counter
    c.note_cycle_outcome(true, true);
    assert_eq!(c.research_nudge_level(), 0);
    // a cycle with neither research nor files leaves it alone
    c.note_cycle_outcome(false, true);
    c.note_cycle_outcome(false, false);
    assert_eq!(c.consecutive_research_cycles, 1);
}

#[test]
fn planning_is_due_every_tenth_cycle() {
    let mut c = Controller::new();
    for _ in 0..9 {
        c.end_cycle_tick();
        assert!(!c.should_plan());
    }
    c.end_cycle_tick();
    assert!(c.should_plan());
    c.on_plan_complete();
    assert!(!c.should_plan());
}

#[test]
fn activities_classify_by_tool_and_command() {
    let a = controller::classify_activity("move", "desk");
    assert_eq!(a.activity_type, "moving");
    assert_eq!(a.detail, "Going to desk");
    let a = controller::classify_activity("respond", "");
    assert_eq!(a.activity_type, "conversing");
    let a = controller::classify_activity("web_search", "");
    assert_eq!(a.activity_type, "searching");
    let a = controller::classify_activity("shell", "python analyze.py");
    assert_eq!(a.activity_type, "python");
    let a = controller::classify_activity("shell", "echo hi > notes/today.md");
    assert_eq!(a.activity_type, "writing");
    assert_eq!(a.detail, "Writing notes/today.md");
    let a = controller::classify_activity("shell", "cat notes/today.md");
    assert_eq!(a.activity_type, "reading");
    let a = controller::classify_activity("shell", "mkdir notes");
    assert_eq!(a.activity_type, "shell");
    let a = controller::classify_activity("mystery", "");
    assert_eq!(a.activity_type, "working");
    assert_eq!(a.detail, "mystery");
}

#[test]
fn plan_text_splits_at_the_log_marker() {
    let (body, log) = controller::split_plan_log("# Plan\ndo things\nLOG: did things today");
    assert_eq!(body, "# Plan\ndo things");
    assert_eq!(log, "did things today");
    let (body, log) = controller::split_plan_log("just a plan");
    assert_eq!(body, "just a plan");
    assert_eq!(log, "");
}

#[test]
fn test_translate_input_to_messages() {
    let input = vec![
        InputItem::Message { role: String::from("user"), content: String::from("Hello") },
        InputItem::ToolOutput {
            call_id: String::from("c1"),
            name: String::from("shell"),
            output: String::from("result here"),
        },
    ];
    let messages = provider::translate_input_to_messages(input, Some("You are helpful"));
    assert_eq!(messages.len(), 3);
    assert_eq!(messages[0].role, "system");
    assert_eq!(messages[0].content.as_deref(), Some("You are helpful"));
    assert_eq!(messages[1].role, "user");
    assert_eq!(messages[1].content.as_deref(), Some("Hello"));
    assert_eq!(messages[2].role, "tool");
    assert_eq!(messages[2].content.as_deref(), Some("result here"));
    assert_eq!(messages[2].tool_call_id.as_deref(), Some("c1"));
}

#[test]
fn long_tool_results_are_capped_in_translation() {
    let long = "y".repeat(20000);
    let input = vec![InputItem::ToolOutput {
        call_id: String::from("c9"),
        name: String::from("shell"),
        output: long,
    }];
    let messages = provider::translate_input_to_messages(input, None);
    let content = messages[0].content.as_deref().unwrap();
    assert!(content.starts_with(&"y".repeat(16000)));
    assert!(content.ends_with("...(truncated)"));
    assert_eq!(content.chars().count(), 16000 + "\n...(truncated)".chars().count());
}

#[test]
fn test_normalize_completions_response_text_only() {
    let result = provider::normalize_completions_response(
        Some(String::from("Hello world")),
        Vec::new(),
    );
    assert_eq!(result.text.as_deref(), Some("Hello world"));
    assert!(result.tool_calls.is_empty());
    assert!(result.replay.is_none());
}

#[test]
fn test_normalize_completions_response_with_tools() {
    let raw = vec![WireCall {
        id: Some(String::from("call_123")),
        name: Some(String::from("shell")),
        arguments: Some(String::from("{\"command\": \"ls\"}")),
    }];
    let result = provider::normalize_completions_response(Some(String::from("Let me check.")), raw);
    assert_eq!(result.text.as_deref(), Some("Let me check."));
    assert_eq!(result.tool_calls.len(), 1);
    assert_eq!(result.tool_calls[0].name, "shell");
    assert_eq!(result.tool_calls[0].call_id, "call_123");
    assert!(result.replay.is_some());
    let args = &result.tool_calls[0].arguments;
    let cmd = provider::get_json_str_field(args, b"\"command\": \"");
    assert_eq!(cmd.as_deref(), Some("ls"));
}

#[test]
fn missing_call_ids_are_synthesized() {
    let raw = vec![
        WireCall { id: None, name: Some(String::from("shell")), arguments: None },
        WireCall { id: None, name: None, arguments: None },
    ];
    let result = provider::normalize_completions_response(None, raw);
    assert_eq!(result.tool_calls[0].call_id, "call_shell_0");
    assert_eq!(result.tool_calls[1].call_id, "call__1");
    assert_eq!(result.tool_calls[1].name, "");
    assert_eq!(result.tool_calls[1].arguments, "");
}

#[test]
fn json_argument_fields_extract_or_degrade() {
    let args = "{\"url\":\"https://a.b/c\",\"max_results\":7}";
    assert_eq!(
        provider::get_json_str_field(args, b"\"url\":\"").as_deref(),
        Some("https://a.b/c"),
    );
    assert!(provider::get_json_str_field(args, b"\"query\":\"").is_none());
    assert_eq!(provider::get_json_nat_field(args, b"\"max_results\":", 10), Some(7));
    let big = "{\"max_results\":500}";
    assert_eq!(provider::get_json_nat_field(big, b"\"max_results\":", 10), Some(10));
}

#[test]
fn test_blocked_tiles() {
    assert!(movement::is_blocked(0, 0));
    assert!(movement::is_blocked(3, 0));
    assert!(!movement::is_blocked(4, 0));
    assert!(!movement::is_blocked(5, 0));
    assert!(movement::is_blocked(6, 0));
    for x in 0..12 {
        assert!(!movement::is_blocked(x, 6));
    }
}

#[test]
fn test_valid_position() {
    assert!(movement::is_valid_position(5, 5));
    assert!(!movement::is_valid_position(-1, 0));
    assert!(!movement::is_valid_position(12, 0));
    assert!(!movement::is_valid_position(0, 0));
}

#[test]
fn test_handle_move() {
    let mut pos = Position { x: 5, y: 5 };
    let result = movement::handle_move(&mut pos, "desk");
    assert_eq!(pos.x, 10);
    assert_eq!(pos.y, 1);
    assert!(result.contains("desk"));
}

#[test]
fn test_handle_move_unknown() {
    let mut pos = Position { x: 5, y: 5 };
    let result = movement::handle_move(&mut pos, "bathroom");
    assert!(result.contains("Unknown"));
    assert_eq!(pos.x, 5);
    assert_eq!(pos.y, 5);
}

#[test]
fn test_idle_wander_stays_valid() {
    let mut pos = Position { x: 5, y: 5 };
    for _ in 0..100 {
        movement::idle_wander(&mut pos);
        assert!(movement::is_valid_position(pos.x, pos.y));
    }
}

#[test]
fn test_strip_html_basic() {
    let html = "<p>Hello <b>world</b></p>";
    let text = web::strip_html(html);
    assert!(text.contains("Hello"));
    assert!(text.contains("world"));
    assert!(!text.contains("<"));
}

#[test]
fn test_strip_html_scripts() {
    let html = "<p>before</p><script>evil()</script><p>after</p>";
    let text = web::strip_html(html);
    assert!(text.contains("before"));
    assert!(text.contains("after"));
    assert!(!text.contains("evil"));
}

#[test]
fn test_strip_html_styles() {
    let html = "<p>text</p><style>.x{color:red}</style><p>more</p>";
    let text = web::strip_html(html);
    assert!(text.contains("text"));
    assert!(text.contains("more"));
    assert!(!text.contains("color"));
}

#[test]
fn only_web_urls_may_be_fetched() {
    assert!(web::is_allowed_url("https://example.org/x"));
    assert!(web::is_allowed_url("http://example.org"));
    assert!(!web::is_allowed_url("ftp://example.org"));
    assert!(!web::is_allowed_url("file:///etc/passwd"));
}

#[test]
fn test_derive_traits_deterministic() {
    let seed = b"test_seed_for_anemone";
    let traits1 = identity::derive_traits(seed);
    let traits2 = identity::derive_traits(seed);
    assert_eq!(traits1.domains, traits2.domains);
    assert_eq!(traits1.thinking_styles, traits2.thinking_styles);
    assert_eq!(traits1.temperament, traits2.temperament);
}

#[test]
fn test_derive_traits_structure() {
    let seed = b"another_test_seed";
    let traits = identity::derive_traits(seed);
    assert_eq!(traits.domains.len(), 3);
    assert_eq!(traits.thinking_styles.len(), 2);
    assert!(!traits.temperament.is_empty());
    for d in &traits.domains {
        assert!((0..50).any(|i| identity::domain_at(i) == d.as_str()));
    }
    for s in &traits.thinking_styles {
        assert!((0..16).any(|i| identity::thinking_style_at(i) == s.as_str()));
    }
    assert!((0..8).any(|i| identity::temperament_at(i) == traits.temperament.as_str()));
}

#[test]
fn test_different_seeds_different_traits() {
    let traits1 = identity::derive_traits(b"seed_one");
    let traits2 = identity::derive_traits(b"seed_two");
    let same = traits1.domains == traits2.domains
        && traits1.thinking_styles == traits2.thinking_styles
        && traits1.temperament == traits2.temperament;
    assert!(!same);
}

#[test]
fn test_create_identity() {
    let id = identity::create_identity(
        "TestAnemone",
        b"some_entropy_data",
        String::from("2024-05-04 12:00:00"),
    );
    assert_eq!(id.name, "TestAnemone");
    assert!(!id.genome.is_empty());
    assert_eq!(id.traits.domains.len(), 3);
    assert!(!id.born.is_empty());
}

#[test]
fn random_identities_have_the_full_shape() {
    let id = identity::create_identity_random("Kelp", 123456789, String::from("2024-05-04"));
    assert_eq!(id.name, "Kelp");
    assert_eq!(id.genome.len(), 64);
    assert_eq!(id.traits.domains.len(), 3);
}

#[test]
fn box_directories_name_their_agents() {
    assert_eq!(config::anemone_id_from_box("coral_box"), "coral");
    assert_eq!(config::anemone_id_from_box("plain"), "plain");
    assert_eq!(config::anemone_id_from_box("_box"), "");
}

#[test]
fn defaults_match_the_documented_values() {
    let c = config::Config::default();
    assert_eq!(c.provider, "openai");
    assert_eq!(c.model, "gpt-4.1");
    assert_eq!(c.thinking_pace_seconds, 45);
    assert_eq!(c.max_thoughts_in_context, 20);
    assert_eq!(c.max_output_tokens, 1000);
    assert_eq!(c.max_tool_rounds, 15);
    assert_eq!(c.reflection_threshold, 50);
    assert_eq!(c.memory_retrieval_count, 3);
    assert_eq!(c.embedding_model, "text-embedding-3-small");
    assert_eq!(controller::PLAN_INTERVAL, 10);
    assert_eq!(controller::CONVERSATION_TIMEOUT_SECS, 15);
}

#[test]
fn search_results_flatten_with_caps() {
    let results = vec![
        anemone::web::SearchResult {
            title: String::from("First"),
            url: String::from("https://a"),
            content: String::from("alpha"),
        },
        anemone::web::SearchResult {
            title: String::from("Second"),
            url: String::from("https://b"),
            content: String::from("beta"),
        },
    ];
    let text = anemone::web::format_search_results(&results);
    assert_eq!(text, "**First**\nURL: https://a\nalpha\n\n**Second**\nURL: https://b\nbeta\n");
    let none: Vec<anemone::web::SearchResult> = Vec::new();
    assert_eq!(anemone::web::format_search_results(&none), "No results found.");
}

#[test]
fn fetched_pages_format_with_titles_and_caps() {
    assert_eq!(anemone::web::format_web_fetch("", "body text"), "body text");
    assert_eq!(
        anemone::web::format_web_fetch("Title", "body text"),
        "**Title**\n\nbody text",
    );
    let page = "<html><body><p>Hello page</p></body></html>";
    assert_eq!(anemone::web::format_fetch_result(page), "Hello page");
    let raw = "just plain words";
    assert_eq!(anemone::web::format_fetch_result(raw), "just plain words");
}
