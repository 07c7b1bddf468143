use tokio_sse_llm::cli::{
    handle_event, is_cut_off, parse_args, plan_request, react, read_flag, read_header, read_mode,
    Args, Command, Flag, Output, Reaction, Request,
};
use tokio_sse_llm::json::{extract_text, extract_value, ExtractMode};
use tokio_sse_llm::SseEvent;

const OPENAI: &str = r#"{"choices":[{"delta":{"content":"open"}},{"delta":{"content":"b"}}]}"#;
const ANTHROPIC: &str = r#"{"type":"content_block_delta","delta":{"text":"anth"}}"#;
const OLLAMA: &str = r#"{"message":{"content":"olla"}}"#;

fn argv(args: &[&str]) -> Vec<String> {
    args.iter().map(|s| s.to_string()).collect()
}

fn parsed(args: &[&str]) -> Args {
    let argv = argv(args);
    assert!(!is_cut_off(&argv));
    match parse_args(&argv) {
        Ok(Command::Run(args)) => args,
        other => panic!("{:?}", other),
    }
}

fn refused(args: &[&str]) -> String {
    let argv = argv(args);
    assert!(!is_cut_off(&argv));
    parse_args(&argv).unwrap_err()
}

fn out(text: &str) -> Reaction {
    Reaction { output: Output::Stdout(text.into()), stop: false }
}

fn err(text: &str) -> Reaction {
    Reaction { output: Output::Stderr(text.into()), stop: false }
}

const SILENT: Reaction = Reaction { output: Output::Silent, stop: false };

// Arguments

#[test]
fn no_arguments_are_the_defaults() {
    let args = parsed(&[]);
    assert_eq!(args, Args::default());
    assert_eq!(args.url, None);
    assert_eq!(args.headers, vec![]);
    assert_eq!(args.data, None);
    assert_eq!(args.extract, ExtractMode::Auto);
    assert!(!args.raw);
    assert!(!args.verbose);
}

#[test]
fn all_arguments_are_taken() {
    let args = parsed(&[
        "--url", "http://x", "-H", "A: b", "--header", " C :d:e ", "-d", "{}", "--extract",
        "ollama", "--raw", "-v",
    ]);
    assert_eq!(args.url.as_deref(), Some("http://x"));
    assert_eq!(
        args.headers,
        vec![("A".to_string(), "b".to_string()), ("C".to_string(), "d:e".to_string())]
    );
    assert_eq!(args.data.as_deref(), Some("{}"));
    assert_eq!(args.extract, ExtractMode::Ollama);
    assert!(args.raw);
    assert!(args.verbose);
}

#[test]
fn the_last_value_counts() {
    let args = parsed(&["--url", "a", "--data", "x", "--url", "b", "-d", "y", "--extract", "openai", "--extract", "auto"]);
    assert_eq!(args.url.as_deref(), Some("b"));
    assert_eq!(args.data.as_deref(), Some("y"));
    assert_eq!(args.extract, ExtractMode::Auto);
}

#[test]
fn more_arguments_add_to_those_before() {
    let first = parsed(&["--raw", "-H", "A: b"]);
    let both = parsed(&["--raw", "-H", "A: b", "-v", "-H", "C: d"]);
    assert_eq!(first.headers[..], both.headers[..1]);
    assert_eq!(both.headers[1], ("C".to_string(), "d".to_string()));
    assert!(both.raw && both.verbose && !first.verbose);
}

#[test]
fn a_value_may_look_like_an_option() {
    let args = parsed(&["--data", "--help"]);
    assert_eq!(args.data.as_deref(), Some("--help"));
}

#[test]
fn a_header_without_a_colon_is_left_out() {
    assert_eq!(parsed(&["-H", "abc"]).headers, vec![]);
    assert_eq!(read_header("abc"), None);
    assert_eq!(read_header(":"), Some(("".to_string(), "".to_string())));
    assert_eq!(read_header("\u{e9}: \u{20ac}:"), Some(("\u{e9}".to_string(), "\u{20ac}:".to_string())));
}

#[test]
fn help_is_asked_for() {
    for flag in ["--help", "-h"] {
        let argv = argv(&["--raw", flag, "--bogus", "--url"]);
        assert!(!is_cut_off(&argv));
        assert_eq!(parse_args(&argv), Ok(Command::Help));
    }
}

#[test]
fn unknown_arguments_are_refused() {
    assert_eq!(refused(&["--raw", "--bogus", "--help"]), "Unknown argument: --bogus");
    assert_eq!(refused(&["file", "--url"]), "Unknown argument: file");
    assert_eq!(refused(&[""]), "Unknown argument: ");
}

#[test]
fn unknown_modes_are_refused() {
    assert_eq!(refused(&["--extract", "gpt", "--url"]), "Unknown extract mode: gpt");
    assert_eq!(refused(&["--extract", "OpenAI"]), "Unknown extract mode: OpenAI");
}

#[test]
fn a_missing_value_is_noticed() {
    for flag in ["--url", "--header", "-H", "--data", "-d", "--extract"] {
        assert!(is_cut_off(&argv(&[flag])));
        assert!(is_cut_off(&argv(&["--raw", "--url", "x", flag])));
    }
    assert!(!is_cut_off(&argv(&["--url", "--url"])));
    assert!(!is_cut_off(&argv(&["--help", "--url"])));
}

#[test]
fn flags_and_modes_are_read() {
    assert_eq!(read_flag("-h"), Flag::Help);
    assert_eq!(read_flag("-H"), Flag::Header);
    assert_eq!(read_flag("-v"), Flag::Verbose);
    assert_eq!(read_flag("--verbose"), Flag::Verbose);
    assert_eq!(read_flag("-r"), Flag::Unknown);
    assert_eq!(read_mode("anthropic"), Some(ExtractMode::Anthropic));
    assert_eq!(read_mode("auto"), Some(ExtractMode::Auto));
    assert_eq!(read_mode(""), None);
    assert_eq!(ExtractMode::default(), ExtractMode::Auto);
}

// Requests

#[test]
fn without_a_url_there_is_no_request() {
    assert_eq!(plan_request(&parsed(&["--data", "x"])), None);
}

#[test]
fn a_request_without_data_is_a_get() {
    assert_eq!(
        plan_request(&parsed(&["--url", "u", "-H", "A: b"])),
        Some(Request {
            post: false,
            url: "u".into(),
            headers: vec![("A".into(), "b".into())],
            body: None,
        })
    );
}

#[test]
fn a_request_with_data_is_a_json_post() {
    assert_eq!(
        plan_request(&parsed(&["--data", "{}", "--url", "u", "-H", "A: b"])),
        Some(Request {
            post: true,
            url: "u".into(),
            headers: vec![
                ("A".into(), "b".into()),
                ("Content-Type".into(), "application/json".into()),
            ],
            body: Some("{}".into()),
        })
    );
}

// Extraction

#[test]
fn text_is_extracted_by_mode() {
    assert_eq!(extract_text(OPENAI, ExtractMode::OpenAI).as_deref(), Some("open"));
    assert_eq!(extract_text(OPENAI, ExtractMode::Anthropic), None);
    assert_eq!(extract_text(OPENAI, ExtractMode::Ollama), None);
    assert_eq!(extract_text(ANTHROPIC, ExtractMode::Anthropic).as_deref(), Some("anth"));
    assert_eq!(extract_text(ANTHROPIC, ExtractMode::OpenAI), None);
    assert_eq!(extract_text(OLLAMA, ExtractMode::Ollama).as_deref(), Some("olla"));
    assert_eq!(extract_text(OLLAMA, ExtractMode::OpenAI), None);
}

#[test]
fn auto_tries_each_format() {
    for (payload, text) in [(OPENAI, "open"), (ANTHROPIC, "anth"), (OLLAMA, "olla")] {
        assert_eq!(extract_text(payload, ExtractMode::Auto).as_deref(), Some(text));
    }
    let all = r#"{"message":{"content":"c"},"delta":{"text":"b"},"choices":[{"delta":{"content":"a"}}]}"#;
    assert_eq!(extract_text(all, ExtractMode::Auto).as_deref(), Some("a"));
    let two = r#"{"message":{"content":"c"},"delta":{"text":"b"},"choices":[]}"#;
    assert_eq!(extract_text(two, ExtractMode::Auto).as_deref(), Some("b"));
}

#[test]
fn nothing_is_extracted_where_nothing_is() {
    for payload in ["", "no json", "{}", "null", "[1]", "\"text\"", "3"] {
        assert_eq!(extract_text(payload, ExtractMode::Auto), None);
    }
    assert_eq!(extract_text(r#"{"delta":{"text":5}}"#, ExtractMode::Anthropic), None);
    assert_eq!(extract_text(r#"{"delta":{"text":null}}"#, ExtractMode::Anthropic), None);
    assert_eq!(extract_text(r#"{"choices":[]}"#, ExtractMode::OpenAI), None);
    let keyed = r#"{"choices":{"0":{"delta":{"content":"x"}}}}"#;
    assert_eq!(extract_text(keyed, ExtractMode::OpenAI), None);
}

#[test]
fn an_empty_text_is_a_text() {
    assert_eq!(extract_text(r#"{"delta":{"text":""}}"#, ExtractMode::Auto).as_deref(), Some(""));
}

#[test]
fn escapes_are_decoded() {
    let payload = r#"{"delta":{"text":"a\n€\"b"}}"#;
    assert_eq!(extract_text(payload, ExtractMode::Auto).as_deref(), Some("a\n\u{20ac}\"b"));
}

#[test]
fn text_is_extracted_from_a_parsed_value() {
    let value: serde_json::Value = serde_json::from_str(OLLAMA).unwrap();
    assert_eq!(extract_value(&value, ExtractMode::Ollama).as_deref(), Some("olla"));
    assert_eq!(extract_value(&value, ExtractMode::Anthropic), None);
    assert_eq!(extract_value(&serde_json::Value::Null, ExtractMode::Auto), None);
}

// Reactions

#[test]
fn raw_prints_payloads_as_they_are() {
    let args = parsed(&["--raw"]);
    let event = SseEvent::Data(OPENAI.into());
    assert_eq!(handle_event(&event, &args), out(&format!("{}\n", OPENAI)));
    let event = SseEvent::NamedData { event_type: "x".into(), data: "y".into() };
    assert_eq!(handle_event(&event, &args), out("y\n"));
    assert_eq!(handle_event(&event, &parsed(&["--raw", "-v"])), out("y\n"));
}

#[test]
fn extracted_text_is_printed() {
    let args = parsed(&[]);
    assert_eq!(handle_event(&SseEvent::Data(OPENAI.into()), &args), out("open"));
    let event = SseEvent::NamedData { event_type: "x".into(), data: ANTHROPIC.into() };
    assert_eq!(handle_event(&event, &args), out("anth"));
    let args = parsed(&["--extract", "ollama", "-v"]);
    assert_eq!(handle_event(&SseEvent::Data(OLLAMA.into()), &args), out("olla"));
}

#[test]
fn other_payloads_are_shown_on_request() {
    let data = SseEvent::Data("{}".into());
    let named = SseEvent::NamedData { event_type: "ping".into(), data: "{}".into() };
    assert_eq!(handle_event(&data, &parsed(&[])), SILENT);
    assert_eq!(handle_event(&named, &parsed(&[])), SILENT);
    assert_eq!(handle_event(&data, &parsed(&["-v"])), err("[data] {}\n"));
    assert_eq!(handle_event(&named, &parsed(&["-v"])), err("[ping] {}\n"));
}

#[test]
fn comments_are_shown_on_request() {
    let comment = SseEvent::Comment("hi".into());
    assert_eq!(handle_event(&comment, &parsed(&[])), SILENT);
    assert_eq!(handle_event(&comment, &parsed(&["--raw"])), SILENT);
    assert_eq!(handle_event(&comment, &parsed(&["--verbose"])), err("[comment] hi\n"));
}

#[test]
fn done_leaves_the_stream() {
    let stop = |output: Output| Reaction { output, stop: true };
    let done = SseEvent::Done;
    assert_eq!(handle_event(&done, &parsed(&[])), stop(Output::Stdout("\n".into())));
    assert_eq!(handle_event(&done, &parsed(&["--raw"])), stop(Output::Silent));
    let shown = stop(Output::Stderr("\n[done]\n".into()));
    assert_eq!(handle_event(&done, &parsed(&["-v"])), shown);
    assert_eq!(handle_event(&done, &parsed(&["-v", "--raw"])), shown);
}

#[test]
fn a_reaction_follows_the_extracted_text() {
    let event = SseEvent::Data("p".into());
    assert_eq!(react(&event, Some("t".into()), false, true), out("t"));
    assert_eq!(react(&event, None, false, true), err("[data] p\n"));
    assert_eq!(react(&event, None, false, false), SILENT);
    assert_eq!(react(&event, Some("t".into()), true, false), out("p\n"));
}
