use ignore::gitignore::GitignoreBuilder;
use oxc_front::cursor::Cursor;
use oxc_front::runner::{
    parse_as, ParseRefusal, retain_unignored, total_duration, CliRunResult, FormatOptions, IgnoreOptions, ParseResult,
    ParseRunner, PathEntry,
};
use oxc_front::parser::{parse_buffer, parse_source};
use oxc_front::source::{classify, source_type_from_path, SourceBuffer, SourceTraits, SourceType};
use oxc_front::typecheck::{
    bool_result, wait_done, BoolResponse, EmptyResponse, ExitAction, FromChildError,
    ProtocolError, TSServerClient,
};

fn text(frame: Vec<u8>) -> String {
    String::from_utf8(frame).unwrap()
}

fn client() -> TSServerClient {
    TSServerClient::from_child_streams(true, true).unwrap()
}

fn entry(path: &str, is_dir: bool) -> PathEntry {
    PathEntry { path: path.to_string(), is_dir }
}

fn options(paths: Vec<PathEntry>, no_ignore: bool) -> FormatOptions {
    FormatOptions {
        paths,
        ignore_options: IgnoreOptions { no_ignore, ignore_path: ".eslintignore".to_string() },
    }
}

#[test]
fn request_lines_are_framed_as_json() {
    let mut c = client();
    assert_eq!(
        text(c.status()),
        "{\"seq\":1,\"type\":\"request\",\"previousDuration\":0,\"command\":\"status\"}\n"
    );
    c.update_duration(1234567);
    assert_eq!(
        text(c.open("{\"file\":\"a.ts\"}")),
        "{\"seq\":2,\"type\":\"request\",\"previousDuration\":1234567,\"command\":\"open\",\"arguments\":{\"file\":\"a.ts\"}}\n"
    );
    assert_eq!(c.sequence(), 2);
}

#[test]
fn each_command_names_itself() {
    let mut c = client();
    assert!(text(c.close("{}")).contains("\"command\":\"close\",\"arguments\":{}"));
    assert!(text(c.get_node("{}")).contains("\"command\":\"getNode\""));
    assert!(text(c.is_promise_array("{}")).contains("\"command\":\"noFloatingPromises::isPromiseArray\""));
    assert!(text(c.is_promise_like("{}")).contains("\"command\":\"noFloatingPromises::isPromiseLike\""));
    assert!(text(c.is_valid_rejection_handler("{}"))
        .contains("\"command\":\"noFloatingPromises::isValidRejectionHandler\""));
    assert!(text(c.send_command("custom", None)).starts_with("{\"seq\":6,"));
}

#[test]
fn frames_parse_as_json() {
    let mut c = client();
    c.update_duration(u128::MAX);
    let frame = text(c.get_node("{\"pos\":[1,2]}"));
    let value: serde_json::Value = serde_json::from_str(frame.trim_end()).unwrap();
    assert_eq!(value["seq"], 1);
    assert_eq!(value["type"], "request");
    assert_eq!(value["command"], "getNode");
    assert_eq!(value["arguments"]["pos"][1], 2);
    assert!(frame.contains("\"previousDuration\":340282366920938463463374607431768211455,"));
}

#[test]
fn exit_is_sent_once() {
    let mut c = client();
    let frame = c.exit().unwrap();
    assert_eq!(text(frame), "{\"seq\":1,\"type\":\"request\",\"previousDuration\":0,\"command\":\"exit\"}\n");
    assert!(c.is_running());
    assert_eq!(c.exit_sent(true), ExitAction::Wait);
    assert!(!c.is_running());
    assert_eq!(c.exit(), None);
    assert_eq!(c.sequence(), 1);
}

#[test]
fn a_failed_exit_kills_the_server() {
    let mut c = client();
    c.exit().unwrap();
    assert_eq!(c.exit_sent(false), ExitAction::Kill);
    assert!(c.is_running());
}

#[test]
fn a_child_needs_both_pipes() {
    assert_eq!(TSServerClient::from_child_streams(false, true), Err(FromChildError::MissingStdinStream));
    assert_eq!(TSServerClient::from_child_streams(true, false), Err(FromChildError::MissingStdoutStream));
    assert_eq!(TSServerClient::from_child_streams(false, false), Err(FromChildError::MissingStdinStream));
    assert_eq!(FromChildError::MissingStdinStream.message(), "child stdin must be piped");
    assert_eq!(FromChildError::MissingStdoutStream.message(), "child stdout must be piped");
}

#[test]
fn answers_are_unwrapped() {
    assert_eq!(wait_done(Ok(EmptyResponse {})), Ok(()));
    assert_eq!(wait_done(Err(ProtocolError::Io("closed".to_string()))), Err(ProtocolError::Io("closed".to_string())));
    assert_eq!(bool_result(Ok(BoolResponse { result: true })), Ok(true));
    assert_eq!(bool_result(Ok(BoolResponse { result: false })), Ok(false));
    assert_eq!(
        bool_result(Err(ProtocolError::Json("eof".to_string()))),
        Err(ProtocolError::Json("eof".to_string()))
    );
}

#[test]
fn ignored_files_are_dropped_and_directories_stay() {
    let entries = vec![entry("a.js", false), entry("dist", true), entry("b.js", false), entry("c.js", false)];
    let kept = retain_unignored(&entries, &vec![true, true, false, true]);
    assert_eq!(kept, vec![entry("dist", true), entry("b.js", false)]);
    assert_eq!(retain_unignored(&entries, &vec![false; 4]), entries);
    assert_eq!(retain_unignored(&Vec::new(), &Vec::new()), Vec::new());
}

#[test]
fn explicit_paths_are_held_against_the_ignore_file() {
    let mut builder = GitignoreBuilder::new("/project");
    builder.add_line(None, "*.min.js").unwrap();
    builder.add_line(None, "vendor").unwrap();
    let ignore = builder.build().unwrap();
    let mut runner = ParseRunner::new(options(
        vec![entry("a.js", false), entry("a.min.js", false), entry("vendor", true), entry("vendor", false)],
        false,
    ));
    assert!(runner.uses_ignore_file());
    runner.prefilter(&ignore);
    assert!(!runner.needs_working_directory());
    assert_eq!(runner.settle_roots(None), Ok(()));
    assert_eq!(runner.into_paths(), vec![entry("a.js", false), entry("vendor", true)]);
    let mut all = ParseRunner::new(options(vec![entry("a.min.js", false)], false));
    all.prefilter(&ignore);
    assert!(all.needs_working_directory());
    assert!(!ParseRunner::new(options(vec![entry("a.js", false)], true)).uses_ignore_file());
    assert!(!ParseRunner::new(options(Vec::new(), false)).uses_ignore_file());
}

#[test]
fn a_run_without_paths_starts_in_the_working_directory() {
    let mut runner = ParseRunner::new(options(Vec::new(), false));
    assert!(runner.needs_working_directory());
    assert_eq!(runner.settle_roots(Some("/work".to_string())), Ok(()));
    assert!(!runner.needs_working_directory());
    let mut lost = ParseRunner::new(options(Vec::new(), false));
    assert_eq!(
        lost.settle_roots(None),
        Err(CliRunResult::InvalidOptions { message: "Failed to get current working directory.".to_string() })
    );
}

#[test]
fn durations_add_up_in_any_order() {
    assert_eq!(total_duration(&vec![3, 5, 11]), Some(19));
    assert_eq!(total_duration(&vec![11, 3, 5]), Some(19));
    assert_eq!(total_duration(&Vec::new()), Some(0));
    assert_eq!(total_duration(&vec![u128::MAX, 1]), None);
    assert_eq!(total_duration(&vec![u128::MAX - 1, 1]), Some(u128::MAX));
    assert_eq!(
        ParseRunner::finish(total_duration(&vec![3, 5, 11]).unwrap(), 40, 3),
        CliRunResult::ParseResult(ParseResult { parse_duration: 19, duration: 40, number_of_files: 3 })
    );
}

#[test]
fn source_types_follow_the_extension() {
    assert_eq!(source_type_from_path("src/a.ts"), Some(SourceType::Ts));
    assert_eq!(source_type_from_path("src/a.d.ts"), Some(SourceType::Ts));
    assert_eq!(source_type_from_path("a.tsx"), Some(SourceType::Tsx));
    assert_eq!(source_type_from_path("a.jsx"), Some(SourceType::Jsx));
    assert_eq!(source_type_from_path("a.txt"), None);
    assert_eq!(source_type_from_path("ts"), None);
    assert_eq!(source_type_from_path(""), None);
    assert!(SourceType::Tsx.is_typescript() && SourceType::Tsx.is_jsx());
    assert!(!SourceType::Module.is_typescript() && !SourceType::Ts.is_jsx());
}

#[test]
fn traits_decide_the_source_type() {
    let t = |typescript, jsx, module| SourceTraits { typescript, jsx, module };
    assert_eq!(classify(Some(t(true, true, true))), Some(SourceType::Tsx));
    assert_eq!(classify(Some(t(true, false, false))), Some(SourceType::Ts));
    assert_eq!(classify(Some(t(false, true, true))), Some(SourceType::Jsx));
    assert_eq!(classify(Some(t(false, false, true))), Some(SourceType::Module));
    assert_eq!(classify(Some(t(false, false, false))), Some(SourceType::Script));
    assert_eq!(classify(None), None);
}

#[test]
fn cursor_moves_by_code_points() {
    let mut cursor = Cursor::new("a\u{e9}\u{4e16}\u{1F600}b");
    assert_eq!(cursor.position(), 0);
    assert_eq!(cursor.peek(), Some('a'));
    assert_eq!(cursor.advance(), Some('a'));
    assert_eq!(cursor.position(), 1);
    assert_eq!(cursor.peek(), Some('\u{e9}'));
    assert_eq!(cursor.advance(), Some('\u{e9}'));
    assert_eq!(cursor.position(), 3);
    assert_eq!(cursor.advance(), Some('\u{4e16}'));
    assert_eq!(cursor.position(), 6);
    assert_eq!(cursor.advance(), Some('\u{1F600}'));
    assert_eq!(cursor.position(), 10);
    assert_eq!(cursor.advance(), Some('b'));
    assert_eq!(cursor.peek(), None);
    assert_eq!(cursor.advance(), None);
    assert_eq!(cursor.position(), 11);
    cursor.seek(3);
    assert_eq!(cursor.peek(), Some('\u{4e16}'));
    cursor.seek(0);
    assert_eq!(cursor.peek(), Some('a'));
    assert_eq!(cursor.bytes(), "a\u{e9}\u{4e16}\u{1F600}b".as_bytes());
}

#[test]
fn cursor_reads_the_edges_of_each_width() {
    for c in ['\0', '\u{7f}', '\u{80}', '\u{7ff}', '\u{800}', '\u{d7ff}', '\u{e000}', '\u{ffff}', '\u{10000}', '\u{10ffff}'] {
        let text = c.to_string();
        let mut cursor = Cursor::new(&text);
        assert_eq!(cursor.peek(), Some(c));
        assert_eq!(cursor.advance(), Some(c));
        assert_eq!(cursor.position(), c.len_utf8());
        assert_eq!(cursor.peek(), None);
    }
}

#[test]
fn a_file_is_parsed_as_its_path_says() {
    let typed = ParseRunner::parse("src/a.ts", "a<b>(c)").unwrap();
    let plain = ParseRunner::parse("src/a.js", "a<b>(c)").unwrap();
    assert!(typed.errors.is_empty() && plain.errors.is_empty());
    assert_ne!(typed, plain);
    assert_eq!(typed, parse_as(Some(SourceType::Ts), "a<b>(c)").unwrap());
    assert_eq!(plain, parse_as(Some(SourceType::Jsx), "a<b>(c)").unwrap());
    assert_eq!(ParseRunner::parse("notes.txt", "a"), Err(ParseRefusal::UnknownExtension));
    assert_eq!(parse_as(None, "a"), Err(ParseRefusal::UnknownExtension));
}

#[test]
fn a_buffer_is_parsed_as_what_it_is_taken_to_be() {
    let buffer = SourceBuffer::new("a<b>(c)", SourceType::Ts);
    assert_eq!(buffer.text(), "a<b>(c)");
    assert_eq!(buffer.source_type(), SourceType::Ts);
    assert_eq!(parse_buffer(&buffer, false), parse_source("a<b>(c)", SourceType::Ts, false));
    let plain = SourceBuffer::new("a<b>(c)", SourceType::Script);
    assert_ne!(parse_buffer(&plain, false), parse_buffer(&buffer, false));
}
