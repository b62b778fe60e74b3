use rpi::event_log::{plan_read, run, take_lines, EventsExit};
use rpi::export::{escape_html, export_file, write_failure};
use rpi::frontmatter::{parse_frontmatter, quote_legacy_top_level_scalars, settle};
use rpi::json::{
    as_string, get, get_string, items_or_whole, member, node_of, parse_json_with_comments,
    string_values, strip_line_comments, JsonNode,
};
use rpi::package_cli::{
    add_package, disable_package, enable_package, list_lines, package_command_project_trusted,
    remove_package, report_saved, run_cli, run_native_update, run_pi_package_update,
    without_offline_flag, CliRequest, Edit, Line, NativePackage, UpdateRequest,
};
use rpi::discovery::{PackageSetting, Settings};
use rpi::packages::PackageResources;
use rpi::paths::FsPath;
use rpi::remote::{judge_outcome, pump_line, read_reply, Pumped, RemoteClient, Reply};
use rpi::text;
use rpi::theme::{
    border_style, color_slot, corner_style, parse_hex_color, read_theme, BorderStyle, Color,
    CornerStyle, COLOR_COUNT,
};
use rpi::windows_command::{append_command_arg, make_command_line, utf16};
use rpi::windows_spawn::{
    append_batch_arg, has_ascii_extension, make_batch_command_line, make_environment_block,
    plan_spawn, resolve_executable, Change, Variable,
};

fn strings(values: &[&str]) -> Vec<String> {
    values.iter().map(|value| (*value).to_string()).collect()
}

fn path(text: &str) -> FsPath {
    FsPath::parse(text)
}

fn is_empty_object(text: &str) -> bool {
    matches!(node_of(text), Ok(JsonNode::Object(members)) if members.is_empty())
}

#[test]
fn no_frontmatter_returns_whole_body_untrimmed() {
    let (fm, body) = parse_frontmatter("First line\nBody\n").unwrap();
    assert!(is_empty_object(&fm));
    assert_eq!(body, "First line\nBody\n");
}

#[test]
fn parses_string_and_bool_fields() {
    let content = "---\nname: example\ndescription: Example skill\ndisable-model-invocation: true\n---\nUse this skill.\n";
    let (fm, body) = parse_frontmatter(content).unwrap();
    assert_eq!(get_string(&fm, "name").as_deref(), Some("example"));
    assert_eq!(
        get_string(&fm, "description").as_deref(),
        Some("Example skill")
    );
    let flag = get(&fm, "disable-model-invocation").unwrap();
    assert!(matches!(node_of(&flag), Ok(JsonNode::Bool(true))));
    assert_eq!(body, "Use this skill.");
}

#[test]
fn empty_value_is_null() {
    let (fm, _) = parse_frontmatter("---\ndescription:\n---\nbody").unwrap();
    assert!(matches!(node_of(&get(&fm, "description").unwrap()), Ok(JsonNode::Null)));
}

#[test]
fn unterminated_flow_sequence_is_parse_error() {
    let content = "---\ndescription: [unterminated\n---\nBody";
    assert!(parse_frontmatter(content).is_err());
}

fn items(text: &str) -> Vec<String> {
    match node_of(text) {
        Ok(JsonNode::Array(items)) => items,
        _ => panic!("not an array: {text}"),
    }
}

#[test]
fn flow_array_parses() {
    let (fm, _) = parse_frontmatter("---\ntags: [a, b, c]\n---\nx").unwrap();
    let arr = items(&get(&fm, "tags").unwrap());
    assert_eq!(arr.len(), 3);
    assert_eq!(as_string(&arr[0]).as_deref(), Some("a"));
}

#[test]
fn block_sequence_parses() {
    let content = "---\nname: flowchart\ndescription: Draw diagrams\ntriggers:\n  - \"流程图\"\n  - \"原理演示\"\n---\nUse this skill.";
    let (fm, body) = parse_frontmatter(content).unwrap();
    let triggers = items(&get(&fm, "triggers").unwrap());

    assert_eq!(triggers.len(), 2);
    assert_eq!(as_string(&triggers[0]).as_deref(), Some("流程图"));
    assert_eq!(as_string(&triggers[1]).as_deref(), Some("原理演示"));
    assert_eq!(body, "Use this skill.");
}

#[test]
fn nested_mapping_and_block_scalar_parse() {
    let content = "---\nmetadata:\n  owner: animation\n  enabled: true\ndescription: |\n  First line\n  Second line\n---\nBody";
    let (fm, _) = parse_frontmatter(content).unwrap();

    let metadata = get(&fm, "metadata").unwrap();
    assert_eq!(get_string(&metadata, "owner").as_deref(), Some("animation"));
    assert!(matches!(node_of(&get(&metadata, "enabled").unwrap()), Ok(JsonNode::Bool(true))));
    assert_eq!(
        get_string(&fm, "description").as_deref(),
        Some("First line\nSecond line")
    );
}

#[test]
fn legacy_unquoted_colon_in_top_level_description_remains_compatible() {
    let content =
        "---\nname: art\ndescription: Animation pipeline: sprites, video, and FX.\n---\nBody";
    let (fm, _) = parse_frontmatter(content).unwrap();

    assert_eq!(
        get_string(&fm, "description").as_deref(),
        Some("Animation pipeline: sprites, video, and FX.")
    );
    assert_eq!(
        quote_legacy_top_level_scalars("a: b: \"c\"\n  x: y: z\n# d: e: f\n"),
        "a: \"b: \\\"c\\\"\"\n  x: y: z\n# d: e: f"
    );
}

#[test]
fn missing_closing_fence_treated_as_no_frontmatter() {
    let (fm, body) = parse_frontmatter("---\nname: x\nbody still here").unwrap();
    assert!(is_empty_object(&fm));
    assert!(body.contains("name: x"));
}

#[test]
fn line_ends_are_made_equal_before_the_fences_are_sought() {
    let (fm, body) = parse_frontmatter("---\r\nname: x\r\n---\r\n body \r\n").unwrap();
    assert_eq!(get_string(&fm, "name").as_deref(), Some("x"));
    assert_eq!(body, "body");
    let (fm, body) = parse_frontmatter("---\n---\nbody").unwrap();
    assert!(is_empty_object(&fm));
    assert_eq!(body, "body");
}

#[test]
fn a_second_reading_settles_a_failed_first() {
    let first = || Err("first".to_string());
    assert_eq!(settle(first(), None), Err("first".to_string()));
    assert_eq!(settle(first(), Some(Err("second".to_string()))), Err("first".to_string()));
    assert_eq!(settle(first(), Some(Ok("{}".to_string()))), Ok("{}".to_string()));
    assert_eq!(settle(Ok("1".to_string()), None), Ok("1".to_string()));
}

#[test]
fn exports_jsonl_as_html_with_escaped_content() {
    let read = Ok("{\"text\":\"<hello>\"}\n".to_string());
    let html = export_file(&path("session.jsonl"), read, &path("session.html")).unwrap();
    assert!(html.contains("&lt;hello&gt;"));
    assert!(!html.contains("<hello>"));
    assert!(html.contains("<pre>{\n  &quot;text&quot;: &quot;&lt;hello&gt;&quot;\n}</pre>\n"));
}

#[test]
fn jsonl_destination_preserves_source() {
    let source = "not-json-but-valid-session-line\n";
    for output in ["copy.jsonl", "copy.JSONL"] {
        let written =
            export_file(&path("session.jsonl"), Ok(source.to_string()), &path(output)).unwrap();
        assert_eq!(written, source);
    }
    let shown = export_file(&path("in"), Ok("a\n \nb'c\n".to_string()), &path(".jsonl")).unwrap();
    assert!(shown.contains("<h1>Pi session</h1><pre>a</pre>\n<pre>b&#39;c</pre>\n</body></html>"));
}

#[test]
fn export_failures_name_their_file() {
    assert_eq!(
        export_file(&path("/s/in.jsonl"), Err("gone".to_string()), &path("out.html")),
        Err("could not read session /s/in.jsonl: gone".to_string())
    );
    assert_eq!(write_failure(&path("/s/out"), "full"), "could not write export /s/out: full");
    assert_eq!(escape_html("&<>\"'&amp;"), "&amp;&lt;&gt;&quot;&#39;&amp;amp;");
}

#[test]
fn help_and_unknown_are_handled() {
    assert!(matches!(run(&[], Some("/log")).exit, EventsExit::Success));
    assert!(matches!(run(&strings(&["--help"]), Some("/log")).exit, EventsExit::Success));
    let unknown = run(&strings(&["bogus"]), Some("/log"));
    assert!(matches!(unknown.exit, EventsExit::Usage));
    assert_eq!(unknown.lines[0].text, "error: unknown `events` subcommand `bogus`");
    assert!(unknown.lines[0].error);
}

#[test]
fn path_command_returns_a_valid_code() {
    let known = run(&strings(&["path"]), Some("/log"));
    assert!(matches!(known.exit, EventsExit::Success));
    assert_eq!(known.lines[0].text, "/log");
    assert!(!known.lines[0].error);
    assert!(matches!(run(&strings(&["path"]), None).exit, EventsExit::Runtime));
    assert!(run(&strings(&["tail"]), Some("/log")).follow);
    assert!(!run(&strings(&["tail"]), None).follow);
}

#[test]
fn the_journal_is_printed_by_whole_lines() {
    assert_eq!(plan_read(0, 10), (0, true));
    assert_eq!(plan_read(10, 10), (10, false));
    assert_eq!(plan_read(10, 4), (0, true));
    assert_eq!(plan_read(10, 0), (0, false));
    assert_eq!(take_lines(5, "é\nb\nc"), ("é\nb\n".to_string(), 10));
    assert_eq!(take_lines(5, "abc"), (String::new(), 5));
}

#[test]
fn requests_are_numbered_lines() {
    let mut client = RemoteClient::connect();
    let request = client.call("start_session", "{\"a\":1}");
    assert_eq!(request.id, 1);
    assert_eq!(
        request.line,
        "{\"jsonrpc\":\"2.0\",\"id\":1,\"method\":\"start_session\",\"params\":{\"a\":1}}\n"
    );
    assert!(client.authenticate("").is_none());
    let login = client.authenticate("a\"b").unwrap();
    assert_eq!(login.id, 2);
    assert!(login.line.contains("\"params\":{\"token\":\"a\\\"b\"}"), "{}", login.line);
    let sent = client.send_command("s-1", "{\"type\":\"abort\"}");
    assert!(sent.contains("\"id\":3"), "{sent}");
    assert!(
        sent.contains("\"params\":{\"sessionId\":\"s-1\",\"command\":{\"type\":\"abort\"}}"),
        "{sent}"
    );
    let stop = client.stop_session("s-1");
    assert!(stop.contains("\"method\":\"stop_session\""), "{stop}");
    assert_eq!(client.next_id, 5);
    assert!(client.can_wait().is_ok());
    assert!(client.start_event_pump());
    assert!(!client.start_event_pump());
    assert_eq!(
        client.can_wait(),
        Err("client already switched to streaming mode".to_string())
    );
}

#[test]
fn replies_are_matched_by_number() {
    assert!(matches!(
        read_reply(" {\"id\":7,\"result\":{\"x\":1}}\n", 7),
        Reply::Done(result) if get(&result, "x").is_some()
    ));
    assert!(matches!(read_reply("{\"id\":7}", 7), Reply::Done(result) if result == "null"));
    assert!(matches!(read_reply("{\"id\":8,\"result\":1}", 7), Reply::Ignored));
    assert!(matches!(read_reply("{\"id\":7.0,\"result\":1}", 7), Reply::Ignored));
    assert!(matches!(read_reply("{\"id\":7,\"method\":\"event\"}", 7), Reply::Ignored));
    assert!(matches!(read_reply("not json", 7), Reply::Ignored));
    assert!(matches!(read_reply("  \n", 7), Reply::Ignored));
    assert!(matches!(
        read_reply("{\"id\":7,\"error\":{\"message\":\"no\"}}", 7),
        Reply::Failed(message) if message == "no"
    ));
    assert!(matches!(
        read_reply("{\"id\":7,\"error\":{\"code\":3}}", 7),
        Reply::Failed(message) if message == "{\"code\":3}"
    ));
    assert!(matches!(judge_outcome(None, None), Reply::Done(result) if result == "null"));
}

#[test]
fn events_are_taken_for_one_subscription() {
    let event = |subscription: &str, event: &str| {
        format!(
            "{{\"method\":\"event\",\"params\":{{\"subscriptionId\":{subscription},\"event\":{event}}}}}\n"
        )
    };
    assert!(matches!(
        pump_line(&event("7", "{\"type\":\"ready\"}"), 7),
        Pumped::Event(taken) if get_string(&taken, "type").as_deref() == Some("ready")
    ));
    let lines = [event("7", "{\"type\":\"session_end\"}"), event("7", "{\"type\":\"ready\"}")];
    let mut streamed = Vec::new();
    for line in &lines {
        if let Pumped::Event(taken) = pump_line(line, 7) {
            streamed.push(get_string(&taken, "type").unwrap());
        }
    }
    assert_eq!(streamed, strings(&["session_end", "ready"]));
    assert!(matches!(pump_line(&event("8", "1"), 7), Pumped::Skipped));
    assert!(matches!(pump_line(&event("\"7\"", "1"), 7), Pumped::Skipped));
    assert!(matches!(pump_line("{\"id\":1,\"result\":1}", 7), Pumped::Skipped));
    assert!(matches!(pump_line("", 7), Pumped::Skipped));
    assert!(matches!(
        pump_line("{\"method\":\"event\",\"params\":{\"subscriptionId\":7}}", 7),
        Pumped::Event(taken) if taken == "null"
    ));
}

#[test]
fn documents_are_read_member_by_member() {
    let text = "{\"a\":[1,\"x\",null],\"b\":\"y\",\"b\":\"z\"}";
    assert_eq!(get_string(text, "b").as_deref(), Some("z"));
    assert_eq!(get(text, "c"), None);
    let node = node_of(text).ok().unwrap();
    assert_eq!(string_values(&member(&node, "a").unwrap()), strings(&["x"]));
    assert_eq!(items_or_whole("[1,2]"), strings(&["1", "2"]));
    assert_eq!(items_or_whole("\"one\""), strings(&["\"one\""]));
    assert!(matches!(node_of("18446744073709551615"), Ok(JsonNode::Number(Some(u64::MAX)))));
    assert!(matches!(node_of("-1"), Ok(JsonNode::Number(None))));
    assert!(node_of("{").is_err());
    assert_eq!(strip_line_comments("a // b\n\"//c\" // d"), "a \n\"//c\" ");
    let document = parse_json_with_comments("{\"u\": \"http://x\" // y\n}").unwrap();
    assert_eq!(get_string(&document, "u").as_deref(), Some("http://x"));
}

#[test]
fn themes_override_what_they_name() {
    assert_eq!(parse_hex_color("#0A0b0c"), Some(Color::Rgb(10, 11, 12)));
    assert_eq!(parse_hex_color("#fff"), None);
    assert_eq!(parse_hex_color("red"), None);
    let theme = read_theme(
        r##"{"colors":{"accent":"#010203","bg":[4,5,6],"text":300,"dim":[1,2,256],"info":{"r":7,"g":8,"b":9}},"borderStyle":"thick","cornerStyle":"round"}"##,
    );
    assert_eq!(theme.colors.len(), 3);
    assert_eq!(theme.colors[0].field, "accent");
    assert_eq!(theme.colors[0].color, Color::Rgb(1, 2, 3));
    assert_eq!(theme.colors[1].field, "info");
    assert_eq!(theme.colors[1].color, Color::Rgb(7, 8, 9));
    assert_eq!(theme.colors[2].field, "background");
    assert_eq!(theme.colors[2].color, Color::Rgb(4, 5, 6));
    assert_eq!(theme.border_style, Some(BorderStyle::Thick));
    assert_eq!(border_style("none"), BorderStyle::Borderless);
    assert_eq!(border_style("anything"), BorderStyle::Rounded);
    assert_eq!(corner_style("sharp"), CornerStyle::Sharp);
    assert_eq!(color_slot(COLOR_COUNT - 1).1, "toolDiffContext");
}

fn decoded(units: &[u16]) -> String {
    String::from_utf16(units).unwrap()
}

fn argument(arg: &str) -> String {
    let mut line = Vec::new();
    append_command_arg(&mut line, arg).unwrap();
    decoded(&line)
}

#[test]
fn command_lines_quote_what_they_must() {
    assert_eq!(argument(""), "\"\"");
    assert_eq!(argument("plain"), "plain");
    assert_eq!(argument("a b"), "\"a b\"");
    assert_eq!(argument("a\\\"b"), "a\\\\\\\"b");
    assert_eq!(argument("a b\\"), "\"a b\\\\\"");
    assert_eq!(argument("a\\b"), "a\\b");
    assert_eq!(
        decoded(&make_command_line("node", &strings(&["a b", "雪狐"])).unwrap()),
        "\"node\" \"a b\" 雪狐"
    );
    assert_eq!(
        make_command_line("no\"de", &[]),
        Err("program paths may not contain quotes".to_string())
    );
    assert_eq!(
        make_command_line("a\0", &[]),
        Err("nul byte found in provided data".to_string())
    );
    assert_eq!(utf16("a𝄞"), "a𝄞".encode_utf16().collect::<Vec<u16>>());
}

#[test]
fn batch_arguments_cannot_leave_their_quotes() {
    let line = make_batch_command_line(
        "C:\\n.cmd",
        &strings(&["", "contains spaces", "&|<>^()%PATH%!", "'single quotes'", "snow-雪-fox-狐"]),
    )
    .unwrap();
    assert_eq!(
        decoded(&line),
        "cmd.exe /e:ON /v:OFF /d /c \"\"C:\\n.cmd\" \"\" \"contains spaces\" \
         \"&|<>^()%%cd:~,%PATH%%cd:~,%!\" \"'single quotes'\" snow-雪-fox-狐\""
    );
    for unsafe_arg in ["\"double quotes\"", "trailing\\", "two\nlines"] {
        let error = make_batch_command_line("n.cmd", &strings(&[unsafe_arg])).err().unwrap();
        assert!(error.contains("cannot be represented safely and exactly"), "{error}");
    }
    for script in ["n\".cmd", "dir\\"] {
        assert!(make_batch_command_line(script, &[]).is_err());
    }
    let mut plain = Vec::new();
    append_batch_arg(&mut plain, "back\\slash").unwrap();
    assert_eq!(decoded(&plain), "back\\slash");
}

fn variable(name: &str, value: &str) -> Variable {
    Variable { name: name.to_string(), value: value.to_string() }
}

fn change(name: &str, value: Option<&str>) -> Change {
    Change { name: name.to_string(), value: value.map(|v| v.to_string()) }
}

#[test]
fn environments_are_sorted_and_changed_without_case() {
    let inherited = vec![variable("zeta", "1"), variable("Path", "2"), variable("ärger", "3")];
    let changes = vec![change("PATH", Some("4")), change("ZETA", None), change("b", Some("5"))];
    let block = make_environment_block(&inherited, &changes).unwrap();
    assert_eq!(decoded(&block), "b=5\0PATH=4\0ärger=3\0\0");
    assert_eq!(make_environment_block(&vec![], &vec![]).unwrap(), vec![0, 0]);
    assert_eq!(
        make_environment_block(&vec![], &vec![change("a=b", Some("1"))]),
        Err("environment variable name must be non-empty and contain no equals sign".to_string())
    );
    assert_eq!(
        make_environment_block(&vec![variable("", "1")], &vec![]),
        Err("inherited environment contained an invalid variable name".to_string())
    );
    assert_eq!(
        decoded(&make_environment_block(&vec![variable("=C:", "C:\\x")], &vec![]).unwrap()),
        "=C:=C:\\x\0\0"
    );
    assert_eq!(
        make_environment_block(&vec![variable("a", "x\0y")], &vec![]),
        Err("nul byte found in environment variable value".to_string())
    );
}

#[test]
fn programs_are_found_where_windows_looks() {
    let directories = strings(&["C:\\app", "C:\\bin"]);
    let files = strings(&["C:\\bin\\node.exe", "C:\\x\\tool.exe"]);
    let find = |program: &str| resolve_executable(program, &directories, &files);
    assert_eq!(find("node"), Ok("C:\\bin\\node.exe".to_string()));
    assert_eq!(find("npm.cmd"), Err("program not found".to_string()));
    assert_eq!(find("C:\\x\\tool"), Ok("C:\\x\\tool.exe".to_string()));
    assert_eq!(find("C:\\x\\other"), Ok("C:\\x\\other".to_string()));
    assert_eq!(find(".\\node"), Ok(".\\node".to_string()));
    for unnamed in ["", "C:\\", "..", "\\\\server\\share\\"] {
        assert_eq!(find(unnamed), Err("program path has no file name".to_string()), "{unnamed}");
    }
    assert_eq!(find("a\0b"), Err("nul byte found in provided data".to_string()));
    let on_drive = strings(&["C:npm.exe"]);
    assert_eq!(
        resolve_executable("npm", &strings(&["C:"]), &on_drive),
        Ok("C:npm.exe".to_string())
    );
    let verbatim = strings(&["\\\\?\\C:\\bin\\npm.exe"]);
    assert_eq!(
        resolve_executable("npm", &strings(&["\\\\?\\C:\\bin\\\\"]), &verbatim),
        Ok("\\\\?\\C:\\bin\\npm.exe".to_string())
    );
    assert!(has_ascii_extension("C:\\x\\npm.CMD", "cmd"));
    assert!(has_ascii_extension("C:\\x\\npm.cmd\\", "cmd"));
    assert!(has_ascii_extension("C:/x/npm.cmd/./", "cmd"));
    assert!(!has_ascii_extension("C:\\x.cmd\\npm", "cmd"));
    assert!(!has_ascii_extension("C:\\.cmd", "cmd"));
}

#[test]
fn a_script_is_one_with_a_separator_behind_it() {
    let none: Vec<Variable> = Vec::new();
    let same: Vec<Change> = Vec::new();
    let plan = plan_spawn(
        "C:/npm.cmd/",
        "C:/npm.cmd/",
        &strings(&["a\"b"]),
        Ok("C:".to_string()),
        "C:\\w",
        &none,
        &same,
    );
    assert!(plan.is_err());
    let plan =
        plan_spawn("C:/npm.cmd/", "C:/npm.cmd/", &[], Ok("C:".to_string()), "C:\\w", &none, &same);
    assert_eq!(plan.ok().map(|plan| decoded(&plan.application)).as_deref(), Some("C:cmd.exe\0"));
}

#[test]
fn scripts_are_started_through_the_command_interpreter() {
    let none: Vec<Variable> = Vec::new();
    let same: Vec<Change> = Vec::new();
    let system = || Ok("C:\\Windows\\System32".to_string());
    let script =
        plan_spawn("npm", "C:\\npm.cmd", &strings(&["-v"]), system(), "C:\\w", &none, &same)
            .ok()
            .unwrap();
    assert_eq!(decoded(&script.application), "C:\\Windows\\System32\\cmd.exe\0");
    assert_eq!(
        decoded(&script.command_line),
        "cmd.exe /e:ON /v:OFF /d /c \"\"C:\\npm.cmd\" -v\"\0"
    );
    assert_eq!(decoded(&script.cwd), "C:\\w\0");
    assert_eq!(script.environment, vec![0, 0]);
    let program =
        plan_spawn("node", "C:\\node.exe", &strings(&["-v"]), Err("x".to_string()), "C:\\w", &none, &same)
            .ok()
            .unwrap();
    assert_eq!(decoded(&program.application), "C:\\node.exe\0");
    assert_eq!(decoded(&program.command_line), "\"node\" -v\0");
    assert_eq!(
        plan_spawn("npm", "C:\\npm.cmd", &[], Err("x".to_string()), "C:\\w", &none, &same)
            .err()
            .as_deref(),
        Some("x")
    );
}

#[test]
fn package_command_trust_overrides_are_explicit_and_conflict_safe() {
    let trusted = |args: &[&str]| package_command_project_trusted(&strings(args), Ok(None));
    assert!(trusted(&["--approve"]).unwrap());
    assert!(!trusted(&["--no-approve"]).unwrap());
    assert!(trusted(&["--approve", "--no-approve"]).is_err());
    assert!(trusted(&["--unexpected"]).is_err());
    assert_eq!(package_command_project_trusted(&[], Ok(Some(false))), Ok(false));
    assert_eq!(package_command_project_trusted(&[], Ok(Some(true))), Ok(true));
    assert!(package_command_project_trusted(&[], Err("unreadable".to_string())).is_err());
}

#[test]
fn top_level_update_help_is_handled_by_package_updater() {
    assert!(matches!(
        run_cli(&strings(&["update", "--help"]), Ok(None)),
        CliRequest::UpdateHelp
    ));
}

#[test]
fn package_commands_are_told_apart() {
    assert!(matches!(
        run_cli(&strings(&["list", "--json", "--approve"]), Ok(None)),
        CliRequest::List { json: true, trusted: true }
    ));
    assert!(matches!(
        run_cli(&strings(&["add", "npm:demo"]), Ok(None)),
        CliRequest::Add { spec } if spec == "npm:demo"
    ));
    assert!(matches!(
        run_cli(&strings(&["remove", "npm:demo"]), Ok(None)),
        CliRequest::Remove { spec } if spec == "npm:demo"
    ));
    assert!(matches!(
        run_cli(&strings(&["update", "--offline", "--no-approve"]), Ok(None)),
        CliRequest::Update { trusted: false }
    ));
    assert!(matches!(run_cli(&strings(&["add"]), Ok(None)), CliRequest::Refuse { .. }));
    assert!(matches!(run_cli(&strings(&["bogus"]), Ok(None)), CliRequest::Refuse { .. }));
    assert_eq!(without_offline_flag(&strings(&["a", "--offline", "b"])), strings(&["a", "b"]));
    assert!(matches!(run_native_update(&strings(&["--help"])), UpdateRequest::Help));
    assert!(matches!(
        run_pi_package_update(&strings(&["--no-approve"]), Ok(None)),
        UpdateRequest::Run { trusted: false }
    ));
    assert!(matches!(
        run_pi_package_update(&strings(&["--bogus"]), Ok(None)),
        UpdateRequest::Refuse { .. }
    ));
}

fn sources(settings: &Settings) -> Vec<String> {
    match &settings.packages {
        Some(entries) => entries.iter().map(|entry| entry.source().to_string()).collect(),
        None => Vec::new(),
    }
}

#[test]
fn packages_are_enabled_once_and_disabled_again() {
    let mut settings = Settings { packages: None, npm_command: None };
    assert!(enable_package(&mut settings, "npm:demo"));
    assert!(!enable_package(&mut settings, "npm:demo"));
    assert!(enable_package(&mut settings, "npm:other"));
    assert_eq!(sources(&settings), strings(&["npm:demo", "npm:other"]));
    assert!(disable_package(&mut settings, "npm:demo"));
    assert!(!disable_package(&mut settings, "npm:demo"));
    assert_eq!(sources(&settings), strings(&["npm:other"]));
    assert!(matches!(
        settings.packages.as_ref().unwrap()[0],
        PackageSetting::Source(_)
    ));
}

fn user_settings(specs: &[&str]) -> Result<Settings, String> {
    let packages =
        specs.iter().map(|spec| PackageSetting::Source((*spec).to_string())).collect();
    Ok(Settings { packages: Some(packages), npm_command: Some(strings(&["pnpm"])) })
}

/// The line and the exit code of an edit that writes nothing.
fn done(edit: Edit) -> (bool, String, i32) {
    match edit {
        Edit::Done { line, code } => (line.error, line.text, code),
        Edit::Save { .. } => panic!("nothing was to be written"),
    }
}

/// The settings to write and the line to print after.
fn saves(edit: Edit) -> (Settings, Line) {
    match edit {
        Edit::Save { settings, line } => (settings, line),
        Edit::Done { line, .. } => panic!("{}", line.text),
    }
}

#[test]
fn adding_a_package_needs_it_and_readable_settings() {
    let problem = Some("no such package".to_string());
    assert_eq!(
        done(add_package("demo", &problem, user_settings(&[]))),
        (true, "error: no such package".to_string(), 1)
    );
    assert_eq!(
        done(add_package("demo", &None, Err("broken".to_string()))),
        (
            true,
            "error: refusing to change unreadable package settings: broken".to_string(),
            1
        )
    );
    assert_eq!(
        done(add_package("demo", &None, user_settings(&["demo"]))),
        (false, "Pi package already enabled: demo".to_string(), 0)
    );
    let (settings, line) = saves(add_package("demo", &None, user_settings(&["other"])));
    assert_eq!(sources(&settings), strings(&["other", "demo"]));
    assert_eq!(settings.npm_command, Some(strings(&["pnpm"])));
    assert_eq!((line.error, line.text.as_str()), (false, "enabled Pi package demo"));
}

#[test]
fn removing_a_package_leaves_the_others() {
    assert_eq!(
        done(remove_package("demo", Err("broken".to_string()))),
        (
            true,
            "error: refusing to change unreadable package settings: broken".to_string(),
            1
        )
    );
    assert_eq!(
        done(remove_package("demo", user_settings(&["other"]))),
        (false, "Pi package is not enabled: demo".to_string(), 0)
    );
    let (settings, line) = saves(remove_package("demo", user_settings(&["demo", "other"])));
    assert_eq!(sources(&settings), strings(&["other"]));
    assert_eq!((line.error, line.text.as_str()), (false, "disabled Pi package demo"));
    let (settings, line) = saves(remove_package("demo", user_settings(&["demo"])));
    assert!(settings.packages.is_none());
    let (line, code) = report_saved(line, &Some("disk full".to_string()));
    assert_eq!(
        (line.error, line.text.as_str(), code),
        (true, "error: could not save package settings: disk full", 1)
    );
    let (line, code) = report_saved(line, &None);
    assert_eq!((line.error, code), (true, 0));
}

#[test]
fn listed_packages_name_their_source() {
    let empty = PackageResources { packages: Vec::new(), diagnostics: Vec::new() };
    let native = [NativePackage {
        name: "tool".to_string(),
        version: "1.0.0".to_string(),
        source: None,
    }];
    let lines = list_lines(&empty, &native);
    assert!(lines.iter().any(|line| line.text.contains("crates.io")));
    assert!(!list_lines(&empty, &[]).is_empty());
}

#[test]
fn characters_are_classed_as_std_classes_them() {
    for code in 0..=0x10ffffu32 {
        if let Some(c) = char::from_u32(code) {
            assert_eq!(text::is_whitespace(c), c.is_whitespace(), "U+{code:04X}");
            assert_eq!(text::is_control(c), c.is_control(), "U+{code:04X}");
        }
    }
}
