use discord_urls_extractor::cli::Args;
use discord_urls_extractor::collect::RetVal;
use discord_urls_extractor::discord::{
    embed_description_of, get_component_urls, get_embed_urls, gateway_parse, messages_from_json,
    try_gateway_parse, try_get_component_urls, try_get_embed_urls, try_messages_from_json,
    API_VERSION_BITS, HTTP_OK_BITS,
};
use discord_urls_extractor::json::{parse_json, Json};
use discord_urls_extractor::modes::{
    dce, dce_text, discard2_jsonl, discard2_line, discard2_text_line, import_attachments,
    merge_ignores, mode_check, parse_file_type, plain_text, sql, sql_texts, ExtractError, FileType,
    User,
};
use discord_urls_extractor::pattern::{endpoint_pattern, url_pattern, Pattern};
use discord_urls_extractor::text::{contains_string, format_lines, parse_ignores};
fn parse(text: &str) -> Json {
    parse_json(text).unwrap()
}

fn url_re() -> Pattern {
    Pattern::new(url_pattern()).unwrap()
}

fn endpoint_re() -> Pattern {
    Pattern::new(endpoint_pattern()).unwrap()
}

fn strings(items: &[&str]) -> Vec<String> {
    items.iter().map(|s| s.to_string()).collect()
}

fn args(guild_id: Option<&str>, use_websockets: bool, file_type: &str) -> Args {
    Args {
        guild_id: guild_id.map(|g| g.to_string()),
        use_websockets,
        file: std::path::PathBuf::from("scrape"),
        file_type: file_type.to_string(),
    }
}

#[test]
fn number_bits_are_those_of_200_and_9() {
    assert_eq!(HTTP_OK_BITS, 200.0f64.to_bits());
    assert_eq!(API_VERSION_BITS, 9.0f64.to_bits());
}

#[test]
fn url_pattern_finds_links_without_trailing_punctuation() {
    let re = url_re();
    assert_eq!(
        re.find_all("see https://example.com/a. and (http://x.org/b) or <https://y.net/c>"),
        strings(&["https://example.com/a", "http://x.org/b", "https://y.net/c"])
    );
    assert_eq!(re.find_all("no links here"), Vec::<String>::new());
}

#[test]
fn invalid_pattern_is_refused() {
    assert!(Pattern::new("foo(bar").is_err());
}

#[test]
fn endpoint_pattern_matches_message_listing() {
    let re = endpoint_re();
    assert!(re.is_match("/api/v9/channels/12345/messages?limit=50"));
    assert!(!re.is_match("/api/v9/guilds/12345"));
    assert!(!re.is_match("x/api/v9/channels/12345/messages"));
}

const EMBED: &str = r#"{
    "title": "Title https://t.example/one",
    "description": "Desc https://d.example/two.",
    "footer": {"text": "Foot https://f.example/three", "icon_url": "https://cdn/footer.png"},
    "thumbnail": {"url": "https://cdn/thumb.png"},
    "url": "https://embed.example/",
    "video": {"url": "https://cdn/video.mp4", "proxy_url": "https://proxy/video.mp4"},
    "author": {"url": null, "icon_url": "https://cdn/author.png"},
    "provider": {"url": "https://provider.example"},
    "image": {"url": "https://cdn/image.png"}
}"#;

#[test]
fn embed_urls_in_order() {
    let msg = parse(&format!("{{\"embeds\": [{}]}}", EMBED));
    let got = get_embed_urls(&msg, &url_re());
    assert_eq!(
        got,
        strings(&[
            "https://cdn/footer.png",
            "https://cdn/thumb.png",
            "https://cdn/video.mp4",
            "https://cdn/author.png",
            "https://provider.example",
            "https://t.example/one",
            "https://d.example/two",
            "https://f.example/three",
            "https://cdn/image.png",
            "https://embed.example/",
        ])
    );
}

#[test]
fn embed_video_follows_the_embed_keys() {
    let msg = parse(r#"{"embeds": [{"url": "https://e.example", "video": {"url": "https://cdn/v.mp4", "proxy_url": "https://proxy/v.mp4"}}]}"#);
    assert_eq!(get_embed_urls(&msg, &url_re()), strings(&["https://cdn/v.mp4", "https://e.example"]));
    let msg = parse(r#"{"embeds": [{"proxy_url": "https://p.example", "video": {"url": "https://cdn/v.mp4", "proxy_url": "https://proxy/v.mp4"}}]}"#);
    assert_eq!(get_embed_urls(&msg, &url_re()), strings(&["https://proxy/v.mp4"]));
    let msg = parse(r#"{"embeds": [{"video": {"url": "https://cdn/v.mp4"}}]}"#);
    assert_eq!(get_embed_urls(&msg, &url_re()), Vec::<String>::new());
    let msg = parse(r#"{"embeds": [{"url": "https://e.example", "video": {"width": 3}}]}"#);
    assert!(try_get_embed_urls(&msg, &url_re()).is_none());
}

#[test]
fn embeds_must_be_there() {
    assert!(try_get_embed_urls(&parse(r#"{"content": "x"}"#), &url_re()).is_none());
    assert!(try_get_embed_urls(&parse(r#"{"embeds": [{"title": 5}]}"#), &url_re()).is_none());
    assert!(try_get_embed_urls(&parse(r#"{"embeds": [{"footer": {"icon_url": "x"}}]}"#), &url_re()).is_none());
    assert_eq!(try_get_embed_urls(&parse(r#"{"embeds": []}"#), &url_re()), Some(Vec::new()));
    assert_eq!(get_embed_urls(&parse(r#"{"embeds": []}"#), &url_re()), Vec::<String>::new());
}

#[test]
fn component_urls_row_by_row() {
    let msg = parse(
        r#"{"components": [
            {"components": [{"url": "https://a.example"}, {"label": "no url"}]},
            {"components": [{"url": "https://b.example"}]}
        ]}"#,
    );
    assert_eq!(get_component_urls(&msg), strings(&["https://a.example", "https://b.example"]));
    assert!(try_get_component_urls(&parse(r#"{"components": [{"x": 1}]}"#)).is_none());
    assert!(try_get_component_urls(&parse(r#"{"content": "x"}"#)).is_none());
}

const READY: &str = r#"{
    "t": "READY", "s": 1, "op": 0,
    "d": {"v": 9, "guilds": [
        {"id": "42", "icon": "ic",
         "roles": [{"id": "r1", "icon": "ri"}, {"id": "r2", "icon": null}, {"id": "r3"}],
         "emojis": [{"id": "e1", "animated": true}, {"id": "e2"}]},
        {"id": "7", "icon": "other", "roles": [], "emojis": []}
    ]}
}"#;

#[test]
fn gateway_ready_yields_guild_assets() {
    let got = gateway_parse(parse(READY), "42".to_string());
    assert_eq!(
        got,
        strings(&[
            "https://cdn.discordapp.com/icons/42/ic.webp?size=4096&quality=lossless",
            "https://cdn.discordapp.com/icons/42/ic.gif?size=4096&quality=lossless",
            "https://cdn.discordapp.com/role-icons/r1/ri.webp?size=4096&quality=lossless",
            "https://cdn.discordapp.com/emojis/e1.gif?size=4096&quality=lossless",
            "https://cdn.discordapp.com/emojis/e2.webp?size=4096&quality=lossless",
        ])
    );
    assert_eq!(gateway_parse(parse(READY), "9".to_string()), Vec::<String>::new());
}

#[test]
fn gateway_other_events_yield_nothing() {
    let re = r#"{"t": "MESSAGE_CREATE", "s": 2, "d": {}}"#;
    assert_eq!(try_gateway_parse(&parse(re), "42"), Some(Vec::new()));
    assert_eq!(try_gateway_parse(&parse(r#"{"t": null, "s": null, "op": 11}"#), "42"), Some(Vec::new()));
    assert_eq!(try_gateway_parse(&parse(r#"{"op": 1}"#), "42"), Some(Vec::new()));
    assert_eq!(try_gateway_parse(&parse(r#"{"t": "READY", "s": null}"#), "42"), Some(Vec::new()));
}

#[test]
fn gateway_unsupported_version_is_refused() {
    let ev = r#"{"t": "READY", "s": 1, "d": {"v": 10, "guilds": []}}"#;
    assert_eq!(try_gateway_parse(&parse(ev), "42"), None);
    assert_eq!(try_gateway_parse(&parse("[1]"), "42"), None);
}

#[test]
fn messages_only_from_successful_listing() {
    let endpoint = endpoint_re();
    let ok = parse(
        r#"{"type": "http", "request": {"path": "/api/v9/channels/1/messages", "method": "GET"},
            "response": {"status_code": 200, "data": [{"content": "a"}, {"content": "b"}]}}"#,
    );
    assert!(matches!(messages_from_json(&ok, &endpoint), Some(Json::Array(ms)) if ms.len() == 2));
    assert!(matches!(try_messages_from_json(&ok, &endpoint), Some(Some(Json::Array(ms))) if ms.len() == 2));
    let not_array = parse(
        r#"{"type": "http", "request": {"path": "/api/v9/channels/1/messages", "method": "GET"},
            "response": {"status_code": 200, "data": {"message": "x"}}}"#,
    );
    assert!(matches!(messages_from_json(&not_array, &endpoint), Some(Json::Object(_))));
    let post = parse(
        r#"{"type": "http", "request": {"path": "/api/v9/channels/1/messages", "method": "POST"},
            "response": {"status_code": 200, "data": {}}}"#,
    );
    assert!(messages_from_json(&post, &endpoint).is_none());
    assert!(matches!(try_messages_from_json(&post, &endpoint), Some(None)));
    let failed = parse(
        r#"{"type": "http", "request": {"path": "/api/v9/channels/1/messages", "method": "GET"},
            "response": {"status_code": 404, "data": []}}"#,
    );
    assert!(matches!(try_messages_from_json(&failed, &endpoint), Some(None)));
    assert!(matches!(try_messages_from_json(&parse(r#"{"type": "ws"}"#), &endpoint), Some(None)));
    let no_status = parse(r#"{"type": "http", "request": {"path": "/", "method": "GET"}, "response": {}}"#);
    assert!(try_messages_from_json(&no_status, &endpoint).is_none());
    let no_data = parse(
        r#"{"type": "http", "request": {"path": "/api/v9/channels/1/messages", "method": "GET"},
            "response": {"status_code": 200}}"#,
    );
    assert!(try_messages_from_json(&no_data, &endpoint).is_none());
}

fn http_line(messages: &str) -> Json {
    parse(&format!(
        r#"{{"type": "http", "request": {{"path": "/api/v9/channels/1/messages", "method": "GET"}},
            "response": {{"status_code": 200, "data": {}}}}}"#,
        messages
    ))
}

const MESSAGES: &str = r#"[
    {"content": "https://a.example https://known.example", "author": {"id": "5", "avatar": "av"},
     "attachments": [{"url": "https://cdn/att"}], "embeds": [], "components": []},
    {"content": "again https://a.example", "author": {"id": "6", "avatar": null},
     "attachments": [], "embeds": [{"url": "https://e.example"}], "components": []}
]"#;

#[test]
fn discard2_extracts_each_url_once() {
    let lines = vec![http_line(MESSAGES), http_line(MESSAGES)];
    let r = discard2_jsonl(
        &lines,
        strings(&["https://known.example"]),
        Vec::new(),
        &url_re(),
        &endpoint_re(),
        &args(None, false, "discard2"),
    )
    .unwrap();
    let expected = strings(&[
        "https://a.example",
        "https://cdn.discordapp.com/avatars/5/av.webp?size=4096",
        "https://cdn/att",
        "https://e.example",
    ]);
    assert_eq!(r.urls, expected);
    let mut known = strings(&["https://known.example"]);
    known.extend(expected);
    assert_eq!(r.ignores, known);
}

#[test]
fn discard2_reads_gateway_with_websockets() {
    let ws = parse(&format!(r#"{{"type": "ws", "direction": "recv", "data": {}}}"#, READY));
    let mut state = RetVal { urls: Vec::new(), ignores: Vec::new() };
    discard2_line(&mut state, &ws, &url_re(), &endpoint_re(), "42", true).unwrap();
    assert_eq!(state.urls.len(), 5);
    let mut quiet = RetVal { urls: Vec::new(), ignores: Vec::new() };
    discard2_line(&mut quiet, &ws, &url_re(), &endpoint_re(), "42", false).unwrap();
    assert!(quiet.urls.is_empty());
}

#[test]
fn discard2_refusals() {
    let r = discard2_jsonl(&Vec::new(), Vec::new(), Vec::new(), &url_re(), &endpoint_re(), &args(None, true, "discard2"));
    assert!(matches!(r, Err(ExtractError::GuildIdRequired)));
    let r = discard2_jsonl(&Vec::new(), Vec::new(), Vec::new(), &url_re(), &endpoint_re(), &args(Some("a"), true, "discard2"));
    assert!(r.is_ok());
    let bad = vec![parse(r#"{"no_type": 1}"#)];
    let r = discard2_jsonl(&bad, Vec::new(), Vec::new(), &url_re(), &endpoint_re(), &args(None, false, "discard2"));
    assert!(matches!(r, Err(ExtractError::Malformed)));
    let mut state = RetVal { urls: strings(&["x"]), ignores: strings(&["x"]) };
    assert_eq!(
        discard2_line(&mut state, &bad[0], &url_re(), &endpoint_re(), "a", false),
        Err(ExtractError::Malformed)
    );
    assert_eq!(state.urls, strings(&["x"]));
    let not_array = parse(
        r#"{"type": "http", "request": {"path": "/api/v9/channels/1/messages", "method": "GET"},
            "response": {"status_code": 200, "data": {"message": "x"}}}"#,
    );
    assert_eq!(
        discard2_line(&mut state, &not_array, &url_re(), &endpoint_re(), "a", false),
        Err(ExtractError::Malformed)
    );
    assert_eq!(
        discard2_text_line(&mut state, "{not json", &url_re(), &endpoint_re(), "a", false),
        Err(ExtractError::BadJson)
    );
    assert_eq!(state.urls, strings(&["x"]));
    assert_eq!(state.ignores, strings(&["x"]));
}

const EXPORT: &str = r#"{
    "guild": {"iconUrl": "https://cdn/guild.png"},
    "messages": [
        {"author": {"avatarUrl": "https://cdn/avatar.png"}, "content": "look https://x.example/y",
         "attachments": [{"url": "https://cdn/file.txt"}],
         "reactions": [{"emoji": {"imageUrl": "https://cdn/emoji.png"}}],
         "embeds": [{"thumbnail": {"url": "https://cdn/t.png"}}]},
        {"author": {"avatarUrl": "https://cdn/avatar.png"}, "content": "",
         "attachments": [], "reactions": [], "embeds": []}
    ]
}"#;

#[test]
fn dce_export_urls_skip_ignored_only() {
    let json = parse(EXPORT);
    let r = dce(&json, strings(&["https://cdn/file.txt"]), Vec::new(), &url_re(), &args(None, false, "dce")).unwrap();
    assert_eq!(
        r.urls,
        strings(&[
            "https://cdn/guild.png",
            "https://cdn/avatar.png",
            "https://x.example/y",
            "https://cdn/emoji.png",
            "https://cdn/t.png",
            "https://cdn/avatar.png",
        ])
    );
    assert_eq!(r.ignores, strings(&["https://cdn/file.txt"]));
}

#[test]
fn dce_refusals() {
    let r = dce_text("{\"guild\": ", Vec::new(), Vec::new(), &url_re(), &args(None, false, "dce"));
    assert!(matches!(r, Err(ExtractError::BadJson)));
    let r = dce_text(EXPORT, Vec::new(), Vec::new(), &url_re(), &args(None, false, "dce")).unwrap();
    assert_eq!(r.urls.len(), 7);
    let r = dce(&parse(r#"{"guild": {}}"#), Vec::new(), Vec::new(), &url_re(), &args(None, false, "dce"));
    assert!(matches!(r, Err(ExtractError::Malformed)));
}

#[test]
fn sql_database_urls() {
    let users = vec![
        User { id: 1234567890123, avatar_id: Some("abc".to_string()) },
        User { id: 7, avatar_id: None },
        User { id: 0, avatar_id: Some("z".to_string()) },
    ];
    let embeds = vec![parse(r#"{"image": {"url": "https://cdn/img.png"}}"#)];
    let r = sql(
        strings(&["https://cdn/a1", "https://cdn/ignored"]),
        &users,
        &strings(&["hello https://m.example/p", "none"]),
        &embeds,
        strings(&["https://cdn/ignored"]),
        Vec::new(),
        &url_re(),
        &args(None, false, "dht"),
    )
    .unwrap();
    assert_eq!(
        r.urls,
        strings(&[
            "https://cdn/a1",
            "https://cdn.discordapp.com/avatars/1234567890123/abc.webp?size=4096",
            "https://cdn.discordapp.com/avatars/0/z.webp?size=4096",
            "https://m.example/p",
            "https://cdn/img.png",
        ])
    );
    let bad = vec![parse("[1]")];
    let r = sql(Vec::new(), &Vec::new(), &Vec::new(), &bad, Vec::new(), Vec::new(), &url_re(), &args(None, false, "dht"));
    assert!(matches!(r, Err(ExtractError::Malformed)));
    let texts = strings(&[r#"{"image": {"url": "https://cdn/img.png"}}"#]);
    let r = sql_texts(Vec::new(), &Vec::new(), &Vec::new(), &texts, Vec::new(), Vec::new(), &url_re(), &args(None, false, "dht")).unwrap();
    assert_eq!(r.urls, strings(&["https://cdn/img.png"]));
    let texts = strings(&[r#"{"image": {"url": "https://cdn/img.png"}}"#, "nope"]);
    let r = sql_texts(Vec::new(), &Vec::new(), &Vec::new(), &texts, Vec::new(), Vec::new(), &url_re(), &args(None, false, "dht"));
    assert!(matches!(r, Err(ExtractError::BadJson)));
}

#[test]
fn plain_text_links() {
    let lines = strings(&["a https://one.example b", "https://two.example, https://one.example"]);
    let r = plain_text(&lines, strings(&["https://two.example"]), Vec::new(), &url_re(), &args(None, false, "plaintext")).unwrap();
    assert_eq!(r.urls, strings(&["https://one.example", "https://one.example"]));
}

#[test]
fn merged_ignores_hold_the_new_urls() {
    let r = merge_ignores(RetVal { urls: strings(&["u1", "u2"]), ignores: strings(&["i1"]) });
    assert_eq!(r.ignores, strings(&["i1", "u1", "u2"]));
    assert_eq!(r.urls, strings(&["u1", "u2"]));
}

#[test]
fn file_types_and_mode_checks() {
    assert_eq!(parse_file_type("dht"), Some(FileType::Dht));
    assert_eq!(parse_file_type("discard2"), Some(FileType::Discard2));
    assert_eq!(parse_file_type("plaintext"), Some(FileType::Plaintext));
    assert_eq!(parse_file_type("dce"), Some(FileType::Dce));
    assert_eq!(parse_file_type("json"), None);
    assert_eq!(mode_check(&FileType::Dce, &args(None, true, "dce")), Err(ExtractError::WebsocketsNeedDiscard2));
    assert_eq!(mode_check(&FileType::Discard2, &args(None, true, "discard2")), Err(ExtractError::GuildIdRequired));
    assert_eq!(mode_check(&FileType::Discard2, &args(Some("a"), true, "discard2")), Ok(()));
    assert_eq!(mode_check(&FileType::Discard2, &args(Some("42"), true, "discard2")), Ok(()));
    assert_eq!(mode_check(&FileType::Dht, &args(None, false, "dht")), Ok(()));
}

#[test]
fn extracted_urls_are_known_to_the_next_run() {
    let json = parse(EXPORT);
    let r = dce(&json, strings(&["https://cdn/file.txt"]), Vec::new(), &url_re(), &args(None, false, "dce")).unwrap();
    let merged = merge_ignores(r);
    let stored = format_lines(&merged.ignores);
    let known = parse_ignores(&stored);
    let again = dce(&json, known, Vec::new(), &url_re(), &args(None, false, "dce")).unwrap();
    assert!(again.urls.is_empty());
}

#[test]
fn object_lookup_and_description() {
    let e = parse(r#"{"title": "T", "description": "D", "footer": {"text": "F"}}"#);
    assert_eq!(embed_description_of(&e), Some("T\nD\nF".to_string()));
    assert_eq!(embed_description_of(&parse(r#"{"description": "only"}"#)), Some("only".to_string()));
    assert_eq!(embed_description_of(&parse(r#"{"footer": "not an object"}"#)), None);
    let dup = Json::Object(vec![
        ("k".to_string(), Json::Str("first".to_string())),
        ("k".to_string(), Json::Str("second".to_string())),
    ]);
    assert!(matches!(dup.get("k"), Some(Json::Str(s)) if s == "first"));
    assert!(dup.get("missing").is_none());
    assert!(!Json::Null.contains_key("k"));
    assert!(contains_string(&strings(&["a", "b"]), "b"));
    assert!(!contains_string(&strings(&["a", "b"]), "c"));
}

#[test]
fn attachment_import_records_everything() {
    let r = import_attachments(strings(&["k"]), Vec::new(), &strings(&["a", "k"]));
    assert_eq!(r.ignores, strings(&["k", "a", "k"]));
    assert_eq!(r.urls, strings(&["a", "k"]));
}

#[test]
fn embed_lists_join_their_urls() {
    let a = r#"{"thumbnail": {"url": "https://cdn/a.png"}}"#;
    let b = r#"{"image": {"url": "https://cdn/b.png"}}"#;
    let both = get_embed_urls(&parse(&format!("{{\"embeds\": [{}, {}]}}", a, b)), &url_re());
    let mut joined = get_embed_urls(&parse(&format!("{{\"embeds\": [{}]}}", a)), &url_re());
    joined.extend(get_embed_urls(&parse(&format!("{{\"embeds\": [{}]}}", b)), &url_re()));
    assert_eq!(both, joined);
}

#[test]
fn json_text_is_parsed_by_tinyjson() {
    assert!(parse_json("{\"a\": [1, true, null, \"s\"]}").is_some());
    assert!(parse_json("{\"a\": ").is_none());
    assert!(matches!(parse_json("200"), Some(Json::Number(bits)) if bits == HTTP_OK_BITS));
    assert!(matches!(parse_json("\"x\""), Some(Json::Str(s)) if s == "x"));
}

#[test]
fn gateway_other_guilds_change_nothing() {
    let only_server = r#"{
        "t": "READY", "s": 1, "op": 0,
        "d": {"v": 9, "guilds": [
            {"id": "42", "icon": "ic",
             "roles": [{"id": "r1", "icon": "ri"}, {"id": "r2", "icon": null}, {"id": "r3"}],
             "emojis": [{"id": "e1", "animated": true}, {"id": "e2"}]}
        ]}
    }"#;
    assert_eq!(try_gateway_parse(&parse(READY), "42"), try_gateway_parse(&parse(only_server), "42"));
    let only_others = r#"{"t": "READY", "s": 1, "d": {"v": 9, "guilds": [{"id": "7"}, {"id": "8", "icon": 3}]}}"#;
    assert_eq!(try_gateway_parse(&parse(only_others), "42"), Some(Vec::new()));
}

#[test]
fn discard2_quiet_lines_change_nothing() {
    let quiet = vec![
        parse(r#"{"type": "ws", "direction": "recv", "data": {"t": "READY"}}"#),
        parse(r#"{"type": "http", "request": {"path": "/api/v9/users/@me", "method": "GET"}, "response": {"status_code": 200, "data": {}}}"#),
        http_line("[]"),
    ];
    let mut all = quiet;
    all.insert(1, http_line(MESSAGES));
    let run = |lines: &Vec<Json>| {
        discard2_jsonl(lines, strings(&["https://known.example"]), Vec::new(), &url_re(), &endpoint_re(), &args(None, false, "discard2"))
            .unwrap()
    };
    let with_quiet = run(&all);
    let without_quiet = run(&vec![http_line(MESSAGES)]);
    assert_eq!(with_quiet.urls, without_quiet.urls);
    assert_eq!(with_quiet.ignores, without_quiet.ignores);
    assert_eq!(with_quiet.urls.len(), 4);
}
