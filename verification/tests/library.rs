use connector::config::parse_server_list;
use connector::connections::{connection_result, unc_path};
use connector::config::read_server_list;
use connector::connections_linux::{
    first_ipv4, ipv4_text, mount_options, mount_source, mount_target_path,
    resolve_address_if_domain, share_host, share_location, AddressResolution, HostAddress,
};
use connector::json::{member_of, member_text, JsonValue};
use connector::address::parse_dotted_quad;
use connector::errors::get_error_explanation;
use connector::server_list::{
    list_json, server_list_text, NewServer, NewServerList, ServerListWizard, ShareEntry,
    WizardInput, WizardOutcome, WizardStep,
};
use connector::session::{
    available_servers, choose_server_lists, finish_after_failure, remaining_servers,
    servers_to_connect, ListChoice,
};
use connector::startup_checks::{extended_path, path_includes_dir};
use connector::text::{decimal_text, split_str, str_contains};
use connector::validation::validate_config_file;
use connector::validations::{
    check_server_list, has_json_extension, selection_items, validate_server_list_file,
    validate_server_list_file_name,
};

fn text(s: &str) -> WizardInput {
    WizardInput::Text(s.to_string())
}

#[test]
fn error_explanations_for_known_codes() {
    assert_eq!(get_error_explanation(5), "Access denied");
    assert_eq!(get_error_explanation(53), "Network path not found");
    assert_eq!(get_error_explanation(67), "Network name cannot be found");
    assert_eq!(get_error_explanation(86), "Invalid password");
    assert_eq!(
        get_error_explanation(1219),
        "Multiple connections to a server or shared resource by the same user, using more than one user name, are not allowed"
    );
    assert_eq!(get_error_explanation(1326), "The username or password is incorrect");
}

#[test]
fn error_explanation_for_unknown_codes() {
    assert_eq!(get_error_explanation(0), "Unknown error");
    assert_eq!(get_error_explanation(-5), "Unknown error");
    assert_eq!(get_error_explanation(1220), "Unknown error");
}

#[test]
fn file_name_without_forbidden_characters_is_accepted() {
    assert_eq!(validate_server_list_file_name("office-servers_2"), Ok(()));
    assert_eq!(validate_server_list_file_name(""), Ok(()));
    assert_eq!(validate_server_list_file_name("naïve list"), Ok(()));
}

#[test]
fn each_forbidden_character_is_refused() {
    for c in ["\\", "/", ":", "*", "?", "\"", "<", ">", "|"] {
        let name = format!("a{}b", c);
        assert_eq!(
            validate_server_list_file_name(&name),
            Err(format!("Invalid character in server list file name: {}", c))
        );
    }
}

#[test]
fn first_forbidden_character_in_list_order_is_reported() {
    // ':' stands before '/' in the name, but '/' comes first in the list.
    assert_eq!(
        validate_server_list_file_name("a:b/c"),
        Err("Invalid character in server list file name: /".to_string())
    );
    assert_eq!(
        validate_server_list_file_name("|<>"),
        Err("Invalid character in server list file name: <".to_string())
    );
}

#[test]
fn server_list_with_servers_is_valid() {
    let content = r#"{"username": "admin", "servers": [{"name": "alpha", "description": "first"}]}"#;
    assert_eq!(validate_server_list_file("lists/a.json", content), Ok(()));
    assert_eq!(validate_config_file("lists/a.json", content), Ok(()));
}

#[test]
fn server_list_without_servers_is_refused() {
    let expected = Err("Validation of lists/b.json failed. No servers found.".to_string());
    assert_eq!(validate_server_list_file("lists/b.json", r#"{"servers": []}"#), expected);
    assert_eq!(validate_server_list_file("lists/b.json", r#"{"username": "x"}"#), expected);
    assert_eq!(validate_server_list_file("lists/b.json", r#"{"servers": "alpha"}"#), expected);
    assert_eq!(validate_config_file("lists/b.json", r#"[1, 2]"#), expected);
}

#[test]
fn server_list_that_is_no_json_is_refused_with_the_parser_message() {
    let content = "{\"servers\": [";
    let parser_message = serde_json::from_str::<serde_json::Value>(content).unwrap_err().to_string();
    assert_eq!(
        validate_server_list_file("c.json", content),
        Err(format!("Validation of c.json failed. Error: {}", parser_message))
    );
    assert_eq!(
        validate_config_file("c.json", content),
        Err(format!("Validation of c.json failed. Error: {}", parser_message))
    );
}

#[test]
fn check_server_list_reports_read_errors() {
    assert_eq!(
        check_server_list("x.json", Err("bad".to_string())),
        Err("Validation of x.json failed. Error: bad".to_string())
    );
}

#[test]
fn parsed_server_list_reads_members_with_defaults() {
    let content = r#"{"username": 7, "servers": [{"name": "alpha"}, {"description": "d"}, 3]}"#;
    let list = parse_server_list(content).unwrap();
    assert_eq!(list.username, "");
    assert_eq!(list.servers.len(), 3);
    assert_eq!(list.servers[0].name, "alpha");
    assert_eq!(list.servers[0].description, "");
    assert_eq!(list.servers[1].name, "");
    assert_eq!(list.servers[1].description, "d");
    assert_eq!(list.servers[2].name, "");
}

#[test]
fn selection_items_keep_accepted_paths_in_order() {
    let paths = vec!["a.json".to_string(), "b.json".to_string(), "c.json".to_string()];
    let items = selection_items(&paths, &vec![true, false, true]);
    assert_eq!(
        items,
        vec![
            ("a.json".to_string(), "a.json".to_string(), String::new()),
            ("c.json".to_string(), "c.json".to_string(), String::new()),
        ]
    );
    assert!(selection_items(&paths, &vec![false, false, false]).is_empty());
}

#[test]
fn json_extension_is_recognised_as_path_extension_does() {
    assert!(has_json_extension("office.json"));
    assert!(has_json_extension("a.b.json"));
    assert!(has_json_extension("..json"));
    assert!(!has_json_extension(".json"));
    assert!(!has_json_extension("json"));
    assert!(!has_json_extension("office.JSON"));
    assert!(!has_json_extension("office.json.bak"));
    for name in ["office.json", "a.b.json", "..json", ".json", "json", "x.JSON", "y.jsonx"] {
        let by_std = std::path::Path::new(name).extension().unwrap_or_default() == "json";
        assert_eq!(has_json_extension(name), by_std, "{}", name);
    }
}

#[test]
fn wizard_builds_a_list_off_windows() {
    let mut w = ServerListWizard::new(false);
    assert_eq!(w.step, WizardStep::ListName);
    assert!(matches!(w.advance(text("bad/name")), WizardOutcome::NameRejected(m) if m == "Invalid character in server list file name: /"));
    assert_eq!(w.step, WizardStep::ListName);
    assert!(matches!(w.advance(text("office")), WizardOutcome::Next));
    assert_eq!(w.step, WizardStep::Username);
    w.advance(text("DOMAIN\\admin"));
    assert_eq!(w.step, WizardStep::MountTarget);
    w.advance(text("/mnt/smb"));
    assert_eq!(w.step, WizardStep::ServerName);
    w.advance(text("alpha"));
    // Off Windows the description and the share question are skipped.
    assert_eq!(w.step, WizardStep::ShareName);
    w.advance(text("data"));
    assert_eq!(w.step, WizardStep::ShareDescription);
    w.advance(text("shared data"));
    assert_eq!(w.step, WizardStep::AnotherShare);
    w.advance(WizardInput::Answer(false));
    assert_eq!(w.step, WizardStep::AnotherServer);
    match w.advance(WizardInput::Answer(false)) {
        WizardOutcome::Save(file_name, list) => {
            assert_eq!(file_name, "office.json");
            assert_eq!(list.username, "DOMAIN\\admin");
            assert_eq!(list.mount_target, "/mnt/smb");
            assert_eq!(list.servers.len(), 1);
            assert_eq!(list.servers[0].name, "alpha");
            assert_eq!(list.servers[0].description, "");
            assert_eq!(list.servers[0].shares.len(), 1);
            assert_eq!(list.servers[0].shares[0].name, "data");
            assert_eq!(list.servers[0].shares[0].description, "shared data");
        }
        _ => panic!("expected the list to be saved"),
    }
    assert_eq!(w.step, WizardStep::AnotherList);
    assert!(matches!(w.advance(WizardInput::Answer(false)), WizardOutcome::Finished));
    assert!(w.is_done());
}

#[test]
fn wizard_builds_a_list_on_windows() {
    let mut w = ServerListWizard::new(true);
    w.advance(text("win"));
    w.advance(text("user"));
    w.advance(text(""));
    w.advance(text("alpha"));
    assert_eq!(w.step, WizardStep::ServerDescription);
    w.advance(text("first server"));
    assert_eq!(w.step, WizardStep::AddShare);
    assert!(!w.asks_text());
    w.advance(WizardInput::Answer(false));
    assert_eq!(w.step, WizardStep::AnotherServer);
    w.advance(WizardInput::Answer(true));
    w.advance(text("beta"));
    w.advance(text(""));
    w.advance(WizardInput::Answer(true));
    w.advance(text("s1"));
    w.advance(text(""));
    w.advance(WizardInput::Answer(true));
    w.advance(text("s2"));
    w.advance(text("second"));
    w.advance(WizardInput::Answer(false));
    match w.advance(WizardInput::Answer(false)) {
        WizardOutcome::Save(file_name, list) => {
            assert_eq!(file_name, "win.json");
            assert_eq!(list.servers.len(), 2);
            assert_eq!(list.servers[0].description, "first server");
            assert!(list.servers[0].shares.is_empty());
            assert_eq!(list.servers[1].name, "beta");
            assert_eq!(list.servers[1].shares.len(), 2);
            assert_eq!(list.servers[1].shares[1].name, "s2");
        }
        _ => panic!("expected the list to be saved"),
    }
    // Another list starts afresh.
    w.advance(WizardInput::Answer(true));
    assert_eq!(w.step, WizardStep::ListName);
    w.advance(text("second"));
    w.advance(text("other"));
    w.advance(text("/m"));
    w.advance(text("gamma"));
    w.advance(text(""));
    w.advance(WizardInput::Answer(false));
    match w.advance(WizardInput::Answer(false)) {
        WizardOutcome::Save(file_name, list) => {
            assert_eq!(file_name, "second.json");
            assert_eq!(list.username, "other");
            assert_eq!(list.servers.len(), 1);
            assert_eq!(list.servers[0].name, "gamma");
        }
        _ => panic!("expected the list to be saved"),
    }
}

#[test]
fn list_choice_depends_on_the_number_of_valid_lists() {
    assert!(matches!(choose_server_lists(&vec![]), ListChoice::OfferSetup));
    let one = vec![("a.json".to_string(), "a.json".to_string(), String::new())];
    assert!(matches!(choose_server_lists(&one), ListChoice::UseOnly(p) if p == "a.json"));
    let two = vec![
        ("a.json".to_string(), "a.json".to_string(), String::new()),
        ("b.json".to_string(), "b.json".to_string(), String::new()),
    ];
    assert!(matches!(choose_server_lists(&two), ListChoice::AskUser));
}

#[test]
fn server_menu_starts_with_select_all() {
    let list = parse_server_list(
        r#"{"username": "u", "servers": [{"name": "alpha", "description": "A"}, {"name": "beta"}]}"#,
    )
    .unwrap();
    let menu = available_servers(&list);
    assert_eq!(
        menu,
        vec![
            ("select all".to_string(), "select all".to_string(), String::new()),
            ("alpha".to_string(), "alpha".to_string(), "A".to_string()),
            ("beta".to_string(), "beta".to_string(), String::new()),
        ]
    );
}

#[test]
fn select_all_stands_for_every_server() {
    let list = parse_server_list(
        r#"{"servers": [{"name": "alpha"}, {"name": "beta"}, {"name": "gamma"}]}"#,
    )
    .unwrap();
    let chosen = vec!["beta".to_string(), "select all".to_string()];
    assert_eq!(servers_to_connect(&list, &chosen), vec!["alpha", "beta", "gamma"]);
    let chosen = vec!["gamma".to_string(), "alpha".to_string()];
    assert_eq!(servers_to_connect(&list, &chosen), vec!["gamma", "alpha"]);
    assert!(servers_to_connect(&list, &vec![]).is_empty());
}

#[test]
fn failure_handling_counts() {
    assert!(finish_after_failure(2, 3, 2));
    assert!(!finish_after_failure(2, 3, 1));
    assert!(!finish_after_failure(1, 3, 1));
    assert!(finish_after_failure(0, 1, 0));
    assert_eq!(remaining_servers(0, 3), 2);
    assert_eq!(remaining_servers(2, 3), 0);
}

#[test]
fn connection_codes() {
    assert_eq!(connection_result(0), Ok(()));
    assert_eq!(connection_result(5), Err(5));
    assert_eq!(connection_result(1326), Err(1326));
    assert_eq!(connection_result(u32::MAX), Err(-1));
    assert_eq!(unc_path("fileserver"), "\\\\fileserver");
}

#[test]
fn mount_options_with_and_without_domain() {
    assert_eq!(
        mount_options("CORP\\alice", "secret"),
        "domain=CORP,username=alice,password=secret"
    );
    assert_eq!(mount_options("alice", "secret"), "username=alice,password=secret");
    assert_eq!(mount_options("a\\b\\c", "p"), "username=a,password=p");
    assert_eq!(mount_options("", ""), "username=,password=");
}

#[test]
fn mount_paths() {
    assert_eq!(mount_target_path("/mnt/smb", "server/share"), "/mnt/smb/server/share");
    assert_eq!(share_location("server/share"), ("server".to_string(), "share".to_string()));
    assert_eq!(share_location("server/share/sub"), ("server".to_string(), "share".to_string()));
    assert_eq!(share_location("/x"), (String::new(), "x".to_string()));
    assert_eq!(mount_source("10.0.0.5", "share"), "//10.0.0.5/share");
}

#[test]
fn literal_addresses_are_parsed() {
    assert!(matches!(resolve_address_if_domain("192.168.1.20"), AddressResolution::Ipv4(192, 168, 1, 20)));
    assert!(matches!(resolve_address_if_domain("0.0.0.0"), AddressResolution::Ipv4(0, 0, 0, 0)));
    assert!(matches!(resolve_address_if_domain("255.255.255.255"), AddressResolution::Ipv4(255, 255, 255, 255)));
}

#[test]
fn address_like_hosts_that_are_no_address_are_invalid() {
    assert!(matches!(resolve_address_if_domain("256.1.1.1"), AddressResolution::Invalid));
    assert!(matches!(resolve_address_if_domain("010.1.1.1"), AddressResolution::Invalid));
    assert!(matches!(resolve_address_if_domain("1.2.3.4.5"), AddressResolution::Invalid));
    assert!(matches!(resolve_address_if_domain("host10.0.0.1"), AddressResolution::Invalid));
}

#[test]
fn host_names_are_looked_up_on_port_445() {
    assert!(matches!(resolve_address_if_domain("fileserver"), AddressResolution::Lookup(t) if t == "fileserver:445"));
    assert!(matches!(resolve_address_if_domain("1.2.3"), AddressResolution::Lookup(t) if t == "1.2.3:445"));
}

#[test]
fn dotted_quad_parser_accepts_only_canonical_addresses() {
    assert_eq!(parse_dotted_quad("1.2.3.4"), Some((1, 2, 3, 4)));
    assert_eq!(parse_dotted_quad("0.0.0.0"), Some((0, 0, 0, 0)));
    assert_eq!(parse_dotted_quad("10.100.255.9"), Some((10, 100, 255, 9)));
    for t in ["01.2.3.4", "1.2.3", "256.0.0.1", "1..2.3", "", "a.b.c.d", "1.2.3.4 ", "+1.2.3.4", "1234.1.1.1", "1.2.3.4."] {
        assert_eq!(parse_dotted_quad(t), None, "{}", t);
    }
}

#[test]
fn first_ipv4_is_taken() {
    let addresses = vec![HostAddress::V6, HostAddress::V4(10, 0, 0, 1), HostAddress::V4(10, 0, 0, 2)];
    assert_eq!(first_ipv4(&addresses), Ok((10, 0, 0, 1)));
    assert_eq!(first_ipv4(&vec![HostAddress::V6]), Err("No IPv4 found".to_string()));
    assert_eq!(first_ipv4(&vec![]), Err("No IPv4 found".to_string()));
}

#[test]
fn ipv4_text_is_dot_decimal() {
    assert_eq!(ipv4_text(192, 168, 0, 10), "192.168.0.10");
    assert_eq!(ipv4_text(0, 9, 99, 255), "0.9.99.255");
    assert_eq!(ipv4_text(8, 8, 4, 4), "8.8.4.4");
}

#[test]
fn literal_address_round_trip() {
    let text = ipv4_text(172, 16, 5, 1);
    assert_eq!(parse_dotted_quad(&text), Some((172, 16, 5, 1)));
}

#[test]
fn path_checks() {
    assert!(path_includes_dir("C:\\Windows;C:\\Tools", "C:\\Tools"));
    assert!(!path_includes_dir("C:\\Windows", "C:\\Tools"));
    assert_eq!(extended_path("C:\\Windows", "C:\\Tools"), "C:\\Windows;C:\\Tools");
    let extended = extended_path("C:\\Windows", "C:\\Tools");
    assert!(path_includes_dir(&extended, "C:\\Tools"));
}

#[test]
fn text_helpers() {
    assert!(str_contains("hello world", "o w"));
    assert!(str_contains("abc", ""));
    assert!(!str_contains("ab", "abc"));
    assert_eq!(split_str("a\\b", '\\'), vec!["a", "b"]);
    assert_eq!(split_str("", '/'), vec![""]);
    assert_eq!(split_str("/a//", '/'), vec!["", "a", "", ""]);
    assert_eq!(decimal_text(0), "0");
    assert_eq!(decimal_text(42), "42");
    assert_eq!(decimal_text(255), "255");
}

fn saved_file_name(list_name: &str) -> String {
    let mut w = ServerListWizard::new(false);
    for reply in [list_name, "user", "/mnt/smb", "alpha", "share", ""] {
        w.advance(text(reply));
    }
    w.advance(WizardInput::Answer(false));
    match w.advance(WizardInput::Answer(false)) {
        WizardOutcome::Save(file_name, _) => file_name,
        _ => panic!("expected the list to be saved"),
    }
}

#[test]
fn saved_list_file_is_found_again_when_named() {
    let named = saved_file_name("office");
    assert_eq!(named, "office.json");
    assert!(has_json_extension(&named));
    let unnamed = saved_file_name("");
    assert_eq!(unnamed, ".json");
    assert!(!has_json_extension(&unnamed));
}

fn sample_list() -> NewServerList {
    NewServerList {
        username: "admin".to_string(),
        mount_target: "/mnt/smb".to_string(),
        servers: vec![NewServer {
            name: "alpha".to_string(),
            description: String::new(),
            shares: vec![ShareEntry { name: "data".to_string(), description: "d \"q\"".to_string() }],
        }],
    }
}

#[test]
fn written_server_list_text_is_sorted_pretty_json() {
    let expected = "{\n  \"mount_target\": \"/mnt/smb\",\n  \"servers\": [\n    {\n      \"description\": \"\",\n      \"name\": \"alpha\",\n      \"shares\": [\n        {\n          \"description\": \"d \\\"q\\\"\",\n          \"name\": \"data\"\n        }\n      ]\n    }\n  ],\n  \"username\": \"admin\"\n}";
    assert_eq!(server_list_text(&sample_list()), expected);
}

#[test]
fn written_server_list_passes_the_check_when_read_again() {
    let text = server_list_text(&sample_list());
    assert_eq!(validate_server_list_file("office.json", &text), Ok(()));
    let list = parse_server_list(&text).unwrap();
    assert_eq!(list.username, "admin");
    assert_eq!(list.servers.len(), 1);
    assert_eq!(list.servers[0].name, "alpha");
    assert_eq!(list.servers[0].description, "");
}

#[test]
fn written_list_without_servers_fails_the_check() {
    let mut list = sample_list();
    list.servers.clear();
    let text = server_list_text(&list);
    assert_eq!(
        validate_server_list_file("empty.json", &text),
        Err("Validation of empty.json failed. No servers found.".to_string())
    );
}

#[test]
fn list_document_has_sorted_members() {
    match list_json(&sample_list()) {
        JsonValue::Object(members) => {
            let keys: Vec<&str> = members.iter().map(|(k, _)| k.as_str()).collect();
            assert_eq!(keys, vec!["mount_target", "servers", "username"]);
        }
        _ => panic!("expected an object"),
    }
}

#[test]
fn json_members_are_read_with_defaults() {
    let doc = JsonValue::Object(vec![
        ("username".to_string(), JsonValue::Number("7".to_string())),
        ("servers".to_string(), JsonValue::Array(vec![
            JsonValue::Object(vec![("name".to_string(), JsonValue::Text("alpha".to_string()))]),
            JsonValue::Null,
        ])),
    ]);
    assert!(member_of(&doc, "servers").is_some());
    assert!(member_of(&doc, "missing").is_none());
    assert!(member_of(&JsonValue::Null, "servers").is_none());
    assert_eq!(member_text(&doc, "username"), "");
    let list = read_server_list(&doc);
    assert_eq!(list.username, "");
    assert_eq!(list.servers.len(), 2);
    assert_eq!(list.servers[0].name, "alpha");
    assert_eq!(list.servers[1].name, "");
    let not_array = JsonValue::Object(vec![("servers".to_string(), JsonValue::Text("x".to_string()))]);
    assert!(read_server_list(&not_array).servers.is_empty());
}

#[test]
fn unicode_digits_look_like_an_address_but_are_none() {
    assert!(matches!(resolve_address_if_domain("\u{661}\u{662}.3.4.5"), AddressResolution::Invalid));
}

#[test]
fn share_host_is_the_text_before_the_first_slash() {
    assert_eq!(share_host("server/share"), "server");
    assert_eq!(share_host("server"), "server");
    assert_eq!(share_host(""), "");
}

#[test]
fn ascii_host_names_without_digit_groups_are_looked_up() {
    assert!(matches!(resolve_address_if_domain("file-server.example.com"), AddressResolution::Lookup(t) if t == "file-server.example.com:445"));
    assert!(matches!(resolve_address_if_domain("10.0.0"), AddressResolution::Lookup(t) if t == "10.0.0:445"));
    assert!(matches!(resolve_address_if_domain("a.10.0.0.1"), AddressResolution::Ipv4(..) | AddressResolution::Invalid));
}
