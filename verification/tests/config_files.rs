use bladedance::configtoml::{
    apply_variable_substitution, parse_bool, substitution_settles_within, AdminConfig, ParsedServerConfig,
    ServerConfig as TomlServer, TomlServerConfig,
};
use bladedance::serverconfig::{
    lines_readable, parse_config_line, parse_config_lines, ConfigTag, FilePosition, ServerConfig,
};

fn empty_toml() -> TomlServerConfig {
    TomlServerConfig {
        server: None,
        admin: None,
        binds: None,
        connect: None,
        limits: None,
        paths: None,
        performance: None,
        security: None,
        cidr: None,
        options: None,
        modules: None,
        sslprofiles: None,
        defines: None,
        dns: None,
        whowas: None,
        files: None,
        insane: None,
        badips: None,
        badnicks: None,
        badhosts: None,
        exceptions: None,
        maxlists: None,
    }
}

#[test]
fn substitution_replaces_defined_names() {
    let defines = vec![("net".to_string(), "ExampleNet".to_string()), ("x".to_string(), "&net;".to_string())];
    assert!(substitution_settles_within("Welcome to &x;", &defines, 10));
    assert_eq!(apply_variable_substitution("Welcome to &x;", &defines), "Welcome to ExampleNet");
    assert_eq!(apply_variable_substitution("no refs", &defines), "no refs");
    assert!(substitution_settles_within("x&foo;y", &defines, 10));
    assert_eq!(apply_variable_substitution("x&foo;y", &defines), "x&foo;y");
    assert_eq!(apply_variable_substitution("&x; and &unknown;", &defines), "ExampleNet and &unknown;");
    assert_eq!(apply_variable_substitution("AT&T rocks", &defines), "AT&T rocks");
}

#[test]
fn substitution_that_never_ends_is_detected() {
    let defines = vec![("a".to_string(), "&a;&a;".to_string())];
    assert!(!substitution_settles_within("&a;", &defines, 8));
    let mut toml = empty_toml();
    toml.server = Some(TomlServer { name: Some("&a;".to_string()), id: None, description: None, network: None });
    toml.defines = Some(defines);
    assert!(ParsedServerConfig::try_from_toml("inspircd.toml", toml, 8).is_none());
}

#[test]
fn toml_config_fields_are_read() {
    let mut toml = empty_toml();
    toml.server = Some(TomlServer {
        name: Some("irc.&dom;".to_string()),
        id: Some("0AA".to_string()),
        description: None,
        network: Some("Net".to_string()),
    });
    toml.admin = Some(AdminConfig { name: Some("Root".to_string()), description: None, email: None });
    toml.defines = Some(vec![("dom".to_string(), "example.org".to_string())]);
    let c = ParsedServerConfig::try_from_toml("conf/inspircd.toml", toml, 16).unwrap();
    assert_eq!(c.get_string("server_name").as_deref(), Some("irc.example.org"));
    assert_eq!(c.get_string("server_id").as_deref(), Some("0AA"));
    assert_eq!(c.get_string("network").as_deref(), Some("Net"));
    assert_eq!(c.get_string("admin_name").as_deref(), Some("Root"));
    assert_eq!(c.get_string("no_such_field"), None);
    assert_eq!(c.get_bool("no_such_field"), None);
    assert_eq!(c.get_int("no_such_field"), None);
    assert_eq!(c.get_u64("no_such_field"), None);
}

#[test]
fn toml_defaults() {
    let c = ParsedServerConfig::new();
    let d = ParsedServerConfig::default();
    assert_eq!(c.get_string("server_name"), d.get_string("server_name"));
    assert_eq!(c.get_bool("mask_in_list"), d.get_bool("mask_in_list"));
}

#[test]
fn flags_are_read() {
    assert!(parse_bool("yes", false));
    assert!(parse_bool("on", false));
    assert!(!parse_bool("no", true));
    assert!(!parse_bool("false", true));
    assert!(parse_bool("maybe", true));
    assert!(!parse_bool("maybe", false));
}

#[test]
fn config_lines_are_read_into_tags() {
    let line = "<server name=\"irc.example.org\" id='0AA' hidden=yes>";
    let (name, attrs) = parse_config_line(line).unwrap();
    assert_eq!(name, "server");
    assert_eq!(
        attrs,
        vec![
            ("name".to_string(), "irc.example.org".to_string()),
            ("id".to_string(), "0AA".to_string()),
            ("hidden".to_string(), "yes".to_string()),
        ]
    );
    assert!(parse_config_line("# a comment").is_none());
    assert!(parse_config_line("</server>").is_none());
    assert!(parse_config_line("<>").is_none());
}

#[test]
fn config_files_keep_line_numbers() {
    let lines = vec![
        "# comment".to_string(),
        "<admin name=\"Root\">".to_string(),
        String::new(),
        "<options hidebans=no>".to_string(),
    ];
    assert!(lines_readable(&lines));
    let tags = parse_config_lines(&lines, "inspircd.conf");
    assert_eq!(tags.len(), 2);
    assert_eq!(tags[0].name, "admin");
    assert_eq!(tags[0].source.line, 2);
    assert_eq!(tags[0].source.name, "inspircd.conf");
    assert_eq!(tags[1].source.line, 4);
    assert!(!tags[1].get_bool("hidebans", true));
    assert_eq!(tags[0].get_string("name", "x"), "Root");
    assert_eq!(tags[0].get_string("email", "none"), "none");
}

#[test]
fn tag_attributes_are_replaced() {
    let mut t = ConfigTag::new("link".to_string(), FilePosition { name: "f".to_string(), line: 1, column: 0 });
    t.set_attribute("port".to_string(), "7000".to_string());
    t.set_attribute("port".to_string(), "7001".to_string());
    assert_eq!(t.get_string("port", ""), "7001");
    assert!(t.get_bool("missing", true));
}

#[test]
fn server_settings_by_name() {
    let mut c = ServerConfig::new();
    assert!(c.set_string("server_name", "irc.example.org".to_string()));
    assert!(!c.set_string("nope", "x".to_string()));
    assert_eq!(c.get_string("server_name").as_deref(), Some("irc.example.org"));
    assert_eq!(c.get_string("nope"), None);
    c.fill_defaults();
    assert_eq!(c.get_string("xline_message").as_deref(), Some("You're banned!"));
}
