use literate_lsp::config::{resolve_lsp_name, Config, LanguageConfig, LanguageServerEntry, LanguageServerEntryExt, LanguageServerRef, LspConfig};
use literate_lsp::json::JsonValue;

fn server(name: &str, command: &str) -> (String, LspConfig) {
    (
        name.to_string(),
        LspConfig { command: command.to_string(), args: vec![], config: JsonValue::Null },
    )
}

fn language(name: &str, servers: &[&str]) -> LanguageConfig {
    LanguageConfig {
        name: name.to_string(),
        language_servers: servers.iter().map(|s| LanguageServerEntry::String(s.to_string())).collect(),
    }
}

fn empty_config() -> Config {
    Config { language: vec![], language_server: vec![] }
}

#[test]
fn test_forbidden_formats_are_detected() {
    let config = empty_config();
    assert!(config.is_format_forbidden("md"));
    assert!(config.is_format_forbidden("markdown"));
    assert!(config.is_format_forbidden("typst"));
    assert!(config.is_format_forbidden("rst"));
    assert!(config.is_format_forbidden("MD"));
    assert!(config.is_format_forbidden("Markdown"));
}

#[test]
fn test_allowed_formats_are_not_forbidden() {
    let config = Config {
        language: vec![language("forth", &["forth-lsp"]), language("python", &["pyright"])],
        language_server: vec![server("forth-lsp", "forth-lsp"), server("pyright", "pyright")],
    };
    assert!(!config.is_format_forbidden("forth"));
    assert!(!config.is_format_forbidden("python"));
    assert!(!config.is_format_forbidden("forth-lsp"));
    assert!(!config.is_format_forbidden("pyright"));
}

#[test]
fn test_forbidden_lsps_are_dynamically_determined() {
    let config = Config {
        language: vec![
            language("markdown", &["marksman"]),
            language("python", &["pyright"]),
            language("typst", &["tinymist"]),
        ],
        language_server: vec![
            server("marksman", "marksman"),
            server("pyright", "pyright"),
            server("tinymist", "tinymist"),
        ],
    };
    let forbidden = config.get_forbidden_lsps();
    assert!(forbidden.contains(&"marksman".to_string()));
    assert!(forbidden.contains(&"tinymist".to_string()));
    assert!(!forbidden.contains(&"pyright".to_string()));
}

#[test]
fn test_config_filters_forbidden_formats() {
    let mut config = Config {
        language: vec![],
        language_server: vec![
            server("markdown", "marksman"),
            server("forth", "forth-lsp"),
            server("typst", "tinymist"),
        ],
    };
    config.filter_forbidden_formats();
    assert!(config.has_server("forth"));
    assert!(!config.has_server("markdown"));
    assert!(!config.has_server("typst"));
}

#[test]
fn forbidden_lsps_skip_this_server_and_repeat_once() {
    let config = Config {
        language: vec![
            language("markdown", &["marksman", "literate-lsp", "ltex"]),
            language("latex", &["ltex", "texlab"]),
        ],
        language_server: vec![],
    };
    let forbidden = config.get_forbidden_lsps();
    assert_eq!(forbidden.len(), 3);
    assert!(!forbidden.contains(&"literate-lsp".to_string()));
    assert!(config.is_format_forbidden("TexLab"));
    assert!(!config.is_format_forbidden("literate-lsp"));
    assert!(Config::is_format_forbidden_static("LaTeX"));
    assert!(!Config::is_format_forbidden_static("rust"));
}

#[test]
fn filter_drops_servers_of_documentation_languages() {
    let mut config = Config {
        language: vec![language("markdown", &["marksman"])],
        language_server: vec![server("marksman", "marksman"), server("pyright", "pyright")],
    };
    config.filter_forbidden_formats();
    assert!(!config.has_server("marksman"));
    assert!(config.has_server("pyright"));
    assert_eq!(config.language.len(), 1);
}

#[test]
fn server_names_of_both_entry_forms() {
    let lang = LanguageConfig {
        name: "python".to_string(),
        language_servers: vec![
            LanguageServerEntry::String("pyright".to_string()),
            LanguageServerEntry::Object(LanguageServerRef {
                name: "ruff".to_string(),
                except_features: vec!["format".to_string()],
            }),
        ],
    };
    assert_eq!(lang.get_server_names(), vec!["pyright".to_string(), "ruff".to_string()]);
    assert_eq!(lang.language_servers[1].to_server_name(), "ruff");
}

#[test]
fn merge_prefers_the_other_configuration() {
    let mut base = Config {
        language: vec![language("python", &["pylsp"]), language("forth", &["forth-lsp"])],
        language_server: vec![server("pylsp", "pylsp"), server("forth-lsp", "forth-lsp")],
    };
    let local = Config {
        language: vec![language("python", &["pyright"]), language("go", &["gopls"])],
        language_server: vec![server("pylsp", "pylsp-new"), server("gopls", "gopls")],
    };
    base.merge(local);
    assert_eq!(base.language.len(), 3);
    assert_eq!(base.language[0].name, "python");
    assert_eq!(base.language[0].get_server_names(), vec!["pyright".to_string()]);
    assert_eq!(base.language[2].name, "go");
    assert_eq!(base.get_command_and_args("pylsp", &vec![]).unwrap().0, "pylsp-new");
    assert!(base.has_server("gopls"));
    assert!(base.has_server("forth-lsp"));
}

#[test]
fn command_resolution_prefers_direct_server_then_installed_language_server() {
    let mut python = language("python", &["marksman", "missing", "pyright", "pylsp"]);
    python.language_servers.push(LanguageServerEntry::String("ruff".to_string()));
    let config = Config {
        language: vec![language("markdown", &["marksman"]), python],
        language_server: vec![
            server("marksman", "marksman"),
            server("pyright", "pyright-langserver"),
            (
                "pylsp".to_string(),
                LspConfig {
                    command: "pylsp".to_string(),
                    args: vec!["--stdio".to_string()],
                    config: JsonValue::Bool(true),
                },
            ),
            server("ruff", ""),
        ],
    };
    assert_eq!(
        config.path_candidates("python"),
        vec!["pyright-langserver".to_string(), "pylsp".to_string()]
    );
    let installed = vec!["pylsp".to_string(), "marksman".to_string()];
    let (cmd, args) = config.get_command_and_args("python", &installed).unwrap();
    assert_eq!(cmd, "pylsp");
    assert_eq!(args, vec!["--stdio".to_string()]);
    assert_eq!(config.get_command("python", &vec![]), None);
    assert_eq!(config.get_command("pyright", &vec![]), Some("pyright-langserver".to_string()));
    assert_eq!(config.get_command("ruff", &vec![]), None);
    assert_eq!(config.get_args("pylsp"), vec!["--stdio".to_string()]);
    assert!(config.get_args("nothing").is_empty());
    assert!(matches!(config.get_init_options("pylsp"), Some(JsonValue::Bool(true))));
    assert!(config.get_init_options("pyright").is_none());
}

#[test]
fn health_selections() {
    let config = Config {
        language: vec![
            language("markdown", &["marksman", "ltex"]),
            language("python", &["pyright", "ltex"]),
            language("RST", &["ltex"]),
        ],
        language_server: vec![server("pyright", "pyright"), server("ltex", "ltex-ls"), server("py-lsp", "pylsp")],
    };
    assert_eq!(
        config.languages_using("ltex", false),
        vec!["markdown".to_string(), "python".to_string(), "RST".to_string()]
    );
    assert_eq!(config.languages_using("ltex", true), vec!["markdown".to_string(), "RST".to_string()]);
    assert!(config.languages_using("gopls", false).is_empty());
    assert_eq!(config.related_servers("py"), vec!["pyright".to_string(), "py-lsp".to_string()]);
    assert_eq!(config.server_config("ltex").unwrap().command, "ltex-ls");
    assert!(config.server_config("gopls").is_none());
    assert_eq!(resolve_lsp_name("MD"), "marksman");
    assert_eq!(resolve_lsp_name("PyRight"), "pyright");
}

#[test]
fn decisions_after_lower_casing() {
    let config = Config {
        language: vec![language("markdown", &["marksman"])],
        language_server: vec![],
    };
    assert!(config.drops_lower("marksman"));
    assert!(config.drops_lower("tex"));
    assert!(!config.drops_lower("pyright"));
    assert!(config.is_lower_forbidden("marksman"));
    assert_eq!(literate_lsp::config::lsp_name_for_lower("md"), "marksman");
    assert_eq!(literate_lsp::config::lsp_name_for_lower("gopls"), "gopls");
    assert_eq!(literate_lsp::server::language_for_extension("mdx"), Some("markdown".to_string()));
    assert_eq!(literate_lsp::server::language_for_extension("MD"), None);
}

#[test]
fn only_exact_format_names_count_as_documentation() {
    let config = Config {
        language: vec![language("cmd", &["cmd-lsp"]), language("context", &["ctx-lsp"]), language("Org", &["org-lsp"])],
        language_server: vec![],
    };
    let forbidden = config.get_forbidden_lsps();
    assert_eq!(forbidden, vec!["org-lsp".to_string()]);
    assert!(!config.is_format_forbidden("cmd-lsp"));
    assert!(config.is_format_forbidden("ORG-LSP"));
}

#[test]
fn merge_keeps_server_names_unique() {
    let mut base = Config {
        language: vec![],
        language_server: vec![server("pylsp", "pylsp"), server("gopls", "gopls")],
    };
    let other = Config {
        language: vec![],
        language_server: vec![server("gopls", "gopls-new"), server("ruff", "ruff")],
    };
    base.merge(other);
    let mut names: Vec<&String> = base.language_server.iter().map(|(k, _)| k).collect();
    names.sort();
    assert_eq!(names, vec!["gopls", "pylsp", "ruff"]);
    assert_eq!(base.get_command("gopls", &vec![]), Some("gopls-new".to_string()));
}
