use ucp::auth::{
    auth_content, auth_json_path, auth_snapshot_path, detect_auth_provider,
    find_duplicate_chatgpt_auth_snapshots, is_chatgpt_auth_snapshot,
    print_duplicate_chatgpt_auth_warnings, read_auth, write_auth, AuthSource,
    DuplicateAuthSnapshot, StoredLogin,
};
use ucp::commands::{
    completion_candidates, import_all_auth, is_active_profile, list_line, new_profile,
    remove_profile, AuthImport, NewProfile, Removal,
};
use ucp::config::{
    codex_dir, common_toml_path, config_toml_path, extract_common_config, merge_and_write_config,
    read_current_model_provider, MergeError, UnreadableConfig,
};
use ucp::migrate::{
    create_profile_from_source, discover_sources, find_richest_config, init_migrate,
    login_file_name, profile_of_login_file, source_line, strip_both, Migration, MigrationBase,
    MigrationError, MigrationSource, UnreadableSource,
};
use ucp::oauth::{
    login_and_save, next_profile_name, summarize_auth, validate_chatgpt_auth,
    validate_profile_name, LoginError, LoginOptions,
};
use ucp::overrides::path_of_setting;
use ucp::provider::{
    identify_current_provider, list_profile_file_names, list_profile_names, list_providers,
    profile_name_of_file, profile_not_found, profile_path, providers_dir, ProviderConfig,
    ProviderProfile,
};
use ucp::sync::SyncState;

fn texts(items: &[&str]) -> Vec<String> {
    items.iter().map(|item| item.to_string()).collect()
}

fn profile(model_provider: &str) -> ProviderProfile {
    ProviderProfile {
        provider: ProviderConfig {
            model_provider: model_provider.to_string(),
            name: "Display".to_string(),
            model: "gpt-5.5".to_string(),
            base_url: None,
            wire_api: None,
            requires_openai_auth: None,
            model_context_window: None,
            model_auto_compact_token_limit: None,
            model_reasoning_effort: None,
            disable_response_storage: None,
        },
        auth: Vec::new(),
        config_overrides: None,
    }
}

fn state_of(profile: &str) -> SyncState {
    SyncState {
        last_provider: Some(profile.to_string()),
        last_sync: Some("2026-05-27T00:00:00+08:00".to_string()),
        last_profile_name: Some(profile.to_string()),
    }
}

fn options(name: Option<&str>) -> LoginOptions {
    LoginOptions {
        name: name.map(str::to_string),
        model: None,
        model_provider: None,
        switch_after: false,
    }
}

#[test]
fn files_lie_below_the_home_directory() {
    let dir = codex_dir("/home/me");
    assert_eq!(dir, "/home/me/.codex");
    assert_eq!(config_toml_path(&dir), "/home/me/.codex/config.toml");
    assert_eq!(common_toml_path(&dir), "/home/me/.codex/common.toml");
    assert_eq!(auth_json_path(&dir), "/home/me/.codex/auth.json");
    assert_eq!(providers_dir(&dir), "/home/me/.codex/providers");
    assert_eq!(
        profile_path(&dir, "work"),
        "/home/me/.codex/providers/work.toml"
    );
    assert_eq!(
        auth_snapshot_path(&dir, "work"),
        "/home/me/.codex/providers/work.auth.json"
    );
    assert_eq!(
        profile_not_found(&dir, "x"),
        "Provider profile 'x' not found at /home/me/.codex/providers/x.toml"
    );
}

#[test]
fn test_profile_completion_filters_by_prefix() {
    let files = texts(&["switch.toml", "openai_team_1.toml", "openai_team_1.auth.json"]);
    let names = list_profile_file_names(&files);
    assert_eq!(names, texts(&["openai_team_1", "switch"]));
    assert_eq!(
        completion_candidates(&names, "openai_"),
        texts(&["openai_team_1"])
    );
    assert_eq!(completion_candidates(&names, ""), names);
}

#[test]
fn profiles_are_known_by_their_extension() {
    assert_eq!(profile_name_of_file("a.b.toml").as_deref(), Some("a.b"));
    assert_eq!(profile_name_of_file(".toml"), None);
    assert_eq!(profile_name_of_file("a.auth.json"), None);
    assert_eq!(profile_name_of_file("toml"), None);
}

#[test]
fn profiles_are_named_as_their_files() {
    let files = texts(&["b.toml", "notes.txt", "a.toml"]);
    let loaded = vec![
        ("b".to_string(), profile("x")),
        ("a".to_string(), profile("y")),
    ];
    assert_eq!(
        list_profile_names(&list_providers(loaded)),
        list_profile_file_names(&files)
    );
}

#[test]
fn profiles_are_listed_by_name() {
    let listed = list_providers(vec![
        ("work".to_string(), profile("openai")),
        ("a".to_string(), profile("proxy")),
        ("B".to_string(), profile("openai")),
    ]);
    assert_eq!(list_profile_names(&listed), texts(&["B", "a", "work"]));
    assert_eq!(identify_current_provider(&listed, "openai"), Some(0));
    assert_eq!(identify_current_provider(&listed, "proxy"), Some(1));
    assert_eq!(identify_current_provider(&listed, "other"), None);
}

#[test]
fn test_remove_deletes_profile_and_auth_snapshot() {
    assert_eq!(
        remove_profile(&SyncState::default(), "old_profile", false, false),
        Ok(Removal {
            removes_auth: true,
            clears_state: false,
        })
    );
}

#[test]
fn test_delete_alias_keeps_auth_snapshot() {
    assert_eq!(
        remove_profile(&SyncState::default(), "old_profile", false, true),
        Ok(Removal {
            removes_auth: false,
            clears_state: false,
        })
    );
}

#[test]
fn test_remove_refuses_active_profile_without_force() {
    let state = state_of("active_profile");
    assert_eq!(
        remove_profile(&state, "active_profile", false, false),
        Err("Refusing to remove active profile 'active_profile'. Switch to another profile first, or pass --force.".to_string())
    );
    assert_eq!(
        remove_profile(&state, "active_profile", true, false),
        Ok(Removal {
            removes_auth: true,
            clears_state: true,
        })
    );
    assert!(is_active_profile(&state, "active_profile"));
    assert_eq!(
        list_line("active_profile", &state),
        "  - active_profile (active)"
    );
    assert_eq!(list_line("other", &state), "  - other");
}

#[test]
fn test_list_warns_about_duplicate_chatgpt_auth_snapshots() {
    let auth = br#"{"auth_mode":"chatgpt","tokens":{"refresh_token":"same"}}"#;
    let login = |profile: &str, content: &[u8]| StoredLogin {
        profile: profile.to_string(),
        content: content.to_vec(),
    };
    let duplicates = find_duplicate_chatgpt_auth_snapshots(&vec![
        login("openai_work", auth),
        login("key_1", b"{\"auth_mode\":\"apikey\"}"),
        login("openai", auth),
        login("key_2", b"{\"auth_mode\":\"apikey\"}"),
        login("lone", b"{\"auth_mode\":\"chatgpt\"}"),
    ]);
    assert_eq!(
        duplicates,
        vec![DuplicateAuthSnapshot {
            profiles: texts(&["openai", "openai_work"]),
        }]
    );
    let warning = print_duplicate_chatgpt_auth_warnings(&duplicates).join("\n");
    assert!(warning.contains("ChatGPT auth snapshot reused by: openai, openai_work"));
    assert!(warning.contains("refresh_token_reused"));
    assert!(print_duplicate_chatgpt_auth_warnings(&Vec::new()).is_empty());
    assert!(!is_chatgpt_auth_snapshot(b"\xff"));
    assert!(!is_chatgpt_auth_snapshot(b"{\"auth_mode\":1}"));
}

#[test]
fn several_duplicates_are_told_in_order() {
    let login = |profile: &str, mark: &str| StoredLogin {
        profile: profile.to_string(),
        content: format!("{{\"auth_mode\":\"chatgpt\",\"m\":\"{mark}\"}}").into_bytes(),
    };
    let duplicates = find_duplicate_chatgpt_auth_snapshots(&vec![
        login("d", "x"),
        login("c", "y"),
        login("b", "y"),
        login("a", "x"),
    ]);
    assert_eq!(
        duplicates
            .iter()
            .map(|duplicate| duplicate.profiles.join(","))
            .collect::<Vec<_>>(),
        texts(&["a,d", "b,c"])
    );
}

#[test]
fn a_login_is_restored_or_built() {
    let pairs = vec![
        ("b".to_string(), "2\"".to_string()),
        ("OPENAI_API_KEY".to_string(), "k".to_string()),
    ];
    let built = "{\n  \"OPENAI_API_KEY\": \"k\",\n  \"b\": \"2\\\"\"\n}\n";
    assert_eq!(auth_content(&pairs), built);
    assert_eq!(write_auth(None, &pairs), AuthSource::Built(built.to_string()));
    assert_eq!(
        write_auth(Some(b"raw \xff".to_vec()), &pairs),
        AuthSource::Snapshot(b"raw \xff".to_vec())
    );
    assert_eq!(auth_content(&Vec::new()), "{}\n");
}

#[test]
fn the_login_in_use_tells_its_provider() {
    let none = read_auth(None).unwrap();
    assert_eq!(none.len(), 0);
    assert_eq!(detect_auth_provider(&none), None);
    assert!(read_auth(Some("[]")).is_none());
    assert!(read_auth(Some("no")).is_none());
    let auth = read_auth(Some("{\"auth_mode\":\"chatgpt\",\"n\":null}")).unwrap();
    assert_eq!(auth.len(), 2);
    assert_eq!(detect_auth_provider(&auth).as_deref(), Some("openai"));
    let other = read_auth(Some("{\"auth_mode\":\"apikey\"}")).unwrap();
    assert_eq!(detect_auth_provider(&other), None);
}

const CONFIG: &str = "model_provider = \"old\"\nmodel = \"gpt-5.4\"\nnotify = [\"a\", \"b\"]\nmodel_context_window = 9\nmodel_catalog_json = \"x\"\n\n[model_providers.old]\nname = \"Old\"\n\n[projects.\"/p\"]\ntrust_level = \"trusted\"\n";

#[test]
fn the_common_configuration_names_no_provider() {
    let common = extract_common_config(CONFIG).unwrap();
    assert_eq!(
        common,
        "notify = [\"a\", \"b\"]\n\n[projects.\"/p\"]\ntrust_level = \"trusted\"\n"
    );
    assert_eq!(extract_common_config(&common).unwrap(), common);
    assert_eq!(extract_common_config("= no"), Err(UnreadableConfig));
    assert_eq!(
        read_current_model_provider(Some(CONFIG)),
        Ok(Some("old".to_string()))
    );
    assert_eq!(read_current_model_provider(Some(&common)), Ok(None));
    assert_eq!(read_current_model_provider(Some("model_provider = 1")), Ok(None));
    assert_eq!(read_current_model_provider(None), Ok(None));
    assert_eq!(
        read_current_model_provider(Some("= no")),
        Err(UnreadableConfig)
    );
}

#[test]
fn a_native_profile_needs_no_section() {
    let common = "notify = [\"a\", \"b\"]\n\n[projects.\"/p\"]\ntrust_level = \"trusted\"\n";
    assert_eq!(
        merge_and_write_config(&profile("openai"), common).unwrap(),
        "model_provider = \"openai\"\nmodel = \"gpt-5.5\"\n\nnotify = [\"a\", \"b\"]\n\n\n[projects.\"/p\"]\ntrust_level = \"trusted\"\n"
    );
    assert_eq!(
        merge_and_write_config(&profile("openai"), "= no"),
        Err(MergeError::UnreadableCommon)
    );
}

#[test]
fn a_profile_is_merged_on_top_of_the_common_configuration() {
    let mut p = profile("proxy");
    p.provider.base_url = Some("http://x".to_string());
    p.provider.model_context_window = Some(1000);
    p.provider.model_auto_compact_token_limit = Some(900);
    p.provider.model_reasoning_effort = Some("high".to_string());
    p.provider.disable_response_storage = Some(true);
    p.provider.requires_openai_auth = Some(false);
    p.config_overrides = Some(vec![
        (
            "model_catalog_json".to_string(),
            toml::Value::String("c.json".to_string()),
        ),
        ("[skipped]".to_string(), toml::Value::Integer(1)),
        ("sandbox".to_string(), toml::Value::Boolean(true)),
    ]);
    let common = "sandbox = false\nmodel = \"no\"\nlevel = 3 # three\n\n[model_providers.old]\nname = \"Old\"\n\n[tools]\nweb = true\n";
    assert_eq!(
        merge_and_write_config(&p, common).unwrap(),
        "model_provider = \"proxy\"\nmodel = \"gpt-5.5\"\nmodel_context_window = 1000\nmodel_auto_compact_token_limit = 900\n\nlevel = 3 # three\nmodel_reasoning_effort = \"high\"\ndisable_response_storage = true\n\nmodel_catalog_json = \"c.json\"\nsandbox = true\n\n[model_providers]\n[model_providers.proxy]\nname = \"Display\"\nwire_api = \"responses\"\nrequires_openai_auth = false\nbase_url = \"http://x\"\n\n\n[tools]\nweb = true\n"
    );
    let kept = merge_and_write_config(
        &p,
        "model_reasoning_effort = \"low\"\ndisable_response_storage = false\n",
    )
    .unwrap();
    assert!(kept.contains("model_reasoning_effort = \"low\"\ndisable_response_storage = false\n\n"));
    assert!(!kept.contains("high"));
}

fn overriding(key: &str, value: toml::Value) -> ProviderProfile {
    let mut p = profile("openai");
    p.config_overrides = Some(vec![(key.to_string(), value)]);
    p
}

fn table(members: &[(&str, toml::Value)]) -> toml::Value {
    let mut made = toml::map::Map::new();
    for (key, value) in members {
        made.insert(key.to_string(), value.clone());
    }
    toml::Value::Table(made)
}

fn reads(text: &str) -> toml::Value {
    toml::from_str(text).unwrap()
}

#[test]
fn an_override_is_laid_over_a_common_section() {
    let common = "[plugins]\nlevel = 1\n\n[plugins.\"some-plugin@marketplace\"]\nenabled = true\nextra = 2\n\n[plugins.other]\nenabled = true\n";
    let off = table(&[("enabled", toml::Value::Boolean(false))]);
    let merged = merge_and_write_config(
        &overriding("plugins.\"some-plugin@marketplace\"", off.clone()),
        common,
    )
    .unwrap();
    let read = reads(&merged);
    let plugin = &read["plugins"]["some-plugin@marketplace"];
    assert_eq!(plugin["enabled"], toml::Value::Boolean(false));
    assert_eq!(plugin["extra"], toml::Value::Integer(2));
    assert_eq!(read["plugins"]["other"]["enabled"], toml::Value::Boolean(true));
    assert_eq!(read["plugins"]["level"], toml::Value::Integer(1));
    assert_eq!(
        merged,
        "model_provider = \"openai\"\nmodel = \"gpt-5.5\"\n\n\n[plugins]\nlevel = 1\n\n[plugins.\"some-plugin@marketplace\"]\nenabled = false\nextra = 2\n\n[plugins.other]\nenabled = true\n"
    );

    let deeper = merge_and_write_config(
        &overriding("plugins.new.deep.level", toml::Value::Integer(7)),
        common,
    )
    .unwrap();
    let read = reads(&deeper);
    assert_eq!(read["plugins"]["new"]["deep"]["level"], toml::Value::Integer(7));
    assert_eq!(read["plugins"]["other"]["enabled"], toml::Value::Boolean(true));

    let in_the_way = merge_and_write_config(
        &overriding("plugins.level.now", toml::Value::Integer(7)),
        common,
    )
    .unwrap();
    assert_eq!(reads(&in_the_way)["plugins"]["level"]["now"], toml::Value::Integer(7));

    let whole = merge_and_write_config(
        &overriding("plugins", table(&[("other", off)])),
        common,
    )
    .unwrap();
    let read = reads(&whole);
    assert_eq!(read["plugins"]["other"]["enabled"], toml::Value::Boolean(false));
    assert_eq!(read["plugins"]["level"], toml::Value::Integer(1));
}

#[test]
fn an_override_takes_the_place_of_what_it_cannot_be_laid_over() {
    let replaced = merge_and_write_config(
        &overriding("tools", toml::Value::Boolean(false)),
        "[tools]\nweb = true\n\n[other]\na = 1\n",
    )
    .unwrap();
    assert_eq!(
        replaced,
        "model_provider = \"openai\"\nmodel = \"gpt-5.5\"\n\n\ntools = false\n\n\n[other]\na = 1\n"
    );
    let list = merge_and_write_config(
        &overriding("tools.web", toml::Value::Boolean(false)),
        "[[tools]]\nweb = true\n",
    )
    .unwrap();
    assert_eq!(reads(&list)["tools"]["web"], toml::Value::Boolean(false));
    let inline = merge_and_write_config(
        &overriding("tools.web", toml::Value::Boolean(false)),
        "tools = { web = true, depth = 3 }\n",
    )
    .unwrap();
    let read = reads(&inline);
    assert_eq!(read["tools"]["web"], toml::Value::Boolean(false));
    assert_eq!(read["tools"]["depth"], toml::Value::Integer(3));
    let absent = merge_and_write_config(
        &overriding("tools.web", toml::Value::Boolean(false)),
        "level = 1\n",
    )
    .unwrap();
    assert!(absent.contains("tools.web = false\n"));
}

#[test]
fn an_override_comes_before_the_defaults_of_a_profile() {
    let mut p = overriding("model_reasoning_effort", toml::Value::String("low".to_string()));
    p.provider.model_reasoning_effort = Some("high".to_string());
    p.provider.disable_response_storage = Some(true);
    let merged = merge_and_write_config(&p, "").unwrap();
    let read = reads(&merged);
    assert_eq!(read["model_reasoning_effort"], toml::Value::String("low".to_string()));
    assert_eq!(read["disable_response_storage"], toml::Value::Boolean(true));
}

#[test]
fn an_override_without_notation_is_refused() {
    let nothing = toml::value::Datetime { date: None, time: None, offset: None };
    let list = toml::Value::Array(vec![toml::Value::Datetime(nothing)]);
    assert_eq!(
        merge_and_write_config(&overriding("when", list.clone()), ""),
        Err(MergeError::UnwritableOverride)
    );
    assert_eq!(
        merge_and_write_config(&overriding("tools.when", list.clone()), "[tools]\nweb = true\n"),
        Err(MergeError::UnwritableOverride)
    );
    assert!(merge_and_write_config(&overriding("[skipped]", list), "").is_ok());
}

#[test]
fn settings_have_paths() {
    assert_eq!(path_of_setting("plain-key_1"), texts(&["plain-key_1"]));
    assert_eq!(path_of_setting("a.\"b.c\".d"), texts(&["a", "b.c", "d"]));
    assert_eq!(path_of_setting("no key"), texts(&["no key"]));
}

#[test]
fn a_merged_configuration_names_its_provider_and_keeps_what_is_common() {
    let common = "notify = [\"a\", \"b\"]\n\n[projects.\"/p\"]\ntrust_level = \"trusted\"\n";
    for name in ["openai", "proxy"] {
        let merged = merge_and_write_config(&profile(name), common).unwrap();
        assert_eq!(
            read_current_model_provider(Some(&merged)),
            Ok(Some(name.to_string()))
        );
        let again = extract_common_config(&merged).unwrap();
        assert_eq!(
            merge_and_write_config(&profile(name), &again).unwrap().replace("\n\n", "\n"),
            merged.replace("\n\n", "\n")
        );
        assert!(!again.contains("model"));
    }
}

#[test]
fn earlier_files_become_sources() {
    let sources = discover_sources(&texts(&[
        "config_work.toml",
        "auth_work.json",
        "config_.toml",
        "config.toml",
        "auth_lone.json",
        "config_x.json",
    ]));
    assert_eq!(
        sources,
        vec![
            MigrationSource {
                config_path: "config_work.toml".to_string(),
                auth_path: "auth_work.json".to_string(),
                profile_name: "work".to_string(),
            },
            MigrationSource {
                config_path: "config_.toml".to_string(),
                auth_path: String::new(),
                profile_name: String::new(),
            },
        ]
    );
    assert_eq!(
        source_line(&sources[0]),
        "  - work (config: config_work.toml, auth: auth_work.json)"
    );
    assert_eq!(
        source_line(&sources[1]),
        "  -  (config: config_.toml, auth: (no auth))"
    );
    assert_eq!(login_file_name("work"), "auth_work.json");
    assert_eq!(profile_of_login_file("auth_work.json").as_deref(), Some("work"));
    assert_eq!(profile_of_login_file("auth.json"), None);
    assert_eq!(strip_both("abc", "a", "c").as_deref(), Some("b"));
    assert_eq!(strip_both("abc", "ab", "bc"), None);
}

#[test]
fn the_longest_configuration_is_the_base() {
    let some = |text: &str| Some(text.to_string());
    assert_eq!(
        find_richest_config(&vec![some("a"), None, some("a\nb\n"), some("c\nd")]),
        Some(2)
    );
    assert_eq!(find_richest_config(&vec![some(""), None]), None);
}

#[test]
fn a_migration_begins_with_the_common_configuration() {
    let some = |text: &str| Some(text.to_string());
    assert_eq!(
        init_migrate(Some("model = \"m\"\na = 1\n"), &vec![some("b = 1\nc = 2\n")]),
        Ok(Migration {
            base: MigrationBase::Current,
            common: "a = 1\n".to_string(),
        })
    );
    assert_eq!(
        init_migrate(None, &vec![None, some("b = 1\nmodel = \"m\"\n"), some("c = 1\n")]),
        Ok(Migration {
            base: MigrationBase::Source(1),
            common: "b = 1\n".to_string(),
        })
    );
    assert_eq!(
        init_migrate(Some("= no"), &Vec::new()),
        Err(MigrationError::UnreadableBase)
    );
    assert_eq!(
        init_migrate(None, &vec![some("= no")]),
        Err(MigrationError::UnreadableBase)
    );
    assert_eq!(
        init_migrate(None, &vec![None, some("")]),
        Err(MigrationError::NothingReadable)
    );
    assert_eq!(
        MigrationError::NothingReadable.message(),
        "No readable config files found"
    );
    assert_eq!(
        MigrationError::UnreadableBase.message(),
        "Failed to parse config content"
    );
}

#[test]
fn a_source_becomes_a_profile() {
    let config = "model_provider = \"proxy\"\nmodel = \"m\"\nmodel_context_window = 5\nmodel_reasoning_effort = \"low\"\ndisable_response_storage = true\n\n[model_providers.proxy]\nname = \"The Proxy\"\nbase_url = \"http://x\"\nwire_api = \"chat\"\nrequires_openai_auth = false\n";
    let login = "{\"auth_mode\":\"chatgpt\",\"OPENAI_API_KEY\":null,\"tokens\":{\"a\":1}}";
    let p = create_profile_from_source(config, Some(login), "work").unwrap();
    assert_eq!(p.provider.model_provider, "proxy");
    assert_eq!(p.provider.name, "The Proxy");
    assert_eq!(p.provider.model, "m");
    assert_eq!(p.provider.base_url.as_deref(), Some("http://x"));
    assert_eq!(p.provider.wire_api.as_deref(), Some("chat"));
    assert_eq!(p.provider.requires_openai_auth, Some(false));
    assert_eq!(p.provider.model_context_window, Some(5));
    assert_eq!(p.provider.model_auto_compact_token_limit, None);
    assert_eq!(p.provider.model_reasoning_effort.as_deref(), Some("low"));
    assert_eq!(p.provider.disable_response_storage, Some(true));
    let mut pairs = p.auth;
    pairs.sort();
    assert_eq!(
        pairs,
        vec![
            (
                "_note".to_string(),
                "Full auth stored in work.auth.json (contains tokens/complex fields)".to_string()
            ),
            ("auth_mode".to_string(), "chatgpt".to_string()),
        ]
    );
    assert!(p.config_overrides.is_none());

    let bare = create_profile_from_source("model_context_window = -1", Some("no"), "bare").unwrap();
    assert_eq!(bare.provider.model_provider, "bare");
    assert_eq!(bare.provider.name, "bare");
    assert_eq!(bare.provider.model, "unknown");
    assert_eq!(bare.provider.model_context_window, Some(u64::MAX));
    assert!(bare.auth.is_empty());
    assert!(matches!(
        create_profile_from_source("= no", None, "x"),
        Err(UnreadableSource)
    ));
}

#[test]
fn logins_are_imported_for_known_profiles() {
    assert_eq!(
        import_all_auth(
            &texts(&["auth_b.json", "auth.json", "auth_a.json", "auth_.json"]),
            &texts(&["a", "c"])
        ),
        vec![
            AuthImport {
                file: "auth_b.json".to_string(),
                profile: "b".to_string(),
                known: false,
            },
            AuthImport {
                file: "auth_a.json".to_string(),
                profile: "a".to_string(),
                known: true,
            },
            AuthImport {
                file: "auth_.json".to_string(),
                profile: String::new(),
                known: false,
            },
        ]
    );
}

#[test]
fn a_new_profile_speaks_the_standard_interface() {
    let asked = |wire_api: Option<&str>, key: Option<&str>| NewProfile {
        name: "n".to_string(),
        model_provider: "p".to_string(),
        model: "m".to_string(),
        base_url: None,
        api_key: key.map(str::to_string),
        wire_api: wire_api.map(str::to_string),
        context_window: Some(8),
        auto_compact_limit: None,
    };
    let p = new_profile(asked(None, Some("k")));
    assert_eq!(p.provider.wire_api.as_deref(), Some("responses"));
    assert_eq!(p.provider.name, "n");
    assert_eq!(p.provider.model_context_window, Some(8));
    assert_eq!(
        p.auth,
        vec![("OPENAI_API_KEY".to_string(), "k".to_string())]
    );
    let p = new_profile(asked(Some("chat"), None));
    assert_eq!(p.provider.wire_api.as_deref(), Some("chat"));
    assert!(p.auth.is_empty());
}

const LOGIN: &str = "{\"auth_mode\":\"chatgpt\",\"last_refresh\":\"2026-06-01T00:00:00Z\",\"tokens\":{\"refresh_token\":\"r\"},\"OPENAI_API_KEY\":\"k\"}";

#[test]
fn a_login_becomes_a_profile() {
    let existing = texts(&["openai", "openai_1", "x"]);
    let (saved, p) = login_and_save(options(None), Some(LOGIN), &existing, "/h/.codex").unwrap();
    assert_eq!(saved.profile_name, "openai_2");
    assert_eq!(
        saved.auth_snapshot,
        "/h/.codex/providers/openai_2.auth.json"
    );
    assert_eq!(p.provider.model_provider, "openai");
    assert_eq!(p.provider.name, "openai_2");
    assert_eq!(p.provider.model, "gpt-5.5");
    assert_eq!(p.provider.model_context_window, Some(1_000_000));
    assert_eq!(p.provider.model_auto_compact_token_limit, Some(920_000));
    assert_eq!(p.provider.model_reasoning_effort.as_deref(), Some("high"));
    assert_eq!(p.provider.disable_response_storage, Some(true));
    let mut pairs = p.auth;
    pairs.sort();
    assert_eq!(
        pairs,
        vec![
            (
                "_note".to_string(),
                "Full auth stored in openai_2.auth.json (contains tokens/complex fields)"
                    .to_string()
            ),
            ("auth_mode".to_string(), "chatgpt".to_string()),
            (
                "last_refresh".to_string(),
                "2026-06-01T00:00:00Z".to_string()
            ),
        ]
    );
    assert_eq!(next_profile_name("openai", &existing), "openai_2");
    assert_eq!(next_profile_name("y", &existing), "y");
}

#[test]
fn logins_are_refused_with_a_reason() {
    let existing = Vec::new();
    let refused = |name: Option<&str>, content: Option<&str>| {
        match login_and_save(options(name), content, &existing, "/h") {
            Ok(_) => None,
            Err(error) => Some(error),
        }
    };
    assert_eq!(refused(None, None), Some(LoginError::NoLogin));
    assert_eq!(refused(None, Some("no")), Some(LoginError::UnreadableLogin));
    assert_eq!(
        refused(None, Some("{\"auth_mode\":\"apikey\"}")),
        Some(LoginError::NoTokens)
    );
    assert_eq!(refused(Some("  "), Some(LOGIN)), Some(LoginError::EmptyName));
    for name in ["a/b", "a\\b", ".", ".."] {
        assert_eq!(
            refused(Some(name), Some(LOGIN)),
            Some(LoginError::NameWithSeparators)
        );
    }
    assert_eq!(refused(Some(" work "), Some(LOGIN)), None);
    assert_eq!(validate_profile_name(" work "), Ok("work".to_string()));
    assert_eq!(
        validate_chatgpt_auth("{\"auth_mode\":\"chatgpt\",\"tokens\":[]}"),
        Err(LoginError::NoTokens)
    );
    assert_eq!(validate_chatgpt_auth(LOGIN), Ok(()));
    assert_eq!(
        summarize_auth("[]", "x"),
        Err(LoginError::UnreadableLogin)
    );
    assert_eq!(
        LoginError::NoLogin.message(),
        "Codex login finished, but no auth.json was written"
    );
    assert_eq!(
        LoginError::NoTokens.message(),
        "login did not produce ChatGPT auth tokens"
    );
    assert_eq!(
        LoginError::EmptyName.message(),
        "profile name cannot be empty"
    );
    assert_eq!(
        LoginError::NameWithSeparators.message(),
        "profile name cannot contain path separators"
    );
}
