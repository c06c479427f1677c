//! Tests for the option tree's dispatch and the colour-choice words.

use cargo_scripts::{
    run, AnsiColorChoice, Command, Opt, OptScripts, OptScriptsConfig, OptScriptsConfigRemove,
    OptScriptsConfigRmGistId, OptScriptsExport, OptScriptsGist, OptScriptsGistPush,
    OptScriptsInitWorkspace,
};

#[test]
fn dispatch_init_workspace() {
    let opt = Opt::Scripts(OptScripts::InitWorkspace(OptScriptsInitWorkspace {
        color: AnsiColorChoice::Auto,
        dry_run: true,
        path: ".".to_string(),
    }));
    match run(opt) {
        Command::InitWorkspace(o) => {
            assert!(o.dry_run);
            assert_eq!(o.path, ".");
        },
        _ => panic!("wrong command"),
    }
}

#[test]
fn dispatch_export() {
    let opt = Opt::Scripts(OptScripts::Export(OptScriptsExport {
        manifest_path: None,
        color: AnsiColorChoice::Never,
        package: "pkg".to_string(),
    }));
    match run(opt) {
        Command::Export(o) => assert_eq!(o.package, "pkg"),
        _ => panic!("wrong command"),
    }
}

#[test]
fn dispatch_gist_push() {
    let opt = Opt::Scripts(OptScripts::Gist(OptScriptsGist::Push(OptScriptsGistPush {
        manifest_path: None,
        color: AnsiColorChoice::Always,
        dry_run: false,
        set_upstream: true,
        private: false,
        description: Some("d".to_string()),
        package: "pkg".to_string(),
    })));
    match run(opt) {
        Command::GistPush(o) => {
            assert!(o.set_upstream);
            assert_eq!(o.description, Some("d".to_string()));
        },
        _ => panic!("wrong command"),
    }
}

#[test]
fn dispatch_config_remove_gist_id() {
    let opt = Opt::Scripts(OptScripts::Config(OptScriptsConfig::Remove(
        OptScriptsConfigRemove::GistId(OptScriptsConfigRmGistId {
            manifest_path: None,
            color: AnsiColorChoice::Auto,
            dry_run: false,
            package: "pkg".to_string(),
        }),
    )));
    match run(opt) {
        Command::ConfigRemoveGistId(o) => assert_eq!(o.package, "pkg"),
        _ => panic!("wrong command"),
    }
}

#[test]
fn colour_words_round_trip() {
    for (word, choice) in [
        ("auto", AnsiColorChoice::Auto),
        ("always", AnsiColorChoice::Always),
        ("never", AnsiColorChoice::Never),
    ] {
        assert_eq!(AnsiColorChoice::parse_choice(word), Some(choice));
        assert_eq!(choice.choice_name(), word);
    }
    assert_eq!(AnsiColorChoice::parse_choice("sometimes"), None);
}
