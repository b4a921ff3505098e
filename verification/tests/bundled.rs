use lex_preview::bundled::{
    bundled_extension_ids, extension_id_of, install_decision, manifest_path,
    relative_path_in_extension, staging_dir_name, InstallDecision,
};

fn strings(items: &[&str]) -> Vec<String> {
    items.iter().map(|item| item.to_string()).collect()
}

#[test]
fn ids_are_the_distinct_sorted_top_directories() {
    let paths = strings(&[
        "lex/extension.toml",
        "lex/extension.wasm",
        "zed-x/a",
        "README",
        "abc/x/y",
        "lex/grammars/lex.wasm",
        "/rooted",
    ]);
    assert_eq!(bundled_extension_ids(&paths), strings(&["", "abc", "lex", "zed-x"]));
    assert!(bundled_extension_ids(&paths).contains(&"lex".to_string()));
    assert_eq!(bundled_extension_ids(&vec![]), Vec::<String>::new());
    assert_eq!(extension_id_of("lex/languages/lex/config.toml").as_deref(), Some("lex"));
    assert_eq!(extension_id_of("README"), None);
}

#[test]
fn install_only_when_needed() {
    assert_eq!(install_decision(false, "1.2.0", None), InstallDecision::Install);
    assert_eq!(
        install_decision(false, "1.2.0", Some("1.2.0")),
        InstallDecision::UpToDate,
        "same-version install must not rewrite"
    );
    assert_eq!(
        install_decision(false, "1.2.0", Some("0.0.0")),
        InstallDecision::Install,
        "upgrade must replace the extension dir"
    );
    assert_eq!(
        install_decision(true, "1.2.0", Some("0.0.0")),
        InstallDecision::KeepDevExtension,
        "dev extension symlink must be preserved"
    );
}

#[test]
fn files_of_an_extension() {
    assert_eq!(
        relative_path_in_extension("lex/grammars/lex.wasm", "lex").as_deref(),
        Some("grammars/lex.wasm")
    );
    assert_eq!(relative_path_in_extension("lexicon/x", "lex"), None);
    assert_eq!(relative_path_in_extension("lex", "lex"), None);
    assert_eq!(relative_path_in_extension("lex/", "lex").as_deref(), Some(""));
    assert_eq!(manifest_path("lex"), "lex/extension.toml");
    assert_eq!(
        relative_path_in_extension(&manifest_path("lex"), "lex").as_deref(),
        Some("extension.toml")
    );
    assert_eq!(staging_dir_name("lex"), ".lex.lexed-staging");
}
