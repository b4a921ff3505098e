use lex_preview::paths::{file_name_of_path, join_relative, path_is_absolute};
use lex_preview::preview::is_lex_path;
use lex_preview::render::image_candidate_path;

fn file_name(path: &str) -> Option<String> {
    file_name_of_path(path)
}

#[test]
fn file_name_is_the_last_component() {
    assert_eq!(file_name("doc.lex").as_deref(), Some("doc.lex"));
    assert_eq!(file_name("notes/doc.lex").as_deref(), Some("doc.lex"));
    assert_eq!(file_name("/home/me/notes/doc.lex").as_deref(), Some("doc.lex"));
    assert_eq!(file_name("notes/dir/").as_deref(), Some("dir"));
    assert_eq!(file_name("notes/dir//").as_deref(), Some("dir"));
    assert_eq!(file_name("notes/dir/.").as_deref(), Some("dir"));
    assert_eq!(file_name("./doc.lex").as_deref(), Some("doc.lex"));
    assert_eq!(file_name("...").as_deref(), Some("..."));
    assert_eq!(file_name("notes/..").as_deref(), None);
    assert_eq!(file_name("..").as_deref(), None);
    assert_eq!(file_name(".").as_deref(), None);
    assert_eq!(file_name("/").as_deref(), None);
    assert_eq!(file_name("").as_deref(), None);
}

#[test]
fn file_name_agrees_with_std_path() {
    for path in [
        "doc.lex", "a/b/c.lex", "a/b/", "a/./", "./", "a/..", "/", "", "x//y", "é/ü.lex", ".lex",
    ] {
        let expected = std::path::Path::new(path)
            .file_name()
            .map(|name| name.to_str().unwrap().to_string());
        assert_eq!(file_name_of_path(path), expected, "path {path:?}");
    }
}

#[test]
fn lex_paths_are_judged_on_their_file_name() {
    assert!(is_lex_path("notes/doc.lex"));
    assert!(is_lex_path("/abs/DOC.LEX"));
    assert!(!is_lex_path("notes.lex/doc.md"));
    assert!(!is_lex_path("notes/.lex"));
    assert!(!is_lex_path("notes/doc.lex/.."));
}

#[test]
fn absolute_paths_start_at_the_root() {
    assert!(path_is_absolute("/a/b"));
    assert!(!path_is_absolute("a/b"));
    assert!(!path_is_absolute(""));
}

#[test]
fn relative_paths_join_with_one_separator() {
    assert_eq!(join_relative("/docs", "img/a.png"), "/docs/img/a.png");
    assert_eq!(join_relative("/docs/", "a.png"), "/docs/a.png");
    assert_eq!(join_relative("", "a.png"), "a.png");
    for (dir, rest) in [("/docs", "a.png"), ("/docs/", "a.png"), ("", "a.png"), ("d", "")] {
        let expected = std::path::Path::new(dir).join(rest).to_str().unwrap().to_string();
        assert_eq!(join_relative(dir, rest), expected, "{dir:?} + {rest:?}");
    }
}

#[test]
fn image_candidates_follow_the_source() {
    assert_eq!(image_candidate_path(Some("/pics/a.png"), Some("/docs")).as_deref(), Some("/pics/a.png"));
    assert_eq!(image_candidate_path(Some("/pics/a.png"), None).as_deref(), Some("/pics/a.png"));
    assert_eq!(image_candidate_path(Some("img/a.png"), Some("/docs")).as_deref(), Some("/docs/img/a.png"));
    assert_eq!(image_candidate_path(Some("img/a.png"), None), None);
    assert_eq!(image_candidate_path(None, Some("/docs")), None);
}
