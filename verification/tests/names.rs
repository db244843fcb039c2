use finch::names::{file_stem_of, identifier_of};
use finch::{output_files, output_name};

#[test]
fn identifier_replaces_hyphens() {
    assert_eq!(identifier_of("my-asset.txt"), "my_asset");
    assert_eq!(identifier_of("a-b-c"), "a_b_c");
    assert_eq!(identifier_of("-"), "_");
    assert_eq!(identifier_of("--x--.bin"), "__x__");
}

#[test]
fn identifier_without_hyphen_is_the_stem() {
    assert_eq!(identifier_of("plain.bin"), "plain");
    assert_eq!(identifier_of("plain"), "plain");
    assert_eq!(identifier_of("under_score.md"), "under_score");
}

#[test]
fn identifier_is_not_otherwise_sanitized() {
    assert_eq!(identifier_of("my file.txt"), "my file");
    assert_eq!(identifier_of("1st.txt"), "1st");
    assert_eq!(identifier_of("x.y.z"), "x.y");
    assert_eq!(identifier_of("caf\u{e9}-au-lait.txt"), "caf\u{e9}_au_lait");
}

#[test]
fn identifier_keeps_hyphens_of_the_extension_out() {
    assert_eq!(identifier_of("a.b-c"), "a");
}

#[test]
fn stem_of_plain_names() {
    assert_eq!(file_stem_of("a.txt"), "a");
    assert_eq!(file_stem_of("archive.tar.gz"), "archive.tar");
    assert_eq!(file_stem_of("noext"), "noext");
    assert_eq!(file_stem_of("my-asset.txt"), "my-asset");
}

#[test]
fn stem_of_edge_names() {
    assert_eq!(file_stem_of(""), "");
    assert_eq!(file_stem_of(".hidden"), ".hidden");
    assert_eq!(file_stem_of(".hidden.txt"), ".hidden");
    assert_eq!(file_stem_of("a."), "a");
    assert_eq!(file_stem_of("."), ".");
    assert_eq!(file_stem_of(".."), "..");
    assert_eq!(file_stem_of("..."), "..");
    assert_eq!(file_stem_of("..a"), ".");
}

#[test]
fn stem_agrees_with_std_paths() {
    for name in ["a.txt", "a", ".a", "a.", "a..b", "..a", "a.b.c", ".a.md", "a-b.rs", "...", "x.y-z"] {
        let expected = std::path::Path::new(name).file_stem().unwrap().to_str().unwrap();
        assert_eq!(file_stem_of(name), expected, "{}", name);
    }
}

#[test]
fn output_name_prefers_the_given_name() {
    assert_eq!(output_name(Some("bundle".to_string()), Some("assets")), Some("bundle".to_string()));
    assert_eq!(output_name(Some("my.name".to_string()), Some("assets")), Some("my.name".to_string()));
    assert_eq!(output_name(Some(String::new()), Some("assets")), Some(String::new()));
    assert_eq!(output_name(Some("bundle".to_string()), None), Some("bundle".to_string()));
}

#[test]
fn output_name_defaults_to_the_directory_stem() {
    assert_eq!(output_name(None, Some("assets")), Some("assets".to_string()));
    assert_eq!(output_name(None, Some("assets.d")), Some("assets".to_string()));
    assert_eq!(output_name(None, Some("my-assets")), Some("my-assets".to_string()));
    assert_eq!(output_name(None, Some(".config")), Some(".config".to_string()));
}

#[test]
fn output_name_of_a_nameless_directory() {
    assert_eq!(output_name(None, None), None);
}

#[test]
fn output_files_in_single_file_mode() {
    assert_eq!(output_files("assets", false), ("assets.h".to_string(), None));
}

#[test]
fn output_files_in_two_file_mode() {
    assert_eq!(
        output_files("assets", true),
        ("assets.h".to_string(), Some("assets.c".to_string()))
    );
    assert_eq!(output_files("", true), (".h".to_string(), Some(".c".to_string())));
}
