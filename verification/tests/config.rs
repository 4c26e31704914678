use noissh::config::{
    config_dir, config_file_path, is_loose, join, keypair_text, parse_config, parse_keypair,
};
use noissh::error::RuntimeError;
use noissh::noise::{generate_keypair, Keypair};

#[test]
fn keypair_persists_and_reloads() {
    let k1 = generate_keypair().unwrap();
    let text = keypair_text(&k1);
    let k2 = parse_keypair(&text).unwrap();
    assert_eq!(k1.private, k2.private);
    assert_eq!(k1.public, k2.public);
}

#[test]
fn key_file_has_two_lines() {
    let k = Keypair { private: vec![0; 32], public: vec![255; 32] };
    assert_eq!(
        keypair_text(&k),
        "private AAAAAAAAAAAAAAAAAAAAAAAAAAAAAAAAAAAAAAAAAAA=\n\
         public //////////////////////////////////////////8=\n"
    );
}

#[test]
fn key_file_without_both_keys_is_refused() {
    assert!(matches!(parse_keypair(""), Err(RuntimeError::BadKeyFile)));
    assert!(matches!(parse_keypair("private AAAA\n"), Err(RuntimeError::BadKeyFile)));
    assert!(matches!(
        parse_keypair("private AAAA\npublic %%%%\n"),
        Err(RuntimeError::BadKeyFile)
    ));
    let k = parse_keypair("# mine\nprivate AAAA\n\npublic AQID\n").unwrap();
    assert_eq!(k.private, vec![0, 0, 0]);
    assert_eq!(k.public, vec![1, 2, 3]);
}

#[test]
fn config_parses_valid_lines_both_separators() {
    // Both `key = value` and `key value` separators work; unknown keys ignored.
    let cfg = parse_config("port = 2222\nterm xterm-256color\n");
    assert_eq!(cfg.port, Some(2222));
    assert_eq!(parse_config("port 2222").port, Some(2222));
}

#[test]
fn config_ignores_comments_and_blank_lines() {
    let body = "# a comment\n\n   \n  # indented comment\nport=51820\n";
    assert_eq!(parse_config(body).port, Some(51820));
}

#[test]
fn config_missing_file_returns_default() {
    // A file that is not there reads as an empty one.
    assert_eq!(parse_config("").port, None);
}

#[test]
fn config_ignores_bad_and_unknown_lines() {
    // Bad port value, unknown key, bare key with no value, and a junk line
    // are all skipped without aborting the parse.
    let body = "port = not-a-number\nunknown = whatever\nbareword\n=novalue\n";
    assert_eq!(parse_config(body).port, None); // bad value ignored, no default applied here
    assert_eq!(parse_config("port = 70000\nport = 1\n").port, Some(1));
}

#[test]
fn config_file_path_is_under_config_dir() {
    let dir = config_dir(Some("/x".to_string()), Some("/home/u".to_string()));
    assert_eq!(config_file_path(&dir), join(&dir, "config"));
    assert_eq!(config_file_path(&dir), "/x/noissh/config");
}

#[test]
fn config_dir_falls_back_to_home() {
    assert_eq!(config_dir(Some(String::new()), Some("/home/u".to_string())), "/home/u/.config/noissh");
    assert_eq!(config_dir(None, Some("/home/u".to_string())), "/home/u/.config/noissh");
    assert_eq!(config_dir(None, None), "./.config/noissh");
}

#[test]
fn key_files_readable_by_others_are_loose() {
    assert!(is_loose(0o100644));
    assert!(is_loose(0o100640));
    assert!(is_loose(0o100601));
    assert!(!is_loose(0o100600));
    assert!(!is_loose(0o100700));
}
