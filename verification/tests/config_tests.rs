use minigrep::search_configured;
use minigrep::Config;
use minigrep::ConfigError;

#[test]
fn build_without_query_fails() {
    let tokens = vec![String::from("progname")];
    assert_eq!(ConfigError::MissingQuery, Config::build(&tokens, false).unwrap_err());
}

#[test]
fn build_without_file_path_fails() {
    let tokens = vec![String::from("progname"), String::from("foo")];
    assert_eq!(ConfigError::MissingFilePath, Config::build(&tokens, false).unwrap_err());
}

#[test]
fn build_with_no_tokens_fails_on_query() {
    let tokens: Vec<String> = Vec::new();
    assert_eq!(ConfigError::MissingQuery, Config::build(&tokens, true).unwrap_err());
}

#[test]
fn build_extracts_query_and_path() {
    let tokens = vec![
        String::from("progname"),
        String::from("needle"),
        String::from("hay.txt"),
        String::from("extra"),
    ];
    let config = Config::build(&tokens, false).unwrap();
    assert_eq!("needle", config.query);
    assert_eq!("hay.txt", config.file_path);
    assert!(!config.ignore_case);
    let config = Config::build(&tokens, true).unwrap();
    assert!(config.ignore_case);
}

#[test]
fn configured_search_follows_the_flag() {
    let tokens = vec![String::from("progname"), String::from("rUst"), String::from("poem.txt")];
    let contents = "Rust:\nsafe, fast, productive.\nPick three.\nDuct tape.\nTrust Me.";

    let sensitive = Config::build(&tokens, false).unwrap();
    assert_eq!(Vec::<&str>::new(), search_configured(&sensitive, contents));

    let insensitive = Config::build(&tokens, true).unwrap();
    assert_eq!(vec!["Rust:", "Trust Me."], search_configured(&insensitive, contents));
}

#[test]
fn error_messages_name_the_missing_token() {
    assert_eq!("Did not find query string!", ConfigError::MissingQuery.message());
    assert_eq!("Did not find file path string!", ConfigError::MissingFilePath.message());
}
