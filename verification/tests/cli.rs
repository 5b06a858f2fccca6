use rcli::cli::base64::parse_base64_format;
use rcli::cli::csv::parse_format as parse_output_format;
use rcli::cli::text::parse_format;
use rcli::cli::{verify_file, verify_path};
use rcli::{Base64Format, Error, Outputformat, TextSignFormat};

#[test]
fn test_verify_input_file() {
    assert_eq!(verify_file("-"), Ok("-".into()));
    assert_eq!(verify_file("*"), Err("File does not exist!"));
    // acceptance of a real name follows the filesystem; the manifest
    // is present only where the package is laid out whole
    let expected = if std::path::Path::new("Cargo.toml").exists() {
        Ok("Cargo.toml".into())
    } else {
        Err("File does not exist!")
    };
    assert_eq!(verify_file("Cargo.toml"), expected);
    assert_eq!(verify_file("src"), Ok("src".into()));
    assert_eq!(verify_file("not_exist.csv"), Err("File does not exist!"));
}

#[test]
fn verify_path_accepts_directories_only() {
    assert_eq!(verify_path("."), Ok(".".into()));
    assert_eq!(
        verify_path("Cargo.toml"),
        Err("Path does not exist or is not a directory!")
    );
    assert_eq!(
        verify_path("no_such_directory_here"),
        Err("Path does not exist or is not a directory!")
    );
}

#[test]
fn text_format_tags_parse_exhaustively() {
    assert_eq!(parse_format("blake3"), Ok(TextSignFormat::Blake3));
    assert_eq!(parse_format("ed25519"), Ok(TextSignFormat::Ed25519));
    assert_eq!(parse_format("BLAKE3"), Err(Error::Format));
    assert_eq!(parse_format(""), Err(Error::Format));
    assert_eq!("blake3".parse::<TextSignFormat>(), Ok(TextSignFormat::Blake3));
    assert_eq!(TextSignFormat::Blake3.as_str(), "blake3");
    assert_eq!(TextSignFormat::Ed25519.as_str(), "ed25519");
}

#[test]
fn output_format_tags_parse_exhaustively() {
    assert_eq!(parse_output_format("json"), Ok(Outputformat::Json));
    assert_eq!(parse_output_format("yaml"), Ok(Outputformat::Yaml));
    assert_eq!(parse_output_format("toml"), Err(Error::Format));
    assert_eq!(Outputformat::Json.as_str(), "json");
    assert_eq!(Outputformat::Yaml.as_str(), "yaml");
}

#[test]
fn base64_format_tags_parse_exhaustively() {
    assert_eq!(parse_base64_format("standard"), Ok(Base64Format::Standard));
    assert_eq!(parse_base64_format("urlsafe"), Ok(Base64Format::UrlSafe));
    assert_eq!(parse_base64_format("nopad"), Err(Error::Format));
}
