use std::path::PathBuf;

use limitcut::config::{Config, ConfigFile, DEFAULT_CONFIG_TEMPLATE};
use limitcut::error::{exit_code, LimitcutError};
use limitcut::binary64::Binary64;

#[test]
fn default_config_all_none() {
    let config: Config<PathBuf> = Config::default();
    assert!(config.encoder.is_none());
    assert!(config.fadein.is_none());
    assert!(config.fadeout.is_none());
    assert!(config.black_hold.is_none());
    assert!(config.overwrite.is_none());
    assert!(config.output_dir.is_none());
    assert!(config.blur.is_empty());
    assert!(config.discord_enabled.is_none());
    assert!(config.discord_webhook_url.is_none());
    assert!(config.discord_video_mode.is_none());
}

#[test]
fn parse_default_template_is_valid_toml() {
    // The commented-out template must parse as valid TOML (all lines are comments)
    let table: toml::Table = toml::from_str(DEFAULT_CONFIG_TEMPLATE).unwrap();
    assert!(table.is_empty());
}

#[test]
fn parse_malformed_toml_errors() {
    let result = toml::from_str::<toml::Table>("encoder = [invalid");
    let error = result.unwrap_err().to_string();
    let loaded = Config::<PathBuf>::load(ConfigFile::Malformed {
        path: "config.toml".to_owned(),
        error: error.clone(),
    });
    match loaded {
        Err(LimitcutError::ConfigParseError { path, source }) => {
            assert_eq!(path, "config.toml");
            assert_eq!(source, error);
        }
        other => panic!("{other:?}"),
    }
}

#[test]
fn config_path_is_some() {
    // On any real system there is a configuration directory
    let dir = dirs::config_dir();
    let path = Config::path(dir.as_ref());
    if let Some(p) = &path {
        let built = p
            .parts
            .iter()
            .fold(p.dir.cloned().unwrap(), |p, part| p.join(part));
        assert!(built.ends_with("limitcut/config.toml"));
    }
    assert_eq!(path.is_some(), dir.is_some());
    assert!(Config::<PathBuf>::path(None).is_none());
}

#[test]
fn config_loading() {
    let none: ConfigFile<PathBuf> = ConfigFile::NoDirectory;
    assert!(!none.wants_template());
    assert!(Config::load(none).unwrap().fadein.is_none());
    let missing: ConfigFile<PathBuf> = ConfigFile::Missing;
    assert!(missing.wants_template());
    assert!(Config::load(missing).unwrap().encoder.is_none());
    let err = Config::<PathBuf>::load(ConfigFile::Unreadable {
        path: "c.toml".to_owned(),
        error: "denied".to_owned(),
    })
    .unwrap_err();
    assert_eq!(
        err.message(),
        "Failed to parse config file c.toml: could not read file: c.toml (denied)"
    );
    assert_eq!(exit_code(Some(&err)), 1);
    let parsed = Config {
        fadein: Some(Binary64 { bits: 7 }),
        encoder: Some("nvenc".to_owned()),
        ..Config::<PathBuf>::default()
    };
    let loaded = Config::load(ConfigFile::Parsed(parsed)).unwrap();
    assert_eq!(loaded.fadein, Some(Binary64 { bits: 7 }));
    assert_eq!(loaded.encoder.as_deref(), Some("nvenc"));
}
