//! Rules on the configuration.

use asl_dmr_bridge::config::{
    config_gain, default_neural_decoder_backend, default_neural_encoder_backend, parse_secret, resolve_api_key, resolve_password, validate, ApiKeyError, Callsign,
    ConfigError, FieldError, Frequency, GatewayMode, Multiline, NeuralHalf, PasswordError,
    VocoderBackend,
};

#[test]
fn keepalive_interval_zero_rejected() {
    assert_eq!(
        validate(0, VocoderBackend::Dynarmic, None),
        Err(ConfigError::KeepaliveIntervalZero)
    );
    assert_eq!(validate(5_000_000_000, VocoderBackend::Dynarmic, None), Ok(()));
}

#[test]
fn neural_backend_needs_a_neural_half() {
    let check = |encoder, decoder| validate(1, VocoderBackend::Neural, Some((encoder, decoder)));
    assert_eq!(
        check(NeuralHalf::Dynarmic, NeuralHalf::ThumbDV),
        Err(ConfigError::NeuralBothNonNeural)
    );
    assert_eq!(check(NeuralHalf::Neural, NeuralHalf::Dynarmic), Ok(()));
    assert_eq!(check(NeuralHalf::Ambeserver, NeuralHalf::Neural), Ok(()));
    assert_eq!(validate(1, VocoderBackend::Neural, None), Ok(()));
    let other = Some((NeuralHalf::Dynarmic, NeuralHalf::Dynarmic));
    assert_eq!(validate(1, VocoderBackend::Dynarmic, other), Ok(()));
}

// --- resolve_password ---

/// The password that is picked among the sources.
fn resolve(
    cli_file: Option<&str>,
    env: Option<&str>,
    config_file: Option<&str>,
    inline: Option<&str>,
) -> Result<String, PasswordError> {
    let sources = [cli_file, env, config_file, inline];
    resolve_password(&sources).map(|i| sources[i].unwrap().to_string())
}

#[test]
fn resolve_uses_config_when_only_source() {
    assert_eq!(resolve(None, None, None, Some("pw")).unwrap(), "pw");
}

#[test]
fn resolve_uses_file_when_only_source() {
    assert_eq!(resolve(Some("filepw"), None, None, None).unwrap(), "filepw");
}

#[test]
fn resolve_uses_env_when_only_source() {
    assert_eq!(resolve(None, Some("envpw"), None, None).unwrap(), "envpw");
}

#[test]
fn resolve_uses_configured_file_when_only_source() {
    assert_eq!(resolve(None, None, Some("cfpw"), None).unwrap(), "cfpw");
}

#[test]
fn resolve_errors_if_missing_everywhere() {
    let err = resolve(None, None, None, None).unwrap_err();
    assert!(matches!(err, PasswordError::Missing), "got {err:?}");
}

#[test]
fn resolve_errors_if_two_sources_set() {
    let err = resolve(Some("fp"), Some("ep"), None, None).unwrap_err();
    match err {
        PasswordError::Ambiguous(names) => {
            assert_eq!(names, vec!["--password-file", "BRANDMEISTER_PASSWORD"])
        }
        other => panic!("got {other:?}"),
    }
}

#[test]
fn resolve_errors_if_file_and_config_both_set() {
    let err = resolve(Some("fp"), None, None, Some("pw")).unwrap_err();
    match err {
        PasswordError::Ambiguous(names) => {
            assert_eq!(names, vec!["--password-file", "config.toml [network].password"])
        }
        other => panic!("got {other:?}"),
    }
}

#[test]
fn resolve_treats_empty_source_as_unset() {
    assert_eq!(resolve(None, Some(""), None, Some("pw")).unwrap(), "pw");
}

#[test]
fn api_key_is_optional_without_statics() {
    let none = [None; 4];
    let one = [None, Some("key"), Some(""), None];
    let two = [Some("a"), None, None, Some("b")];
    assert_eq!(resolve_api_key(false, &two, true, true), Ok(None));
    assert_eq!(resolve_api_key(true, &none, false, false), Ok(None));
    assert_eq!(resolve_api_key(true, &one, true, true), Ok(Some(1)));
    assert_eq!(
        resolve_api_key(true, &two, false, false),
        Err(ApiKeyError::Ambiguous)
    );
    assert_eq!(
        resolve_api_key(true, &none, true, true),
        Err(ApiKeyError::MissingForStatics { slot: 1 })
    );
    assert_eq!(
        resolve_api_key(true, &none, false, true),
        Err(ApiKeyError::MissingForStatics { slot: 2 })
    );
}

// --- secrets in files ---

#[test]
fn read_password_file_strips_trailing_newline() {
    assert_eq!(parse_secret("hunter2\n").unwrap().unwrap(), "hunter2");
}

#[test]
fn read_password_file_strips_crlf() {
    assert_eq!(parse_secret("hunter2\r\n").unwrap().unwrap(), "hunter2");
}

#[test]
fn read_password_file_strips_edge_whitespace() {
    assert_eq!(parse_secret("  hunter2  \n").unwrap().unwrap(), "hunter2");
}

#[test]
fn read_password_file_empty_returns_none() {
    assert!(parse_secret("").unwrap().is_none());
}

#[test]
fn read_password_file_whitespace_only_returns_none() {
    assert!(parse_secret("   \n\t\n").unwrap().is_none());
}

#[test]
fn read_password_file_rejects_embedded_newlines() {
    assert_eq!(parse_secret("hunter2\nextra\n"), Err(Multiline));
}

#[test]
fn read_password_file_rejects_leading_blank_then_content() {
    assert_eq!(parse_secret("\n\nhunter2\nextra\n"), Err(Multiline));
}

#[test]
fn read_password_file_keeps_inner_spaces() {
    assert_eq!(parse_secret("two words\n").unwrap().unwrap(), "two words");
}

// --- fields ---

#[test]
fn frequencies_have_nine_digits() {
    assert_eq!(Frequency::new(0), Err(FieldError::FrequencyZero));
    assert_eq!(Frequency::new(1_000_000_000), Err(FieldError::FrequencyTooLarge));
    assert_eq!(Frequency::new(999_999_999).unwrap().as_rptc_digits(), "999999999");
    assert_eq!(Frequency::new(7_100_000).unwrap().as_rptc_digits(), "007100000");
}

#[test]
fn callsigns_are_short_and_alphanumeric() {
    let new = |s: &str| Callsign::new(s.to_string()).map(|c| c.as_str().to_string());
    assert_eq!(new("N0CALL"), Ok("N0CALL".to_string()));
    assert_eq!(new("abcd1234"), Ok("abcd1234".to_string()));
    assert_eq!(new(""), Err(FieldError::CallsignEmpty));
    assert_eq!(new("N0CALL123"), Err(FieldError::CallsignTooLong(9)));
    assert_eq!(new("N0-CALL"), Err(FieldError::CallsignNotAlphanumeric));
    assert_eq!(new("N0C\u{c4}LL"), Err(FieldError::CallsignNotAlphanumeric));
    assert_eq!(new("\u{c4}\u{c4}\u{c4}\u{c4}\u{c4}"), Err(FieldError::CallsignTooLong(10)));
    let c = Callsign::new("W6XYZ".to_string()).unwrap();
    assert_eq!(c.clone().as_str(), "W6XYZ");
}

#[test]
fn gateway_modes_and_gains() {
    assert!(GatewayMode::Both.receives() && GatewayMode::Both.transmits());
    assert!(GatewayMode::DmrToFm.receives() && !GatewayMode::DmrToFm.transmits());
    assert!(!GatewayMode::FmToDmr.receives() && GatewayMode::FmToDmr.transmits());
    assert_eq!(config_gain(None, None), None);
    assert_eq!(config_gain(Some(3), None), Some((3, 0)));
    assert_eq!(config_gain(None, Some(-2)), Some((0, -2)));
    assert_eq!(config_gain(Some(1), Some(2)), Some((1, 2)));
}

#[test]
fn neural_backend_defaults() {
    assert_eq!(default_neural_encoder_backend(), NeuralHalf::Neural);
    assert_eq!(default_neural_decoder_backend(), NeuralHalf::Dynarmic);
    let halves = (default_neural_encoder_backend(), default_neural_decoder_backend());
    assert_eq!(validate(1, VocoderBackend::Neural, Some(halves)), Ok(()));
}
