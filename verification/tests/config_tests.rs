use ai_cli::config::{get_final_config, validate_temperature, AppConfig, ConfigOverrides, Temperature};
use ai_cli::errors::ConfigError;

#[test]
fn test_temperature_validation() {
    // Valid temperature values (in ten-thousandths: 10000 = 1.0)
    assert!(validate_temperature(Temperature { ten_thousandths: 0 }).is_ok());
    assert!(validate_temperature(Temperature { ten_thousandths: 7000 }).is_ok());
    assert!(validate_temperature(Temperature { ten_thousandths: 10000 }).is_ok());
    assert!(validate_temperature(Temperature { ten_thousandths: 20000 }).is_ok());

    // Invalid temperature values
    assert!(validate_temperature(Temperature { ten_thousandths: -1000 }).is_err());
    assert!(validate_temperature(Temperature { ten_thousandths: 21000 }).is_err());
    assert!(validate_temperature(Temperature { ten_thousandths: 50000 }).is_err());
}

#[test]
fn test_config_defaults() {
    let config = AppConfig::default();
    assert_eq!(config.temperature, None);
    assert_eq!(config.timeout_secs, 300);
}

#[test]
fn test_config_without_temperature() {
    let config = AppConfig {
        model: "llama3".to_string(),
        base_url: "http://localhost:11434/v1".to_string(),
        api_key: None,
        default_prompt: None,
        temperature: None,
        timeout_secs: 300,
    };
    assert_eq!(config.temperature, None);
}

#[test]
fn test_temperature_boundaries_exclusive() {
    // Just outside the range on either side is rejected.
    assert!(matches!(
        validate_temperature(Temperature { ten_thousandths: -1 }),
        Err(ConfigError::OutOfRange { value: Temperature { ten_thousandths: -1 } })
    ));
    assert!(matches!(
        validate_temperature(Temperature { ten_thousandths: 20001 }),
        Err(ConfigError::OutOfRange { value: Temperature { ten_thousandths: 20001 } })
    ));
    // The boundary values themselves pass.
    assert_eq!(
        validate_temperature(Temperature { ten_thousandths: 0 }),
        Ok(Temperature { ten_thousandths: 0 })
    );
    assert_eq!(
        validate_temperature(Temperature { ten_thousandths: 20000 }),
        Ok(Temperature { ten_thousandths: 20000 })
    );
}

#[test]
fn test_merge_precedence() {
    let file = AppConfig {
        model: "filemodel".to_string(),
        base_url: "http://file/".to_string(),
        api_key: Some("filekey".to_string()),
        default_prompt: Some("dp".to_string()),
        temperature: Some(Temperature { ten_thousandths: 5000 }),
        timeout_secs: 42,
    };
    let args = ConfigOverrides {
        model: Some("climodel".to_string()),
        base_url: None,
        api_key: Some("clikey".to_string()),
        temperature: Some(Temperature { ten_thousandths: 12000 }),
        timeout: Some(7),
    };
    let c = get_final_config(file, args).unwrap();
    assert_eq!(c.model, "climodel");
    assert_eq!(c.base_url, "http://file/");
    assert_eq!(c.api_key, Some("clikey".to_string()));
    assert_eq!(c.default_prompt, Some("dp".to_string()));
    assert_eq!(c.temperature, Some(Temperature { ten_thousandths: 12000 }));
    assert_eq!(c.timeout_secs, 7);
}

#[test]
fn test_merge_validates_file_temperature() {
    // A file temperature out of range fails even with no override.
    let file = AppConfig {
        temperature: Some(Temperature { ten_thousandths: 30000 }),
        ..AppConfig::default()
    };
    let args = ConfigOverrides {
        model: None,
        base_url: None,
        api_key: None,
        temperature: None,
        timeout: None,
    };
    assert!(matches!(
        get_final_config(file, args),
        Err(ConfigError::OutOfRange { value: Temperature { ten_thousandths: 30000 } })
    ));
}

#[test]
fn test_merge_cli_temperature_out_of_range() {
    let file = AppConfig::default();
    let args = ConfigOverrides {
        model: None,
        base_url: None,
        api_key: None,
        temperature: Some(Temperature { ten_thousandths: -1 }),
        timeout: None,
    };
    assert!(get_final_config(file, args).is_err());
}

#[test]
fn test_merge_no_temperature_stays_unset() {
    let file = AppConfig::default();
    let args = ConfigOverrides {
        model: None,
        base_url: None,
        api_key: None,
        temperature: None,
        timeout: None,
    };
    let c = get_final_config(file, args).unwrap();
    assert_eq!(c.temperature, None);
    assert_eq!(c.model, "llama3");
    assert_eq!(c.base_url, "http://localhost:11434/v1");
    assert_eq!(c.timeout_secs, 300);
}
