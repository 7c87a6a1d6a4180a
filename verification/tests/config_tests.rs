use moth::config::{default_id_length, path_below, Config, StatusConfig};
use moth::error::{ErrorKind, MothError};

#[test]
fn test_default_config() {
    let config = Config::default();
    assert_eq!(config.statuses.len(), 3);
    assert_eq!(config.default_severity, "med");
    assert_eq!(config.id_length, 5);
}

#[test]
fn test_config_validation() {
    let mut config = Config::default();
    assert!(config.validate().is_ok());

    config.statuses = vec![];
    assert!(config.validate().is_err());

    config = Config::default();
    config.default_severity = "invalid".to_string();
    assert!(config.validate().is_err());

    config = Config::default();
    config.id_length = 2;
    assert!(config.validate().is_err());

    config.id_length = 11;
    assert!(config.validate().is_err());
}

#[test]
fn validation_names_what_is_wrong() {
    let mut config = Config::default();
    config.statuses.truncate(1);
    let e = config.validate().unwrap_err();
    assert!(matches!(e, MothError::TooFewStatuses { found: 1 }));
    assert_eq!(e.message(), "Config must have at least 2 statuses, found 1");
    assert_eq!(e.kind(), ErrorKind::InvalidInput);

    let mut config = Config::default();
    config.default_severity = "urgent".to_string();
    let e = config.validate().unwrap_err();
    assert!(matches!(e, MothError::InvalidDefaultSeverity { .. }));
    assert_eq!(
        e.message(),
        "Invalid default_severity: urgent. Must be one of: crit, high, med, low"
    );

    let mut config = Config::default();
    config.id_length = 11;
    let e = config.validate().unwrap_err();
    assert!(matches!(e, MothError::InvalidIdLength { found: 11 }));
    assert_eq!(e.message(), "id_length must be between 3 and 10, found 11");

    let mut config = Config::default();
    config.id_length = 3;
    assert!(config.validate().is_ok());
    config.id_length = 10;
    assert!(config.validate().is_ok());
}

#[test]
fn the_default_configuration_has_three_statuses() {
    let config = Config::default();
    assert_eq!(config.first_status().name, "ready");
    assert!(config.first_status().prioritized);
    assert_eq!(config.second_status().unwrap().name, "doing");
    assert_eq!(config.last_status().name, "done");
    assert!(!config.last_status().prioritized);
    assert_eq!(config.editor, "vi");
    assert!(!config.priority.auto_compact);
    assert_eq!(default_id_length(), 5);
}

#[test]
fn get_status_finds_the_first_status_of_a_name() {
    let mut config = Config::default();
    config.statuses.push(StatusConfig {
        name: "doing".to_string(),
        dir: "elsewhere".to_string(),
        prioritized: true,
    });
    assert_eq!(config.get_status("doing").unwrap().dir, "doing");
    assert_eq!(config.find_status("doing"), Some(1));
    assert!(config.get_status("nowhere").is_none());
    assert!(config.get_status("").is_none());
}

#[test]
fn status_dir_lies_below_the_control_directory() {
    let mut config = Config::default();
    config.moth_dir = "/work/.moth".to_string();
    let ready = config.first_status().clone();
    assert_eq!(config.status_dir(&ready), "/work/.moth/ready");
    config.moth_dir = "/work/.moth/".to_string();
    assert_eq!(config.status_dir(&ready), "/work/.moth/ready");
    config.moth_dir = String::new();
    assert_eq!(config.status_dir(&ready), "ready");
    assert_eq!(path_below("/a", "/b/c"), "/b/c");
    assert_eq!(path_below("a", ""), "a/");
}

#[test]
fn a_configuration_can_be_copied() {
    let mut config = Config::default();
    config.moth_dir = "x/.moth".to_string();
    let copy = config.clone();
    assert_eq!(copy.statuses.len(), 3);
    assert_eq!(copy.statuses[2].name, "done");
    assert_eq!(copy.moth_dir, "x/.moth");
}
