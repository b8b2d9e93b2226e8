use ribosome::config::{Config, Mode};

#[test]
fn get_corner_mode() {
    assert_eq!(Config::get_mode("corner"), Mode::Corner);
}

#[test]
fn get_center_mode() {
    assert_eq!(Config::get_mode("center"), Mode::Center);
}

#[test]
fn get_center_top_mode() {
    assert_eq!(Config::get_mode("center_top"), Mode::CenterTop);
}

#[test]
fn get_center_bottom_mode() {
    assert_eq!(Config::get_mode("center_bottom"), Mode::CenterBottom);
}

#[test]
#[should_panic]
fn get_wrong_center_mode() {
    assert_eq!(Config::get_mode("center"), Mode::CenterBottom);
}

#[test]
fn get_random_mode() {
    assert_eq!(Config::get_mode("megumin"), Mode::Corner);
}

#[test]
fn default_config_values() {
    let config = Config::default();
    assert!(!config.void);
    assert_eq!(config.scoreboard, "#structure.pass");
    assert_eq!(config.objective, "ffi.ribosome");
    assert_eq!(config.mode, Mode::Corner);
    assert!(!config.ignore_nbt);
    assert!(!config.ignore_block_state);
    assert_eq!(Mode::default(), Mode::Corner);
}

#[test]
fn setters_change_one_option() {
    let mut config = Config::default();
    config.set_scoreboard("@s");
    assert_eq!(config.scoreboard, "@s");
    assert_eq!(config.objective, "ffi.ribosome");
    config.set_objective("obj");
    assert_eq!(config.objective, "obj");
    assert_eq!(config.scoreboard, "@s");
    config.set_mode("center_top");
    assert_eq!(config.mode, Mode::CenterTop);
    config.set_mode("nonsense");
    assert_eq!(config.mode, Mode::Corner);
    assert_eq!(config.scoreboard, "@s");
}

#[test]
fn config_equality() {
    let a = Config::default();
    let mut b = Config::default();
    assert!(a == b);
    b.set_objective("other");
    assert!(a != b);
}
