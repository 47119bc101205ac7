use iterm2_rs::config::{
    ColorConfig, Config, FontConfig, TerminalConfig, DEFAULT_FONT_SIZE_BITS, OPAQUE_BITS,
};
use iterm2_rs::profiles::{Profile, ProfileManager};

#[test]
fn default_config_has_expected_values() {
    let cfg = Config::default();
    assert_eq!(f32::from_bits(cfg.font.size_bits), 14.0);
    assert_eq!(cfg.font.family, "Cascadia Code");
    assert_eq!(cfg.window.width, 800);
    assert_eq!(cfg.window.height, 600);
    assert_eq!(f32::from_bits(cfg.window.opacity_bits), 1.0);
    assert_eq!(cfg.terminal.cols, 80);
    assert_eq!(cfg.terminal.rows, 24);
    assert_eq!(cfg.terminal.scrollback, 10_000);
    assert_eq!(cfg.colors.background, "#1e1e2e");
    assert_eq!(cfg.colors.foreground, "#cdd6f4");
}

#[test]
fn size_constants_are_the_float_bits() {
    assert_eq!(DEFAULT_FONT_SIZE_BITS, 14.0f32.to_bits());
    assert_eq!(OPAQUE_BITS, 1.0f32.to_bits());
}

fn named(name: &str) -> Profile {
    Profile { name: name.to_string(), ..Default::default() }
}

#[test]
fn default_manager_has_one_profile() {
    let mgr = ProfileManager::new();
    assert_eq!(mgr.profiles.len(), 1);
    assert_eq!(mgr.profiles[0].name, "Default");
}

#[test]
fn add_and_list_profiles() {
    let mut mgr = ProfileManager::new();
    mgr.add(Profile {
        name: "SSH Prod".to_string(),
        command: Some("ssh prod".to_string()),
        ..Default::default()
    });
    let names = mgr.list();
    assert_eq!(names, vec!["Default", "SSH Prod"]);
}

#[test]
fn remove_profile() {
    let mut mgr = ProfileManager::new();
    mgr.add(named("Temp"));
    assert_eq!(mgr.profiles.len(), 2);
    mgr.remove("Temp");
    assert_eq!(mgr.profiles.len(), 1);
}

#[test]
fn cannot_remove_default_profile() {
    let mut mgr = ProfileManager::new();
    mgr.remove("Default");
    assert_eq!(mgr.profiles.len(), 1);
    assert_eq!(mgr.profiles[0].name, "Default");
}

#[test]
fn resolve_font_uses_profile_override() {
    let config = Config::default();
    let mut mgr = ProfileManager::new();
    mgr.add(Profile {
        name: "Big".to_string(),
        font: Some(FontConfig { family: "JetBrains Mono".to_string(), size_bits: 24.0f32.to_bits() }),
        ..Default::default()
    });

    let font = mgr.resolve_font("Big", &config);
    assert_eq!(font.family, "JetBrains Mono");
    assert_eq!(f32::from_bits(font.size_bits), 24.0);
}

#[test]
fn resolve_font_falls_back_to_default_config() {
    let config = Config::default();
    let mgr = ProfileManager::new();

    // The "Default" profile created by new() has no font override.
    let font = mgr.resolve_font("Default", &config);
    assert_eq!(font.family, config.font.family);
    assert_eq!(font.size_bits, config.font.size_bits);
}

#[test]
fn resolve_colors_uses_profile_override() {
    let config = Config::default();
    let mut mgr = ProfileManager::new();
    mgr.add(Profile {
        name: "Red".to_string(),
        colors: Some(ColorConfig {
            background: "#ff0000".to_string(),
            foreground: "#ffffff".to_string(),
        }),
        ..Default::default()
    });

    let colors = mgr.resolve_colors("Red", &config);
    assert_eq!(colors.background, "#ff0000");
}

#[test]
fn resolve_terminal_falls_back_to_default() {
    let config = Config::default();
    let mgr = ProfileManager::new();

    let term = mgr.resolve_terminal("Default", &config);
    assert_eq!(term.cols, config.terminal.cols);
    assert_eq!(term.rows, config.terminal.rows);
}

#[test]
fn resolve_nonexistent_profile_falls_back() {
    let config = Config::default();
    let mgr = ProfileManager::new();

    let font = mgr.resolve_font("NoSuchProfile", &config);
    assert_eq!(font.family, config.font.family);
}

#[test]
fn load_from_config_includes_user_profiles() {
    let mut config = Config::default();
    config.profiles = vec![Profile {
        name: "Custom".to_string(),
        command: Some("zsh".to_string()),
        ..Default::default()
    }];

    let mgr = ProfileManager::load_from_config(&config);
    assert_eq!(mgr.profiles.len(), 2);
    assert!(mgr.get("Default").is_some());
    assert!(mgr.get("Custom").is_some());
    assert_eq!(mgr.get("Custom").unwrap().command.as_deref(), Some("zsh"));
}

#[test]
fn get_default_returns_default_profile() {
    let mgr = ProfileManager::new();
    let def = mgr.get_default();
    assert_eq!(def.name, "Default");
}

#[test]
fn load_from_config_skips_user_default_and_keeps_config_values() {
    let mut config = Config::default();
    config.terminal = TerminalConfig { shell: Some("bash".to_string()), ..TerminalConfig::default() };
    config.profiles = vec![named("Default"), named("A"), named("Default"), named("B")];
    let mgr = ProfileManager::load_from_config(&config);
    assert_eq!(mgr.list(), vec!["Default", "A", "B"]);
    let def = mgr.get_default();
    assert_eq!(def.terminal.as_ref().unwrap().shell.as_deref(), Some("bash"));
    assert_eq!(def.font.as_ref().unwrap().family, "Cascadia Code");
    assert_eq!(mgr.resolve_terminal("A", &Config::default()).shell, None);
}

#[test]
fn remove_takes_every_profile_of_that_name() {
    let mut mgr = ProfileManager::new();
    mgr.add(named("X"));
    mgr.add(named("Y"));
    mgr.add(named("X"));
    mgr.remove("X");
    assert_eq!(mgr.list(), vec!["Default", "Y"]);
    mgr.remove("missing");
    assert_eq!(mgr.list(), vec!["Default", "Y"]);
}

#[test]
fn get_finds_the_first_of_a_name() {
    let mut mgr = ProfileManager::new();
    mgr.add(Profile { name: "P".to_string(), command: Some("one".to_string()), ..Default::default() });
    mgr.add(Profile { name: "P".to_string(), command: Some("two".to_string()), ..Default::default() });
    assert_eq!(mgr.get("P").unwrap().command.as_deref(), Some("one"));
    assert!(mgr.get("p").is_none());
}
