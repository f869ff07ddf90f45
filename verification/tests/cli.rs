use std::path::PathBuf;

use pesto::cli::{
    exit_code, log_level, nzb_destination, upload_line, welcome_text, CliArgs, LogLevel, NzbTarget,
    ObfuscateMode,
};

fn bare() -> CliArgs {
    CliArgs {
        config: None,
        host: None,
        port: None,
        no_ssl: false,
        connections: None,
        username: None,
        password: None,
        from: None,
        groups: vec![],
        article_size: None,
        line_length: None,
        retries: None,
        retry_delay: None,
        out: None,
        obfuscate: None,
        par2: None,
        par2_only: false,
        dry_run: false,
        files: vec![],
    }
}

#[test]
fn absent_flags_defer_to_the_config() {
    let o = bare().overrides();
    assert_eq!(o.ssl, None);
    assert_eq!(o.groups, None);
    assert_eq!(o.dry_run, None);
    assert_eq!(o.par2_only, None);
    assert_eq!(o.host, None);
}

#[test]
fn given_flags_override() {
    let mut c = bare();
    c.no_ssl = true;
    c.dry_run = true;
    c.par2_only = true;
    c.groups = vec!["a.b".to_string(), "c.d".to_string()];
    c.host = Some("news".to_string());
    c.port = Some(119);
    c.obfuscate = Some(ObfuscateMode::Full);
    c.par2 = Some(15);
    let o = c.overrides();
    assert_eq!(o.ssl, Some(false));
    assert_eq!(o.dry_run, Some(true));
    assert_eq!(o.par2_only, Some(true));
    assert_eq!(o.groups, Some(vec!["a.b".to_string(), "c.d".to_string()]));
    assert_eq!(o.host, Some("news".to_string()));
    assert_eq!(o.port, Some(119));
    assert_eq!(o.obfuscate, Some(ObfuscateMode::Full));
    assert_eq!(o.par2, Some(15));
}

#[test]
fn bare_config_flag_runs_the_wizard() {
    let mut c = bare();
    assert!(!c.wants_wizard());
    c.config = Some(None);
    assert!(c.wants_wizard());
    c.config = Some(Some(PathBuf::from("x.toml")));
    assert!(!c.wants_wizard());
}

#[test]
fn verbosity_levels() {
    assert_eq!(log_level(0), None);
    assert_eq!(log_level(1), Some(LogLevel::Info));
    assert_eq!(log_level(2), Some(LogLevel::Debug));
    assert_eq!(log_level(3), Some(LogLevel::Trace));
    assert_eq!(log_level(200), Some(LogLevel::Trace));
}

#[test]
fn exit_codes_follow_the_readme() {
    assert_eq!(exit_code(false, 0), 0);
    assert_eq!(exit_code(false, 2), 1);
    assert_eq!(exit_code(true, 0), 130);
    assert_eq!(exit_code(true, 5), 130);
}

#[test]
fn nzb_named_after_the_root_folder_without_out() {
    match nzb_destination(None, None, Some("MyShow.S01".to_string())) {
        Some(NzbTarget::Name(n)) => assert_eq!(n, "MyShow.S01.nzb"),
        _ => panic!("expected a name"),
    }
    match nzb_destination(Some(PathBuf::from("up.nzb")), Some("cfg.nzb".to_string()), Some("R".to_string())) {
        Some(NzbTarget::Path(p)) => assert_eq!(p, PathBuf::from("up.nzb")),
        _ => panic!("expected the --out path"),
    }
    match nzb_destination(None, Some("cfg.nzb".to_string()), Some("R".to_string())) {
        Some(NzbTarget::Name(n)) => assert_eq!(n, "cfg.nzb"),
        _ => panic!("expected the configured name"),
    }
    assert!(nzb_destination(None, None, None).is_none());
}

#[test]
fn upload_line_words() {
    assert_eq!(upload_line(1, 0, "1.0 MB"), "upload: 1 file · 1.0 MB");
    assert_eq!(upload_line(3, 1, "2 KB"), "upload: 3 files · 1 subfolder · 2 KB");
    assert_eq!(upload_line(12, 4, "x"), "upload: 12 files · 4 subfolders · x");
}

#[test]
fn welcome_screen_variants() {
    let found = welcome_text(Some("/home/u/.config/pesto/config.toml"), true);
    assert!(found.starts_with("pesto — fast, lean Usenet poster\n\nGetting started:\n"));
    assert!(found.ends_with("Config found: /home/u/.config/pesto/config.toml\n"));
    let missing = welcome_text(Some("/c.toml"), false);
    assert!(missing.ends_with("No config yet. Run `pesto --config` to create one at:\n  /c.toml\n"));
    let none = welcome_text(None, false);
    assert!(none.ends_with(
        "Set $HOME or $XDG_CONFIG_HOME so pesto can locate a config file,\nor pass every setting as a flag (see `pesto --help`).\n"
    ));
}
