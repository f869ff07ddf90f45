use pesto::wizard::{answer, esc, groups_text, prompt_text, Wizard, WizardAnswers, WizardStep};

fn run(exists: bool, lines: &[&str]) -> Wizard {
    let mut w = Wizard::start(exists);
    for line in lines {
        assert!(w.prompt().is_some());
        w.answer(line);
    }
    w
}

#[test]
fn esc_escapes_backslashes_and_quotes() {
    assert_eq!(esc(r#"a\b"c"#), r#"a\\b\"c"#);
    assert_eq!(esc("plain"), "plain");
    assert_eq!(esc(""), "");
    assert_eq!(esc(r#"\""#), r#"\\\""#);
}

#[test]
fn esc_round_trips_through_toml_unescaping() {
    for s in [r#"pa"ss\word"#, r#"\\"#, r#""""#, "ünï"] {
        let e = esc(s);
        let mut out = String::new();
        let mut chars = e.chars();
        while let Some(c) = chars.next() {
            if c == '\\' {
                out.push(chars.next().unwrap());
            } else {
                out.push(c);
            }
        }
        assert_eq!(out, s);
    }
}

#[test]
fn answer_trims_and_falls_back_to_default() {
    assert_eq!(answer("  news.example.com \n", "x"), "news.example.com");
    assert_eq!(answer("\n", "563"), "563");
    assert_eq!(answer(" \t\u{3000}\n", "10"), "10");
    assert_eq!(answer("", ""), "");
}

#[test]
fn prompt_shows_default_in_brackets() {
    assert_eq!(prompt_text("Server port", "563"), "Server port [563]: ");
    assert_eq!(prompt_text("Password", ""), "Password: ");
}

#[test]
fn groups_are_trimmed_escaped_and_quoted() {
    assert_eq!(groups_text("alt.binaries.test"), r#""alt.binaries.test""#);
    assert_eq!(groups_text(" a.b , c\"d,"), r#""a.b", "c\"d", """#);
}

#[test]
fn wizard_full_flow_writes_config() {
    let w = run(
        false,
        &["news.example.com", "", "n", " 8 ", "alice", "s3\"cret", "a.b.c, d.e", "", ""],
    );
    assert!(w.step == WizardStep::Finished);
    assert!(w.prompt().is_none());
    let toml = w.answers.config_toml();
    assert_eq!(
        toml,
        "# pesto configuration — generated by `pesto --config`.\n\n\
[server]\n\
host = \"news.example.com\"\n\
port = 563\n\
ssl = false\n\
connections = 8\n\
\n\
[auth]\n\
username = \"alice\"\n\
password = \"s3\\\"cret\"\n\n\
[posting]\n\
groups = [\"a.b.c\", \"d.e\"]\n\
# from omitted: each run posts under a random identity.\n\
par2 = 10\n"
    );
}

#[test]
fn wizard_skips_password_without_username() {
    let w = run(false, &["h", "119", "Y", "", "", "", "me <me@x>", "0"]);
    assert!(w.step == WizardStep::Finished);
    assert!(w.answers.ssl);
    let toml = w.answers.config_toml();
    assert!(!toml.contains("[auth]"));
    assert!(toml.contains("connections = 10\n"));
    assert!(toml.contains("groups = [\"alt.binaries.test\"]\n"));
    assert!(toml.contains("from = \"me <me@x>\"\n"));
    assert!(toml.ends_with("par2 = 0\n"));
}

#[test]
fn wizard_requires_a_host() {
    let mut w = Wizard::start(false);
    assert!(!w.answer("   "));
    assert!(w.step == WizardStep::Host);
    assert!(w.answer("h"));
    assert!(w.step == WizardStep::Port);
}

#[test]
fn wizard_asks_before_overwriting() {
    let mut w = Wizard::start(true);
    let p = w.prompt().unwrap();
    assert_eq!(p.label, "Config already exists; overwrite it? (y/N)");
    assert_eq!(p.default, "n");
    w.answer("\n");
    assert!(w.step == WizardStep::Aborted);
    assert!(w.prompt().is_none());
    let mut w = Wizard::start(true);
    w.answer("Y");
    assert!(w.step == WizardStep::Host);
    let mut w = Wizard::start(true);
    w.answer("yes");
    assert!(w.step == WizardStep::Aborted);
}

#[test]
fn config_toml_of_answers() {
    let a = WizardAnswers {
        host: "h\\x".to_string(),
        port: " 563 ".to_string(),
        ssl: true,
        connections: "4".to_string(),
        username: String::new(),
        password: "ignored".to_string(),
        groups: String::new(),
        from: String::new(),
        par2: "5".to_string(),
    };
    let t = a.config_toml();
    assert!(t.contains("host = \"h\\\\x\"\n"));
    assert!(t.contains("port = 563\n"));
    assert!(t.contains("ssl = true\n"));
    assert!(t.contains("groups = [\"\"]\n"));
    assert!(!t.contains("ignored"));
}
