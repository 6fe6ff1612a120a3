use blogpub::settings::{Args, Settings};

fn none() -> Args {
    Args {
        config: None,
        templates: None,
        output: None,
        source: None,
        recent: None,
        url: None,
        short_url: None,
        by_time: None,
        by_name: None,
        new: None,
    }
}

#[test]
fn defaults_are_built_in() {
    let s = Settings::default();
    assert_eq!(s.templates, "template/*");
    assert_eq!(s.output, "archive");
    assert_eq!(s.source, "source");
    assert_eq!(s.recent, 10);
    assert_eq!(s.url, "https://blog.unitedheroes.net");
    assert_eq!(s.short_url, None);
    assert!(!s.by_time);
    assert!(s.by_name);
    assert!(!s.new);
}

#[test]
fn command_line_wins_over_file_over_default() {
    let mut cli = none();
    cli.output = Some("out".to_owned());
    cli.recent = Some(3);
    let mut file = none();
    file.output = Some("file_out".to_owned());
    file.source = Some("posts".to_owned());
    file.short_url = Some("https://s.io".to_owned());
    file.recent = Some(7);
    let s = Settings::new(cli, Some(file));
    assert_eq!(s.output, "out");
    assert_eq!(s.source, "posts");
    assert_eq!(s.recent, 3);
    assert_eq!(s.short_url, Some("https://s.io".to_owned()));
    assert_eq!(s.url, "https://blog.unitedheroes.net");
    assert_eq!(s.templates, "template/*");
}

#[test]
fn template_directory_becomes_a_glob() {
    let mut cli = none();
    cli.templates = Some("tpl".to_owned());
    assert_eq!(Settings::new(cli, None).templates, "tpl/*");
    let mut cli = none();
    cli.templates = Some("tpl/*.html".to_owned());
    assert_eq!(Settings::new(cli, None).templates, "tpl/*.html");
}

#[test]
fn backfill_keeps_defaults_where_nothing_is_given() {
    let mut defaults = Settings::default();
    defaults.short_url = Some("https://d.io".to_owned());
    let mut value = none();
    value.by_time = Some(true);
    let s = Settings::backfill_using(value, defaults);
    assert!(s.by_time);
    assert_eq!(s.short_url, Some("https://d.io".to_owned()));
    assert_eq!(s.short_url_or_url(), "https://d.io");
    let f = Settings::from_args(none());
    assert_eq!(f.short_url_or_url(), "https://blog.unitedheroes.net");
}

#[test]
fn config_file_defaults_to_config_toml() {
    assert_eq!(none().config_file(), "config.toml");
    let mut a = none();
    a.config = Some("other.toml".to_owned());
    assert_eq!(a.config_file(), "other.toml");
}
