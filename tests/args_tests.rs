use mining_pool::args::{Args, DEFAULT_CONFIG_PATH, USAGE};

fn list(items: &[&str]) -> Vec<String> {
    items.iter().map(|s| s.to_string()).collect()
}

#[test]
fn config_path_after_flag() {
    let a = Args::from_args(&list(&["pool", "-c", "my.toml"])).unwrap();
    assert_eq!(a.config_path, "my.toml");
    let b = Args::from_args(&list(&["pool", "--config", "x.toml"])).unwrap();
    assert_eq!(b.config_path, "x.toml");
}

#[test]
fn default_config_path() {
    let a = Args::from_args(&list(&["pool"])).unwrap();
    assert_eq!(a.config_path, DEFAULT_CONFIG_PATH);
    let b = Args::from_args(&list(&["pool", "-c"])).unwrap();
    assert_eq!(b.config_path, "pool-config.toml");
}

#[test]
fn help_wins_when_first() {
    let e = Args::from_args(&list(&["pool", "--help", "-c", "a"])).err().unwrap();
    assert_eq!(e, USAGE);
    let a = Args::from_args(&list(&["pool", "-c", "-h"])).unwrap();
    assert_eq!(a.config_path, "-h");
}
