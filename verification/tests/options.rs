use wicci_shim::options::{
    db_connect_str, opt_defined, opt_lookup, opt_present, opt_str, opt_str_default, opt_value_or_default, wicci_init_sql,
    wicci_sql, OptionError,
};

fn matches(args: &[&str]) -> getopts::Matches {
    let mut opts = getopts::Options::new();
    opts.optflag("d", "debug", "display what's going on");
    opts.optopt("H", "db-host", "", "db server host");
    opts.optopt("N", "db-name", "", "");
    opts.parse(args.iter()).unwrap()
}

#[test]
fn options_test1() {}

#[test]
fn present_and_absent_options() {
    let m = matches(&["-d", "--db-host", "db.example"]);
    assert!(opt_present(&m, "debug"));
    assert!(opt_present(&m, "d"));
    assert!(opt_present(&m, "db-host"));
    assert!(!opt_present(&m, "db-name"));
    assert_eq!(opt_str(&m, "db-host"), Some("db.example".to_string()));
    assert_eq!(opt_str(&m, "H"), Some("db.example".to_string()));
    assert_eq!(opt_str(&m, "db-name"), None);
    assert_eq!(opt_str(&m, "debug"), None);
}

#[test]
fn defaults_fill_in_absent_options() {
    let m = matches(&["-N", "wicci2"]);
    assert_eq!(opt_str_default(&m, "db-name", "wicci1"), "wicci2");
    assert_eq!(opt_str_default(&m, "db-host", "localhost"), "localhost");
}

#[test]
fn sql_texts() {
    assert_eq!(wicci_init_sql("wicci_ready"), "SELECT wicci_ready($1)");
    assert_eq!(wicci_sql("wicci_serve"), "SELECT h,v,b FROM wicci_serve($1, $2, $3) AS foo(h,v,b)");
}

#[test]
fn connection_strings() {
    assert_eq!(db_connect_str("localhost", 5432, "wicci1", "greg", ""), "postgresql://greg@localhost:5432/wicci1");
    assert_eq!(db_connect_str("h", 1, "n", "u", "pw"), "postgresql://u:pw@h:1/n");
    assert_eq!(db_connect_str("h", 0, "n", "u", ""), "postgresql://u@h/n");
    assert_eq!(db_connect_str("localhost", 0, "greg", "greg", ""), "postgresql://greg@localhost/greg");
}

#[test]
fn defined_names_and_checked_lookup() {
    let m = matches(&["-H", "db"]);
    assert!(opt_defined(&m, "db-host"));
    assert!(opt_defined(&m, "H"));
    assert!(!opt_defined(&m, "nope"));
    assert_eq!(opt_lookup(&m, "nope"), None);
    assert_eq!(opt_lookup(&m, "db-host"), Some(Some("db".to_string())));
    assert_eq!(opt_lookup(&m, "db-name"), Some(None));
}

#[test]
fn values_or_defaults() {
    assert_eq!(opt_value_or_default::<u16>(None, 8080), Ok(8080));
    assert_eq!(opt_value_or_default::<u16>(Some(Ok(9000)), 8080), Ok(9000));
    assert_eq!(opt_value_or_default::<u16>(Some(Err(())), 8080), Err(OptionError::InvalidValue));
}

#[test]
fn argument_means_present() {
    let m = matches(&["--db-name", "x", "-d"]);
    assert!(opt_str(&m, "db-name").is_some());
    assert!(opt_present(&m, "db-name"));
    assert_eq!(opt_str(&m, "d"), None);
    assert!(opt_present(&m, "d"));
}
