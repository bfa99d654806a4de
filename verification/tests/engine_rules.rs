use pudb::config::{Auth, Config, Database, Keys, Server};
use pudb::engine::{
    default_env_vars, download_action, download_target, env_file_template, fact_row, fact_rows,
    file_name, vars_to_prompt, DownloadAction, RowError, LOCAL_CONNECTION,
};
use pudb::keyed_map::KeyedMap;
use pudb::schema::{Facts, Metric, SecCompany, Values};
use pudb::sec::{COMPANY_FACTS_URL, COMPANY_TICKERS_URL, FACTS_ARCHIVE, TICKERS_FILE};

fn config(host: &str, port: &str, user: &str, db: &str, pw: &str) -> Config {
    Config {
        auth: Auth { user_agent: "me@example.com".to_string() },
        keys: Keys { finnhub: "k1".to_string(), mexc: "k2".to_string() },
        server: Server { host: host.to_string(), port: port.to_string() },
        database: Database {
            name: db.to_string(),
            username: user.to_string(),
            password: pw.to_string(),
        },
    }
}

#[test]
fn connection_string_lists_the_settings() {
    let c = config("db.local", "6543", "alice", "facts", "secret");
    assert_eq!(c.connection_string(), "host=db.local port=6543 user=alice dbname=facts password=secret");
}

#[test]
fn local_connection_is_the_default_local_config() {
    let c = config("localhost", "5432", "postgres", "postgres", "postgres");
    assert_eq!(c.connection_string(), LOCAL_CONNECTION);
}

#[test]
fn env_template_has_one_empty_assignment_per_variable() {
    let vars = default_env_vars();
    assert_eq!(vars, vec!["EMAIL".to_string(), "FINNHUB_API_KEY".to_string()]);
    assert_eq!(env_file_template(&vars), "EMAIL=\nFINNHUB_API_KEY=\n");
    assert_eq!(env_file_template(&vec![]), "");
}

#[test]
fn only_unset_variables_are_prompted() {
    let statuses = vec![
        ("EMAIL".to_string(), true),
        ("FINNHUB_API_KEY".to_string(), false),
        ("OTHER".to_string(), false),
    ];
    assert_eq!(vars_to_prompt(&statuses), vec!["FINNHUB_API_KEY".to_string(), "OTHER".to_string()]);
    assert!(vars_to_prompt(&vec![("EMAIL".to_string(), true)]).is_empty());
}

#[test]
fn file_name_matches_std_path() {
    for p in [
        "https://www.sec.gov/files/company_tickers.json",
        "tmp/foo.txt",
        "foo.txt/.",
        "foo.txt/.//",
        "foo.txt/..",
        "/",
        "",
        ".",
        "./",
        "a//b",
        "/usr/bin/",
        "../x",
        "a/./",
        "..",
    ] {
        let expected = std::path::Path::new(p).file_name().map(|n| n.to_str().unwrap().to_string());
        assert_eq!(file_name(p), expected, "path {:?}", p);
    }
}

#[test]
fn downloads_land_where_later_steps_read_them() {
    assert_eq!(download_target(COMPANY_FACTS_URL).as_deref(), Some(FACTS_ARCHIVE));
    assert_eq!(download_target(COMPANY_TICKERS_URL).as_deref(), Some(TICKERS_FILE));
    assert_eq!(download_target("https://example.com/.."), None);
}

#[test]
fn download_action_order_of_checks() {
    assert!(matches!(download_action(COMPANY_FACTS_URL, false, false), DownloadAction::NoResponse));
    assert!(matches!(download_action(COMPANY_FACTS_URL, false, true), DownloadAction::NoResponse));
    assert!(matches!(download_action(COMPANY_FACTS_URL, true, false), DownloadAction::NoBody));
    assert!(matches!(download_action("/", true, false), DownloadAction::NoBody));
    assert!(matches!(download_action("/", true, true), DownloadAction::NoFileName));
    match download_action(COMPANY_TICKERS_URL, true, true) {
        DownloadAction::WriteFile(p) => assert_eq!(p, "./data/company_tickers.json"),
        _ => panic!("expected a file to write"),
    }
}

fn value(start: Option<&str>, val: f64, fy: i32) -> Values {
    Values {
        start_date: start.map(|s| s.to_string()),
        end_date: Some("2020-12-31".to_string()),
        val_bits: Some(val.to_bits()),
        accn: Some("0000320193-21-000010".to_string()),
        fy: Some(fy),
        fp: Some("FY".to_string()),
        form: Some("10-K".to_string()),
        filed: Some("2021-01-29".to_string()),
        frame: None,
    }
}

fn metric(label: &str, units: Vec<(&str, Vec<Values>)>) -> Metric {
    let mut map = KeyedMap::new();
    for (u, v) in units {
        map.insert(u.to_string(), v);
    }
    Metric { label: Some(label.to_string()), description: None, units: map }
}

fn company(us_gaap: Option<Vec<(&str, Metric)>>) -> SecCompany {
    let us_gaap = us_gaap.map(|ms| {
        let mut map = KeyedMap::new();
        for (name, m) in ms {
            map.insert(name.to_string(), m);
        }
        map
    });
    SecCompany {
        cik: "0000320193".to_string(),
        entity_name: "Apple Inc.".to_string(),
        facts: Facts { us_gaap, dei: None },
    }
}

#[test]
fn row_takes_least_unit_and_its_first_value() {
    let c = company(None);
    let m = metric(
        "Assets",
        vec![
            ("USD", vec![value(Some("2020-01-01"), 1.5, 2020), value(None, 2.5, 2021)]),
            ("EUR", vec![value(Some("2019-01-01"), 7.25, 2019)]),
        ],
    );
    let row = fact_row(&c, &m).unwrap();
    assert_eq!(row.cik, "0000320193");
    assert_eq!(row.entity_name, "Apple Inc.");
    assert_eq!(row.label.as_deref(), Some("Assets"));
    assert_eq!(row.description, None);
    assert_eq!(row.unit, "EUR");
    assert_eq!(row.start_date.as_deref(), Some("2019-01-01"));
    assert_eq!(row.val_bits.map(f64::from_bits), Some(7.25));
    assert_eq!(row.fy, Some(2019));
    assert_eq!(row.form.as_deref(), Some("10-K"));
    assert_eq!(row.frame, None);
}

#[test]
fn metric_without_units_or_values_yields_no_row() {
    let c = company(None);
    assert_eq!(fact_row(&c, &metric("A", vec![])).err(), Some(RowError::NoUnit));
    assert_eq!(fact_row(&c, &metric("A", vec![("USD", vec![])])).err(), Some(RowError::NoValue));
}

#[test]
fn company_without_us_gaap_yields_no_rows() {
    let (rows, err) = fact_rows(&company(None));
    assert!(rows.is_empty());
    assert_eq!(err, None);
}

#[test]
fn rows_follow_metric_names_in_order() {
    let c = company(Some(vec![
        ("Revenues", metric("Revenues", vec![("USD", vec![value(None, 3.0, 2020)])])),
        ("Assets", metric("Assets", vec![("USD", vec![value(None, 1.0, 2020)])])),
        ("Liabilities", metric("Liabilities", vec![("USD", vec![value(None, 2.0, 2020)])])),
    ]));
    let (rows, err) = fact_rows(&c);
    assert_eq!(err, None);
    let labels: Vec<_> = rows.iter().map(|r| r.label.clone().unwrap()).collect();
    assert_eq!(labels, vec!["Assets", "Liabilities", "Revenues"]);
}

#[test]
fn rows_stop_at_first_metric_without_value() {
    let c = company(Some(vec![
        ("A", metric("A", vec![("USD", vec![value(None, 1.0, 2020)])])),
        ("B", metric("B", vec![("USD", vec![])])),
        ("C", metric("C", vec![("USD", vec![value(None, 3.0, 2020)])])),
    ]));
    let (rows, err) = fact_rows(&c);
    assert_eq!(rows.len(), 1);
    assert_eq!(rows[0].label.as_deref(), Some("A"));
    assert_eq!(err, Some(RowError::NoValue));
}

#[test]
fn valid_metrics_give_all_rows_and_no_error() {
    let c = company(Some(vec![
        ("Z", metric("Z", vec![("USD", vec![value(None, 1.0, 2021)])])),
        ("A", metric("A", vec![("shares", vec![value(None, 2.0, 2020)])])),
    ]));
    let (rows, err) = fact_rows(&c);
    assert_eq!(err, None);
    assert_eq!(rows.len(), 2);
    assert_eq!(rows[0].unit, "shares");
    assert_eq!(rows[1].unit, "USD");
    assert_eq!(rows[1].fy, Some(2021));
}
