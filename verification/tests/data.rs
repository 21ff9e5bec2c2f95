use katsvg_engine::{data_format, parse_csv, DataFormat};

const CSV: &str = "month,sales\njan,120\nfeb,85\nmar,150\napr,95\n";
const MULTI_CSV: &str = "month,a2023,b2024\njan,100,140\nfeb,120,150\nmar,90,135\n";

#[test]
fn formats_by_extension() {
    assert_eq!(data_format("sales.csv"), Ok(DataFormat::Csv));
    assert_eq!(data_format("data.JSON"), Ok(DataFormat::Json));
    assert_eq!(data_format("json"), Ok(DataFormat::Json));
    assert_eq!(data_format("a.b.csv"), Ok(DataFormat::Csv));
    assert_eq!(data_format("bad.txt"), Err("unsupported data format: txt (use .csv or .json)".to_string()));
    assert_eq!(data_format("noext"), Err("unsupported data format: noext (use .csv or .json)".to_string()));
}

#[test]
fn csv_binds_a_bar_series() {
    let chart = parse_csv(CSV).unwrap().expect("two or more rows bind a chart");
    assert_eq!(chart.labels, vec!["jan", "feb", "mar", "apr"]);
    assert_eq!(chart.values, vec!["120", "85", "150", "95"]);
    assert!(chart.series.is_empty());
}

#[test]
fn csv_extra_columns_become_series() {
    let chart = parse_csv(MULTI_CSV).unwrap().unwrap();
    assert_eq!(chart.values, vec!["100", "120", "90"]);
    assert_eq!(chart.series, vec![vec!["140", "150", "135"]]);
    assert_eq!(chart.series_names, vec!["b2024"]);
    assert_eq!(chart.labels, vec!["jan", "feb", "mar"]);
}

#[test]
fn csv_errors_and_skips() {
    assert_eq!(parse_csv("a,b\n1,x\n").err(), Some("non-numeric value in row: 1,x".to_string()));
    assert_eq!(parse_csv("").err(), Some("empty CSV".to_string()));
    assert_eq!(parse_csv("only\n1\n").err(), Some("CSV needs at least 2 columns".to_string()));
    assert!(parse_csv("a,b\n1,2\n").unwrap().is_none());
    let chart = parse_csv("\n  \nk,v\nx,1e3\nshort\n y , -2.5 \n").unwrap().unwrap();
    assert_eq!(chart.labels, vec!["x", "y"]);
    assert_eq!(chart.values, vec!["1e3", "-2.5"]);
}

#[test]
fn csv_binds_chart_series() {
    let chart = parse_csv("month,sales\njan,120\nfeb,85\nmar,150\napr,95\n").unwrap();
    assert!(chart.is_some(), "CSV with >=2 rows should bind a chart");
    let chart = chart.unwrap();
    assert_eq!(chart.labels, vec!["jan", "feb", "mar", "apr"]);
    assert_eq!(chart.values, vec!["120", "85", "150", "95"]);
}

#[test]
fn multi_column_csv_binds_series() {
    let chart = parse_csv("month,a2023,b2024\njan,100,140\nfeb,120,150\nmar,90,135\n").unwrap().expect("3-column CSV should bind a chart");
    assert_eq!(chart.values, vec!["100", "120", "90"], "first column is primary series");
    assert_eq!(chart.series, vec![vec!["140", "150", "135"]], "second numeric column becomes series");
    assert_eq!(chart.labels, vec!["jan", "feb", "mar"]);
}

#[test]
fn json_object_binds_chart_series() {
    let data = katsvg_engine::parse_json(r#"{"Q1": 10, "Q2": 25, "Q3": 15, "Q4": 30}"#).unwrap();
    assert!(data.chart.is_some());
    let chart = data.chart.unwrap();
    assert_eq!(chart.labels, vec!["Q1", "Q2", "Q3", "Q4"]);
    assert_eq!(chart.values, vec!["10", "25", "15", "30"]);
}

#[test]
fn bad_data_returns_error() {
    assert!(parse_csv("a,b\n1,x\n").is_err(), "non-numeric value should error");
    assert!(katsvg_engine::parse_json("not json").is_err(), "invalid json should error");
    assert!(data_format("bad.txt").is_err(), "unsupported ext should error");
}

#[test]
fn json_arrays_and_strings_bind() {
    let data = katsvg_engine::parse_json(r#"[{"label": "a", "value": 1}, {"name": "b", "amount": 2.5}, {"value": 3}, {"label": "c", "value": 0, "amount": 7}]"#).unwrap();
    let chart = data.chart.unwrap();
    assert_eq!(chart.labels, vec!["a", "b", "c"]);
    assert_eq!(chart.values, vec!["1", "2.5", "7"]);
    assert!(data.metrics.is_empty());

    let one = katsvg_engine::parse_json(r#"[{"label": "a", "value": 1}]"#).unwrap();
    assert!(one.chart.is_none());

    let cards = katsvg_engine::parse_json(r#"{"region": "north", "sales": 5, "x": true}"#).unwrap();
    assert!(cards.chart.is_none(), "one number is no chart");
    assert_eq!(cards.metrics.len(), 1);
    assert_eq!((cards.metrics[0].label.as_str(), cards.metrics[0].value.as_str(), cards.metrics[0].icon.as_str()), ("REGION", "north", "chart"));

    assert_eq!(katsvg_engine::parse_json("3").err().unwrap(), "JSON must be an object or array");
    assert_eq!(katsvg_engine::parse_json("[1, 2]").err().unwrap(), "bad array item");
    assert_eq!(katsvg_engine::parse_json(r#"[{"label": 5}]"#).err().unwrap(), "bad array item");
    assert!(katsvg_engine::parse_json("{").err().unwrap().starts_with("invalid JSON: "));
}

#[test]
fn data_binds_by_extension_in_any_case() {
    let csv = "month,sales\njan,120\nfeb,85\n";
    let a = katsvg_engine::bind_data(csv, "sales.CSV").unwrap().chart.unwrap();
    let b = katsvg_engine::bind_data(csv, "x.csv").unwrap().chart.unwrap();
    assert_eq!(a.labels, b.labels);
    assert_eq!(a.values, vec!["120", "85"]);
    let j = katsvg_engine::bind_data(r#"{"a": 1, "b": 2, "t": "x"}"#, "data.Json").unwrap();
    assert_eq!(j.chart.unwrap().values, vec!["1", "2"]);
    assert_eq!(j.metrics.len(), 1);
    assert_eq!(
        katsvg_engine::bind_data("a,b\n1,2\n", "bad.TXT").err().unwrap(),
        "unsupported data format: txt (use .csv or .json)"
    );
}

#[test]
fn data_binds_non_ascii_paths_by_extension() {
    let csv = "month,sales\njan,120\nfeb,85\n";
    let a = katsvg_engine::bind_data(csv, "ยอดขาย.CSV").unwrap().chart.unwrap();
    assert_eq!(a.values, vec!["120", "85"]);
    assert_eq!(
        katsvg_engine::bind_data(csv, "ข้อมูล.ÄB").err().unwrap(),
        "unsupported data format: äb (use .csv or .json)"
    );
    assert!(katsvg_engine::bind_data("", "x.csv").err().unwrap().starts_with("empty CSV"));
}
