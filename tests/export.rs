use loom_core::attrs::Attributes;
use loom_core::csv::{csv_quote, to_csv};
use loom_core::entry::{CoreError, LdapEntry};
use loom_core::export::{export_entries, filter_entries, requested_attrs, ExportFormat, ExportPayload};
use loom_core::json::to_string;
use loom_core::ldif::{encode_base64, fold_line, to_ldif};

fn strings(items: &[&str]) -> Vec<String> {
    items.iter().map(|s| s.to_string()).collect()
}

fn entry(dn: &str, attrs: &[(&str, &[&str])]) -> LdapEntry {
    let mut a = Attributes::new();
    for (name, values) in attrs {
        a.insert(name.to_string(), strings(values));
    }
    LdapEntry::new(dn.to_string(), a)
}

fn text(payload: &ExportPayload) -> String {
    match payload {
        ExportPayload::Text(t) => t.clone(),
        ExportPayload::Table(_) => panic!("expected text"),
    }
}

#[test]
fn test_export_json_roundtrip() {
    let entries = vec![entry(
        "cn=Test,dc=example,dc=com",
        &[("cn", &["Test"]), ("sn", &["User"])],
    )];

    let star = vec!["*".to_string()];
    let json = to_string(&entries, &star).unwrap();
    assert!(json.contains("cn=Test,dc=example,dc=com"));

    let parsed: serde_json::Value = serde_json::from_str(&json).unwrap();
    let items = parsed.as_array().unwrap();
    assert_eq!(items.len(), 1);
    assert_eq!(items[0]["dn"], "cn=Test,dc=example,dc=com");
}

#[test]
fn test_format_from_path() {
    assert_eq!(ExportFormat::from_path("test.ldif"), Some(ExportFormat::Ldif));
    assert_eq!(ExportFormat::from_path("test.ldf"), Some(ExportFormat::Ldif));
    assert_eq!(ExportFormat::from_path("test.json"), Some(ExportFormat::Json));
    assert_eq!(ExportFormat::from_path("test.csv"), Some(ExportFormat::Csv));
    assert_eq!(ExportFormat::from_path("test.xlsx"), Some(ExportFormat::Xlsx));
    assert_eq!(ExportFormat::from_path("test.xls"), Some(ExportFormat::Xlsx));
    assert_eq!(ExportFormat::from_path("test.txt"), None);
    assert_eq!(ExportFormat::from_path("noext"), None);
}

#[test]
fn test_format_from_path_case_insensitive() {
    assert_eq!(ExportFormat::from_path("export.LDIF"), Some(ExportFormat::Ldif));
    assert_eq!(ExportFormat::from_path("data.JSON"), Some(ExportFormat::Json));
}

#[test]
fn json_scenario_lists_attributes_alphabetically() {
    let entries = vec![entry(
        "cn=Test,dc=example,dc=com",
        &[("sn", &["User"]), ("cn", &["Test"])],
    )];
    let json = to_string(&entries, &strings(&["*"])).unwrap();
    let expected = "[\n  {\n    \"dn\": \"cn=Test,dc=example,dc=com\",\n    \"attributes\": {\n      \"cn\": [\n        \"Test\"\n      ],\n      \"sn\": [\n        \"User\"\n      ]\n    }\n  }\n]";
    assert_eq!(json, expected);
    let parsed: serde_json::Value = serde_json::from_str(&json).unwrap();
    let attrs = parsed[0]["attributes"].as_object().unwrap();
    let names: Vec<&String> = attrs.keys().collect();
    assert_eq!(names, vec!["cn", "sn"]);
}

#[test]
fn json_round_trip_keeps_every_value() {
    let entries = vec![
        entry("cn=a,dc=x", &[("mail", &["a@x", "b@x"]), ("cn", &["a"])]),
        entry("cn=b,dc=x", &[]),
    ];
    let json = to_string(&entries, &strings(&["*"])).unwrap();
    let parsed: serde_json::Value = serde_json::from_str(&json).unwrap();
    let items = parsed.as_array().unwrap();
    assert_eq!(items.len(), 2);
    assert_eq!(items[0]["dn"], "cn=a,dc=x");
    assert_eq!(items[0]["attributes"]["mail"], serde_json::Value::from(vec!["a@x", "b@x"]));
    assert_eq!(items[0]["attributes"]["cn"], serde_json::Value::from(vec!["a"]));
    assert_eq!(items[1]["dn"], "cn=b,dc=x");
    assert!(items[1]["attributes"].as_object().unwrap().is_empty());
}

#[test]
fn wildcard_only_when_single_star() {
    assert!(requested_attrs(&strings(&["*"])).is_none());
    assert_eq!(requested_attrs(&strings(&["cn"])).unwrap().len(), 1);
    assert_eq!(requested_attrs(&strings(&["*", "cn"])).unwrap().len(), 2);
    assert_eq!(requested_attrs(&strings(&[])).unwrap().len(), 0);
}

#[test]
fn explicit_selection_keeps_exactly_the_named_attributes() {
    let entries = vec![
        entry("cn=a,dc=x", &[("cn", &["a"]), ("mail", &["a@x", "b@x"]), ("sn", &["A"])]),
        entry("cn=b,dc=x", &[("sn", &["B"])]),
    ];
    let out = filter_entries(&entries, &strings(&["mail", "cn", "missing", "cn"]));
    assert_eq!(out.len(), 2);
    assert_eq!(out[0].dn, "cn=a,dc=x");
    assert_eq!(out[0].attributes.len(), 2);
    assert_eq!(out[0].attributes.get("cn").unwrap(), &strings(&["a"]));
    assert_eq!(out[0].attributes.get("mail").unwrap(), &strings(&["a@x", "b@x"]));
    assert!(out[0].attributes.get("sn").is_none());
    assert_eq!(out[1].dn, "cn=b,dc=x");
    assert_eq!(out[1].attributes.len(), 0);
}

#[test]
fn explicit_selection_is_case_sensitive() {
    let entries = vec![entry("cn=a,dc=x", &[("cn", &["a"])])];
    let out = filter_entries(&entries, &strings(&["CN"]));
    assert_eq!(out[0].attributes.len(), 0);
}

#[test]
fn count_is_the_number_of_entries_given() {
    let entries = vec![
        entry("cn=a,dc=x", &[("cn", &["a"])]),
        entry("cn=b,dc=x", &[("cn", &["b"])]),
        entry("cn=c,dc=x", &[]),
    ];
    for path in ["out.ldif", "out.json", "out.csv", "out.xlsx"] {
        let out = export_entries(&entries, path, &strings(&["nothing"])).unwrap();
        assert_eq!(out.count, 3);
    }
    let empty: Vec<LdapEntry> = Vec::new();
    assert_eq!(export_entries(&empty, "out.json", &strings(&["*"])).unwrap().count, 0);
}

#[test]
fn extension_dispatch() {
    let entries = vec![entry("cn=a,dc=x", &[("cn", &["a"])])];
    let star = strings(&["*"]);
    assert_eq!(export_entries(&entries, "a.LDIF", &star).unwrap().format, ExportFormat::Ldif);
    assert_eq!(export_entries(&entries, "a.ldf", &star).unwrap().format, ExportFormat::Ldif);
    let xls = export_entries(&entries, "a.xls", &star).unwrap();
    let xlsx = export_entries(&entries, "a.xlsx", &star).unwrap();
    assert_eq!(xls.format, ExportFormat::Xlsx);
    assert_eq!(xlsx.format, ExportFormat::Xlsx);
    match (&xls.payload, &xlsx.payload) {
        (ExportPayload::Table(a), ExportPayload::Table(b)) => {
            assert_eq!(a, b);
            assert_eq!(a, &vec![strings(&["dn", "cn"]), strings(&["cn=a,dc=x", "a"])]);
        }
        _ => panic!("expected tables"),
    }
    assert!(matches!(
        export_entries(&entries, "a.txt", &star),
        Err(CoreError::UnknownExtension)
    ));
    assert!(matches!(
        export_entries(&entries, "noext", &star),
        Err(CoreError::UnknownExtension)
    ));
    assert_eq!(CoreError::UnknownExtension.message(), "Unknown file extension");
}

#[test]
fn exporting_twice_gives_identical_output() {
    let entries = vec![
        entry("cn=a,dc=x", &[("cn", &["a"]), ("description", &["é"])]),
        entry("cn=b,dc=x", &[("sn", &["B"])]),
    ];
    for path in ["a.ldif", "a.json", "a.csv"] {
        let one = export_entries(&entries, path, &strings(&["*"])).unwrap();
        let two = export_entries(&entries, path, &strings(&["*"])).unwrap();
        assert_eq!(text(&one.payload), text(&two.payload));
    }
}

#[test]
fn csv_wildcard_uses_the_sorted_union_of_names() {
    let entries = vec![
        entry("cn=a,dc=x", &[("mail", &["a@x", "b@x"]), ("cn", &["a"])]),
        entry("cn=b,dc=x", &[("sn", &["Smith, Jr"]), ("cn", &["b"])]),
    ];
    let csv = to_csv(&entries, &strings(&["*"]));
    assert_eq!(
        csv,
        "dn,cn,mail,sn\n\"cn=a,dc=x\",a,a@x|b@x,\n\"cn=b,dc=x\",b,,\"Smith, Jr\"\n"
    );
}

#[test]
fn csv_explicit_keeps_the_requested_order() {
    let entries = vec![
        entry("cn=a,dc=x", &[("mail", &["a@x"]), ("cn", &["a"])]),
        entry("cn=b,dc=x", &[("sn", &["Smith, Jr"]), ("cn", &["b"])]),
    ];
    let csv = to_csv(&entries, &strings(&["sn", "cn"]));
    assert_eq!(csv, "dn,sn,cn\n\"cn=a,dc=x\",,a\n\"cn=b,dc=x\",\"Smith, Jr\",b\n");
}

#[test]
fn csv_quoting_doubles_quotes() {
    assert_eq!(csv_quote("plain"), "plain");
    assert_eq!(csv_quote("say \"hi\""), "\"say \"\"hi\"\"\"");
    assert_eq!(csv_quote("two\nlines"), "\"two\nlines\"");
    assert_eq!(csv_quote(""), "");
}

#[test]
fn base64_known_values() {
    assert_eq!(encode_base64(&b"".to_vec()), "");
    assert_eq!(encode_base64(&b"f".to_vec()), "Zg==");
    assert_eq!(encode_base64(&b"fo".to_vec()), "Zm8=");
    assert_eq!(encode_base64(&b"foobar".to_vec()), "Zm9vYmFy");
}

#[test]
fn ldif_records_and_encoding() {
    let entries = vec![
        entry(
            "cn=Test,dc=example,dc=com",
            &[("cn", &["Test"]), ("description", &[" leading", "é"])],
        ),
        entry("cn=b,dc=x", &[("mail", &["a@x", "b@x"])]),
    ];
    let ldif = to_ldif(&entries, &strings(&["*"]));
    assert_eq!(
        ldif,
        "dn: cn=Test,dc=example,dc=com\ncn: Test\ndescription:: IGxlYWRpbmc=\ndescription:: w6k=\n\ndn: cn=b,dc=x\nmail: a@x\nmail: b@x\n"
    );
}

#[test]
fn ldif_folds_long_lines() {
    let line = format!("cn: {}", "x".repeat(100));
    let expected = format!("cn: {}\n {}", "x".repeat(72), "x".repeat(28));
    assert_eq!(fold_line(&line), expected);
    assert_eq!(fold_line("short"), "short");
    let long = "y".repeat(76 + 75 + 10);
    let folded = fold_line(&long);
    assert_eq!(folded, format!("{}\n {}\n {}", "y".repeat(76), "y".repeat(75), "y".repeat(10)));
}

#[test]
fn ldif_explicit_selection() {
    let entries = vec![entry("cn=a,dc=x", &[("cn", &["a"]), ("sn", &["A"])])];
    assert_eq!(to_ldif(&entries, &strings(&["sn"])), "dn: cn=a,dc=x\nsn: A\n");
}
