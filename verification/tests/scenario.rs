use path_abs::path::PathAbs;
use tempdir::TempDir;

#[test]
fn scenario_list_of_paths_under_directory() {
    let tmp_dir = TempDir::new("example").expect("create temp dir");
    let d = tmp_dir.path().to_str().unwrap().to_string();

    let foo = PathAbs::new(format!("{}/foo.txt", d).into_bytes()).unwrap();
    let bar = PathAbs::new(format!("{}/bar", d).into_bytes()).unwrap();
    let foo_bar = PathAbs::new(format!("{}/foo/bar", d).into_bytes()).unwrap();

    let expected = vec![foo, bar, foo_bar];

    let texts: Vec<String> = expected.iter().map(|p| p.to_text()).collect();
    let result_str = serde_json::to_string(&texts).unwrap();

    let expected_str = format!("[\"{0}/foo.txt\",\"{0}/bar\",\"{0}/foo/bar\"]", d);
    assert_eq!(expected_str, result_str);

    let parsed: Vec<String> = serde_json::from_str(&result_str).unwrap();
    let result: Vec<PathAbs> = parsed
        .iter()
        .map(|t| PathAbs::from_text(t).unwrap())
        .collect();
    assert_eq!(expected, result);
}

#[test]
fn scenario_non_printable_unit_escapes_and_returns() {
    let mut units: Vec<u8> = b"/tmp/data/".to_vec();
    units.push(0x80);
    units.extend(b".log".iter().copied());

    let p = PathAbs::new(units.clone()).unwrap();
    let text = p.to_text();
    assert!(text.contains("\\80"));

    let embedded = serde_json::to_string(&text).unwrap();
    let recovered_text: String = serde_json::from_str(&embedded).unwrap();
    let q = PathAbs::from_text(&recovered_text).unwrap();
    assert_eq!(q.as_native_units(), &units);
}
