use readset::search::{split_name, highlight_ranges, Catalogue, Plan};
use serde_json::Value as Json;

fn catalogue() -> Result<Catalogue, String> {
    let mut result = Catalogue::default();
    result.insert("hello".into(), "hello-0.1", "Empty\n file".into())?;
    result.insert("foo".into(), "foo-5", String::new())?;
    result.insert("bar".into(), "bar-3", "broken bar".into())?;
    Ok(result)
}

fn owned(items: &[&str]) -> Vec<String> {
    items.iter().map(|s| (*s).to_owned()).collect()
}

fn render(catalogue: &Catalogue, wants: &[&str], bars: &[&str]) -> Result<String, String> {
    Plan::new(&owned(wants), &owned(bars), true, false)?.render(catalogue)
}

#[test]
fn codec_and_filter_policy() {
    let catalogue = catalogue().unwrap();
    assert_eq!(
        Catalogue::decode(&catalogue.encode().unwrap().into_bytes()).unwrap(),
        catalogue
    );
    assert!(render(&catalogue, &["HELLO", "empty"], &[]).unwrap().contains("hello"));
    assert_eq!(render(&catalogue, &["hello", "broken"], &[]).unwrap(), "{}\n");
    assert!(!render(&catalogue, &["^"], &["bar"]).unwrap().contains("bar"));
    assert!(Plan::new(&vec![], &vec![], false, false).is_err());
    assert!(Plan::new(&owned(&["["]), &vec![], false, false).is_err());
}

#[test]
fn overlapping_and_zero_width_matches() {
    let plan = Plan::new(&owned(&["broken b", "en bar", "^"]), &vec![], false, true).ok().unwrap();
    assert_eq!(
        plan.highlight("broken bar", false).unwrap(),
        "\x1b[32;1mbroken bar\x1b[0m"
    );
    let plain = Plan::new(&owned(&["^"]), &vec![], false, true).ok().unwrap();
    assert_eq!(plain.highlight("éclair", false).unwrap(), "éclair");
}

#[test]
fn invalid_cache_rows_are_rejected() {
    for bytes in [
        r#"{}"#,
        r#"{"version":2,"packages":[]}"#,
        r#"{"version":1,"packages":[["x","p",0,""]]}"#,
        r#"{"version":1,"packages":[["x","p","1",""],["x","p","1",""]]}"#,
    ] {
        assert!(Catalogue::decode(&bytes.as_bytes().to_vec()).is_err());
    }
}

#[test]
fn terminal_controls_are_visible_while_json_preserves_metadata() {
    let mut catalogue = Catalogue::default();
    let description = "safe\x1b]52;c;payload\x07\n\u{009b}31méclair";
    catalogue.insert("package".into(), "package-1", description.into()).unwrap();
    let text = Plan::new(&owned(&["^"]), &vec![], false, false).ok().unwrap().render(&catalogue).unwrap();
    assert!(!text.contains('\x1b'));
    assert!(!text.contains('\x07'));
    assert!(!text.contains('\u{009b}'));
    assert!(text.contains("\\u{1b}]52;c;payload\\u{7}\\n\\u{9b}31méclair"));
    let json = Plan::new(&owned(&["^"]), &vec![], true, false).ok().unwrap().render(&catalogue).unwrap();
    let json: Json = serde_json::from_str(&json).unwrap();
    assert_eq!(
        json.get("package")
            .and_then(|package| package.get("description"))
            .and_then(Json::as_str),
        Some(description)
    );
}

#[test]
fn names_part_before_their_versions() {
    for (name, pname, version) in [
        ("hello-0.1", "hello", "0.1"),
        ("foo", "foo", ""),
        ("perl-xml-2.5-beta", "perl-xml", "2.5-beta"),
        ("trailing-", "trailing-", ""),
        ("a--b", "a", "-b"),
        ("-1", "", "1"),
    ] {
        let (p, v) = split_name(name);
        assert_eq!((p.as_str(), v.as_str()), (pname, version), "{name}");
    }
}

#[test]
fn a_path_that_is_there_is_an_error_and_takes_its_place() {
    let mut c = Catalogue::default();
    c.insert("x".into(), "x-1", "old".into()).unwrap();
    assert_eq!(
        c.insert("x".into(), "x-2", "new".into()),
        Err("duplicate search package path 'x'".to_owned())
    );
    assert_eq!(
        c.encode().unwrap(),
        r#"{"packages":[["x","x","2","new"]],"version":1}"#
    );
}

#[test]
fn every_malformed_catalogue_says_why() {
    for (bytes, why) in [
        ("[]", "search catalogue must be an object"),
        (r#"{"version":1,"packages":[],"more":1}"#, "unknown search catalogue version or fields"),
        (r#"{"version":1,"package":[]}"#, "search packages must be an array"),
        (r#"{"version":1,"packages":{}}"#, "search packages must be an array"),
        (r#"{"version":1,"packages":["x"]}"#, "invalid search package row"),
        (r#"{"version":1,"packages":[["x","p","1"]]}"#, "invalid search package fields"),
        (r#"{"version":1,"packages":[["x","p",0,""]]}"#, "search package field must be a string"),
        (
            r#"{"version":1,"packages":[["y","p","1",""],["x","p","1",""]]}"#,
            "search package paths must be unique and sorted",
        ),
    ] {
        assert_eq!(Catalogue::decode(&bytes.as_bytes().to_vec()).err(), Some(why.to_owned()), "{bytes}");
    }
    assert!(Catalogue::decode(&b"{".to_vec()).err().unwrap().contains("EOF"));
}

#[test]
fn a_plan_says_which_expression_is_wrong() {
    assert_eq!(
        Plan::new(&vec![], &vec![], false, false).err(),
        Some("search requires at least one regular expression".to_owned())
    );
    let error = Plan::new(&owned(&["a"]), &owned(&["("]), false, false).err().unwrap();
    assert!(error.starts_with("invalid search regular expression '(': "), "{error}");
}

#[test]
fn text_is_rendered_with_an_empty_line_between_packages() {
    let c = catalogue().unwrap();
    let plan = Plan::new(&owned(&["^"]), &owned(&["foo"]), false, false).ok().unwrap();
    assert_eq!(
        plan.render(&c).unwrap(),
        "* bar (3)\n  broken bar\n\n* hello (0.1)\n  Empty\\n file\n"
    );
    let colored = Plan::new(&owned(&["BAR"]), &vec![], false, true).ok().unwrap();
    assert_eq!(
        colored.render(&c).unwrap(),
        "* \x1b[0;1m\x1b[32;1mbar\x1b[0;1m\x1b[0m (3)\n  broken \x1b[32;1mbar\x1b[0m\n"
    );
}

#[test]
fn ranges_that_touch_are_painted_once() {
    assert_eq!(
        highlight_ranges("abcdef", &vec![(4, 5), (0, 1), (1, 2), (2, 2)], true).unwrap(),
        "\x1b[32;1mab\x1b[0;1mcd\x1b[32;1me\x1b[0;1mf"
    );
    assert_eq!(highlight_ranges("abc", &vec![], false).unwrap(), "abc");
    assert_eq!(
        highlight_ranges("é", &vec![(1, 2)], false),
        Err("invalid search highlight boundary".to_owned())
    );
    assert_eq!(
        highlight_ranges("é", &vec![(0, 1)], false),
        Err("invalid search highlight range".to_owned())
    );
    assert_eq!(
        highlight_ranges("a", &vec![(0, 9)], false),
        Err("invalid search highlight range".to_owned())
    );
}

#[test]
fn a_field_of_another_type_is_neither_a_version_nor_packages() {
    let decode = |text: &str| Catalogue::decode(&text.as_bytes().to_vec()).map(|_| ());
    assert_eq!(decode("{\"packages\":[],\"version\":1}"), Ok(()));
    for version in ["true", "\"1\"", "[1]", "-1", "null"] {
        assert_eq!(
            decode(&format!("{{\"packages\":[],\"version\":{version}}}")),
            Err("unknown search catalogue version or fields".to_owned())
        );
    }
    for packages in ["true", "\"p\"", "1", "{}", "null"] {
        assert_eq!(
            decode(&format!("{{\"packages\":{packages},\"version\":1}}")),
            Err("search packages must be an array".to_owned())
        );
    }
}

#[test]
fn a_search_takes_no_notice_of_case() {
    assert!(readset::search::IGNORE_CASE);
    let catalogue = Catalogue::decode(
        &b"{\"packages\":[[\"p.Hello\",\"Hello\",\"1\",\"Greets\"]],\"version\":1}".to_vec(),
    )
    .expect("a catalogue");
    let plan = Plan::new(&vec!["hELLO".to_owned()], &vec![], false, false).ok().expect("a plan");
    assert!(plan.render(&catalogue).expect("rendered").contains("p.Hello"));
}
