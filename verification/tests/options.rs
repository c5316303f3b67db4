use atool::options::parse_opts;
use atool::options::split_str;

fn pairs(list: &[(&str, &str)]) -> Option<Vec<(String, String)>> {
    Some(list.iter().map(|(k, v)| (k.to_string(), v.to_string())).collect())
}

#[test]
fn options_are_read_in_order() {
    assert_eq!(parse_opts("preset=medium,crf=18"), pairs(&[("preset", "medium"), ("crf", "18")]));
    assert_eq!(parse_opts("preset=medium"), pairs(&[("preset", "medium")]));
    assert_eq!(
        parse_opts("a=1,b=2,a=3"),
        pairs(&[("a", "1"), ("b", "2"), ("a", "3")])
    );
}

#[test]
fn an_empty_string_holds_no_options() {
    assert_eq!(parse_opts(""), None);
}

#[test]
fn a_comma_at_the_end_is_ignored() {
    assert_eq!(parse_opts("preset=veryslow,"), pairs(&[("preset", "veryslow")]));
    assert_eq!(parse_opts("a=b,c=d,"), pairs(&[("a", "b"), ("c", "d")]));
}

#[test]
fn a_token_without_one_equals_sign_voids_all() {
    assert_eq!(parse_opts("preset"), None);
    assert_eq!(parse_opts("preset=medium,crf"), None);
    assert_eq!(parse_opts("crf,preset=medium"), None);
    assert_eq!(parse_opts("a=b=c"), None);
    assert_eq!(parse_opts("a=b,c=d=e"), None);
    assert_eq!(parse_opts("a=b,,c=d"), None);
    assert_eq!(parse_opts(",a=b"), None);
    assert_eq!(parse_opts(","), None);
    assert_eq!(parse_opts("a=b,,"), None);
}

#[test]
fn keys_and_values_may_be_empty() {
    assert_eq!(parse_opts("="), pairs(&[("", "")]));
    assert_eq!(parse_opts("=x"), pairs(&[("", "x")]));
    assert_eq!(parse_opts("x="), pairs(&[("x", "")]));
}

#[test]
fn characters_beyond_ascii_are_kept() {
    assert_eq!(parse_opts("título=ñandú,键=值"), pairs(&[("título", "ñandú"), ("键", "值")]));
}

#[test]
fn split_cuts_at_every_separator() {
    assert_eq!(split_str("a,b,c", ','), vec!["a", "b", "c"]);
    assert_eq!(split_str("", ','), vec![""]);
    assert_eq!(split_str(",", ','), vec!["", ""]);
    assert_eq!(split_str("a,,b,", ','), vec!["a", "", "b", ""]);
    assert_eq!(split_str("k=v", '='), vec!["k", "v"]);
    assert_eq!(split_str("no separator", '='), vec!["no separator"]);
}

#[test]
fn split_agrees_with_the_standard_library() {
    for s in ["", "a", "=", "a=b", "a==b", "=a=", "x=y=z", "ä=ö"] {
        let expected: Vec<String> = s.split('=').map(|p| p.to_string()).collect();
        assert_eq!(split_str(s, '='), expected);
    }
}
