use velvet::story_refs::{parse_line_col, parse_u32, split_target};
use velvet::tags::split_tag;
use velvet::tags::attr_str;
use velvet::tags::first_unnamed_str;
use velvet::style_text::split_top_level_comma;
use velvet::style_text::has_time_suffix;
use velvet::style_text::strip_hash;
use velvet::selector::parse_ident_at;

#[test]
fn split_target_with_expression() {
    let (id, expr) = split_target("aria.happy");
    assert_eq!(id, "aria");
    assert_eq!(expr.as_deref(), Some("happy"));
}

#[test]
fn split_target_first_dot_only() {
    let (id, expr) = split_target("aria.happy.blush");
    assert_eq!(id, "aria");
    assert_eq!(expr.as_deref(), Some("happy.blush"));
}

#[test]
fn split_target_without_dot() {
    let (id, expr) = split_target("ben");
    assert_eq!(id, "ben");
    assert_eq!(expr, None);
}

#[test]
fn line_col_with_file() {
    assert_eq!(parse_line_col("story.vel:12:3"), (12, 3));
}

#[test]
fn line_col_from_message() {
    assert_eq!(parse_line_col("unexpected token at 4:9 near x"), (4, 9));
}

#[test]
fn line_col_only_line() {
    assert_eq!(parse_line_col("line 7"), (7, 1));
}

#[test]
fn line_col_none_found() {
    assert_eq!(parse_line_col("no position"), (1, 1));
    assert_eq!(parse_line_col(""), (1, 1));
}

#[test]
fn line_col_skips_overflow_and_signs() {
    assert_eq!(parse_line_col("x:99999999999:-2:+5:6"), (5, 6));
}

#[test]
fn parse_u32_edges() {
    let c = |s: &str| s.chars().collect::<Vec<char>>();
    assert_eq!(parse_u32(&c("4294967295")), Some(4294967295));
    assert_eq!(parse_u32(&c("4294967296")), None);
    assert_eq!(parse_u32(&c("+12")), Some(12));
    assert_eq!(parse_u32(&c("+")), None);
    assert_eq!(parse_u32(&c("")), None);
    assert_eq!(parse_u32(&c("1a")), None);
    assert_eq!(parse_u32(&c("007")), Some(7));
}

fn chars(s: &str) -> Vec<char> {
    s.chars().collect()
}

fn text(v: &[char]) -> String {
    v.iter().collect()
}

#[test]
fn split_tag_forms() {
    let (n, a) = split_tag(&chars("color=#ff5577"));
    assert_eq!((text(&n), text(&a)), ("color".to_string(), "#ff5577".to_string()));
    let (n, a) = split_tag(&chars("  icon id=star  size=2 "));
    assert_eq!((text(&n), text(&a)), ("icon".to_string(), "id=star  size=2".to_string()));
    let (n, a) = split_tag(&chars("b"));
    assert_eq!((text(&n), text(&a)), ("b".to_string(), String::new()));
    let (n, a) = split_tag(&chars("pause 0.5"));
    assert_eq!((text(&n), text(&a)), ("pause".to_string(), "0.5".to_string()));
}

#[test]
fn markup_attr_lookup() {
    let get = |attrs: &str, key: &str| attr_str(&chars(attrs), key).map(|v| text(&v));
    assert_eq!(get("id=star size=2", "id").as_deref(), Some("star"));
    assert_eq!(get("href=\"https://x\"", "href").as_deref(), Some("https://x"));
    assert_eq!(get("id=star", "name"), None);
    assert_eq!(get("#ff0000", "value").as_deref(), Some("#ff0000"));
    assert_eq!(get("\"two words\"", "value").as_deref(), Some("two words"));
    assert_eq!(get("two words", "value"), None);
    assert_eq!(get("", "value"), None);
}

#[test]
fn unnamed_markup_argument() {
    assert_eq!(first_unnamed_str(&chars("star")).map(|v| text(&v)).as_deref(), Some("star"));
    assert_eq!(first_unnamed_str(&chars("\"star\"")).map(|v| text(&v)).as_deref(), Some("star"));
    assert_eq!(first_unnamed_str(&chars("id=star")), None);
    assert_eq!(first_unnamed_str(&chars("")), None);
}

#[test]
fn top_level_comma_split() {
    let split = |s: &str| {
        let (a, b) = split_top_level_comma(&chars(s));
        (text(&a), b.map(|v| text(&v)))
    };
    assert_eq!(split("fade 1s, slide 2s"), ("fade 1s".to_string(), Some(" slide 2s".to_string())));
    assert_eq!(split("rgb(1,2,3), x"), ("rgb(1,2,3)".to_string(), Some(" x".to_string())));
    assert_eq!(split("\"a,b\", c"), ("\"a,b\"".to_string(), Some(" c".to_string())));
    assert_eq!(split("'a\\',b', c"), ("'a\\',b'".to_string(), Some(" c".to_string())));
    assert_eq!(split(")), x"), ("))".to_string(), Some(" x".to_string())));
    assert_eq!(split("no comma"), ("no comma".to_string(), None));
    assert_eq!(split("[a,b]"), ("[a,b]".to_string(), None));
}

#[test]
fn time_suffixes() {
    assert!(has_time_suffix(&chars("250ms")));
    assert!(has_time_suffix(&chars("1.5s")));
    assert!(!has_time_suffix(&chars("2")));
    assert!(!has_time_suffix(&chars("")));
}

#[test]
fn hash_ids() {
    assert_eq!(strip_hash("  #hero "), "hero");
    assert_eq!(strip_hash("##x"), "x");
    assert_eq!(strip_hash("plain"), "plain");
    assert_eq!(strip_hash("#"), "");
}

#[test]
fn identifiers_at_positions() {
    let s = chars("button.primary-1:hover");
    let (id, e) = parse_ident_at(&s, 0).unwrap();
    assert_eq!((text(&id), e), ("button".to_string(), 6));
    let (id, e) = parse_ident_at(&s, 7).unwrap();
    assert_eq!((text(&id), e), ("primary-1".to_string(), 16));
    assert!(parse_ident_at(&s, 6).is_none());
    assert!(parse_ident_at(&s, s.len()).is_none());
}
