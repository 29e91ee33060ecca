use velvet::icons::{format_icon_markup, icon_name, IconGlyphMap};
use velvet::rtl::{
    is_mostly_rtl, is_rtl_char, prepare_line_for_display, reverse_display_order, strip_bidi_marks,
    wrap_for_base_direction, BidiMark,
};
use velvet::ruby::{format_ruby_markup, parse_ruby_tag};
use velvet::text_kinds::{FontWeight, MarkupError, TextAlign};

fn chars(s: &str) -> Vec<char> {
    s.chars().collect()
}

fn name_of(attrs: &str) -> String {
    icon_name(&chars(attrs)).into_iter().collect()
}

#[test]
fn strip_marks() {
    let s = format!("{}hi{}", BidiMark::Lrm.as_char(), BidiMark::Rlm.as_char());
    assert_eq!(strip_bidi_marks(&s), "hi");
}

#[test]
fn hebrew_is_rtl() {
    assert!(is_rtl_char('ש'));
    assert!(is_mostly_rtl("שלום"));
    assert!(!is_mostly_rtl("hello"));
}

#[test]
fn reverse_order() {
    assert_eq!(reverse_display_order("abc"), "cba");
}

#[test]
fn prepare_ltr_unchanged() {
    assert_eq!(prepare_line_for_display("Hello"), "Hello");
}

#[test]
fn reverse_twice_is_identity() {
    let s = "שלום abc";
    assert_eq!(reverse_display_order(&reverse_display_order(s)), s);
}

#[test]
fn stripped_text_has_no_marks() {
    let s = format!("a{}b{}c", BidiMark::Rlm.as_char(), BidiMark::Lrm.as_char());
    let out = strip_bidi_marks(&s);
    assert_eq!(out, "abc");
    assert!(out.chars().all(|c| BidiMark::from_char(c).is_none()));
}

#[test]
fn wrap_marks_base_direction() {
    let w = wrap_for_base_direction("abc", true);
    assert!(w.starts_with(BidiMark::Rlm.as_char()));
    assert!(w.contains("abc"));
}

#[test]
fn parse_attrs() {
    let (b, r) = parse_ruby_tag("ruby", "base=漢 text=かん").unwrap();
    assert_eq!(b, "漢");
    assert_eq!(r, "かん");
}

#[test]
fn format_roundtrip_shape() {
    let m = format_ruby_markup("花", "はな");
    assert!(m.contains("花"));
    assert!(m.contains("はな"));
}

#[test]
fn ruby_markup_exact_text() {
    assert_eq!(format_ruby_markup("花", "はな"), "{ruby text=はな}花{/ruby}");
}

#[test]
fn ruby_tag_forms() {
    assert_eq!(parse_ruby_tag("rb", "text=x"), None);
    assert_eq!(parse_ruby_tag("ruby", ""), None);
    assert_eq!(parse_ruby_tag("ruby", "かな"), Some((String::new(), "かな".to_string())));
    assert_eq!(
        parse_ruby_tag("ruby", "rt=\"よみ\" base=読"),
        Some(("読".to_string(), "よみ".to_string()))
    );
    assert_eq!(
        parse_ruby_tag("ruby", "value=v text=t"),
        Some((String::new(), "t".to_string()))
    );
    assert_eq!(parse_ruby_tag("ruby", "base=only"), None);
}

#[test]
fn expand_plain() {
    let map = IconGlyphMap::with_defaults();
    let t = map.expand_plain("Get {icon=coin} x3");
    assert!(t.contains('◎'));
    assert!(t.contains("x3"));
}

#[test]
fn format_markup() {
    assert_eq!(format_icon_markup("star"), "{icon=star}");
}

#[test]
fn expand_plain_exact_output() {
    let map = IconGlyphMap::with_defaults();
    assert_eq!(map.expand_plain("Get {icon=coin} x3"), "Get ◎ x3");
    assert_eq!(map.expand_plain("{icon id=heart}{icon=star}"), "♥★");
    assert_eq!(map.expand_plain("no icons"), "no icons");
    assert_eq!(map.expand_plain("{icon=mystery}"), "◆");
}

#[test]
fn expand_plain_unclosed_placeholder_kept() {
    let map = IconGlyphMap::with_defaults();
    assert_eq!(map.expand_plain("ab{icon=coin"), "ab{icon=coin");
    assert_eq!(map.expand_plain("bad {icon=star"), "bad {icon=star");
    assert_eq!(map.expand_plain("{icon=coin} then {icon=star"), "◎ then {icon=star");
}

#[test]
fn glyph_map_insert_and_default() {
    let mut m = IconGlyphMap::new();
    assert_eq!(m.glyph("heart"), '◆');
    m.insert("heart", '♡');
    assert_eq!(m.glyph("heart"), '♡');
    m.insert("heart", '♥');
    assert_eq!(m.glyph("heart"), '♥');
    assert_eq!(IconGlyphMap::with_defaults().glyph("check"), '✓');
}

#[test]
fn icon_names_from_bodies() {
    assert_eq!(name_of("sword"), "sword");
    assert_eq!(name_of("\"sword\""), "sword");
    assert_eq!(name_of("id=heart size=18"), "heart");
    assert_eq!(name_of("icon=sword"), "sword");
    assert_eq!(name_of("=key"), "key");
    assert_eq!(name_of("size=3"), "icon");
    assert_eq!(name_of(""), "icon");
    assert_eq!(name_of("name=a value=b"), "b");
}

#[test]
fn markup_error_messages() {
    assert_eq!(MarkupError::Unclosed(5).message(), "unclosed tag at 5");
    assert_eq!(MarkupError::UnknownTag("x".into(), 12).message(), "unknown tag 'x' at 12");
    assert_eq!(MarkupError::BadAttr("c".into(), 0).message(), "bad attribute in 'c' at 0");
    assert_eq!(TextAlign::default(), TextAlign::Left);
    assert_eq!(FontWeight::default(), FontWeight::Regular);
}
