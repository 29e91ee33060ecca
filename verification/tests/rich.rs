use velvet::rich_text::{parse_rich_text, RichSpan, StyleMod};
use velvet::text_kinds::MarkupError;

#[test]
fn parse_color_and_pause() {
    let r = parse_rich_text("Esto es {color=#ff5577}importante{/color}.{pause=0.5} fin").unwrap();
    assert!(r.plain().contains("importante"));
    assert!(r.spans.iter().any(|s| matches!(s, RichSpan::Pause { .. })));
    assert!(r.spans.iter().any(|s| matches!(
        s,
        RichSpan::Text { style, .. }
            if style.iter().any(|m| matches!(m, StyleMod::Color(c) if c.as_str() != "#ffffff"))
    )));
}

#[test]
fn parse_shake() {
    let r = parse_rich_text("{shake intensity=3}Get away!{/shake}").unwrap();
    assert_eq!(r.plain(), "Get away!");
    assert!(matches!(
        &r.spans[0],
        RichSpan::Text { style, .. } if matches!(style.last(), Some(StyleMod::Shake(_)))
    ));
}

#[test]
fn plain_strips_tags() {
    let r = parse_rich_text("{b}bold{/b} normal").unwrap();
    assert_eq!(r.plain(), "bold normal");
}

#[test]
fn parse_icon_eq() {
    let r = parse_rich_text("Get {icon=coin} now").unwrap();
    assert_eq!(r.icon_ids(), vec!["coin".to_string()]);
    assert_eq!(r.plain(), "Get  now");
}

#[test]
fn parse_ruby() {
    let r = parse_rich_text("{ruby text=かんじ}漢字{/ruby}").unwrap();
    assert!(matches!(
        &r.spans[0],
        RichSpan::Ruby { base, ruby, .. } if base == "漢字" && ruby == "かんじ"
    ));
    assert_eq!(r.plain(), "漢字");
}

#[test]
fn rich_color_pause_spans_exact() {
    let r = parse_rich_text("Esto es {color=#ff5577}importante{/color}.{pause=0.5} fin").unwrap();
    assert_eq!(r.spans.len(), 5);
    assert!(matches!(&r.spans[0], RichSpan::Text { text, style } if text == "Esto es " && style.is_empty()));
    assert!(matches!(
        &r.spans[1],
        RichSpan::Text { text, style }
            if text == "importante" && style.len() == 1
                && matches!(&style[0], StyleMod::Color(c) if c == "#ff5577")
    ));
    assert!(matches!(&r.spans[2], RichSpan::Text { text, style } if text == "." && style.is_empty()));
    assert!(matches!(&r.spans[3], RichSpan::Pause { attrs } if attrs == "0.5"));
    assert!(matches!(&r.spans[4], RichSpan::Text { text, .. } if text == " fin"));
    assert_eq!(r.char_count(), "Esto es importante. fin".len());
}

#[test]
fn rich_nested_styles_stack() {
    let r = parse_rich_text("{b}{i}x{/i}y{/b}").unwrap();
    assert!(matches!(
        &r.spans[0],
        RichSpan::Text { text, style }
            if text == "x" && style.len() == 2
                && matches!(style[0], StyleMod::Bold) && matches!(style[1], StyleMod::Italic)
    ));
    assert!(matches!(
        &r.spans[1],
        RichSpan::Text { text, style } if text == "y" && style.len() == 1
    ));
}

#[test]
fn rich_link_and_speed() {
    let r = parse_rich_text("{speed 2}{link href=u}go{/link}").unwrap();
    assert!(matches!(&r.spans[0], RichSpan::Speed { attrs } if attrs == "2"));
    assert!(matches!(&r.spans[1], RichSpan::Link { href, label } if href == "u" && label == "go"));
    assert_eq!(r.plain(), "go");
}

#[test]
fn rich_non_ascii_text_copied_by_byte() {
    let r = parse_rich_text("é").unwrap();
    assert_eq!(r.plain(), "\u{c3}\u{a9}");
    assert_eq!(r.char_count(), 2);
}

#[test]
fn rich_unclosed_brace_reports_byte() {
    assert!(matches!(parse_rich_text("abc {b").unwrap_err(), MarkupError::Unclosed(4)));
}

#[test]
fn rich_unclosed_ruby_and_link() {
    assert!(matches!(parse_rich_text("{ruby}abc").unwrap_err(), MarkupError::Unclosed(6)));
    assert!(matches!(parse_rich_text("{link}abc").unwrap_err(), MarkupError::Unclosed(6)));
}

#[test]
fn rich_unknown_tags() {
    assert!(matches!(
        parse_rich_text("é{zz}").unwrap_err(),
        MarkupError::UnknownTag(t, 6) if t == "zz"
    ));
    assert!(matches!(
        parse_rich_text("{/ x }").unwrap_err(),
        MarkupError::UnknownTag(t, 6) if t == "/x"
    ));
}

#[test]
fn rich_empty_input() {
    let r = parse_rich_text("").unwrap();
    assert!(r.spans.is_empty());
    assert!(r.icon_ids().is_empty());
}
