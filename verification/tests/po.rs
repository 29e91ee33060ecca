use velvet::po::{parse_simple_po_table, replace_chars, TranslationTable};

fn pairs(t: &TranslationTable) -> Vec<(String, String)> {
    t.iter().map(|(k, v)| (k.clone(), v.clone())).collect()
}

#[test]
fn po_table_uses_context_then_source() {
    let text = "# header\n\nmsgctxt \"start:0:dialogue\"\nmsgid \"Hello\"\nmsgstr \"Hola\"\n\nmsgid \"Bye\"\nmsgstr \"Adios\"\n";
    let t = parse_simple_po_table(text);
    assert_eq!(
        pairs(&t),
        vec![
            ("start:0:dialogue".to_string(), "Hola".to_string()),
            ("Bye".to_string(), "Adios".to_string())
        ]
    );
}

#[test]
fn po_table_skips_empty_translations_and_unescapes() {
    let text = "msgid \"a\"\nmsgstr \"\"\nmsgid \"q\"\r\nmsgstr \"say \\\"hi\\\" \\\\ ok\"\r\n";
    let t = parse_simple_po_table(text);
    assert_eq!(t.len(), 1);
    assert_eq!(t.get("q").map(|s| s.as_str()), Some("say \"hi\" \\ ok"));
}

#[test]
fn po_table_later_entry_replaces_in_place() {
    let text = "msgid \"k\"\nmsgstr \"one\"\nmsgid \"z\"\nmsgstr \"zz\"\nmsgid \"k\"\nmsgstr \"two\"";
    let t = parse_simple_po_table(text);
    assert_eq!(
        pairs(&t),
        vec![("k".to_string(), "two".to_string()), ("z".to_string(), "zz".to_string())]
    );
}

#[test]
fn po_unquoted_values_are_taken_as_is() {
    let t = parse_simple_po_table("  msgctxt key \n msgstr   value  ");
    assert_eq!(pairs(&t), vec![("key".to_string(), "value".to_string())]);
    assert!(parse_simple_po_table("").is_empty());
}

#[test]
fn replace_is_left_to_right() {
    let v: Vec<char> = "aaa".chars().collect();
    let r: String = replace_chars(&v, &['a', 'a'], &['b']).into_iter().collect();
    assert_eq!(r, "ba");
}
