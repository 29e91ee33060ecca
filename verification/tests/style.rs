use velvet::style_text::{extract_import_path, strip_comments};

#[test]
fn comments_become_spaces_keeping_newlines() {
    assert_eq!(strip_comments("a /* x\ny */ b"), "a  \n b");
    assert_eq!(strip_comments("x // c\ny"), "x  \ny");
    assert_eq!(strip_comments("a/b"), "a/b");
    assert_eq!(strip_comments("/* open"), " ");
    assert_eq!(strip_comments("/*/ still */x"), " x");
}

#[test]
fn comment_markers_inside_strings_are_kept() {
    assert_eq!(strip_comments("s: \"a//b\"; /*c*/"), "s: \"a//b\";  ");
    assert_eq!(strip_comments("'x\\'//' y"), "'x\\'//' y");
    assert_eq!(strip_comments("content: \"Niño // listo; cierre } /* literal */\";"), "content: \"Niño // listo; cierre } /* literal */\";");
}

#[test]
fn import_paths() {
    assert_eq!(extract_import_path("@import \"base.vcss\";").as_deref(), Some("base.vcss"));
    assert_eq!(extract_import_path("@import 'a.vcss'").as_deref(), Some("a.vcss"));
    assert_eq!(extract_import_path("@import url( \"x.vcss\" )").as_deref(), Some("x.vcss"));
    assert_eq!(extract_import_path("@import url(x.vcss);"), None);
    assert_eq!(extract_import_path("import x"), None);
    assert_eq!(extract_import_path("@import \"open").as_deref(), Some("open"));
}
