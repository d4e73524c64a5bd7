use rz_embed::{normalize_lowered, slugify};

#[test]
fn test_slugify() {
    assert_eq!(
        slugify("f0o/b$r/b🇺🇳z/!\"§$%&()=?`''¹²³¼½¬{[]}\\¸ÜÄäü*':;.,@ł€¶ŧ←↓→øþ¨~»«¢„“”µ·…txt"),
        "f0o_b_r_b_z_üääü_ł_ŧ_øþ_µ_txt"
    );
    assert_eq!(slugify("a______b"), "a_b");
}

#[test]
fn slug_of_path_with_extension() {
    assert_eq!(slugify("index.html"), "index_html");
    assert_eq!(slugify("/index.html"), "index_html");
    assert_eq!(slugify("/index"), "index");
    assert_eq!(slugify("css/style.css"), "css_style_css");
}

#[test]
fn slug_lowercases() {
    assert_eq!(slugify("Hello"), "hello");
    assert_eq!(slugify("ÄRGER"), "ärger");
}

#[test]
fn slug_keeps_unicode_letters() {
    assert_eq!(slugify("café"), "café");
    assert_eq!(slugify("日本語.txt"), "日本語_txt");
}

#[test]
fn slug_joins_white_space_and_hyphens() {
    assert_eq!(slugify("Hello World--Foo"), "hello_world_foo");
    assert_eq!(slugify("a - b"), "a_b");
    assert_eq!(slugify("a\u{3000}b"), "a_b");
}

#[test]
fn slug_trims_white_space() {
    assert_eq!(slugify("  x  "), "x");
    assert_eq!(slugify("\t\n"), "");
}

#[test]
fn slug_strips_one_leading_underscore_only() {
    assert_eq!(slugify("_a"), "a");
    assert_eq!(slugify("__a"), "a");
    assert_eq!(slugify("a_"), "a_");
    assert_eq!(slugify("a."), "a_");
    assert_eq!(slugify("-a"), "a");
}

#[test]
fn slug_of_empty_is_empty() {
    assert_eq!(slugify(""), "");
    assert_eq!(slugify("!!!"), "");
}

#[test]
fn slug_is_idempotent_on_samples() {
    for s in [
        "f0o/b$r/b🇺🇳z/!\"§$%&()=?`''¹²³¼½¬{[]}\\¸ÜÄäü*':;.,@ł€¶ŧ←↓→øþ¨~»«¢„“”µ·…txt",
        "a______b",
        "Hello World--Foo",
        "  _x_ ",
        "img/Logo Final (2).PNG",
        "",
    ] {
        let once = slugify(s);
        assert_eq!(slugify(&once), once);
        assert_eq!(slugify(s), once);
    }
}

#[test]
fn normalize_after_lowercasing() {
    assert_eq!(normalize_lowered("a - b"), "a_b");
    assert_eq!(normalize_lowered("__a__b_"), "a_b_");
    assert_eq!(normalize_lowered("x\u{3000}\u{2003}y"), "x_y");
    assert_eq!(normalize_lowered("ab"), "ab");
    assert_eq!(normalize_lowered(""), "");
}

#[test]
fn white_space_set_is_unicode_white_space() {
    for c in [
        '\u{9}', '\u{a}', '\u{b}', '\u{c}', '\u{d}', ' ', '\u{85}', '\u{a0}', '\u{1680}',
        '\u{2000}', '\u{200a}', '\u{2028}', '\u{2029}', '\u{202f}', '\u{205f}', '\u{3000}',
    ] {
        assert_eq!(slugify(&format!("a{c}b")), "a_b");
    }
    assert_eq!(slugify("a\u{200b}b"), "a_b");
}
