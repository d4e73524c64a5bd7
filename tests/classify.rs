use rz_embed::{ContentType, FileType, ResourceFile};

fn kind(ext: Option<&str>) -> FileType {
    FileType::from_extension(&ext.map(|e| e.to_string()))
}

#[test]
fn textual_extensions() {
    assert_eq!(kind(Some("html")), FileType::Html);
    assert_eq!(kind(Some("js")), FileType::JavaScript);
    assert_eq!(kind(Some("css")), FileType::Css);
    assert_eq!(kind(Some("json")), FileType::Json);
    assert_eq!(kind(Some("xml")), FileType::Xml);
    assert_eq!(kind(Some("txt")), FileType::Plain);
    assert_eq!(kind(Some("md")), FileType::Plain);
}

#[test]
fn binary_extensions() {
    assert_eq!(kind(Some("png")), FileType::Binary(ContentType::Png));
    assert_eq!(kind(Some("ttf")), FileType::Binary(ContentType::Ttf));
    assert_eq!(kind(Some("ico")), FileType::Binary(ContentType::Ico));
    assert_eq!(kind(Some("wasm")), FileType::Binary(ContentType::Unknown));
    assert_eq!(kind(Some("")), FileType::Binary(ContentType::Unknown));
    assert_eq!(kind(None), FileType::Binary(ContentType::Unknown));
}

#[test]
fn classification_is_case_sensitive() {
    assert_eq!(kind(Some("HTML")), FileType::Binary(ContentType::Unknown));
    assert_eq!(ContentType::from_extension("PNG"), ContentType::Unknown);
    assert_eq!(ContentType::from_extension("png"), ContentType::Png);
}

#[test]
fn record_from_path() {
    let r = ResourceFile::from_path("css/style.css");
    assert_eq!(r.path, "css/style.css");
    assert_eq!(r.slug, "css_style_css");
    assert_eq!(r.const_name, "CSS_STYLE_CSS");
    assert_eq!(r.file_type, FileType::Css);
}

#[test]
fn record_kind_uses_file_name_only() {
    assert_eq!(
        ResourceFile::from_path("README").file_type,
        FileType::Binary(ContentType::Unknown)
    );
    assert_eq!(
        ResourceFile::from_path("dir.v2/README").file_type,
        FileType::Binary(ContentType::Unknown)
    );
    assert_eq!(
        ResourceFile::from_path("img/logo.png").file_type,
        FileType::Binary(ContentType::Png)
    );
    assert_eq!(ResourceFile::from_path("a.b/c.d.html").file_type, FileType::Html);
}

#[test]
fn const_name_is_ascii_uppercase() {
    let r = ResourceFile::from_path("fonts/café.ttf");
    assert_eq!(r.slug, "fonts_café_ttf");
    assert_eq!(r.const_name, "FONTS_CAFé_TTF");
}

#[test]
fn collect_keeps_order() {
    let paths = vec!["b.js".to_string(), "a.html".to_string()];
    let rs = ResourceFile::collect(&paths);
    assert_eq!(rs.len(), 2);
    assert_eq!(rs[0].path, "b.js");
    assert_eq!(rs[1].path, "a.html");
    assert_eq!(rs[1].file_type, FileType::Html);
}

#[test]
fn ascii_uppercase_only_changes_ascii_letters() {
    assert_eq!(rz_embed::to_ascii_uppercase("abc_xyz09"), "ABC_XYZ09");
    assert_eq!(rz_embed::to_ascii_uppercase("ärger"), "äRGER");
    assert_eq!(rz_embed::to_ascii_uppercase(""), "");
}
