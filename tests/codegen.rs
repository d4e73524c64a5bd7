use rz_embed::{
    artifact_name, artifact_path, generate_code, generate_module, generate_rocket_code,
    path_without_extension, route_plan, string_literal, FileType, ResourceFile,
};

fn resources(paths: &[&str]) -> Vec<ResourceFile> {
    let paths: Vec<String> = paths.iter().map(|p| p.to_string()).collect();
    ResourceFile::collect(&paths)
}

#[test]
fn html_resource_gets_alias_route() {
    let rs = resources(&["index.html"]);
    let routes = route_plan(&rs);
    assert_eq!(routes.len(), 2);
    assert_eq!(routes[0].url, "/index.html");
    assert_eq!(routes[0].handler, "serve_index_html");
    assert_eq!(routes[1].url, "/index");
    assert_eq!(routes[1].handler, "serve_index");
    assert_eq!(routes[0].const_name, "INDEX_HTML");
    assert_eq!(routes[1].const_name, routes[0].const_name);
    assert_eq!(routes[1].file_type, FileType::Html);
}

#[test]
fn alias_in_subdirectory() {
    let rs = resources(&["docs/guide.v1.html", "app.js"]);
    let routes = route_plan(&rs);
    let urls: Vec<&str> = routes.iter().map(|r| r.url.as_str()).collect();
    assert_eq!(urls, vec!["/docs/guide.v1.html", "/docs/guide.v1", "/app.js"]);
}

#[test]
fn path_without_extension_cases() {
    assert_eq!(path_without_extension("index.html"), "index");
    assert_eq!(path_without_extension("a.b/c"), "a.b/c");
    assert_eq!(path_without_extension("a/b.tar.gz"), "a/b.tar");
    assert_eq!(path_without_extension("noext"), "noext");
}

#[test]
fn non_html_resources_get_one_route() {
    let rs = resources(&["style.css", "logo.png"]);
    let routes = route_plan(&rs);
    assert_eq!(routes.len(), 2);
    assert_eq!(routes[0].url, "/style.css");
    assert_eq!(routes[1].url, "/logo.png");
}

#[test]
fn string_literal_escapes() {
    assert_eq!(string_literal("abc"), "\"abc\"");
    assert_eq!(string_literal("a\"b\\c"), "\"a\\\"b\\\\c\"");
    assert_eq!(string_literal("x\ny\tz"), "\"x\\ny\\tz\"");
    assert_eq!(string_literal(""), "\"\"");
}

#[test]
fn artifact_paths() {
    assert_eq!(artifact_name("index_html"), "index_html.gz");
    assert_eq!(artifact_path("out/rz-embed", "index_html"), "out/rz-embed/index_html.gz");
    assert_eq!(artifact_path("out/rz-embed/", "a"), "out/rz-embed/a.gz");
    assert_eq!(artifact_path("", "a"), "a.gz");
}

#[test]
fn generated_code_holds_accessor_and_extraction() {
    let rs = resources(&["index.html"]);
    let code = generate_code("cache", &rs, false);
    assert!(code.starts_with("use lazy_static::lazy_static;\n"));
    assert!(code.contains("pub static ref INDEX_HTML: Vec<u8> = {"));
    assert!(code.contains("include_bytes!(\"cache/index_html.gz\")"));
    assert!(code.contains("let path = dst.join(\"index.html\");"));
    assert!(code.contains("std::io::Write::write_all(&mut file_handle, &INDEX_HTML)?;"));
    assert!(code.contains("pub fn extract_to_folder("));
    assert!(!code.contains("routes!["));
}

#[test]
fn generated_handlers_for_html() {
    let rs = resources(&["index.html"]);
    let code = generate_rocket_code(&rs);
    let expected = "#[get(\"/index.html\")]\npub fn serve_index_html() -> rocket::response::content::RawHtml<&'static [u8]> {\n    rocket::response::content::RawHtml(&INDEX_HTML)\n}\n#[get(\"/index\")]\npub fn serve_index() -> rocket::response::content::RawHtml<&'static [u8]> {\n    rocket::response::content::RawHtml(&INDEX_HTML)\n}\npub fn routes() -> Vec<rocket::Route> {\n    routes![serve_index_html, serve_index]\n}\n";
    assert_eq!(code, expected);
}

#[test]
fn binary_response_declared_once_when_needed() {
    let rs = resources(&["a.png", "b.ico", "c.bin", "d.ttf"]);
    let code = generate_rocket_code(&rs);
    assert_eq!(code.matches("pub struct BinaryResponse").count(), 1);
    assert!(code.starts_with("pub struct BinaryResponse"));
    assert!(code.contains("BinaryResponse(&A_PNG, rocket::http::ContentType::PNG)"));
    assert!(code.contains("BinaryResponse(&B_ICO, rocket::http::ContentType::Icon)"));
    assert!(code.contains("BinaryResponse(&C_BIN, rocket::http::ContentType::Binary)"));
    assert!(code.contains("BinaryResponse(&D_TTF, rocket::http::ContentType::TTF)"));
    let text_only = generate_rocket_code(&resources(&["a.css", "b.json", "c.xml", "d.md", "e.js"]));
    assert!(!text_only.contains("BinaryResponse"));
    assert!(text_only.contains("rocket::response::content::RawCss(&A_CSS)"));
    assert!(text_only.contains("rocket::response::content::RawJson(&B_JSON)"));
    assert!(text_only.contains("rocket::response::content::RawXml(&C_XML)"));
    assert!(text_only.contains("rocket::response::content::RawText(&D_MD)"));
    assert!(text_only.contains("rocket::response::content::RawJavaScript(&E_JS)"));
}

#[test]
fn route_list_in_emission_order() {
    let rs = resources(&["b.css", "a.html"]);
    let code = generate_rocket_code(&rs);
    assert!(code.contains("routes![serve_b_css, serve_a_html, serve_a]"));
}

#[test]
fn empty_resource_set() {
    let rs = resources(&[]);
    let code = generate_rocket_code(&rs);
    assert_eq!(code, "pub fn routes() -> Vec<rocket::Route> {\n    routes![]\n}\n");
}

#[test]
fn module_wraps_code() {
    let rs = resources(&["index.html", "logo.png"]);
    let module = generate_module("embedded_frontend", "target/rz-embed/x", &rs, true);
    assert!(module.starts_with("mod embedded_frontend {\n"));
    assert!(module.ends_with("}\n}\n"));
    assert!(module.contains(&generate_code("target/rz-embed/x", &rs, true)));
}

#[test]
fn generated_text_is_deterministic() {
    let a = generate_module("m", "out", &resources(&["index.html", "x/y.js", "z.png"]), true);
    let b = generate_module("m", "out", &resources(&["index.html", "x/y.js", "z.png"]), true);
    assert_eq!(a, b);
}

#[test]
fn slug_collisions_are_found() {
    assert_eq!(rz_embed::find_slug_collision(&resources(&["a.js", "b.js", "c.js"])), None);
    assert_eq!(
        rz_embed::find_slug_collision(&resources(&["a-b.js", "x.js", "a_b.js"])),
        Some((0, 2))
    );
    assert_eq!(rz_embed::find_slug_collision(&resources(&[])), None);
}

#[test]
fn handler_collisions_are_found() {
    let rs = resources(&["index.html", "index"]);
    assert_eq!(rz_embed::find_slug_collision(&rs), None);
    assert_eq!(rz_embed::find_handler_collision(&route_plan(&rs)), Some((1, 2)));
    let ok = resources(&["index.html", "about.html"]);
    assert_eq!(rz_embed::find_handler_collision(&route_plan(&ok)), None);
}
