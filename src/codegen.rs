//! Generation of the source text that binds each resource: decompression
//! accessors, an extraction function, and optionally HTTP handlers with the
//! list of their routes.

use vstd::prelude::*;
use crate::cache::{artifact_path, artifact_path_of};
use crate::text::chars_of;
use crate::resource::{
    ResourceFile, path_without_extension, without_extension, first_duplicate, texts_of, all_distinct,
    is_collision,
};
use crate::classify::{ContentType, FileType};
use crate::slug::{slugify, slug_of};

verus! {

pub open spec fn handlers_of(routes: Seq<Route>) -> Seq<Seq<char>> {
    routes.map_values(|r: Route| r.handler@)
}

/// Two routes whose handlers share a name; `None` when every handler name is
/// distinct.
pub fn find_handler_collision(routes: &Vec<Route>) -> (r: Option<(usize, usize)>)
    ensures
        r is None <==> all_distinct(handlers_of(routes@)),
        r matches Some((i, j)) ==> is_collision(handlers_of(routes@), i as int, j as int),
{
    let mut names: Vec<&String> = Vec::new();
    for i in 0..routes.len()
        invariant
            names.len() == i,
            texts_of(names@) == handlers_of(routes@).take(i as int),
    {
        let ghost before = names@;
        names.push(&routes[i].handler);
        assert forall|k: int| 0 <= k < i + 1 implies #[trigger] texts_of(names@)[k]
            == handlers_of(routes@).take(i + 1)[k] by {
            if k < i {
                assert(names@[k] == before[k]);
                assert(texts_of(before)[k] == handlers_of(routes@).take(i as int)[k]);
            }
        }
        assert(texts_of(names@) =~= handlers_of(routes@).take(i + 1));
    }
    assert(handlers_of(routes@).take(routes.len() as int) == handlers_of(routes@));
    first_duplicate(&names)
}

/// The escape sequence that stands for `c` inside a string literal.
pub open spec fn escape_char(c: char) -> Seq<char> {
    if c == '"' {
        seq!['\\', '"']
    } else if c == '\\' {
        seq!['\\', '\\']
    } else if c == '\n' {
        seq!['\\', 'n']
    } else if c == '\r' {
        seq!['\\', 'r']
    } else if c == '\t' {
        seq!['\\', 't']
    } else if c == '\0' {
        seq!['\\', '0']
    } else {
        seq![c]
    }
}

pub open spec fn escaped(s: Seq<char>) -> Seq<char>
    decreases s.len(),
{
    if s.len() == 0 {
        Seq::empty()
    } else {
        escaped(s.drop_last()) + escape_char(s.last())
    }
}

/// A string literal, quotes included, that denotes `s`.
pub open spec fn literal_of(s: Seq<char>) -> Seq<char> {
    seq!['"'] + escaped(s) + seq!['"']
}

/// The string literal, quotes included, that denotes `s`.
pub fn string_literal(s: &str) -> (r: String)
    ensures
        r@ == literal_of(s@),
{
    let v = chars_of(s);
    let mut r = String::new();
    r.push('"');
    for i in 0..v.len()
        invariant
            r@ == seq!['"'] + escaped(v@.take(i as int)),
    {
        let c = v[i];
        if c == '"' {
            r.push('\\');
            r.push('"');
        } else if c == '\\' {
            r.push('\\');
            r.push('\\');
        } else if c == '\n' {
            r.push('\\');
            r.push('n');
        } else if c == '\r' {
            r.push('\\');
            r.push('r');
        } else if c == '\t' {
            r.push('\\');
            r.push('t');
        } else if c == '\0' {
            r.push('\\');
            r.push('0');
        } else {
            r.push(c);
        }
        assert(v@.take(i + 1).drop_last() == v@.take(i as int));
        assert(r@ == seq!['"'] + escaped(v@.take(i + 1)));
    }
    assert(v@.take(v.len() as int) == v@);
    r.push('"');
    r
}

pub const USES: &'static str = "use lazy_static::lazy_static;\nuse flate2::read::GzDecoder;\nuse std::io::Read;\n";

pub const ACCESSOR_HEAD: &'static str = "lazy_static! {\n    pub static ref ";

pub const ACCESSOR_TYPE: &'static str = ": Vec<u8> = {\n        let compressed_data: &[u8] = include_bytes!(";

pub const ACCESSOR_TAIL: &'static str = ");\n        let mut decoder = GzDecoder::new(compressed_data);\n        let mut decompressed_data = Vec::new();\n        decoder.read_to_end(&mut decompressed_data).unwrap();\n        decompressed_data\n    };\n}\n";

pub const EXTRACT_HEAD: &'static str = "pub fn extract_to_folder(dst: &std::path::Path) -> std::result::Result<(), std::io::Error> {\n";

pub const ENTRY_HEAD: &'static str = "    {\n        let path = dst.join(";

pub const ENTRY_MID: &'static str = ");\n        let parent = path.parent().expect(\"Failed to get parent: {path:?}\");\n        if !parent.is_dir() {\n            std::fs::create_dir_all(parent)?;\n        }\n        let mut file_handle = std::fs::File::create(path)?;\n        std::io::Write::write_all(&mut file_handle, &";

pub const ENTRY_TAIL: &'static str = ")?;\n    }\n";

pub const EXTRACT_TAIL: &'static str = "    Ok(())\n}\n";

/// The accessor of one resource: a lazily initialised buffer that holds the
/// decompressed bytes of its artifact.
pub open spec fn accessor_text(const_name: Seq<char>, artifact: Seq<char>) -> Seq<char> {
    ACCESSOR_HEAD@ + const_name + ACCESSOR_TYPE@ + literal_of(artifact) + ACCESSOR_TAIL@
}

/// The accessor of `res`, whose artifact lies in `cache_dir`.
pub fn accessor_decl(res: &ResourceFile, cache_dir: &str) -> (r: String)
    ensures
        r@ == accessor_text(res.const_name@, artifact_path_of(cache_dir@, res.slug@)),
{
    let mut r = ACCESSOR_HEAD.to_owned();
    r.append(res.const_name.as_str());
    r.append(ACCESSOR_TYPE);
    let lit = string_literal(artifact_path(cache_dir, res.slug.as_str()).as_str());
    r.append(lit.as_str());
    r.append(ACCESSOR_TAIL);
    r
}

/// The accessors of all resources, in order.
pub open spec fn accessors_text(rs: Seq<ResourceFile>, cache_dir: Seq<char>) -> Seq<char>
    decreases rs.len(),
{
    if rs.len() == 0 {
        Seq::empty()
    } else {
        accessors_text(rs.drop_last(), cache_dir) + accessor_text(
            rs.last().const_name@,
            artifact_path_of(cache_dir, rs.last().slug@),
        )
    }
}

/// One block of the extraction function: it writes the bytes of the accessor
/// `const_name` to `path` below the destination directory.
pub open spec fn extract_entry_text(path: Seq<char>, const_name: Seq<char>) -> Seq<char> {
    ENTRY_HEAD@ + literal_of(path) + ENTRY_MID@ + const_name + ENTRY_TAIL@
}

pub open spec fn extract_entries_text(rs: Seq<ResourceFile>) -> Seq<char>
    decreases rs.len(),
{
    if rs.len() == 0 {
        Seq::empty()
    } else {
        extract_entries_text(rs.drop_last()) + extract_entry_text(
            rs.last().path@,
            rs.last().const_name@,
        )
    }
}

/// The function that writes every resource back below a directory,
/// recreating the relative paths.
pub open spec fn extract_text(rs: Seq<ResourceFile>) -> Seq<char> {
    EXTRACT_HEAD@ + extract_entries_text(rs) + EXTRACT_TAIL@
}

fn extract_entry(res: &ResourceFile) -> (r: String)
    ensures
        r@ == extract_entry_text(res.path@, res.const_name@),
{
    let mut r = ENTRY_HEAD.to_owned();
    let lit = string_literal(res.path.as_str());
    r.append(lit.as_str());
    r.append(ENTRY_MID);
    r.append(res.const_name.as_str());
    r.append(ENTRY_TAIL);
    r
}

/// The accessor declarations of `resources`, in order.
pub fn generate_accessors(resources: &Vec<ResourceFile>, cache_dir: &str) -> (r: String)
    ensures
        r@ == accessors_text(resources@, cache_dir@),
{
    let mut r = String::new();
    for i in 0..resources.len()
        invariant
            r@ == accessors_text(resources@.take(i as int), cache_dir@),
    {
        let decl = accessor_decl(&resources[i], cache_dir);
        r.append(decl.as_str());
        assert(resources@.take(i + 1).drop_last() == resources@.take(i as int));
    }
    assert(resources@.take(resources.len() as int) == resources@);
    r
}

/// The extraction function for `resources`.
pub fn generate_extract_fn(resources: &Vec<ResourceFile>) -> (r: String)
    ensures
        r@ == extract_text(resources@),
{
    let mut entries = String::new();
    for i in 0..resources.len()
        invariant
            entries@ == extract_entries_text(resources@.take(i as int)),
    {
        let e = extract_entry(&resources[i]);
        entries.append(e.as_str());
        assert(resources@.take(i + 1).drop_last() == resources@.take(i as int));
    }
    assert(resources@.take(resources.len() as int) == resources@);
    let mut r = EXTRACT_HEAD.to_owned();
    r.append(entries.as_str());
    r.append(EXTRACT_TAIL);
    r
}

pub const URL_ROOT: &'static str = "/";

pub const HANDLER_PREFIX: &'static str = "serve_";

/// One generated route: its URL, the name of its handler, the accessor it
/// serves and the kind that decides the response type.
pub struct Route {
    pub url: String,
    pub handler: String,
    pub const_name: String,
    pub file_type: FileType,
}

pub struct RouteModel {
    pub url: Seq<char>,
    pub handler: Seq<char>,
    pub const_name: Seq<char>,
    pub file_type: FileType,
}

impl View for Route {
    type V = RouteModel;

    open spec fn view(&self) -> RouteModel {
        RouteModel {
            url: self.url@,
            handler: self.handler@,
            const_name: self.const_name@,
            file_type: self.file_type,
        }
    }
}

/// The route of a resource at its own path.
pub open spec fn primary_url(path: Seq<char>) -> Seq<char> {
    URL_ROOT@ + path
}

/// The route at the same path without the extension.
pub open spec fn alias_url(path: Seq<char>) -> Seq<char> {
    URL_ROOT@ + without_extension(path)
}

/// The name of the handler that serves `url`.
pub open spec fn handler_name_of(url: Seq<char>) -> Seq<char> {
    HANDLER_PREFIX@ + slug_of(url)
}

pub open spec fn route_model(url: Seq<char>, const_name: Seq<char>, ft: FileType) -> RouteModel {
    RouteModel { url, handler: handler_name_of(url), const_name, file_type: ft }
}

/// The routes of one resource: its own path, and for HTML also the path
/// without the extension, serving the same accessor.
pub open spec fn routes_for(r: ResourceFile) -> Seq<RouteModel> {
    let first = seq![route_model(primary_url(r.path@), r.const_name@, r.file_type)];
    if r.file_type == FileType::Html {
        first.push(route_model(alias_url(r.path@), r.const_name@, FileType::Html))
    } else {
        first
    }
}

/// The routes of all resources, in resource order.
pub open spec fn routes_of(rs: Seq<ResourceFile>) -> Seq<RouteModel>
    decreases rs.len(),
{
    if rs.len() == 0 {
        Seq::empty()
    } else {
        routes_of(rs.drop_last()) + routes_for(rs.last())
    }
}

pub open spec fn views_of(v: Seq<Route>) -> Seq<RouteModel> {
    v.map_values(|x: Route| x@)
}

fn make_route(url: String, const_name: &String, file_type: FileType) -> (r: Route)
    ensures
        r@ == route_model(url@, const_name@, file_type),
{
    let mut handler = HANDLER_PREFIX.to_owned();
    let slug = slugify(url.as_str());
    handler.append(slug.as_str());
    Route { url, handler, const_name: const_name.clone(), file_type }
}

/// The routes of `resources`, in resource order: one per resource at
/// `/` followed by its path, and for each HTML resource a second one at the
/// same path without the extension.
pub fn route_plan(resources: &Vec<ResourceFile>) -> (r: Vec<Route>)
    ensures
        views_of(r@) == routes_of(resources@),
{
    let mut r: Vec<Route> = Vec::new();
    for i in 0..resources.len()
        invariant
            views_of(r@) == routes_of(resources@.take(i as int)),
    {
        let res = &resources[i];
        let ghost before = r@;
        let mut url = URL_ROOT.to_owned();
        url.append(res.path.as_str());
        r.push(make_route(url, &res.const_name, res.file_type));
        assert(views_of(r@) == views_of(before).push(r@.last()@));
        if res.file_type == FileType::Html {
            let ghost mid = r@;
            let mut alias = URL_ROOT.to_owned();
            let stem = path_without_extension(res.path.as_str());
            alias.append(stem.as_str());
            r.push(make_route(alias, &res.const_name, FileType::Html));
            assert(views_of(r@) == views_of(mid).push(r@.last()@));
        }
        assert(resources@.take(i + 1).drop_last() == resources@.take(i as int));
        assert(views_of(r@) == routes_of(resources@.take(i as int)) + routes_for(resources@[i as int]));
    }
    assert(resources@.take(resources.len() as int) == resources@);
    r
}

pub const BINARY_RESPONSE: &'static str = "pub struct BinaryResponse(&'static [u8], rocket::http::ContentType);\nimpl<'r> rocket::response::Responder<'r, 'static> for BinaryResponse {\n    fn respond_to(self, _: &'r rocket::request::Request<'_>) -> rocket::response::Result<'static> {\n        rocket::response::Response::build()\n            .header(self.1)\n            .sized_body(self.0.len(), std::io::Cursor::new(self.0))\n            .ok()\n    }\n}\n";

pub const GET_HEAD: &'static str = "#[get(";

pub const GET_TAIL: &'static str = ")]\npub fn ";

pub const SIGNATURE: &'static str = "() -> ";

pub const BODY_OPEN: &'static str = " {\n    ";

pub const BODY_CLOSE: &'static str = "\n}\n";

pub const RAW_PREFIX: &'static str = "rocket::response::content::";

pub const RAW_TYPE_ARG: &'static str = "<&'static [u8]>";

pub const REF_OPEN: &'static str = "(&";

pub const CLOSE_PAREN: &'static str = ")";

pub const BINARY_TYPE: &'static str = "BinaryResponse";

pub const CONTENT_TYPE_PREFIX: &'static str = ", rocket::http::ContentType::";

pub const ROUTES_HEAD: &'static str = "pub fn routes() -> Vec<rocket::Route> {\n    routes![";

pub const ROUTES_TAIL: &'static str = "]\n}\n";

pub const ROUTE_SEP: &'static str = ", ";

pub const MODULE_HEAD: &'static str = "mod ";

pub const MODULE_OPEN: &'static str = " {\n";

pub const MODULE_CLOSE: &'static str = "}\n";

/// The typed body wrapper of a textual kind.
pub open spec fn raw_wrapper_of(ft: FileType) -> Seq<char> {
    match ft {
        FileType::Html => "RawHtml"@,
        FileType::JavaScript => "RawJavaScript"@,
        FileType::Css => "RawCss"@,
        FileType::Json => "RawJson"@,
        FileType::Xml => "RawXml"@,
        _ => "RawText"@,
    }
}

/// The content-type tag of a binary kind.
pub open spec fn content_tag_of(ct: ContentType) -> Seq<char> {
    match ct {
        ContentType::Unknown => "Binary"@,
        ContentType::Png => "PNG"@,
        ContentType::Ttf => "TTF"@,
        ContentType::Ico => "Icon"@,
    }
}

fn raw_wrapper(ft: FileType) -> (r: &'static str)
    ensures
        r@ == raw_wrapper_of(ft),
{
    match ft {
        FileType::Html => "RawHtml",
        FileType::JavaScript => "RawJavaScript",
        FileType::Css => "RawCss",
        FileType::Json => "RawJson",
        FileType::Xml => "RawXml",
        _ => "RawText",
    }
}

fn content_tag(ct: ContentType) -> (r: &'static str)
    ensures
        r@ == content_tag_of(ct),
{
    match ct {
        ContentType::Unknown => "Binary",
        ContentType::Png => "PNG",
        ContentType::Ttf => "TTF",
        ContentType::Ico => "Icon",
    }
}

/// The response type of a handler.
pub open spec fn return_type_of(ft: FileType) -> Seq<char> {
    match ft {
        FileType::Binary(_) => BINARY_TYPE@,
        _ => RAW_PREFIX@ + raw_wrapper_of(ft) + RAW_TYPE_ARG@,
    }
}

/// The expression that a handler returns.
pub open spec fn response_of(ft: FileType, const_name: Seq<char>) -> Seq<char> {
    match ft {
        FileType::Binary(ct) => BINARY_TYPE@ + REF_OPEN@ + const_name + CONTENT_TYPE_PREFIX@
            + content_tag_of(ct) + CLOSE_PAREN@,
        _ => RAW_PREFIX@ + raw_wrapper_of(ft) + REF_OPEN@ + const_name + CLOSE_PAREN@,
    }
}

/// The declaration of the handler of one route.
pub open spec fn handler_text(rt: RouteModel) -> Seq<char> {
    GET_HEAD@ + literal_of(rt.url) + GET_TAIL@ + rt.handler + SIGNATURE@ + return_type_of(
        rt.file_type,
    ) + BODY_OPEN@ + response_of(rt.file_type, rt.const_name) + BODY_CLOSE@
}

pub open spec fn handlers_text(routes: Seq<RouteModel>) -> Seq<char>
    decreases routes.len(),
{
    if routes.len() == 0 {
        Seq::empty()
    } else {
        handlers_text(routes.drop_last()) + handler_text(routes.last())
    }
}

/// The handler names, separated by `, `.
pub open spec fn handler_list(routes: Seq<RouteModel>) -> Seq<char>
    decreases routes.len(),
{
    if routes.len() == 0 {
        Seq::empty()
    } else if routes.len() == 1 {
        routes[0].handler
    } else {
        handler_list(routes.drop_last()) + ROUTE_SEP@ + routes.last().handler
    }
}

/// The function that returns every generated route.
pub open spec fn routes_fn_text(routes: Seq<RouteModel>) -> Seq<char> {
    ROUTES_HEAD@ + handler_list(routes) + ROUTES_TAIL@
}

/// Whether some resource is binary.
pub open spec fn has_binary(rs: Seq<ResourceFile>) -> bool {
    exists|i: int| 0 <= i < rs.len() && (#[trigger] rs[i]).file_type is Binary
}

/// The framework bindings: the binary response type when some resource
/// needs it, one handler per route, and the route list.
pub open spec fn rocket_text(rs: Seq<ResourceFile>) -> Seq<char> {
    (if has_binary(rs) {
        BINARY_RESPONSE@
    } else {
        Seq::empty()
    }) + handlers_text(routes_of(rs)) + routes_fn_text(routes_of(rs))
}

/// The whole generated text: imports, accessors, the extraction function,
/// and the framework bindings when they are asked for.
pub open spec fn code_text(rs: Seq<ResourceFile>, cache_dir: Seq<char>, rocket: bool) -> Seq<char> {
    USES@ + accessors_text(rs, cache_dir) + extract_text(rs) + (if rocket {
        rocket_text(rs)
    } else {
        Seq::empty()
    })
}

/// The generated text wrapped in a module.
pub open spec fn module_text(
    module_name: Seq<char>,
    rs: Seq<ResourceFile>,
    cache_dir: Seq<char>,
    rocket: bool,
) -> Seq<char> {
    MODULE_HEAD@ + module_name + MODULE_OPEN@ + code_text(rs, cache_dir, rocket) + MODULE_CLOSE@
}

/// The handler declaration of `route`.
pub fn handler_decl(route: &Route) -> (r: String)
    ensures
        r@ == handler_text(route@),
{
    let mut r = GET_HEAD.to_owned();
    let lit = string_literal(route.url.as_str());
    r.append(lit.as_str());
    r.append(GET_TAIL);
    r.append(route.handler.as_str());
    r.append(SIGNATURE);
    match route.file_type {
        FileType::Binary(_) => {
            r.append(BINARY_TYPE);
        },
        _ => {
            r.append(RAW_PREFIX);
            r.append(raw_wrapper(route.file_type));
            r.append(RAW_TYPE_ARG);
        },
    }
    r.append(BODY_OPEN);
    match route.file_type {
        FileType::Binary(ct) => {
            r.append(BINARY_TYPE);
            r.append(REF_OPEN);
            r.append(route.const_name.as_str());
            r.append(CONTENT_TYPE_PREFIX);
            r.append(content_tag(ct));
            r.append(CLOSE_PAREN);
        },
        _ => {
            r.append(RAW_PREFIX);
            r.append(raw_wrapper(route.file_type));
            r.append(REF_OPEN);
            r.append(route.const_name.as_str());
            r.append(CLOSE_PAREN);
        },
    }
    r.append(BODY_CLOSE);
    proof {
        let rt = route@;
        assert(r@ =~= handler_text(rt));
    }
    r
}

/// The route-list function for `routes`.
pub fn routes_fn(routes: &Vec<Route>) -> (r: String)
    ensures
        r@ == routes_fn_text(views_of(routes@)),
{
    let mut list = String::new();
    for i in 0..routes.len()
        invariant
            list@ == handler_list(views_of(routes@.take(i as int))),
    {
        let ghost t = views_of(routes@.take(i + 1));
        assert(t.drop_last() == views_of(routes@.take(i as int)));
        assert(t.last() == routes@[i as int]@);
        if i > 0 {
            list.append(ROUTE_SEP);
        } else {
            assert(t.len() == 1);
            assert(list@ + routes[0].handler@ == routes[0].handler@);
        }
        list.append(routes[i].handler.as_str());
    }
    assert(routes@.take(routes.len() as int) == routes@);
    let mut r = ROUTES_HEAD.to_owned();
    r.append(list.as_str());
    r.append(ROUTES_TAIL);
    r
}

fn any_binary(resources: &Vec<ResourceFile>) -> (r: bool)
    ensures
        r == has_binary(resources@),
{
    for i in 0..resources.len()
        invariant
            forall|j: int| 0 <= j < i ==> !((#[trigger] resources@[j]).file_type is Binary),
    {
        if resources[i].file_type.is_binary() {
            return true;
        }
    }
    false
}

/// The framework bindings of `resources`, rendered in resource order.
pub fn generate_rocket_code(resources: &Vec<ResourceFile>) -> (r: String)
    ensures
        r@ == rocket_text(resources@),
{
    let mut r = if any_binary(resources) {
        BINARY_RESPONSE.to_owned()
    } else {
        String::new()
    };
    let routes = route_plan(resources);
    for i in 0..routes.len()
        invariant
            views_of(routes@) == routes_of(resources@),
            r@ == (if has_binary(resources@) {
                BINARY_RESPONSE@
            } else {
                Seq::empty()
            }) + handlers_text(views_of(routes@.take(i as int))),
    {
        let decl = handler_decl(&routes[i]);
        r.append(decl.as_str());
        assert(views_of(routes@.take(i + 1)).drop_last() == views_of(routes@.take(i as int)));
        assert(views_of(routes@.take(i + 1)).last() == routes@[i as int]@);
    }
    assert(routes@.take(routes.len() as int) == routes@);
    let list = routes_fn(&routes);
    r.append(list.as_str());
    r
}

/// The generated text for `resources`, whose artifacts lie in `cache_dir`:
/// imports, one accessor per resource, the extraction function, and, when
/// `rocket` is set, the handlers and the route list.
pub fn generate_code(cache_dir: &str, resources: &Vec<ResourceFile>, rocket: bool) -> (r: String)
    ensures
        r@ == code_text(resources@, cache_dir@, rocket),
{
    let mut r = USES.to_owned();
    let accessors = generate_accessors(resources, cache_dir);
    r.append(accessors.as_str());
    let extract = generate_extract_fn(resources);
    r.append(extract.as_str());
    if rocket {
        let bindings = generate_rocket_code(resources);
        r.append(bindings.as_str());
    } else {
        assert(r@ + Seq::<char>::empty() == r@);
    }
    r
}

/// The generated text for `resources` inside a module named `module_name`.
pub fn generate_module(
    module_name: &str,
    cache_dir: &str,
    resources: &Vec<ResourceFile>,
    rocket: bool,
) -> (r: String)
    ensures
        r@ == module_text(module_name@, resources@, cache_dir@, rocket),
{
    let mut r = MODULE_HEAD.to_owned();
    r.append(module_name);
    r.append(MODULE_OPEN);
    let code = generate_code(cache_dir, resources, rocket);
    r.append(code.as_str());
    r.append(MODULE_CLOSE);
    r
}

proof fn lemma_routes_contain(rs: Seq<ResourceFile>, k: int)
    requires
        0 <= k < rs.len(),
    ensures
        forall|m: int|
            0 <= m < routes_for(rs[k]).len() ==> routes_of(rs).contains(
                #[trigger] routes_for(rs[k])[m],
            ),
    decreases rs.len(),
{
    let p = routes_of(rs.drop_last());
    let q = routes_for(rs.last());
    assert(routes_of(rs) == p + q);
    if k == rs.len() - 1 {
        assert forall|m: int| 0 <= m < q.len() implies routes_of(rs).contains(#[trigger] q[m]) by {
            assert(routes_of(rs)[p.len() + m] == q[m]);
        }
    } else {
        lemma_routes_contain(rs.drop_last(), k);
        assert(rs.drop_last()[k] == rs[k]);
        assert forall|m: int| 0 <= m < routes_for(rs[k]).len() implies routes_of(rs).contains(
            #[trigger] routes_for(rs[k])[m],
        ) by {
            let x = routes_for(rs[k])[m];
            assert(p.contains(x));
            let j = choose|j: int| 0 <= j < p.len() && p[j] == x;
            assert(routes_of(rs)[j] == x);
        }
    }
}

/// An HTML resource is served at `/` followed by its path and at the same
/// path without the extension, and both routes serve the same accessor.
pub proof fn lemma_html_alias(rs: Seq<ResourceFile>, k: int)
    requires
        0 <= k < rs.len(),
        rs[k].file_type == FileType::Html,
    ensures
        routes_of(rs).contains(
            route_model(primary_url(rs[k].path@), rs[k].const_name@, FileType::Html),
        ),
        routes_of(rs).contains(route_model(alias_url(rs[k].path@), rs[k].const_name@, FileType::Html)),
{
    lemma_routes_contain(rs, k);
    assert(routes_for(rs[k])[0] == route_model(
        primary_url(rs[k].path@),
        rs[k].const_name@,
        FileType::Html,
    ));
    assert(routes_for(rs[k])[1] == route_model(
        alias_url(rs[k].path@),
        rs[k].const_name@,
        FileType::Html,
    ));
}

/// Two resource sequences whose records hold the same texts and kinds.
pub open spec fn same_records(a: Seq<ResourceFile>, b: Seq<ResourceFile>) -> bool {
    &&& a.len() == b.len()
    &&& forall|i: int|
        0 <= i < a.len() ==> {
            &&& (#[trigger] a[i]).path@ == b[i].path@
            &&& a[i].slug@ == b[i].slug@
            &&& a[i].const_name@ == b[i].const_name@
            &&& a[i].file_type == b[i].file_type
        }
}

proof fn lemma_same_records_same_parts(a: Seq<ResourceFile>, b: Seq<ResourceFile>, dir: Seq<char>)
    requires
        same_records(a, b),
    ensures
        accessors_text(a, dir) == accessors_text(b, dir),
        extract_entries_text(a) == extract_entries_text(b),
        routes_of(a) == routes_of(b),
        has_binary(a) == has_binary(b),
    decreases a.len(),
{
    if a.len() > 0 {
        let n = a.len() - 1;
        assert(a.last() == a[n] && b.last() == b[n]);
        assert forall|i: int| 0 <= i < n implies a.drop_last()[i] == a[i] && b.drop_last()[i]
            == b[i] by {}
        lemma_same_records_same_parts(a.drop_last(), b.drop_last(), dir);
    }
    if has_binary(a) {
        let i = choose|i: int| 0 <= i < a.len() && (#[trigger] a[i]).file_type is Binary;
        assert(b[i].file_type is Binary);
    }
    if has_binary(b) {
        let i = choose|i: int| 0 <= i < b.len() && (#[trigger] b[i]).file_type is Binary;
        assert(a[i].file_type is Binary);
    }
}

/// Resources collected from the same relative paths, in the same order, give
/// the same generated text.
pub proof fn lemma_generation_deterministic(
    paths: Seq<Seq<char>>,
    a: Seq<ResourceFile>,
    b: Seq<ResourceFile>,
    module_name: Seq<char>,
    cache_dir: Seq<char>,
    rocket: bool,
)
    requires
        a.len() == paths.len(),
        b.len() == paths.len(),
        forall|i: int| 0 <= i < paths.len() ==> (#[trigger] a[i]).describes(paths[i]),
        forall|i: int| 0 <= i < paths.len() ==> (#[trigger] b[i]).describes(paths[i]),
    ensures
        module_text(module_name, a, cache_dir, rocket) == module_text(module_name, b, cache_dir, rocket),
{
    assert(same_records(a, b)) by {
        assert forall|i: int| 0 <= i < a.len() implies (#[trigger] a[i]).path@ == b[i].path@ && a[i].slug@
            == b[i].slug@ && a[i].const_name@ == b[i].const_name@ && a[i].file_type == b[i].file_type by {
            assert(a[i].describes(paths[i]));
            assert(b[i].describes(paths[i]));
        }
    }
    lemma_same_records_same_parts(a, b, cache_dir);
}

} // verus!
