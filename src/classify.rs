//! Classification of resources by file extension.

use vstd::prelude::*;

verus! {

/// The finer content tag of an opaque binary resource.
#[derive(Debug, Clone, Copy, PartialEq, Eq, Structural)]
pub enum ContentType {
    Unknown,
    Png,
    Ttf,
    Ico,
}

/// The semantic kind of a resource.
#[derive(Debug, Clone, Copy, PartialEq, Eq, Structural)]
pub enum FileType {
    Html,
    JavaScript,
    Css,
    Json,
    Xml,
    Plain,
    Binary(ContentType),
}

/// The content tag that belongs to an extension.
pub open spec fn content_type_of(ext: Seq<char>) -> ContentType {
    if ext == "png"@ {
        ContentType::Png
    } else if ext == "ttf"@ {
        ContentType::Ttf
    } else if ext == "ico"@ {
        ContentType::Ico
    } else {
        ContentType::Unknown
    }
}

/// The kind that belongs to an extension, or to its absence.
pub open spec fn file_type_of(ext: Option<Seq<char>>) -> FileType {
    match ext {
        Some(e) => if e == "html"@ {
            FileType::Html
        } else if e == "js"@ {
            FileType::JavaScript
        } else if e == "css"@ {
            FileType::Css
        } else if e == "json"@ {
            FileType::Json
        } else if e == "xml"@ {
            FileType::Xml
        } else if e == "txt"@ || e == "md"@ {
            FileType::Plain
        } else {
            FileType::Binary(content_type_of(e))
        },
        None => FileType::Binary(ContentType::Unknown),
    }
}

impl ContentType {
    /// Maps `png`, `ttf` and `ico` to their tags; every other extension is `Unknown`.
    pub fn from_extension(ext: &str) -> (r: Self)
        ensures
            r == content_type_of(ext@),
    {
        if ext.eq("png") {
            ContentType::Png
        } else if ext.eq("ttf") {
            ContentType::Ttf
        } else if ext.eq("ico") {
            ContentType::Ico
        } else {
            ContentType::Unknown
        }
    }
}

impl FileType {
    /// Maps the textual extensions to their kinds; any other extension, or
    /// none, is a binary resource with the tag of `ContentType::from_extension`.
    pub fn from_extension(ext: &Option<String>) -> (r: Self)
        ensures
            r == file_type_of(
                match ext {
                    Some(e) => Some(e@),
                    None => None,
                },
            ),
    {
        match ext {
            Some(e) => {
                let e = e.as_str();
                if e.eq("html") {
                    FileType::Html
                } else if e.eq("js") {
                    FileType::JavaScript
                } else if e.eq("css") {
                    FileType::Css
                } else if e.eq("json") {
                    FileType::Json
                } else if e.eq("xml") {
                    FileType::Xml
                } else if e.eq("txt") || e.eq("md") {
                    FileType::Plain
                } else {
                    FileType::Binary(ContentType::from_extension(e))
                }
            },
            None => FileType::Binary(ContentType::Unknown),
        }
    }

    /// Whether this is an opaque binary kind.
    pub fn is_binary(&self) -> (r: bool)
        ensures
            r == (*self is Binary),
    {
        match self {
            FileType::Binary(_) => true,
            _ => false,
        }
    }
}

} // verus!
