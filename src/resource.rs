//! One record per discovered resource file.

use vstd::prelude::*;
use crate::classify::{FileType, file_type_of};
use crate::slug::{slugify, slug_of};
use crate::text::{chars_of, string_of};

verus! {

pub open spec fn upper_char(c: char) -> char {
    if 0x61 <= (c as u32) <= 0x7a {
        ((c as u32) - 32) as char
    } else {
        c
    }
}

/// ASCII letters `a`–`z` in upper case, every other character kept.
pub open spec fn ascii_uppercase(s: Seq<char>) -> Seq<char> {
    Seq::new(s.len(), |i: int| upper_char(s[i]))
}

/// `s` with its ASCII lowercase letters in upper case.
pub fn to_ascii_uppercase(s: &str) -> (r: String)
    ensures
        r@ == ascii_uppercase(s@),
{
    let v = chars_of(s);
    let mut out: Vec<char> = Vec::new();
    for i in 0..v.len()
        invariant
            out@ == ascii_uppercase(v@).take(i as int),
    {
        let c = v[i];
        let u = c as u32;
        let upper = if 0x61 <= u && u <= 0x7a {
            ((u - 32) as u8) as char
        } else {
            c
        };
        assert(upper == upper_char(c));
        out.push(upper);
        assert(ascii_uppercase(v@).take(i + 1) == ascii_uppercase(v@).take(i as int).push(
            upper_char(v@[i as int]),
        ));
    }
    assert(ascii_uppercase(v@).take(v.len() as int) == ascii_uppercase(v@));
    string_of(&out)
}

/// The position of the last `c` in `s`, or -1.
pub open spec fn last_index_of(s: Seq<char>, c: char) -> int
    decreases s.len(),
{
    if s.len() == 0 {
        -1
    } else if s.last() == c {
        s.len() - 1
    } else {
        last_index_of(s.drop_last(), c)
    }
}

/// The last component of a `/`-separated relative path.
pub open spec fn file_name_of(p: Seq<char>) -> Seq<char> {
    p.subrange(last_index_of(p, '/') + 1, p.len() as int)
}

/// The text after the last `.` of the file name, if the name holds a `.`.
pub open spec fn extension_of(p: Seq<char>) -> Option<Seq<char>> {
    let name = file_name_of(p);
    let d = last_index_of(name, '.');
    if d < 0 {
        None
    } else {
        Some(name.subrange(d + 1, name.len() as int))
    }
}

/// The path with the extension of its file name, and the `.` before it, removed.
pub open spec fn without_extension(p: Seq<char>) -> Seq<char> {
    match extension_of(p) {
        Some(e) => p.subrange(0, p.len() - e.len() - 1),
        None => p,
    }
}

/// `p` without the extension of its file name.
pub fn path_without_extension(p: &str) -> (r: String)
    ensures
        r@ == without_extension(p@),
{
    let v = chars_of(p);
    let name_start: usize = match last_index(&v, '/') {
        None => 0,
        Some(i) => i + 1,
    };
    let name = copy_range(&v, name_start, v.len());
    match last_index(&name, '.') {
        None => string_of(&v),
        Some(d) => string_of(&copy_range(&v, 0, name_start + d)),
    }
}

/// A resource: its path relative to the input root (components separated by
/// `/`), the slug of that path, the slug in upper case (the name of its
/// accessor), and its kind.
pub struct ResourceFile {
    pub path: String,
    pub slug: String,
    pub const_name: String,
    pub file_type: FileType,
}

impl ResourceFile {
    /// The record that `p` determines.
    pub open spec fn describes(&self, p: Seq<char>) -> bool {
        &&& self.path@ == p
        &&& self.slug@ == slug_of(p)
        &&& self.const_name@ == ascii_uppercase(slug_of(p))
        &&& self.file_type == file_type_of(extension_of(p))
    }

    /// Creates the record of a path relative to the input root.
    pub fn from_path(rel_path: &str) -> (r: Self)
        ensures
            r.describes(rel_path@),
    {
        let v = chars_of(rel_path);
        let slash = last_index(&v, '/');
        let name_start: usize = match slash {
            None => 0,
            Some(i) => i + 1,
        };
        let name = copy_range(&v, name_start, v.len());
        let dot = last_index(&name, '.');
        let extension = match dot {
            None => None,
            Some(i) => Some(string_of(&copy_range(&name, i + 1, name.len()))),
        };
        let file_type = FileType::from_extension(&extension);
        let slug = slugify(rel_path);
        let const_name = to_ascii_uppercase(slug.as_str());
        ResourceFile { path: string_of(&v), slug, const_name, file_type }
    }

    /// The records of the given relative paths, in the same order.
    pub fn collect(relative_paths: &Vec<String>) -> (r: Vec<ResourceFile>)
        ensures
            r.len() == relative_paths.len(),
            forall|i: int| 0 <= i < r.len() ==> #[trigger] r[i].describes(relative_paths[i]@),
    {
        let mut r: Vec<ResourceFile> = Vec::new();
        for i in 0..relative_paths.len()
            invariant
                r.len() == i,
                forall|j: int| 0 <= j < i ==> #[trigger] r[j].describes(relative_paths[j]@),
        {
            r.push(ResourceFile::from_path(relative_paths[i].as_str()));
        }
        r
    }
}

/// Two distinct positions of `names` that hold the same text.
pub open spec fn is_collision(names: Seq<Seq<char>>, i: int, j: int) -> bool {
    0 <= i < j < names.len() && names[i] == names[j]
}

/// Whether all texts of `names` differ.
pub open spec fn all_distinct(names: Seq<Seq<char>>) -> bool {
    forall|i: int, j: int| 0 <= i < j < names.len() ==> names[i] != names[j]
}

pub open spec fn texts_of(v: Seq<&String>) -> Seq<Seq<char>> {
    v.map_values(|s: &String| s@)
}

pub open spec fn slugs_of(rs: Seq<ResourceFile>) -> Seq<Seq<char>> {
    rs.map_values(|r: ResourceFile| r.slug@)
}

/// The first pair of positions, in order of the second one, whose texts are
/// equal; `None` when all differ.
pub fn first_duplicate(names: &Vec<&String>) -> (r: Option<(usize, usize)>)
    ensures
        r is None <==> all_distinct(texts_of(names@)),
        r matches Some((i, j)) ==> is_collision(texts_of(names@), i as int, j as int),
{
    let ghost v = texts_of(names@);
    for j in 0..names.len()
        invariant
            v == texts_of(names@),
            forall|a: int, b: int| 0 <= a < b < j ==> v[a] != v[b],
    {
        for i in 0..j
            invariant
                j < names.len(),
                v == texts_of(names@),
                forall|a: int| 0 <= a < i ==> v[a] != v[j as int],
        {
            if names[i].eq(names[j]) {
                assert(v[i as int] == v[j as int]);
                return Some((i, j));
            }
        }
    }
    None
}

/// Two resources whose slugs coincide, so that their accessors and artifacts
/// would share a name; `None` when every slug is distinct.
pub fn find_slug_collision(resources: &Vec<ResourceFile>) -> (r: Option<(usize, usize)>)
    ensures
        r is None <==> all_distinct(slugs_of(resources@)),
        r matches Some((i, j)) ==> is_collision(slugs_of(resources@), i as int, j as int),
{
    let mut names: Vec<&String> = Vec::new();
    for i in 0..resources.len()
        invariant
            names.len() == i,
            texts_of(names@) == slugs_of(resources@).take(i as int),
    {
        let ghost before = names@;
        names.push(&resources[i].slug);
        assert forall|k: int| 0 <= k < i + 1 implies #[trigger] texts_of(names@)[k]
            == slugs_of(resources@).take(i + 1)[k] by {
            if k < i {
                assert(names@[k] == before[k]);
                assert(texts_of(before)[k] == slugs_of(resources@).take(i as int)[k]);
            }
        }
        assert(texts_of(names@) =~= slugs_of(resources@).take(i + 1));
    }
    assert(slugs_of(resources@).take(resources.len() as int) == slugs_of(resources@));
    first_duplicate(&names)
}

/// The last index of `c` in `v`, or -1.
fn last_index(v: &Vec<char>, c: char) -> (r: Option<usize>)
    ensures
        match r {
            None => last_index_of(v@, c) == -1,
            Some(i) => i == last_index_of(v@, c) && i < v.len(),
        },
{
    let mut i: usize = v.len();
    assert(v@.take(v.len() as int) == v@);
    while i > 0 && v[i - 1] != c
        invariant
            i <= v.len(),
            last_index_of(v@, c) == last_index_of(v@.take(i as int), c),
        decreases i,
    {
        assert(v@.take(i as int).drop_last() == v@.take(i - 1));
        i = i - 1;
    }
    assert(v@.take(v.len() as int) == v@);
    if i == 0 {
        None
    } else {
        Some(i - 1)
    }
}

fn copy_range(v: &Vec<char>, from: usize, to: usize) -> (r: Vec<char>)
    requires
        from <= to <= v.len(),
    ensures
        r@ == v@.subrange(from as int, to as int),
{
    let mut r: Vec<char> = Vec::new();
    for i in from..to
        invariant
            from <= to <= v.len(),
            r@ == v@.subrange(from as int, i as int),
    {
        r.push(v[i]);
        assert(v@.subrange(from as int, i + 1) == v@.subrange(from as int, i as int).push(
            v@[i as int],
        ));
    }
    r
}

} // verus!
