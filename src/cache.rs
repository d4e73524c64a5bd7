//! Decisions and bookkeeping of the compression cache.

use vstd::prelude::*;

verus! {

/// The file name of the artifact of a resource: its slug with `.gz` appended.
pub open spec fn artifact_name_of(slug: Seq<char>) -> Seq<char> {
    slug + ".gz"@
}

/// The path of an artifact in `dir`; a `/` is put between the two unless
/// `dir` is empty or already ends with one.
pub open spec fn artifact_path_of(dir: Seq<char>, slug: Seq<char>) -> Seq<char> {
    if dir.len() == 0 || dir.last() == '/' {
        dir + artifact_name_of(slug)
    } else {
        dir.push('/') + artifact_name_of(slug)
    }
}

/// The file name of the artifact of the resource with slug `slug`.
pub fn artifact_name(slug: &str) -> (r: String)
    ensures
        r@ == artifact_name_of(slug@),
{
    let mut r = slug.to_owned();
    r.append(".gz");
    r
}

/// The path of the artifact of the resource with slug `slug` in `dir`.
pub fn artifact_path(dir: &str, slug: &str) -> (r: String)
    ensures
        r@ == artifact_path_of(dir@, slug@),
{
    let mut r = dir.to_owned();
    let n = dir.unicode_len();
    if n > 0 && dir.get_char(n - 1) != '/' {
        r.push('/');
    }
    let name = artifact_name(slug);
    r.append(name.as_str());
    r
}

/// The gzip stream that flate2 produces for `data` at the default level.
pub uninterp spec fn gzip_of(data: Seq<u8>) -> Seq<u8>;

/// Relies on `flate2::write::GzEncoder` (`new` at `Compression::default()`,
/// `write_all`, `finish`): the finished buffer holds the gzip stream of
/// `data`, whose header carries no time stamp. Writing into a `Vec` never
/// fails, so neither does the encoder.
#[verifier::external_body]
fn gzip_encode(data: &[u8]) -> (r: Option<Vec<u8>>)
    ensures
        r is Some,
        r matches Some(z) ==> z@ == gzip_of(data@),
{
    let mut encoder = flate2::write::GzEncoder::new(Vec::new(), flate2::Compression::default());
    match std::io::Write::write_all(&mut encoder, data) {
        Ok(()) => encoder.finish().ok(),
        Err(_) => None,
    }
}

/// The artifact contents for a resource whose bytes are `data`: its gzip
/// stream at the default compression level.
pub fn compress_contents(data: &[u8]) -> (r: Vec<u8>)
    ensures
        r@ == gzip_of(data@),
{
    gzip_encode(data).unwrap()
}

/// A modification time, in nanoseconds after the Unix epoch (negative before it).
#[derive(Debug, Clone, Copy, PartialEq, Eq, Structural)]
pub struct ModTime {
    pub nanos: i128,
}

/// What the cache does with one resource.
#[derive(Debug, Clone, Copy, PartialEq, Eq, Structural)]
pub enum CacheAction {
    /// The artifact is at least as new as the source: keep it.
    Reuse,
    /// The artifact is missing or older than the source: compress again.
    Compress,
}

/// An artifact is fresh when it exists and was modified no earlier than its source.
pub open spec fn is_fresh(source: ModTime, artifact: Option<ModTime>) -> bool {
    match artifact {
        Some(a) => source.nanos <= a.nanos,
        None => false,
    }
}

pub open spec fn action_of(source: ModTime, artifact: Option<ModTime>) -> CacheAction {
    if is_fresh(source, artifact) {
        CacheAction::Reuse
    } else {
        CacheAction::Compress
    }
}

/// Decides whether the artifact of a resource can stay, from the source's
/// modification time and the artifact's, if it exists.
pub fn cache_action(source: ModTime, artifact: Option<ModTime>) -> (r: CacheAction)
    ensures
        r == action_of(source, artifact),
{
    match artifact {
        Some(a) => if source.nanos <= a.nanos {
            CacheAction::Reuse
        } else {
            CacheAction::Compress
        },
        None => CacheAction::Compress,
    }
}

/// The actions for a whole resource set, one per resource.
pub open spec fn plan_of(sources: Seq<ModTime>, artifacts: Seq<Option<ModTime>>) -> Seq<CacheAction> {
    Seq::new(sources.len(), |i: int| action_of(sources[i], artifacts[i]))
}

/// Decides the action of every resource; `artifacts[i]` is the modification
/// time of the artifact of the resource whose source has `sources[i]`.
pub fn plan_cache(sources: &Vec<ModTime>, artifacts: &Vec<Option<ModTime>>) -> (r: Vec<CacheAction>)
    requires
        sources.len() == artifacts.len(),
    ensures
        r@ == plan_of(sources@, artifacts@),
{
    let mut r: Vec<CacheAction> = Vec::new();
    for i in 0..sources.len()
        invariant
            sources.len() == artifacts.len(),
            r@ == plan_of(sources@, artifacts@).take(i as int),
    {
        r.push(cache_action(sources[i], artifacts[i]));
        assert(plan_of(sources@, artifacts@).take(i + 1) == plan_of(sources@, artifacts@).take(
            i as int,
        ).push(plan_of(sources@, artifacts@)[i as int]));
    }
    assert(plan_of(sources@, artifacts@).take(sources.len() as int) == plan_of(sources@, artifacts@));
    r
}

/// When every artifact is at least as new as its source, as after a run, a
/// second run over the unchanged tree reuses every artifact.
pub proof fn lemma_unchanged_tree_reused(sources: Seq<ModTime>, artifacts: Seq<Option<ModTime>>)
    requires
        sources.len() == artifacts.len(),
        forall|i: int| 0 <= i < sources.len() ==> is_fresh(#[trigger] sources[i], artifacts[i]),
    ensures
        forall|i: int|
            0 <= i < sources.len() ==> #[trigger] plan_of(sources, artifacts)[i]
                == CacheAction::Reuse,
{
}

/// When one source is modified after its artifact and every other artifact
/// is fresh, that resource alone is compressed again.
pub proof fn lemma_only_changed_recompressed(
    sources: Seq<ModTime>,
    artifacts: Seq<Option<ModTime>>,
    j: int,
    modified: ModTime,
)
    requires
        sources.len() == artifacts.len(),
        forall|i: int| 0 <= i < sources.len() ==> is_fresh(#[trigger] sources[i], artifacts[i]),
        0 <= j < sources.len(),
        artifacts[j] matches Some(a) && a.nanos < modified.nanos,
    ensures
        plan_of(sources.update(j, modified), artifacts)[j] == CacheAction::Compress,
        forall|i: int|
            0 <= i < sources.len() && i != j ==> #[trigger] plan_of(
                sources.update(j, modified),
                artifacts,
            )[i] == CacheAction::Reuse,
{
    let updated = sources.update(j, modified);
    assert forall|i: int| 0 <= i < sources.len() && i != j implies #[trigger] plan_of(
        updated,
        artifacts,
    )[i] == CacheAction::Reuse by {
        assert(updated[i] == sources[i]);
    }
}

/// The sum of the original sizes.
pub open spec fn total_original(sizes: Seq<(u64, u64)>) -> int
    decreases sizes.len(),
{
    if sizes.len() == 0 {
        0
    } else {
        total_original(sizes.drop_last()) + sizes.last().0
    }
}

/// The sum of the compressed sizes.
pub open spec fn total_compressed(sizes: Seq<(u64, u64)>) -> int
    decreases sizes.len(),
{
    if sizes.len() == 0 {
        0
    } else {
        total_compressed(sizes.drop_last()) + sizes.last().1
    }
}

proof fn lemma_totals_grow(sizes: Seq<(u64, u64)>, i: int)
    requires
        0 <= i <= sizes.len(),
    ensures
        total_original(sizes.take(i)) <= total_original(sizes),
        total_compressed(sizes.take(i)) <= total_compressed(sizes),
    decreases sizes.len() - i,
{
    if i < sizes.len() {
        lemma_totals_grow(sizes, i + 1);
        assert(sizes.take(i + 1).drop_last() == sizes.take(i));
    } else {
        assert(sizes.take(i) == sizes);
    }
}

/// The sums of the `(original, compressed)` sizes of all resources, or `None`
/// when either sum exceeds `u64::MAX`.
pub fn total_sizes(sizes: &Vec<(u64, u64)>) -> (r: Option<(u64, u64)>)
    ensures
        r == (if total_original(sizes@) <= u64::MAX && total_compressed(sizes@) <= u64::MAX {
            Some((total_original(sizes@) as u64, total_compressed(sizes@) as u64))
        } else {
            None
        }),
{
    let mut original: u64 = 0;
    let mut compressed: u64 = 0;
    for i in 0..sizes.len()
        invariant
            original == total_original(sizes@.take(i as int)),
            compressed == total_compressed(sizes@.take(i as int)),
    {
        assert(sizes@.take(i + 1).drop_last() == sizes@.take(i as int));
        let (o, c) = sizes[i];
        proof {
            lemma_totals_grow(sizes@, i + 1);
        }
        match (original.checked_add(o), compressed.checked_add(c)) {
            (Some(a), Some(b)) => {
                original = a;
                compressed = b;
            },
            _ => {
                return None;
            },
        }
    }
    assert(sizes@.take(sizes.len() as int) == sizes@);
    Some((original, compressed))
}

} // verus!
