use vstd::prelude::*;

use crate::names::suffix_after_last_dot;
use crate::names::suffix_start;
use crate::names::is_plain_basename;
use crate::names::is_plain_basename_exec;
use crate::names::tail_equals;
use crate::catalog::is_catalog_entry;
use crate::catalog::is_catalog_name;
use crate::catalog::DirEntryInfo;
use crate::variant::ImageDirs;

verus! {

/// The content type reported with a served file.
#[derive(Clone, Copy, Debug, PartialEq, Eq, Structural)]
pub enum ContentType {
    Jpeg,
    Png,
    Webp,
    OctetStream,
}

/// The content type for an extension (case-sensitive): `jpg` and `jpeg` are
/// JPEG, `png` PNG, `webp` WebP, anything else generic binary data.
pub open spec fn content_type_of_extension(ext: Seq<char>) -> ContentType {
    if ext == "jpg"@ || ext == "jpeg"@ {
        ContentType::Jpeg
    } else if ext == "png"@ {
        ContentType::Png
    } else if ext == "webp"@ {
        ContentType::Webp
    } else {
        ContentType::OctetStream
    }
}

/// The content type for a file name, from the text after its last dot alone
/// (so `.jpg` is JPEG); a name without a dot is generic binary data.
pub open spec fn content_type_of(name: Seq<char>) -> ContentType {
    match suffix_after_last_dot(name) {
        Some(e) => content_type_of_extension(e),
        None => ContentType::OctetStream,
    }
}

impl ContentType {
    /// The MIME type of a content type.
    pub open spec fn mime_spec(self) -> Seq<char> {
        match self {
            ContentType::Jpeg => "image/jpeg"@,
            ContentType::Png => "image/png"@,
            ContentType::Webp => "image/webp"@,
            ContentType::OctetStream => "application/octet-stream"@,
        }
    }

    /// The MIME type to send in a `Content-Type` header.
    pub fn mime(self) -> (r: &'static str)
        ensures
            r@ == self.mime_spec(),
    {
        match self {
            ContentType::Jpeg => "image/jpeg",
            ContentType::Png => "image/png",
            ContentType::Webp => "image/webp",
            ContentType::OctetStream => "application/octet-stream",
        }
    }
}

/// The content type for the file name `name`.
pub fn content_type_for(name: &str) -> (r: ContentType)
    ensures
        r == content_type_of(name@),
{
    match suffix_start(name) {
        Some(k) => {
            if tail_equals(name, k, "jpg") || tail_equals(name, k, "jpeg") {
                ContentType::Jpeg
            } else if tail_equals(name, k, "png") {
                ContentType::Png
            } else if tail_equals(name, k, "webp") {
                ContentType::Webp
            } else {
                ContentType::OctetStream
            }
        },
        None => ContentType::OctetStream,
    }
}

/// Why a file could not be served.
#[derive(Clone, Copy, Debug, PartialEq, Eq, Structural)]
pub enum ServeError {
    /// The file does not exist or cannot be read, or its name is not a plain
    /// base name.
    AssetNotFound,
    /// The size label is unknown and the fallback policy refuses it.
    InvalidVariant,
}

/// A served file: its bytes and the content type to report.
pub struct Asset {
    pub bytes: Vec<u8>,
    pub content_type: ContentType,
}

/// The path at which the file `filename` of the variant labelled `label` is
/// stored, if the request is acceptable.
pub open spec fn asset_path_spec(dirs: &ImageDirs, label: Seq<char>, filename: Seq<char>) -> Result<
    Seq<char>,
    ServeError,
> {
    match dirs.resolved_dir(label) {
        None => Err(ServeError::InvalidVariant),
        Some(d) => if is_plain_basename(filename) {
            Ok(d + "/"@ + filename)
        } else {
            Err(ServeError::AssetNotFound)
        },
    }
}

impl ImageDirs {
    /// Where to read the file requested as (`label`, `filename`): the resolved
    /// variant's root, a `/`, and the file name. A name that is not a plain
    /// base name (empty, `.`, `..`, or holding `/` or `\`) is never joined to a
    /// root: the request fails with `AssetNotFound`.
    pub fn asset_path(&self, label: &str, filename: &str) -> (r: Result<String, ServeError>)
        ensures
            match (r, asset_path_spec(self, label@, filename@)) {
                (Ok(p), Ok(q)) => p@ == q,
                (Err(e), Err(f)) => e == f,
                _ => false,
            },
    {
        match self.resolve_variant_directory(label) {
            None => Err(ServeError::InvalidVariant),
            Some(dir) => {
                if is_plain_basename_exec(filename) {
                    let mut path = dir.clone();
                    path.append("/");
                    path.append(filename);
                    Ok(path)
                } else {
                    Err(ServeError::AssetNotFound)
                }
            },
        }
    }
}

/// Completes a request for the file `filename` from what reading it gave:
/// `None` where the file is missing or unreadable. The bytes are passed on
/// untouched, with the content type of the file name.
pub fn serve_contents(filename: &str, contents: Option<Vec<u8>>) -> (r: Result<Asset, ServeError>)
    ensures
        contents is None <==> r is Err,
        match (contents, r) {
            (Some(b), Ok(a)) => a.bytes@ == b@ && a.content_type == content_type_of(filename@),
            (None, Err(e)) => e == ServeError::AssetNotFound,
            _ => false,
        },
{
    match contents {
        Some(bytes) => Ok(Asset { bytes, content_type: content_type_for(filename) }),
        None => Err(ServeError::AssetNotFound),
    }
}

/// A composed path never leaves the resolved root: it is the root, a `/`, and
/// one last component that holds no separator and is neither `.` nor `..`.
pub proof fn lemma_asset_path_within_root(dirs: &ImageDirs, label: Seq<char>, filename: Seq<char>)
    requires
        asset_path_spec(dirs, label, filename) is Ok,
    ensures
        ({
            let p = asset_path_spec(dirs, label, filename)->Ok_0;
            let root = dirs.resolved_dir(label)->Some_0;
            let rest = p.subrange(root.len() as int + 1, p.len() as int);
            &&& p.subrange(0, root.len() as int) == root
            &&& p[root.len() as int] == '/'
            &&& rest == filename
            &&& rest.len() > 0
            &&& rest != "."@
            &&& rest != ".."@
            &&& forall|i: int| 0 <= i < rest.len() ==> rest[i] != '/' && rest[i] != '\\'
        }),
{
    reveal_strlit("/");
    let p = asset_path_spec(dirs, label, filename)->Ok_0;
    let root = dirs.resolved_dir(label)->Some_0;
    assert(p.subrange(0, root.len() as int) =~= root);
    assert(p.subrange(root.len() as int + 1, p.len() as int) =~= filename);
}

/// Every name that the catalog lists can be requested under any label that
/// resolves: it is read from the root, a `/` and the name, and is served with
/// an image content type.
pub proof fn lemma_listed_names_are_servable(
    dirs: &ImageDirs,
    entries: Seq<DirEntryInfo>,
    label: Seq<char>,
    n: Seq<char>,
)
    requires
        is_catalog_name(entries, n),
        dirs.resolved_dir(label) is Some,
    ensures
        asset_path_spec(dirs, label, n) == Ok::<Seq<char>, ServeError>(
            dirs.resolved_dir(label)->Some_0 + "/"@ + n,
        ),
        content_type_of(n) != ContentType::OctetStream,
{
    let i = choose|i: int|
        0 <= i < entries.len() && is_catalog_entry(#[trigger] entries[i]) && entries[i].name@ == n;
    assert(is_catalog_entry(entries[i]));
}

/// Requests for one file name under labels that resolve to different roots
/// read different paths.
pub proof fn lemma_distinct_roots_distinct_paths(
    dirs: &ImageDirs,
    a: Seq<char>,
    b: Seq<char>,
    f: Seq<char>,
)
    requires
        asset_path_spec(dirs, a, f) is Ok,
        asset_path_spec(dirs, b, f) is Ok,
        dirs.resolved_dir(a) != dirs.resolved_dir(b),
    ensures
        asset_path_spec(dirs, a, f) != asset_path_spec(dirs, b, f),
{
    let p = asset_path_spec(dirs, a, f)->Ok_0;
    let q = asset_path_spec(dirs, b, f)->Ok_0;
    let ra = dirs.resolved_dir(a)->Some_0;
    let rb = dirs.resolved_dir(b)->Some_0;
    reveal_strlit("/");
    assert(p == ra + "/"@ + f);
    assert(q == rb + "/"@ + f);
    if p == q {
        assert(p.len() == ra.len() + 1 + f.len());
        assert(ra.len() == rb.len());
        assert(p.subrange(0, ra.len() as int) =~= ra);
        assert(q.subrange(0, rb.len() as int) =~= rb);
    }
}

} // verus!
