//! Choosing the image to work on. The input is a file or a directory: a file
//! must carry a supported extension (jpg, jpeg, png, webp, gif, tiff, tif, in
//! any case); from a directory the most recently modified supported file is
//! taken. What is on disk is looked up outside the library and handed in as
//! a `Target`.
use vstd::prelude::*;
use crate::error::RwalError;
use crate::text::str_eq;

verus! {

/// Lowercase form of a text, as `str::to_lowercase` gives it (Unicode rules).
pub uninterp spec fn lowercase_of(s: Seq<char>) -> Seq<char>;

/// Calls `str::to_lowercase`; the result is named `lowercase_of(s)`.
#[verifier::external_body]
fn lowercase(s: &str) -> (r: String)
    ensures
        r@ == lowercase_of(s@),
{
    s.to_lowercase()
}

/// The supported extensions, all lowercase.
pub open spec fn supported_ext(e: Seq<char>) -> bool {
    ||| e == "jpg"@
    ||| e == "jpeg"@
    ||| e == "png"@
    ||| e == "webp"@
    ||| e == "gif"@
    ||| e == "tiff"@
    ||| e == "tif"@
}

/// Whether an extension, lowercased, is a supported one.
pub open spec fn ext_supported(ext: Option<String>) -> bool {
    match ext {
        Some(e) => supported_ext(lowercase_of(e@)),
        None => false,
    }
}

/// How a rejected extension is reported: lowercased, or `<no extension>`.
pub open spec fn ext_shown(ext: Option<String>) -> Seq<char> {
    match ext {
        Some(e) => lowercase_of(e@),
        None => "<no extension>"@,
    }
}

fn supported(e: &str) -> (b: bool)
    ensures
        b == supported_ext(e@),
{
    str_eq(e, "jpg") || str_eq(e, "jpeg") || str_eq(e, "png") || str_eq(e, "webp") || str_eq(e, "gif")
        || str_eq(e, "tiff") || str_eq(e, "tif")
}

/// Check that a file's extension (`None`: no extension, or not UTF-8) is supported.
pub fn validate_extension(ext: &Option<String>) -> (r: Result<(), RwalError>)
    ensures
        r is Ok <==> ext_supported(*ext),
        r is Err ==> r->Err_0 == RwalError::UnsupportedFormat(r->Err_0->UnsupportedFormat_0)
            && r->Err_0->UnsupportedFormat_0@ == ext_shown(*ext),
{
    match ext {
        Some(e) => {
            let l = lowercase(e.as_str());
            if supported(l.as_str()) {
                Ok(())
            } else {
                Err(RwalError::UnsupportedFormat(l))
            }
        },
        None => Err(RwalError::UnsupportedFormat("<no extension>".to_string())),
    }
}

/// Whether a file's extension is supported.
pub fn is_supported(ext: &Option<String>) -> (b: bool)
    ensures
        b == ext_supported(*ext),
{
    match ext {
        Some(e) => {
            let l = lowercase(e.as_str());
            supported(l.as_str())
        },
        None => false,
    }
}

/// One entry of a directory listing.
pub struct DirEntry {
    pub path: String,
    /// Whether the entry is a regular file (directories are skipped).
    pub is_file: bool,
    /// The file's extension, if it has one that is UTF-8.
    pub extension: Option<String>,
    /// Modification time in nanoseconds since the Unix epoch (0 when unknown).
    pub modified: u128,
}

/// What the input path turned out to be on disk.
pub enum Target {
    /// Nothing exists there.
    Missing,
    /// A file, with its extension.
    File { extension: Option<String> },
    /// A directory, with its entries.
    Directory { entries: Vec<DirEntry> },
    /// Something else (a socket, a broken link, …).
    Other,
}

/// An entry that may be chosen: a file with a supported extension.
pub open spec fn eligible(e: DirEntry) -> bool {
    e.is_file && ext_supported(e.extension)
}

/// `i` is the entry `Iterator::max_by_key` picks among the eligible ones by
/// modification time: a latest one, and the last of several equally late.
pub open spec fn latest_at(es: Seq<DirEntry>, i: int) -> bool {
    &&& 0 <= i < es.len()
    &&& eligible(es[i])
    &&& forall|j: int| 0 <= j < es.len() && eligible(#[trigger] es[j]) ==> es[j].modified <= es[i].modified
    &&& forall|j: int| i < j < es.len() && eligible(#[trigger] es[j]) ==> es[j].modified < es[i].modified
}

/// Pick the most recently modified supported image of a directory.
pub fn pick_from_dir(dir: &str, entries: &Vec<DirEntry>) -> (r: Result<String, RwalError>)
    ensures
        r is Err <==> forall|j: int| 0 <= j < entries@.len() ==> !eligible(#[trigger] entries@[j]),
        r is Err ==> r->Err_0 == RwalError::EmptyDirectory(r->Err_0->EmptyDirectory_0)
            && r->Err_0->EmptyDirectory_0@ == dir@,
        r is Ok ==> exists|i: int| latest_at(entries@, i) && r->Ok_0@ == (#[trigger] entries@[i]).path@,
{
    let mut best: Option<usize> = None;
    let mut i: usize = 0;
    while i < entries.len()
        invariant
            i <= entries@.len(),
            match best {
                None => forall|j: int| 0 <= j < i ==> !eligible(#[trigger] entries@[j]),
                Some(b) => b < i && latest_at(entries@.take(i as int), b as int),
            },
        decreases entries@.len() - i,
    {
        let e = &entries[i];
        let ok = e.is_file && is_supported(&e.extension);
        if ok {
            match best {
                None => {
                    best = Some(i);
                },
                Some(b) => {
                    if entries[b].modified <= e.modified {
                        best = Some(i);
                    }
                },
            }
        }
        proof {
            let t = entries@.take(i + 1);
            assert(t[i as int] == entries@[i as int]);
            assert forall|j: int| 0 <= j < i ==> t[j] == entries@.take(i as int)[j] by {}
        }
        i = i + 1;
    }
    assert(entries@.take(entries@.len() as int) =~= entries@);
    match best {
        None => Err(RwalError::EmptyDirectory(dir.to_string())),
        Some(b) => {
            assert(latest_at(entries@, b as int));
            Ok(entries[b].path.clone())
        },
    }
}

/// Resolve the input path to a single image file: a supported file is
/// taken as it is; a directory gives its latest supported image; anything
/// else is not found.
pub fn resolve(path: &str, target: &Target) -> (r: Result<String, RwalError>)
    ensures
        match *target {
            Target::Missing | Target::Other => r == Err::<String, RwalError>(
                RwalError::ImageNotFound(r->Err_0->ImageNotFound_0)) && r->Err_0->ImageNotFound_0@ == path@,
            Target::File { extension } => match r {
                Ok(p) => p@ == path@ && ext_supported(extension),
                Err(e) => !ext_supported(extension) && e == RwalError::UnsupportedFormat(e->UnsupportedFormat_0)
                    && e->UnsupportedFormat_0@ == ext_shown(extension),
            },
            Target::Directory { entries } => {
                &&& r is Err <==> forall|j: int| 0 <= j < entries@.len() ==> !eligible(#[trigger] entries@[j])
                &&& r is Err ==> r->Err_0 == RwalError::EmptyDirectory(r->Err_0->EmptyDirectory_0)
                    && r->Err_0->EmptyDirectory_0@ == path@
            },
        },
        r is Ok && target is Directory ==> exists|i: int| latest_at(target->entries@, i)
            && r->Ok_0@ == (#[trigger] target->entries@[i]).path@,
{
    match target {
        Target::Missing | Target::Other => Err(RwalError::ImageNotFound(path.to_string())),
        Target::File { extension } => match validate_extension(extension) {
            Ok(()) => Ok(path.to_string()),
            Err(e) => Err(e),
        },
        Target::Directory { entries } => pick_from_dir(path, entries),
    }
}

} // verus!
