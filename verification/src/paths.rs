//! File-system paths, held as their text, and the editor's directories.
use vstd::prelude::*;

verus! {

/// What `Path::parent` returns for the path `p`: the path without its final
/// component, or nothing when `p` ends in a root or prefix or is empty.
pub uninterp spec fn parent_path(p: Seq<char>) -> Option<Seq<char>>;

/// What `Path::join` returns for `base` and `part` on the platform the
/// crate is built for (an absolute `part` replaces `base`).
pub uninterp spec fn joined_path(base: Seq<char>, part: Seq<char>) -> Seq<char>;

/// `std::path::Path::parent`, on a path given as text.
///
/// Trusted: the contract only names the result (`parent_path`). The text of
/// the parent of a valid UTF-8 path is a sub-slice of it, so the conversion
/// back to a `String` is exact.
#[verifier::external_body]
pub(crate) fn path_parent(p: &str) -> (r: Option<String>)
    ensures
        match parent_path(p@) {
            Some(q) => r matches Some(rq) && rq@ == q,
            None => r is None,
        },
{
    match std::path::Path::new(p).parent() {
        Some(q) => Some(q.to_string_lossy().into_owned()),
        None => None,
    }
}

/// `std::path::Path::join`, on paths given as text.
///
/// Trusted: the contract only names the result (`joined_path`). Joining two
/// UTF-8 paths with an ASCII separator gives UTF-8, so the conversion back
/// to a `String` is exact.
#[verifier::external_body]
pub(crate) fn path_join(base: &str, part: &str) -> (r: String)
    ensures
        r@ == joined_path(base@, part@),
{
    std::path::Path::new(base).join(part).to_string_lossy().into_owned()
}

/// A component of a path, as `Path::components` yields them.
#[derive(Debug, Clone)]
pub enum PathPart {
    /// A Windows prefix such as `C:`.
    Prefix,
    /// The root separator.
    Root,
    /// A leading `.`.
    Current,
    /// `..`.
    Parent,
    /// A file or directory name.
    Normal(String),
}

/// What `Path::components` yields for the path `p`.
pub uninterp spec fn path_parts(p: Seq<char>) -> Seq<PathPart>;

/// What `Path::starts_with` returns: `base` is a prefix of `p`, compared
/// component by component.
pub uninterp spec fn path_has_prefix(p: Seq<char>, base: Seq<char>) -> bool;

/// `std::path::Path::components`, on a path given as text.
///
/// Trusted: the contract only names the result (`path_parts`); each
/// component is turned into the `PathPart` of the same kind, and a name into
/// its text (exact, the path being UTF-8).
#[verifier::external_body]
pub(crate) fn components(p: &str) -> (r: Vec<PathPart>)
    ensures
        r@ == path_parts(p@),
{
    std::path::Path::new(p).components().map(
        |c| match c {
            std::path::Component::Prefix(_) => PathPart::Prefix,
            std::path::Component::RootDir => PathPart::Root,
            std::path::Component::CurDir => PathPart::Current,
            std::path::Component::ParentDir => PathPart::Parent,
            std::path::Component::Normal(n) => PathPart::Normal(n.to_string_lossy().into_owned()),
        },
    ).collect()
}

/// `std::path::Path::starts_with`, on paths given as text.
///
/// Trusted: the contract only names the result (`path_has_prefix`).
#[verifier::external_body]
pub(crate) fn path_starts_with(p: &str, base: &str) -> (b: bool)
    ensures
        b == path_has_prefix(p@, base@),
{
    std::path::Path::new(p).starts_with(base)
}

/// The names of a user-given relative path, `.` components dropped; `None`
/// when it has a `..`, a root or a prefix.
pub open spec fn safe_names(parts: Seq<PathPart>) -> Option<Seq<Seq<char>>>
    decreases parts.len(),
{
    if parts.len() == 0 {
        Some(Seq::empty())
    } else {
        match safe_names(parts.drop_last()) {
            None => None,
            Some(names) => match parts.last() {
                PathPart::Current => Some(names),
                PathPart::Normal(n) => Some(names.push(n@)),
                _ => None,
            },
        }
    }
}

/// The path made by joining `names` one by one onto `acc`.
pub open spec fn join_names(acc: Seq<char>, names: Seq<Seq<char>>) -> Seq<char>
    decreases names.len(),
{
    if names.len() == 0 {
        acc
    } else {
        joined_path(join_names(acc, names.drop_last()), names.last())
    }
}

/// The joined path stays within the base: it starts with `base` itself, or
/// it or its parent starts with `canonical_base`.
pub open spec fn within_base(full: Seq<char>, base: Seq<char>, canonical_base: Seq<char>) -> bool {
    ||| path_has_prefix(full, base)
    ||| path_has_prefix(full, canonical_base)
    ||| (parent_path(full) matches Some(p) && path_has_prefix(p, canonical_base))
}

/// The file a content request for `raw` reaches under `base`, when it is
/// allowed: no `..`, root or prefix in `raw`, and the joined path within the
/// base (`within_base`, `canonical_base` being the canonical form of `base`,
/// or `base` itself when it has none).
pub open spec fn sanitize_spec(base: Seq<char>, raw: Seq<char>, canonical_base: Seq<char>) -> Option<Seq<char>> {
    match safe_names(path_parts(raw)) {
        None => None,
        Some(names) => {
            let full = joined_path(base, join_names(Seq::empty(), names));
            if within_base(full, base, canonical_base) {
                Some(full)
            } else {
                None
            }
        },
    }
}

/// Sanitize a user-provided path: strip `.`, reject `..`, roots and prefixes,
/// and ensure the result stays within the base directory. Returns the
/// resolved safe path, or `None` for a bad request.
pub fn sanitize_content_path(base_dir: &str, raw: &str, canonical_base: &str) -> (r: Option<String>)
    ensures
        match sanitize_spec(base_dir@, raw@, canonical_base@) {
            Some(full) => r matches Some(rf) && rf@ == full,
            None => r is None,
        },
{
    let parts = components(raw);
    let ghost all = path_parts(raw@);
    let mut rel = String::new();
    let ghost mut names: Seq<Seq<char>> = Seq::empty();
    let mut i: usize = 0;
    assert(all.take(0) =~= Seq::<PathPart>::empty());
    while i < parts.len()
        invariant
            i <= parts@.len(),
            parts@ == all,
            all == path_parts(raw@),
            safe_names(all.take(i as int)) == Some(names),
            rel@ == join_names(Seq::empty(), names),
        decreases parts.len() - i,
    {
        proof {
            assert(all.take(i + 1).drop_last() =~= all.take(i as int));
            assert(all.take(i + 1).last() == all[i as int]);
        }
        match &parts[i] {
            PathPart::Current => {},
            PathPart::Normal(n) => {
                rel = path_join(rel.as_str(), n.as_str());
                proof {
                    let nn = names.push(n@);
                    assert(nn.drop_last() =~= names);
                    names = nn;
                }
            },
            _ => {
                proof {
                    lemma_safe_names_refused_at(all, i as int);
                }
                return None;
            },
        }
        i += 1;
    }
    assert(all.take(all.len() as int) =~= all);
    let full = path_join(base_dir, rel.as_str());
    if path_starts_with(full.as_str(), base_dir) || path_starts_with(full.as_str(), canonical_base) {
        return Some(full);
    }
    match path_parent(full.as_str()) {
        Some(p) => if path_starts_with(p.as_str(), canonical_base) {
            Some(full)
        } else {
            None
        },
        None => None,
    }
}

/// Once a prefix of the parts is refused, the whole path is.
proof fn lemma_safe_names_none(parts: Seq<PathPart>, i: int)
    requires
        0 <= i < parts.len(),
        safe_names(parts.take(i + 1)) is None,
    ensures
        safe_names(parts) is None,
    decreases parts.len() - i,
{
    if i + 1 < parts.len() {
        assert(parts.take(i + 2).drop_last() =~= parts.take(i + 1));
        lemma_safe_names_none(parts, i + 1);
    } else {
        assert(parts.take(i + 1) =~= parts);
    }
}

/// Every content path that is accepted stays within the base directory and
/// comes from a request without `..`, root or prefix.
pub proof fn law_accepted_path_within_base(base: Seq<char>, raw: Seq<char>, canonical_base: Seq<char>)
    requires
        sanitize_spec(base, raw, canonical_base) is Some,
    ensures
        within_base(sanitize_spec(base, raw, canonical_base)->0, base, canonical_base),
        forall|i: int|
            0 <= i < path_parts(raw).len() ==> (#[trigger] path_parts(raw)[i]) is Current
                || path_parts(raw)[i] is Normal,
{
    let parts = path_parts(raw);
    assert forall|i: int| 0 <= i < parts.len() implies (#[trigger] parts[i]) is Current
        || parts[i] is Normal by {
        if !(parts[i] is Current || parts[i] is Normal) {
            lemma_safe_names_refused_at(parts, i);
        }
    }
}

/// A content path with a `..` component is always refused.
pub proof fn law_parent_component_refused(base: Seq<char>, raw: Seq<char>, canonical_base: Seq<char>)
    requires
        path_parts(raw).contains(PathPart::Parent),
    ensures
        sanitize_spec(base, raw, canonical_base) is None,
{
    let parts = path_parts(raw);
    let k = choose|k: int| 0 <= k < parts.len() && parts[k] == PathPart::Parent;
    lemma_safe_names_refused_at(parts, k);
}

/// A part that is not `.` or a name makes the whole path refused.
proof fn lemma_safe_names_refused_at(parts: Seq<PathPart>, k: int)
    requires
        0 <= k < parts.len(),
        !(parts[k] is Current || parts[k] is Normal),
    ensures
        safe_names(parts) is None,
{
    let t = parts.take(k + 1);
    assert(t.drop_last() =~= parts.take(k));
    assert(t.last() == parts[k]);
    assert(safe_names(t) is None);
    lemma_safe_names_none(parts, k);
}

/// The shared state of the editor: where the recipes are, the public site's
/// address, and the OCR service's key.
pub struct AppState {
    pub recipes_dir: String,
    pub site_url: Option<String>,
    pub mistral_api_key: Option<String>,
}

/// The image directory for a recipes directory `d`.
pub open spec fn img_dir_spec(d: Seq<char>) -> Seq<char> {
    match parent_path(d) {
        Some(p) => joined_path(p, "img"@),
        None => joined_path(d, "../img"@),
    }
}

/// The great-grandparent of `d`, when it has one.
pub open spec fn project_root(d: Seq<char>) -> Option<Seq<char>> {
    match parent_path(d) {
        Some(a) => match parent_path(a) {
            Some(b) => parent_path(b),
            None => None,
        },
        None => None,
    }
}

/// The content directory for a recipes directory `d`.
pub open spec fn content_dir_spec(d: Seq<char>) -> Seq<char> {
    match project_root(d) {
        Some(root) => joined_path(root, "src/data/content"@),
        None => joined_path(d, "../../content"@),
    }
}

impl AppState {
    /// Image directory: sibling `img/` folder next to the recettes folder
    pub fn img_dir(&self) -> (r: String)
        ensures
            r@ == img_dir_spec(self.recipes_dir@),
    {
        match path_parent(self.recipes_dir.as_str()) {
            Some(p) => path_join(p.as_str(), "img"),
            None => path_join(self.recipes_dir.as_str(), "../img"),
        }
    }

    /// Content directory: src/data/content/ relative to project root
    /// recipes_dir = <project>/src/data/recettes/
    /// project_root = recipes_dir.parent().parent().parent()
    pub fn content_dir(&self) -> (r: String)
        ensures
            r@ == content_dir_spec(self.recipes_dir@),
    {
        let root = match path_parent(self.recipes_dir.as_str()) {
            Some(a) => match path_parent(a.as_str()) {
                Some(b) => path_parent(b.as_str()),
                None => None,
            },
            None => None,
        };
        match root {
            Some(p) => path_join(p.as_str(), "src/data/content"),
            None => path_join(self.recipes_dir.as_str(), "../../content"),
        }
    }
}

} // verus!
