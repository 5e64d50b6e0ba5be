//! Path permissions: which caller-supplied paths may be touched.
//!
//! A path string is first held to the syntax rules, then resolved, then
//! tested against the allowed roots. Canonical forms come from the
//! operating system and change with what is on disk, so every decision
//! that uses one stands twice here: as a function that takes the canonical
//! forms as arguments and has an exact contract (its name ends in `_with`,
//! or it is `allowed_among`), and as a function that asks the operating
//! system itself and states what holds whatever the answer was.

use vstd::prelude::*;
use crate::filesystem::{outcome, text_outcome, ErrorKind, Failure, FileSystemError};
use crate::lexical::{
    check_traversal_syntax, has_no_dot_segment, has_traversal_syntax,
    is_separator, lemma_parent_segment_is_banned, lemma_root_admits_below,
    lemma_root_rejects_lookalike, lexical_form, lexical_normalize, parent_dir, path_starts_with,
    split_at_separators, split_segments, starts_with_components, within_root,
};
use crate::lexical_laws::lemma_lexical_form_is_normalized;
use crate::path_set::PathSet;
use crate::platform::{comparison_chars, comparison_form, form_within, within_root_on, Platform};
use crate::text::{join_text, string_of};

verus! {

/// `std::path::Path::canonicalize`: asks the operating system for the
/// canonical, absolute form of `path`, with symbolic links followed.
/// Whether there is an answer, and which, depends on what is on disk at
/// the time of the call. Two things are claimed of every answer, as the
/// standard library documents that it is an absolute path with all
/// components normalized: it is not empty, and none of its segments is
/// `.` or `..`. `None` stands for every failure, of which the usual one
/// is that the path does not exist.
#[verifier::external_body]
fn canonical_form(path: &str) -> (out: Option<String>)
    ensures
        out matches Some(found) ==> is_canonical_shape(found@),
{
    match std::path::Path::new(path).canonicalize() {
        Ok(found) => Some(found.to_string_lossy().into_owned()),
        Err(_) => None,
    }
}

/// What every canonical form is like: not empty, and without a segment
/// that is `.` or `..`.
pub open spec fn is_canonical_shape(text: Seq<char>) -> bool {
    text.len() > 0 && has_no_dot_segment(text)
}

/// What every resolved form of `path` is like: normalized, and either the
/// lexical resolution of `path` or a text that is not empty.
pub open spec fn is_resolved_shape(path: Seq<char>, text: Seq<char>) -> bool {
    has_no_dot_segment(text) && (text == lexical_form(path) || text.len() > 0)
}

/// The resolved form of `path`: its canonical form where the operating
/// system gave one, else its lexical resolution.
pub open spec fn resolved_form(path: Seq<char>, canonical: Option<Seq<char>>) -> Seq<char> {
    match canonical {
        Some(found) => found,
        None => lexical_form(path),
    }
}

/// The failure for a path whose spelling is banned.
pub open spec fn invalid_components(path: Seq<char>) -> Failure {
    Failure { kind: ErrorKind::InvalidPath, detail: "Path contains invalid components: "@ + path }
}

/// The failure for a path that no root admits. It names the path as the
/// caller wrote it.
pub open spec fn not_allowed(path: Seq<char>) -> Failure {
    Failure { kind: ErrorKind::PathNotAllowed, detail: path }
}

/// What validation answers for `path` when the operating system answered
/// `canonical`: the spelling is judged first, on the path as written.
pub open spec fn validated(path: Seq<char>, canonical: Option<Seq<char>>) -> Result<
    Seq<char>,
    Failure,
> {
    if has_traversal_syntax(path) {
        Err(invalid_components(path))
    } else {
        Ok(resolved_form(path, canonical))
    }
}

/// The roots after `path` has been granted while its canonical form was
/// `canonical`: both forms are members.
pub open spec fn granted(
    roots: Set<Seq<char>>,
    path: Seq<char>,
    canonical: Option<Seq<char>>,
) -> Set<Seq<char>> {
    match canonical {
        Some(found) => roots.insert(found).insert(path),
        None => roots.insert(path),
    }
}

/// The roots after a path whose canonical form was `canonical` has been
/// revoked: only that form leaves, and nothing leaves where there is none.
pub open spec fn revoked(roots: Set<Seq<char>>, canonical: Option<Seq<char>>) -> Set<Seq<char>> {
    match canonical {
        Some(found) => roots.remove(found),
        None => roots,
    }
}

/// Some member of `roots` is `path` or lies above it, by spelling alone,
/// compared as `platform` compares.
pub open spec fn literally_allowed(
    platform: Platform,
    roots: Set<Seq<char>>,
    path: Seq<char>,
) -> bool {
    exists|root: Seq<char>| roots.contains(root) && within_root_on(platform, path, root)
}

/// One root admits `path`: by spelling, or by the canonical forms of both
/// where both exist, compared as `platform` compares.
pub open spec fn root_admits(
    platform: Platform,
    path: Seq<char>,
    canonical_path: Option<Seq<char>>,
    root: Seq<char>,
    canonical_root: Option<Seq<char>>,
) -> bool {
    within_root_on(platform, path, root) || (canonical_path is Some && canonical_root is Some
        && within_root_on(platform, canonical_path->0, canonical_root->0))
}

/// An allowed root together with the canonical form that the operating
/// system gave for it, if any.
pub struct ResolvedRoot {
    pub literal: String,
    pub canonical: Option<String>,
}

/// Some root among `roots` admits `path`.
pub open spec fn admitted_by_some(
    platform: Platform,
    path: Seq<char>,
    canonical_path: Option<Seq<char>>,
    roots: Seq<ResolvedRoot>,
) -> bool {
    exists|i: int|
        0 <= i < roots.len() && root_admits(
            platform,
            path,
            canonical_path,
            (#[trigger] roots[i]).literal@,
            roots[i].canonical.deep_view(),
        )
}

/// Whether `path` may be touched: syntax first, then the allowed roots,
/// the path tested in its resolved form. A path that passes comes back
/// resolved.
pub open spec fn access_decision(
    platform: Platform,
    path: Seq<char>,
    canonical: Option<Seq<char>>,
    canonical_of_resolved: Option<Seq<char>>,
    roots: Seq<ResolvedRoot>,
) -> Result<Seq<char>, Failure> {
    if has_traversal_syntax(path) {
        Err(invalid_components(path))
    } else if admitted_by_some(
        platform,
        resolved_form(path, canonical),
        canonical_of_resolved,
        roots,
    ) {
        Ok(resolved_form(path, canonical))
    } else {
        Err(not_allowed(path))
    }
}

/// What a request to grant `path` answers: only the spelling can stand
/// in its way.
pub open spec fn grant_result(path: Seq<char>) -> Result<(), Failure> {
    if has_traversal_syntax(path) {
        Err(invalid_components(path))
    } else {
        Ok(())
    }
}

/// The roots after a request to grant `path`, when the operating system
/// answered `canonical` for the path and `canonical_of_resolved` for its
/// resolved form.
pub open spec fn roots_after_grant(
    roots: Set<Seq<char>>,
    path: Seq<char>,
    canonical: Option<Seq<char>>,
    canonical_of_resolved: Option<Seq<char>>,
) -> Set<Seq<char>> {
    if has_traversal_syntax(path) {
        roots
    } else {
        granted(roots, resolved_form(path, canonical), canonical_of_resolved)
    }
}

/// Resolves `path`, given the canonical form that the operating system
/// gave for it.
pub fn normalize_path_with(path: &str, canonical: Option<String>) -> (out: String)
    ensures
        out@ == resolved_form(path@, canonical.deep_view()),
{
    match canonical {
        Some(found) => found,
        None => lexical_normalize(path),
    }
}

/// Resolves `path`: to its canonical form if the operating system gives
/// one, else lexically. It never fails. What it gives is normalized
/// either way, with no segment that is `.` or `..`, and it is empty only
/// where the lexical resolution of `path` is.
pub fn normalize_path(path: &str) -> (out: Result<String, FileSystemError>)
    ensures
        out is Ok,
        out matches Ok(text) ==> is_resolved_shape(path@, text@),
{
    let canonical = canonical_form(path);
    proof {
        lemma_lexical_form_is_normalized(path@);
    }
    Ok(normalize_path_with(path, canonical))
}

/// Holds `path` to the syntax rules and resolves it, given the canonical
/// form that the operating system gave for it.
pub fn validate_path_with(path: &str, canonical: Option<String>) -> (out: Result<
    String,
    FileSystemError,
>)
    ensures
        text_outcome(out) == validated(path@, canonical.deep_view()),
{
    if check_traversal_syntax(path) {
        Err(FileSystemError::InvalidPath(join_text("Path contains invalid components: ", path)))
    } else {
        Ok(normalize_path_with(path, canonical))
    }
}

/// Holds `path` to the syntax rules, on its literal spelling, and resolves
/// it. A path with a `..` segment or with `//` is refused even where
/// resolving it would be harmless; every other path is accepted, and
/// comes back normalized: no segment of the result is `.` or `..`, and
/// the result is empty only where the lexical resolution of `path` is.
pub fn validate_path(path: &str) -> (out: Result<String, FileSystemError>)
    ensures
        out is Err <==> has_traversal_syntax(path@),
        out matches Err(why) ==> why@ == invalid_components(path@),
        out matches Ok(text) ==> is_resolved_shape(path@, text@),
{
    if check_traversal_syntax(path) {
        Err(FileSystemError::InvalidPath(join_text("Path contains invalid components: ", path)))
    } else {
        normalize_path(path)
    }
}

/// Tells whether some root among `roots` admits `path`, given the
/// canonical forms that the operating system gave for the path and for
/// each root. Paths are compared as `platform` compares.
pub fn allowed_among(
    platform: Platform,
    path: &str,
    canonical_path: &Option<String>,
    roots: &Vec<ResolvedRoot>,
) -> (allowed: bool)
    ensures
        allowed == admitted_by_some(platform, path@, canonical_path.deep_view(), roots@),
{
    let path_form = comparison_chars(platform, path);
    let real_form: Option<Vec<char>> = match canonical_path {
        Some(real_path) => Some(comparison_chars(platform, real_path.as_str())),
        None => None,
    };
    let mut i: usize = 0;
    while i < roots.len()
        invariant
            i <= roots.len(),
            path_form@ == comparison_form(platform, path@),
            real_form is Some == canonical_path is Some,
            canonical_path matches Some(real_path) ==> real_form->0@ == comparison_form(
                platform,
                real_path@,
            ),
            forall|j: int|
                0 <= j < i ==> !root_admits(
                    platform,
                    path@,
                    canonical_path.deep_view(),
                    (#[trigger] roots@[j]).literal@,
                    roots@[j].canonical.deep_view(),
                ),
        decreases roots.len() - i,
    {
        let root = &roots[i];
        let literal_form = comparison_chars(platform, root.literal.as_str());
        if form_within(&path_form, &literal_form) {
            return true;
        }
        match (&real_form, &root.canonical) {
            (Some(real_path_form), Some(real_root)) => {
                let real_root_form = comparison_chars(platform, real_root.as_str());
                if form_within(real_path_form, &real_root_form) {
                    return true;
                }
            },
            _ => {},
        }
        i += 1;
    }
    false
}

/// Decides whether `path` may be touched, given what the operating system
/// answered: `canonical` for `path`, `canonical_of_resolved` for its
/// resolved form, and the canonical form in each of `roots`. Paths are
/// compared as `platform` compares.
pub fn authorize_with(
    platform: Platform,
    path: &str,
    canonical: Option<String>,
    canonical_of_resolved: &Option<String>,
    roots: &Vec<ResolvedRoot>,
) -> (out: Result<String, FileSystemError>)
    ensures
        text_outcome(out) == access_decision(
            platform,
            path@,
            canonical.deep_view(),
            canonical_of_resolved.deep_view(),
            roots@,
        ),
{
    match validate_path_with(path, canonical) {
        Err(why) => Err(why),
        Ok(resolved) => {
            if allowed_among(platform, resolved.as_str(), canonical_of_resolved, roots) {
                Ok(resolved)
            } else {
                Err(FileSystemError::PathNotAllowed(String::from_str(path)))
            }
        },
    }
}

/// Tells whether the resolved form of `path` starts with that of
/// `allowed_base`, component by component, given the canonical forms that
/// the operating system gave for the two.
pub fn is_path_within_allowed_with(
    path: &str,
    canonical_path: Option<String>,
    allowed_base: &str,
    canonical_base: Option<String>,
) -> (inside: bool)
    ensures
        inside == starts_with_components(
            resolved_form(path@, canonical_path.deep_view()),
            resolved_form(allowed_base@, canonical_base.deep_view()),
        ),
{
    let resolved_path = normalize_path_with(path, canonical_path);
    let resolved_base = normalize_path_with(allowed_base, canonical_base);
    path_starts_with(resolved_path.as_str(), resolved_base.as_str())
}

/// Tells whether `path`, resolved, starts with `allowed_base`, resolved,
/// component by component. It never fails.
pub fn is_path_within_allowed(path: &str, allowed_base: &str) -> (out: Result<bool, FileSystemError>)
    ensures
        out is Ok,
{
    let canonical_path = canonical_form(path);
    let canonical_base = canonical_form(allowed_base);
    Ok(is_path_within_allowed_with(path, canonical_path, allowed_base, canonical_base))
}

/// Pairs each of `literals` with no canonical form: the roots as they
/// are compared by spelling alone.
fn unresolved_roots(literals: &Vec<String>) -> (out: Vec<ResolvedRoot>)
    ensures
        out.len() == literals.len(),
        forall|j: int|
            0 <= j < out.len() ==> (#[trigger] out@[j]).literal@ == literals@[j]@
                && out@[j].canonical is None,
{
    let mut out: Vec<ResolvedRoot> = Vec::new();
    let mut i: usize = 0;
    while i < literals.len()
        invariant
            i <= literals.len(),
            out.len() == i,
            forall|j: int|
                0 <= j < i ==> (#[trigger] out@[j]).literal@ == literals@[j]@
                    && out@[j].canonical is None,
        decreases literals.len() - i,
    {
        out.push(ResolvedRoot { literal: literals[i].clone(), canonical: None });
        i += 1;
    }
    out
}

/// Pairs each of `literals` with the canonical form that the operating
/// system gives for it: root by root, in the same order, each beside its
/// own answer.
fn resolved_roots(literals: &Vec<String>) -> (out: Vec<ResolvedRoot>)
    ensures
        out.len() == literals.len(),
        forall|j: int|
            0 <= j < out.len() ==> (#[trigger] out@[j]).literal@ == literals@[j]@ && (
            out@[j].canonical matches Some(found) ==> is_canonical_shape(found@)),
{
    let mut out: Vec<ResolvedRoot> = Vec::new();
    let mut i: usize = 0;
    while i < literals.len()
        invariant
            i <= literals.len(),
            out.len() == i,
            forall|j: int|
                0 <= j < i ==> (#[trigger] out@[j]).literal@ == literals@[j]@ && (
                out@[j].canonical matches Some(found) ==> is_canonical_shape(found@)),
        decreases literals.len() - i,
    {
        let canonical = canonical_form(literals[i].as_str());
        out.push(ResolvedRoot { literal: literals[i].clone(), canonical });
        i += 1;
    }
    out
}

/// The allowed roots: the paths under which file operations are
/// permitted. There is none at first; the set grows by grants and shrinks
/// only by revocations.
pub struct SecurityManager {
    allowed_paths: PathSet,
    platform: Platform,
}

/// What a manager holds: the allowed roots, as a set of texts, and the
/// platform whose way of comparing paths it follows.
pub struct ManagerView {
    pub roots: Set<Seq<char>>,
    pub platform: Platform,
}

impl View for SecurityManager {
    type V = ManagerView;

    closed spec fn view(&self) -> ManagerView {
        ManagerView { roots: self.allowed_paths@, platform: self.platform }
    }
}

impl SecurityManager {
    /// The allowed roots in the order in which they are listed.
    pub closed spec fn listing(&self) -> Seq<Seq<char>> {
        self.allowed_paths.listing()
    }

    /// A manager with no allowed root, for a platform on which case
    /// matters.
    pub fn new() -> (out: SecurityManager)
        ensures
            out@.roots == Set::<Seq<char>>::empty(),
            out@.platform == Platform::Posix,
    {
        SecurityManager { allowed_paths: PathSet::new(), platform: Platform::Posix }
    }

    /// A manager with no allowed root that compares paths as `platform`
    /// does.
    pub fn for_platform(platform: Platform) -> (out: SecurityManager)
        ensures
            out@.roots == Set::<Seq<char>>::empty(),
            out@.platform == platform,
    {
        SecurityManager { allowed_paths: PathSet::new(), platform }
    }

    /// Grants `path`, given the canonical form that the operating system
    /// gave for it: that form becomes a root, and so does `path` itself.
    /// Granting what is already a root changes nothing.
    pub fn add_allowed_path_with(&mut self, path: String, canonical: Option<String>)
        ensures
            final(self)@.roots == granted(old(self)@.roots, path@, canonical.deep_view()),
            final(self)@.platform == old(self)@.platform,
    {
        match canonical {
            Some(found) => {
                self.allowed_paths.insert(found);
            },
            None => {},
        }
        self.allowed_paths.insert(path);
    }

    /// Grants `path`, and its canonical form too where the operating
    /// system gives one. No root is lost, and at most two are gained:
    /// `path` itself and a text of the shape of a canonical form.
    pub fn add_allowed_path(&mut self, path: String)
        ensures
            final(self)@.roots.contains(path@),
            final(self)@.roots == old(self)@.roots.insert(path@) || exists|found: Seq<char>|
                is_canonical_shape(found) && final(self)@.roots == #[trigger] old(self)@.roots.insert(
                    found,
                ).insert(path@),
            final(self)@.platform == old(self)@.platform,
    {
        let canonical = canonical_form(path.as_str());
        self.add_allowed_path_with(path, canonical);
    }

    /// Holds `path` to the syntax rules and grants its resolved form, given
    /// what the operating system answered: `canonical` for `path` and
    /// `canonical_of_resolved` for its resolved form. A path whose spelling
    /// is banned is refused and changes nothing.
    pub fn grant_with(
        &mut self,
        path: &str,
        canonical: Option<String>,
        canonical_of_resolved: Option<String>,
    ) -> (out: Result<(), FileSystemError>)
        ensures
            outcome(out) == grant_result(path@),
            final(self)@.roots == roots_after_grant(
                old(self)@.roots,
                path@,
                canonical.deep_view(),
                canonical_of_resolved.deep_view(),
            ),
            final(self)@.platform == old(self)@.platform,
    {
        match validate_path_with(path, canonical) {
            Err(why) => Err(why),
            Ok(resolved) => {
                self.add_allowed_path_with(resolved, canonical_of_resolved);
                Ok(())
            },
        }
    }

    /// Holds `path` to the syntax rules and grants its resolved form. A
    /// path whose spelling is banned is refused and changes nothing. Any
    /// other path is granted: its resolved form, which is normalized,
    /// becomes a root, together with at most one more form, and no root
    /// is lost.
    pub fn grant(&mut self, path: &str) -> (out: Result<(), FileSystemError>)
        ensures
            outcome(out) == grant_result(path@),
            out is Err ==> final(self)@.roots == old(self)@.roots,
            old(self)@.roots.subset_of(final(self)@.roots),
            final(self)@.platform == old(self)@.platform,
            out is Ok ==> exists|resolved: Seq<char>|
                #[trigger] final(self)@.roots.contains(resolved) && is_resolved_shape(path@, resolved)
                    && (final(self)@.roots == old(self)@.roots.insert(resolved) || exists|found: Seq<char>|
                    is_canonical_shape(found) && final(self)@.roots == #[trigger] old(self)@.roots.insert(
                        found,
                    ).insert(resolved)),
    {
        match validate_path(path) {
            Err(why) => Err(why),
            Ok(resolved) => {
                self.add_allowed_path(resolved);
                Ok(())
            },
        }
    }

    /// Revokes a path, given the canonical form that the operating system
    /// gave for it. Only the canonical form leaves the roots: a root that
    /// was granted under another spelling stays.
    pub fn remove_allowed_path_with(&mut self, canonical: Option<String>)
        ensures
            final(self)@.roots == revoked(old(self)@.roots, canonical.deep_view()),
            final(self)@.platform == old(self)@.platform,
    {
        match canonical {
            Some(found) => {
                self.allowed_paths.remove(found.as_str());
            },
            None => {},
        }
    }

    /// Revokes the canonical form of `path`, where the operating system
    /// gives one. No root is gained, and at most one is lost, which has
    /// the shape of a canonical form.
    pub fn remove_allowed_path(&mut self, path: &str)
        ensures
            final(self)@.roots == old(self)@.roots || exists|found: Seq<char>|
                is_canonical_shape(found) && final(self)@.roots == #[trigger] old(self)@.roots.remove(found),
            final(self)@.platform == old(self)@.platform,
    {
        let canonical = canonical_form(path);
        self.remove_allowed_path_with(canonical);
    }

    /// The allowed roots, each once.
    pub fn get_allowed_paths(&self) -> (out: Vec<String>)
        ensures
            out.deep_view() == self.listing(),
            out.deep_view().no_duplicates(),
            out.deep_view().to_set() == self@.roots,
    {
        self.allowed_paths.to_vec()
    }

    /// The form in which the manager compares paths. Where case matters
    /// it is the path without the slashes at its end; where it does not,
    /// separators are unified, the text is lower-cased and an
    /// extended-length prefix is dropped as well.
    pub fn normalize_path_string(&self, path: &str) -> (out: String)
        ensures
            out@ == comparison_form(self@.platform, path@),
    {
        let form = comparison_chars(self.platform, path);
        string_of(&form)
    }

    /// Tells whether `path` may be touched: whether it is an allowed root
    /// or lies below one, by its spelling or by the canonical forms that
    /// the operating system gives, compared as the manager's platform
    /// compares. A path that a root admits by spelling is allowed
    /// whatever the operating system says, and nothing is allowed while
    /// there is no root.
    pub fn is_path_allowed(&self, path: &str) -> (allowed: bool)
        ensures
            literally_allowed(self@.platform, self@.roots, path@) ==> allowed,
            self@.roots == Set::<Seq<char>>::empty() ==> !allowed,
    {
        let literals = self.allowed_paths.to_vec();
        let plain = unresolved_roots(&literals);
        let unresolved: Option<String> = None;
        if allowed_among(self.platform, path, &unresolved, &plain) {
            assert(literals.deep_view().to_set().contains(literals.deep_view()[0]));
            return true;
        }
        proof {
            if literally_allowed(self@.platform, self@.roots, path@) {
                let root = choose|root: Seq<char>|
                    self@.roots.contains(root) && within_root_on(self@.platform, path@, root);
                let k = choose|k: int|
                    0 <= k < literals.deep_view().len() && literals.deep_view()[k] == root;
                assert(root_admits(
                    self@.platform,
                    path@,
                    unresolved.deep_view(),
                    plain@[k].literal@,
                    plain@[k].canonical.deep_view(),
                ));
            }
        }
        let canonical_path = canonical_form(path);
        if canonical_path.is_none() {
            return false;
        }
        let resolved = resolved_roots(&literals);
        let allowed = allowed_among(self.platform, path, &canonical_path, &resolved);
        proof {
            if allowed {
                assert(literals.deep_view().to_set().contains(literals.deep_view()[0]));
            }
        }
        allowed
    }

    /// Decides whether `path` may be touched: syntax first, then the
    /// allowed roots, against which the resolved path is tested. A banned
    /// spelling is refused as `InvalidPath` whatever the roots are; every
    /// other refusal is `PathNotAllowed` and names the path as the caller
    /// wrote it. A path that passes comes back resolved.
    pub fn authorize(&self, path: &str) -> (out: Result<String, FileSystemError>)
        ensures
            has_traversal_syntax(path@) ==> text_outcome(out) == Err::<Seq<char>, Failure>(
                invalid_components(path@),
            ),
            !has_traversal_syntax(path@) ==> out is Ok || text_outcome(out) == Err::<
                Seq<char>,
                Failure,
            >(not_allowed(path@)),
            self@.roots == Set::<Seq<char>>::empty() ==> out is Err,
            out matches Ok(text) ==> is_resolved_shape(path@, text@),
    {
        match validate_path(path) {
            Err(why) => Err(why),
            Ok(resolved) => {
                if self.is_path_allowed(resolved.as_str()) {
                    Ok(resolved)
                } else {
                    Err(FileSystemError::PathNotAllowed(String::from_str(path)))
                }
            },
        }
    }
}

/// A path with a `..` segment is refused as `InvalidPath`, whatever the
/// operating system says of it and whatever it would resolve to. A `..`
/// counts between slashes and between separators of either kind alike.
pub proof fn lemma_parent_segment_is_refused(path: Seq<char>, canonical: Option<Seq<char>>)
    requires
        split_segments(path).contains(parent_dir()) || split_at_separators(path).contains(
            parent_dir(),
        ),
    ensures
        validated(path, canonical) == Err::<Seq<char>, Failure>(invalid_components(path)),
{
    lemma_parent_segment_is_banned(path);
}

/// Once `root` is granted, it is allowed itself on every platform, and
/// where case matters so is every path written as `root`, a slash and
/// anything, whatever the other roots are and whatever the operating
/// system says.
pub proof fn lemma_granted_root_is_allowed(
    platform: Platform,
    roots: Set<Seq<char>>,
    root: Seq<char>,
    canonical: Option<Seq<char>>,
    rest: Seq<char>,
)
    ensures
        literally_allowed(platform, granted(roots, root, canonical), root),
        literally_allowed(
            Platform::Posix,
            granted(roots, root, canonical),
            root + seq!['/'] + rest,
        ),
{
    let after = granted(roots, root, canonical);
    assert(after.contains(root));
    assert(within_root_on(platform, root, root));
    lemma_root_admits_below(root, rest);
    assert(within_root_on(Platform::Posix, root + seq!['/'] + rest, root));
}

/// Where case matters, a root does not admit a path that merely starts
/// with the root's characters: where the root does not end in a slash,
/// what follows it does not start with a separator, and the canonical
/// forms give no match either, the path is not admitted.
pub proof fn lemma_lookalike_is_not_admitted(
    root: Seq<char>,
    canonical_root: Option<Seq<char>>,
    extra: Seq<char>,
    canonical_path: Option<Seq<char>>,
)
    requires
        root.len() > 0 ==> root.last() != '/',
        extra.len() > 0,
        !is_separator(extra[0]),
        canonical_path is Some && canonical_root is Some ==> !within_root(
            canonical_path->0,
            canonical_root->0,
        ),
    ensures
        !root_admits(Platform::Posix, root + extra, canonical_path, root, canonical_root),
{
    lemma_root_rejects_lookalike(root, extra);
}

/// Granting the same path twice leaves the same roots as granting it once.
pub proof fn lemma_grant_is_idempotent(
    roots: Set<Seq<char>>,
    path: Seq<char>,
    canonical: Option<Seq<char>>,
)
    ensures
        granted(granted(roots, path, canonical), path, canonical) == granted(
            roots,
            path,
            canonical,
        ),
{
    assert(granted(granted(roots, path, canonical), path, canonical) =~= granted(
        roots,
        path,
        canonical,
    ));
}

} // verus!
