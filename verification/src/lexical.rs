//! Path syntax: the purely textual rules on path strings. Nothing here
//! touches the filesystem. `/` separates the segments that are resolved
//! and compared. `\` counts as a separator too where that is the safe
//! side: a `..` is banned between separators of either kind, and either
//! kind may follow an allowed root inside a longer path.

use vstd::prelude::*;
use crate::text::{chars_of, push_char, string_of, string_of_range};

verus! {

/// `s` holds the character `c` at `i` and again right after it.
pub open spec fn doubled_at(s: Seq<char>, c: char, i: int) -> bool {
    0 <= i && i + 1 < s.len() && s[i] == c && s[i + 1] == c
}

/// `s` holds `c` twice in a row somewhere.
pub open spec fn has_doubled(s: Seq<char>, c: char) -> bool {
    exists|i: int| doubled_at(s, c, i)
}

/// The pieces of `s` between its separators, in order, `/` and `\` both
/// counting as separators. A string with n separators has n + 1 pieces.
pub open spec fn split_at_separators(s: Seq<char>) -> Seq<Seq<char>>
    decreases s.len(),
{
    if s.len() == 0 {
        seq![Seq::<char>::empty()]
    } else {
        let before = split_at_separators(s.drop_last());
        if is_separator(s.last()) {
            before.push(Seq::<char>::empty())
        } else {
            before.drop_last().push(before.last().push(s.last()))
        }
    }
}

/// Some segment of `s` is `..`, whichever separators stand around it: a
/// `..` between backslashes climbs as well on a platform that reads them
/// as separators, so it counts on every platform.
pub open spec fn has_parent_segment(s: Seq<char>) -> bool {
    split_at_separators(s).contains(parent_dir())
}

/// No segment of `s`, cut at its slashes, is `.` or `..`.
pub open spec fn has_no_dot_segment(s: Seq<char>) -> bool {
    !split_segments(s).contains(current_dir()) && !split_segments(s).contains(parent_dir())
}

/// The spelling of `s` is banned outright: one of its segments is `..`,
/// between separators of either kind, or it holds `//`. Two dots inside
/// a longer name are no such segment.
pub open spec fn has_traversal_syntax(s: Seq<char>) -> bool {
    has_parent_segment(s) || has_doubled(s, '/')
}

/// `s` without the slashes at its end.
pub open spec fn trimmed(s: Seq<char>) -> Seq<char>
    decreases s.len(),
{
    if s.len() > 0 && s.last() == '/' {
        trimmed(s.drop_last())
    } else {
        s
    }
}

/// A character that may follow an allowed root inside a longer path.
pub open spec fn is_separator(c: char) -> bool {
    c == '/' || c == '\\'
}

/// `path` is `root` itself or lies below it: once trailing slashes are
/// dropped from both, `root` is a prefix of `path` and what follows it is
/// nothing or starts with a separator.
pub open spec fn within_root(path: Seq<char>, root: Seq<char>) -> bool {
    let p = trimmed(path);
    let r = trimmed(root);
    r.is_prefix_of(p) && (p.len() == r.len() || is_separator(p[r.len() as int]))
}

/// Tells whether the spelling of `path` is banned.
pub fn check_traversal_syntax(path: &str) -> (banned: bool)
    ensures
        banned == has_traversal_syntax(path@),
{
    let chars = chars_of(path);
    let n: usize = chars.len();
    let mut i: usize = 0;
    let mut segment_len: usize = 0;
    let mut only_dots: bool = true;
    let mut parent_found: bool = false;
    let ghost mut done: Seq<Seq<char>> = Seq::empty();
    let ghost mut current: Seq<char> = Seq::empty();
    assert(split_at_separators(chars@.take(0)) =~= done.push(current));
    while i < n
        invariant
            n == chars.len(),
            chars@ == path@,
            i <= n,
            split_at_separators(chars@.take(i as int)) == done.push(current),
            segment_len == current.len(),
            segment_len <= i,
            only_dots == (forall|j: int| 0 <= j < current.len() ==> current[j] == '.'),
            parent_found == done.contains(parent_dir()),
            forall|j: int| 0 <= j < i - 1 ==> !doubled_at(chars@, '/', j),
        decreases n - i,
    {
        let c: char = chars[i];
        proof {
            let upto = chars@.take(i + 1);
            assert(upto.drop_last() == chars@.take(i as int));
            assert(upto.last() == c);
            assert(done.push(current).drop_last() == done);
            assert(done.push(current).last() == current);
        }
        if c == '/' && i > 0 && chars[i - 1] == '/' {
            assert(doubled_at(chars@, '/', i - 1));
            return true;
        }
        if c == '/' || c == '\\' {
            let closes_parent: bool = segment_len == 2 && only_dots;
            proof {
                if closes_parent {
                    assert(current =~= parent_dir());
                }
                let closed = done.push(current);
                assert(closed.contains(parent_dir()) == (parent_found || closes_parent)) by {
                    if closed.contains(parent_dir()) {
                        let k = choose|k: int| 0 <= k < closed.len() && closed[k] == parent_dir();
                        if k < done.len() {
                            assert(done[k] == parent_dir());
                        }
                    }
                    if parent_found {
                        let k = choose|k: int| 0 <= k < done.len() && done[k] == parent_dir();
                        assert(closed[k] == parent_dir());
                    }
                    if closes_parent {
                        assert(closed[closed.len() - 1] == parent_dir());
                    }
                }
                done = closed;
                current = Seq::empty();
            }
            parent_found = parent_found || closes_parent;
            segment_len = 0;
            only_dots = true;
        } else {
            proof {
                let longer = current.push(c);
                assert((forall|j: int| 0 <= j < longer.len() ==> longer[j] == '.') == (only_dots && c
                    == '.')) by {
                    if only_dots && c == '.' {
                        assert forall|j: int| 0 <= j < longer.len() implies longer[j] == '.' by {
                            if j < current.len() {
                                assert(longer[j] == current[j]);
                            }
                        }
                    }
                    if forall|j: int| 0 <= j < longer.len() ==> longer[j] == '.' {
                        assert(longer[current.len() as int] == '.');
                        assert forall|j: int| 0 <= j < current.len() implies current[j] == '.' by {
                            assert(longer[j] == current[j]);
                        }
                    }
                }
                current = longer;
            }
            only_dots = only_dots && c == '.';
            segment_len += 1;
        }
        i += 1;
    }
    assert(chars@.take(n as int) == chars@);
    let ends_in_parent: bool = segment_len == 2 && only_dots;
    proof {
        if ends_in_parent {
            assert(current =~= parent_dir());
        }
        let all = done.push(current);
        assert(all.contains(parent_dir()) == (parent_found || ends_in_parent)) by {
            if all.contains(parent_dir()) {
                let k = choose|k: int| 0 <= k < all.len() && all[k] == parent_dir();
                if k < done.len() {
                    assert(done[k] == parent_dir());
                }
            }
            if parent_found {
                let k = choose|k: int| 0 <= k < done.len() && done[k] == parent_dir();
                assert(all[k] == parent_dir());
            }
            if ends_in_parent {
                assert(all[all.len() - 1] == parent_dir());
            }
        }
        assert(!has_doubled(chars@, '/')) by {
            assert forall|j: int| !doubled_at(chars@, '/', j) by {}
        }
    }
    parent_found || ends_in_parent
}

/// The number of characters of `chars` that are left when the slashes at
/// its end are dropped.
pub fn trimmed_len(chars: &Vec<char>) -> (end: usize)
    ensures
        end <= chars.len(),
        trimmed(chars@) == chars@.take(end as int),
{
    let mut end: usize = chars.len();
    assert(chars@.take(end as int) == chars@);
    while end > 0 && chars[end - 1] == '/'
        invariant
            end <= chars.len(),
            trimmed(chars@) == trimmed(chars@.take(end as int)),
        decreases end,
    {
        assert(chars@.take(end as int).drop_last() == chars@.take(end - 1));
        end -= 1;
    }
    end
}

/// `path` without the slashes at its end: the form in which paths are
/// compared.
pub fn trim_trailing_slashes(path: &str) -> (out: String)
    ensures
        out@ == trimmed(path@),
{
    let chars = chars_of(path);
    let end: usize = trimmed_len(&chars);
    string_of_range(&chars, 0, end)
}

/// Tells whether `path` is `root` or lies below it.
pub fn chars_within_root(path: &Vec<char>, root: &Vec<char>) -> (inside: bool)
    ensures
        inside == within_root(path@, root@),
{
    let p: usize = trimmed_len(path);
    let r: usize = trimmed_len(root);
    if r > p {
        return false;
    }
    let mut i: usize = 0;
    while i < r
        invariant
            r <= p <= path.len(),
            r <= root.len(),
            i <= r,
            trimmed(path@) == path@.take(p as int),
            trimmed(root@) == root@.take(r as int),
            forall|j: int| 0 <= j < i ==> path@[j] == root@[j],
        decreases r - i,
    {
        if path[i] != root[i] {
            assert(trimmed(path@)[i as int] != trimmed(root@)[i as int]);
            return false;
        }
        i += 1;
    }
    assert(trimmed(root@) =~= trimmed(path@).subrange(0, r as int));
    if p == r {
        true
    } else {
        let next: char = path[r];
        next == '/' || next == '\\'
    }
}

/// Tells whether `path` is `root` or lies below it.
pub fn is_within_root(path: &str, root: &str) -> (inside: bool)
    ensures
        inside == within_root(path@, root@),
{
    let p = chars_of(path);
    let r = chars_of(root);
    chars_within_root(&p, &r)
}

/// The segments of `s`: the runs of characters between its slashes, in
/// order. A string with n slashes has n + 1 segments, and a segment is
/// empty where two slashes meet or a slash stands at either end.
pub open spec fn split_segments(s: Seq<char>) -> Seq<Seq<char>>
    decreases s.len(),
{
    if s.len() == 0 {
        seq![Seq::<char>::empty()]
    } else {
        let before = split_segments(s.drop_last());
        if s.last() == '/' {
            before.push(Seq::<char>::empty())
        } else {
            before.drop_last().push(before.last().push(s.last()))
        }
    }
}

/// The segment that names the directory itself.
pub open spec fn current_dir() -> Seq<char> {
    seq!['.']
}

/// The segment that names the directory above.
pub open spec fn parent_dir() -> Seq<char> {
    seq!['.', '.']
}

/// What one more segment does to the segments kept so far: an empty one
/// and `.` change nothing, `..` drops the last kept segment if there is
/// one, and any other segment is kept.
pub open spec fn resolve_step(kept: Seq<Seq<char>>, segment: Seq<char>) -> Seq<Seq<char>> {
    if segment.len() == 0 || segment == current_dir() {
        kept
    } else if segment == parent_dir() {
        if kept.len() > 0 {
            kept.drop_last()
        } else {
            kept
        }
    } else {
        kept.push(segment)
    }
}

/// The segments that are left when `segments` are taken one after another.
pub open spec fn resolve_segments(segments: Seq<Seq<char>>) -> Seq<Seq<char>>
    decreases segments.len(),
{
    if segments.len() == 0 {
        Seq::<Seq<char>>::empty()
    } else {
        resolve_step(resolve_segments(segments.drop_last()), segments.last())
    }
}

/// `parts` written out with one slash between neighbours.
pub open spec fn join_segments(parts: Seq<Seq<char>>) -> Seq<char>
    decreases parts.len(),
{
    if parts.len() == 0 {
        Seq::<char>::empty()
    } else if parts.len() == 1 {
        parts[0]
    } else {
        join_segments(parts.drop_last()) + seq!['/'] + parts.last()
    }
}

/// `s` starts at the root.
pub open spec fn is_rooted(s: Seq<char>) -> bool {
    s.len() > 0 && s[0] == '/'
}

/// The lexical resolution of `s`: its segments resolved and joined again,
/// behind a slash if `s` starts at the root.
pub open spec fn lexical_form(s: Seq<char>) -> Seq<char> {
    let body = join_segments(resolve_segments(split_segments(s)));
    if is_rooted(s) {
        seq!['/'] + body
    } else {
        body
    }
}

/// What each of `parts` spells.
pub open spec fn spelled(parts: Seq<Vec<char>>) -> Seq<Seq<char>> {
    Seq::new(parts.len(), |i: int| parts[i]@)
}

fn keep_segment(kept: &mut Vec<Vec<char>>, segment: Vec<char>)
    ensures
        spelled(final(kept)@) == resolve_step(spelled(old(kept)@), segment@),
{
    let n: usize = segment.len();
    if n == 0 {
    } else if n == 1 && segment[0] == '.' {
        assert(segment@ =~= current_dir());
    } else if n == 2 && segment[0] == '.' && segment[1] == '.' {
        assert(segment@ =~= parent_dir());
        if kept.len() > 0 {
            kept.pop();
            assert(spelled(kept@) =~= spelled(old(kept)@).drop_last());
        }
    } else {
        assert(segment@ != current_dir()) by {
            if segment@ == current_dir() {
                assert(segment@.len() == 1 && segment@[0] == '.');
            }
        }
        assert(segment@ != parent_dir()) by {
            if segment@ == parent_dir() {
                assert(segment@.len() == 2 && segment@[0] == '.' && segment@[1] == '.');
            }
        }
        kept.push(segment);
        assert(spelled(kept@) =~= spelled(old(kept)@).push(segment@));
    }
}

fn append_chars(out: &mut String, chars: &Vec<char>)
    ensures
        final(out)@ == old(out)@ + chars@,
{
    let mut i: usize = 0;
    while i < chars.len()
        invariant
            i <= chars.len(),
            out@ == old(out)@ + chars@.take(i as int),
        decreases chars.len() - i,
    {
        push_char(out, chars[i]);
        assert(chars@.take(i + 1) == chars@.take(i as int).push(chars@[i as int]));
        i += 1;
    }
    assert(chars@.take(chars.len() as int) == chars@);
}

/// Resolves `.` and `..` in `path` by its spelling alone.
pub fn lexical_normalize(path: &str) -> (out: String)
    ensures
        out@ == lexical_form(path@),
{
    let chars = chars_of(path);
    let n: usize = chars.len();
    let mut kept: Vec<Vec<char>> = Vec::new();
    let mut current: Vec<char> = Vec::new();
    let ghost mut done: Seq<Seq<char>> = Seq::empty();
    let mut i: usize = 0;
    assert(spelled(kept@) =~= resolve_segments(done));
    assert(split_segments(chars@.take(0)) =~= done.push(current@));
    while i < n
        invariant
            n == chars.len(),
            i <= n,
            split_segments(chars@.take(i as int)) == done.push(current@),
            spelled(kept@) == resolve_segments(done),
        decreases n - i,
    {
        let c: char = chars[i];
        proof {
            let s = chars@.take(i + 1);
            assert(s.drop_last() == chars@.take(i as int));
            assert(s.last() == c);
            assert(done.push(current@).drop_last() == done);
            assert(done.push(current@).last() == current@);
        }
        if c == '/' {
            proof {
                done = done.push(current@);
            }
            keep_segment(&mut kept, current);
            current = Vec::new();
        } else {
            current.push(c);
        }
        i += 1;
    }
    assert(chars@.take(n as int) == chars@);
    proof {
        let all = done.push(current@);
        assert(all.drop_last() == done);
        assert(all.last() == current@);
    }
    keep_segment(&mut kept, current);
    let mut out = String::new();
    if n > 0 && chars[0] == '/' {
        push_char(&mut out, '/');
    }
    let ghost root: Seq<char> = out@;
    let mut k: usize = 0;
    assert(spelled(kept@).take(0) =~= Seq::<Seq<char>>::empty());
    while k < kept.len()
        invariant
            k <= kept.len(),
            out@ == root + join_segments(spelled(kept@).take(k as int)),
        decreases kept.len() - k,
    {
        proof {
            let upto = spelled(kept@).take(k + 1);
            assert(upto.drop_last() == spelled(kept@).take(k as int));
            assert(upto.last() == kept@[k as int]@);
        }
        if k > 0 {
            push_char(&mut out, '/');
        }
        append_chars(&mut out, &kept[k]);
        k += 1;
    }
    assert(spelled(kept@).take(kept.len() as int) == spelled(kept@));
    out
}

/// The component that stands for the root at the start of a path.
pub open spec fn root_component() -> Seq<char> {
    seq!['/']
}

/// The components that `segments` stand for, in a path that starts at the
/// root or not: the root comes first, where there is one; empty segments
/// are no components, and neither is `.`, except as the very first
/// segment; every other segment is a component.
pub open spec fn components_of(segments: Seq<Seq<char>>, rooted: bool) -> Seq<Seq<char>>
    decreases segments.len(),
{
    if segments.len() == 0 {
        if rooted {
            seq![root_component()]
        } else {
            Seq::<Seq<char>>::empty()
        }
    } else {
        let before = components_of(segments.drop_last(), rooted);
        let segment = segments.last();
        if segment.len() == 0 || (segment == current_dir() && segments.len() > 1) {
            before
        } else {
            before.push(segment)
        }
    }
}

/// The components of the path `s`.
pub open spec fn path_components(s: Seq<char>) -> Seq<Seq<char>> {
    components_of(split_segments(s), is_rooted(s))
}

/// `path` starts with `base`, component by component: whole components
/// are compared, never parts of a name.
pub open spec fn starts_with_components(path: Seq<char>, base: Seq<char>) -> bool {
    path_components(base).is_prefix_of(path_components(path))
}

fn keep_component(kept: &mut Vec<Vec<char>>, segment: Vec<char>, first: bool)
    ensures
        spelled(final(kept)@) == if segment@.len() == 0 || (segment@ == current_dir() && !first) {
            spelled(old(kept)@)
        } else {
            spelled(old(kept)@).push(segment@)
        },
{
    let n: usize = segment.len();
    let is_dot: bool = n == 1 && segment[0] == '.';
    proof {
        if is_dot {
            assert(segment@ =~= current_dir());
        } else if segment@ == current_dir() {
            assert(segment@.len() == 1 && segment@[0] == '.');
        }
    }
    if n == 0 || (is_dot && !first) {
    } else {
        kept.push(segment);
        assert(spelled(kept@) =~= spelled(old(kept)@).push(segment@));
    }
}

/// The components of `path`, in order.
pub fn components(path: &str) -> (out: Vec<Vec<char>>)
    ensures
        spelled(out@) == path_components(path@),
{
    let chars = chars_of(path);
    let n: usize = chars.len();
    let rooted: bool = n > 0 && chars[0] == '/';
    let mut kept: Vec<Vec<char>> = Vec::new();
    if rooted {
        let mut root: Vec<char> = Vec::new();
        root.push('/');
        assert(root@ =~= root_component());
        kept.push(root);
    }
    let mut current: Vec<char> = Vec::new();
    let mut first: bool = true;
    let ghost mut done: Seq<Seq<char>> = Seq::empty();
    let mut i: usize = 0;
    assert(spelled(kept@) =~= components_of(done, rooted));
    assert(split_segments(chars@.take(0)) =~= done.push(current@));
    while i < n
        invariant
            n == chars.len(),
            i <= n,
            split_segments(chars@.take(i as int)) == done.push(current@),
            spelled(kept@) == components_of(done, rooted),
            first == (done.len() == 0),
        decreases n - i,
    {
        let c: char = chars[i];
        proof {
            let upto = chars@.take(i + 1);
            assert(upto.drop_last() == chars@.take(i as int));
            assert(upto.last() == c);
            assert(done.push(current@).drop_last() == done);
            assert(done.push(current@).last() == current@);
        }
        if c == '/' {
            proof {
                done = done.push(current@);
            }
            keep_component(&mut kept, current, first);
            current = Vec::new();
            first = false;
        } else {
            current.push(c);
        }
        i += 1;
    }
    assert(chars@.take(n as int) == chars@);
    proof {
        let all = done.push(current@);
        assert(all.drop_last() == done);
        assert(all.last() == current@);
    }
    keep_component(&mut kept, current, first);
    kept
}

/// The component names an entry: it is not the root, `.` or `..`.
pub open spec fn is_normal_component(component: Seq<char>) -> bool {
    component != root_component() && component != current_dir() && component != parent_dir()
}

/// The name of the entry that the path `s` ends in: its last component,
/// where that names an entry, and nothing where the path is empty, is the
/// root, or ends in `.` or `..`.
pub open spec fn file_name(s: Seq<char>) -> Seq<char> {
    let all = path_components(s);
    if all.len() > 0 && is_normal_component(all.last()) {
        all.last()
    } else {
        Seq::<char>::empty()
    }
}

/// The name of the entry that `path` ends in.
pub fn file_name_of(path: &str) -> (name: String)
    ensures
        name@ == file_name(path@),
{
    let all = components(path);
    if all.len() == 0 {
        return String::new();
    }
    let last = &all[all.len() - 1];
    assert(last@ == path_components(path@).last());
    let n: usize = last.len();
    let is_root: bool = n == 1 && last[0] == '/';
    let is_dot: bool = n == 1 && last[0] == '.';
    let is_dots: bool = n == 2 && last[0] == '.' && last[1] == '.';
    proof {
        if is_root {
            assert(last@ =~= root_component());
        } else if last@ == root_component() {
            assert(last@.len() == 1 && last@[0] == '/');
        }
        if is_dot {
            assert(last@ =~= current_dir());
        } else if last@ == current_dir() {
            assert(last@.len() == 1 && last@[0] == '.');
        }
        if is_dots {
            assert(last@ =~= parent_dir());
        } else if last@ == parent_dir() {
            assert(last@.len() == 2 && last@[0] == '.' && last@[1] == '.');
        }
    }
    if is_root || is_dot || is_dots {
        String::new()
    } else {
        string_of(last)
    }
}

/// Where the last named component of `s` ends: the length of `s` without
/// the slashes at its end and without a `.` that stands behind a slash
/// there.
pub open spec fn name_end(s: Seq<char>) -> int
    decreases s.len(),
{
    if s.len() == 0 {
        0
    } else if s.last() == '/' {
        name_end(s.drop_last())
    } else if s.last() == '.' && s.len() >= 2 && s[s.len() - 2] == '/' {
        name_end(s.drop_last())
    } else {
        s.len() as int
    }
}

/// Where the last segment of `s` starts: behind its last slash, or at the
/// start where it has none.
pub open spec fn name_start(s: Seq<char>) -> int
    decreases s.len(),
{
    if s.len() == 0 || s.last() == '/' {
        s.len() as int
    } else {
        name_start(s.drop_last())
    }
}

/// Where the last dot of `name` stands, or -1 where it has none.
pub open spec fn last_dot(name: Seq<char>) -> int
    decreases name.len(),
{
    if name.len() == 0 {
        -1
    } else if name.last() == '.' {
        name.len() - 1
    } else {
        last_dot(name.drop_last())
    }
}

/// The length of the stem of `name`: what stands before its last dot, or
/// all of it where it has no dot or only the one it starts with.
pub open spec fn stem_len(name: Seq<char>) -> int {
    if last_dot(name) <= 0 {
        name.len() as int
    } else {
        last_dot(name)
    }
}

/// The last segment of `s` before the slashes, and the `.` behind a
/// slash, at its end.
pub open spec fn last_name(s: Seq<char>) -> Seq<char> {
    let named = s.take(name_end(s));
    named.skip(name_start(named))
}

/// `s` ends in a name: its last segment is neither empty nor `.` nor
/// `..`.
pub open spec fn has_name(s: Seq<char>) -> bool {
    last_name(s).len() > 0 && last_name(s) != current_dir() && last_name(s) != parent_dir()
}

/// Where the stem of the name that `s` ends in ends within `s`.
pub open spec fn stem_end(s: Seq<char>) -> int {
    name_start(s.take(name_end(s))) + stem_len(last_name(s))
}

/// The length of the extension of the name that `s` ends in: of what
/// stands behind the last dot of the name, where there is a stem before
/// that dot; 0 where there is no extension.
pub open spec fn extension_len(s: Seq<char>) -> int {
    if has_name(s) && last_dot(last_name(s)) > 0 {
        last_name(s).len() - last_dot(last_name(s)) - 1
    } else {
        0
    }
}

/// The extension that marks a temporary file, written with its dot.
pub open spec fn temp_extension() -> Seq<char> {
    seq!['.', 't', 'm', 'p']
}

/// `s` with the temporary extension set on the name it ends in: the stem
/// of the name, a dot and the extension. A path that ends in no name is
/// left as it is.
pub open spec fn with_temp_extension(s: Seq<char>) -> Seq<char> {
    if has_name(s) {
        s.take(stem_end(s)) + seq!['.'] + temp_extension()
    } else {
        s
    }
}

/// The path of the temporary file beside `s`, made as the standard
/// library's `Path::with_extension` makes it: as many characters as the
/// extension has are cut from the end of `s`, and the temporary extension
/// is set on what is left.
pub open spec fn temp_path(s: Seq<char>) -> Seq<char> {
    with_temp_extension(s.take(s.len() - extension_len(s)))
}

/// Finds the name that the first `n` of `chars` end in: whether there is
/// one, where its stem ends, and how long its extension is.
fn name_parts(chars: &Vec<char>, n: usize) -> (out: (bool, usize, usize))
    requires
        n <= chars.len(),
    ensures
        out.0 == has_name(chars@.take(n as int)),
        out.0 ==> out.1 == stem_end(chars@.take(n as int)),
        out.1 <= n,
        out.2 == extension_len(chars@.take(n as int)),
        out.2 <= n,
{
    let ghost whole = chars@.take(n as int);
    let mut end: usize = n;
    assert(whole.take(n as int) == whole);
    while end > 0 && (chars[end - 1] == '/' || (chars[end - 1] == '.' && end >= 2 && chars[end - 2]
        == '/'))
        invariant
            end <= n <= chars.len(),
            whole == chars@.take(n as int),
            name_end(whole) == name_end(whole.take(end as int)),
        decreases end,
    {
        assert(whole.take(end as int).drop_last() == whole.take(end - 1));
        end -= 1;
    }
    let ghost named = whole.take(end as int);
    let mut start: usize = end;
    assert(named.take(end as int) == named);
    while start > 0 && chars[start - 1] != '/'
        invariant
            start <= end <= n <= chars.len(),
            whole == chars@.take(n as int),
            named == whole.take(end as int),
            name_start(named) == name_start(named.take(start as int)),
        decreases start,
    {
        assert(named.take(start as int).drop_last() == named.take(start - 1));
        start -= 1;
    }
    let ghost name = named.skip(start as int);
    let len: usize = end - start;
    let is_dot: bool = len == 1 && chars[start] == '.';
    let is_dots: bool = len == 2 && chars[start] == '.' && chars[start + 1] == '.';
    proof {
        assert(name == last_name(whole));
        assert(name.len() == len);
        if is_dot {
            assert(name =~= current_dir());
        } else if name == current_dir() {
            assert(name.len() == 1 && name[0] == '.');
        }
        if is_dots {
            assert(name =~= parent_dir());
        } else if name == parent_dir() {
            assert(name.len() == 2 && name[0] == '.' && name[1] == '.');
        }
    }
    if len == 0 || is_dot || is_dots {
        return (false, 0, 0);
    }
    let mut dot: usize = end;
    assert(name.take(len as int) == name);
    while dot > start && chars[dot - 1] != '.'
        invariant
            start <= dot <= end <= n <= chars.len(),
            whole == chars@.take(n as int),
            named == whole.take(end as int),
            name == named.skip(start as int),
            last_dot(name) == last_dot(name.take(dot - start)),
        decreases dot,
    {
        assert(name.take(dot - start).drop_last() == name.take(dot - start - 1));
        assert(name.take(dot - start).last() == chars@[dot - 1]);
        dot -= 1;
    }
    proof {
        if dot > start {
            assert(name.take(dot - start).last() == chars@[dot - 1]);
        }
    }
    if dot <= start + 1 {
        (true, end, 0)
    } else {
        (true, dot - 1, end - dot)
    }
}

/// The path of the temporary file beside `path`.
pub fn temp_path_of(path: &str) -> (out: String)
    ensures
        out@ == temp_path(path@),
{
    let chars = chars_of(path);
    let n: usize = chars.len();
    assert(chars@.take(n as int) == chars@);
    let found = name_parts(&chars, n);
    let kept: usize = n - found.2;
    let left = name_parts(&chars, kept);
    if left.0 {
        let mut out = string_of_range(&chars, 0, left.1);
        push_char(&mut out, '.');
        push_char(&mut out, '.');
        push_char(&mut out, 't');
        push_char(&mut out, 'm');
        push_char(&mut out, 'p');
        assert(chars@.take(kept as int).take(left.1 as int) == chars@.take(left.1 as int));
        assert(out@ =~= chars@.take(left.1 as int) + seq!['.'] + temp_extension());
        out
    } else {
        string_of_range(&chars, 0, kept)
    }
}

fn same_chars(a: &Vec<char>, b: &Vec<char>) -> (same: bool)
    ensures
        same == (a@ == b@),
{
    if a.len() != b.len() {
        return false;
    }
    let mut i: usize = 0;
    while i < a.len()
        invariant
            i <= a.len(),
            a.len() == b.len(),
            forall|j: int| 0 <= j < i ==> a@[j] == b@[j],
        decreases a.len() - i,
    {
        if a[i] != b[i] {
            return false;
        }
        i += 1;
    }
    assert(a@ =~= b@);
    true
}

/// Tells whether `path` starts with `base`, component by component.
pub fn path_starts_with(path: &str, base: &str) -> (starts: bool)
    ensures
        starts == starts_with_components(path@, base@),
{
    let p = components(path);
    let b = components(base);
    if b.len() > p.len() {
        return false;
    }
    let mut i: usize = 0;
    while i < b.len()
        invariant
            i <= b.len() <= p.len(),
            spelled(p@) == path_components(path@),
            spelled(b@) == path_components(base@),
            forall|j: int| 0 <= j < i ==> spelled(p@)[j] == spelled(b@)[j],
        decreases b.len() - i,
    {
        if !same_chars(&p[i], &b[i]) {
            assert(spelled(p@)[i as int] != spelled(b@)[i as int]);
            return false;
        }
        i += 1;
    }
    assert(spelled(b@) =~= spelled(p@).subrange(0, b.len() as int));
    true
}

/// `t` holds no backslash.
pub open spec fn holds_no_backslash(t: Seq<char>) -> bool {
    forall|j: int| 0 <= j < t.len() ==> t[j] != '\\'
}

/// Some piece of `parts` but the last is `..`.
pub open spec fn has_closed_parent(parts: Seq<Seq<char>>) -> bool {
    exists|m: int| 0 <= m < parts.len() - 1 && parts[m] == parent_dir()
}

/// How the segments between slashes and the pieces between separators of
/// either kind go together: a `..` between slashes is a `..` between
/// separators, and the last segment, where it holds no backslash, is the
/// last piece.
pub proof fn lemma_slash_segments_among_pieces(s: Seq<char>)
    ensures
        split_segments(s).len() >= 1,
        split_at_separators(s).len() >= 1,
        holds_no_backslash(split_segments(s).last()) ==> split_at_separators(s).last()
            == split_segments(s).last(),
        has_closed_parent(split_segments(s)) ==> has_closed_parent(split_at_separators(s)),
    decreases s.len(),
{
    if s.len() > 0 {
        let shorter = s.drop_last();
        lemma_slash_segments_among_pieces(shorter);
        let c = s.last();
        let segments = split_segments(shorter);
        let pieces = split_at_separators(shorter);
        let now_segments = split_segments(s);
        let now_pieces = split_at_separators(s);
        if has_closed_parent(segments) {
            let m = choose|m: int| 0 <= m < pieces.len() - 1 && pieces[m] == parent_dir();
            assert(now_pieces[m] == pieces[m]);
        }
        if c == '/' {
            if has_closed_parent(now_segments) {
                let k = choose|k: int|
                    0 <= k < now_segments.len() - 1 && now_segments[k] == parent_dir();
                if k == segments.len() - 1 {
                    assert(segments.last() == parent_dir());
                    assert(holds_no_backslash(parent_dir()));
                    assert(now_pieces[pieces.len() - 1] == pieces.last());
                } else {
                    assert(segments[k] == now_segments[k]);
                    assert(has_closed_parent(segments));
                }
            }
        } else {
            if has_closed_parent(now_segments) {
                let k = choose|k: int|
                    0 <= k < now_segments.len() - 1 && now_segments[k] == parent_dir();
                assert(segments[k] == now_segments[k]);
                assert(has_closed_parent(segments));
            }
            if c == '\\' {
                assert(now_segments.last()[now_segments.last().len() - 1] == '\\');
            } else if holds_no_backslash(now_segments.last()) {
                assert forall|j: int| 0 <= j < segments.last().len() implies segments.last()[j]
                    != '\\' by {
                    assert(now_segments.last()[j] == segments.last()[j]);
                }
            }
        }
    }
}

/// A path with a `..` segment has a banned spelling, whatever it would
/// resolve to, whether the segment stands between slashes or between
/// separators of either kind.
pub proof fn lemma_parent_segment_is_banned(path: Seq<char>)
    requires
        split_segments(path).contains(parent_dir()) || split_at_separators(path).contains(
            parent_dir(),
        ),
    ensures
        has_traversal_syntax(path),
{
    if split_segments(path).contains(parent_dir()) {
        lemma_slash_segments_among_pieces(path);
        let segments = split_segments(path);
        let pieces = split_at_separators(path);
        let k = choose|k: int| 0 <= k < segments.len() && segments[k] == parent_dir();
        if k == segments.len() - 1 {
            assert(holds_no_backslash(parent_dir()));
            assert(pieces[pieces.len() - 1] == parent_dir());
        } else {
            assert(has_closed_parent(segments));
            let m = choose|m: int| 0 <= m < pieces.len() - 1 && pieces[m] == parent_dir();
            assert(pieces[m] == parent_dir());
        }
    }
}

/// What trimming leaves: a prefix that does not end in a slash, with
/// nothing but slashes cut off behind it.
pub proof fn lemma_trimmed(s: Seq<char>)
    ensures
        trimmed(s).is_prefix_of(s),
        trimmed(s).len() > 0 ==> trimmed(s).last() != '/',
        forall|i: int| trimmed(s).len() <= i < s.len() ==> s[i] == '/',
    decreases s.len(),
{
    if s.len() > 0 && s.last() == '/' {
        let shorter = s.drop_last();
        lemma_trimmed(shorter);
        assert forall|i: int| trimmed(s).len() <= i < s.len() implies s[i] == '/' by {
            if i < shorter.len() {
                assert(shorter[i] == s[i]);
            }
        }
    }
}

/// A root admits itself.
pub proof fn lemma_root_admits_itself(root: Seq<char>)
    ensures
        within_root(root, root),
{
}

/// A root admits whatever is written behind it and a slash.
pub proof fn lemma_root_admits_below(root: Seq<char>, rest: Seq<char>)
    ensures
        within_root(root + seq!['/'] + rest, root),
{
    let path = root + seq!['/'] + rest;
    let p = trimmed(path);
    let r = trimmed(root);
    lemma_trimmed(path);
    lemma_trimmed(root);
    assert(root.is_prefix_of(path));
    if r.len() > 0 {
        assert(path[r.len() - 1] == r.last());
    }
    assert(r.len() <= p.len());
    assert(r =~= p.subrange(0, r.len() as int));
    if p.len() > r.len() {
        assert(p[r.len() as int] == path[r.len() as int]);
        if r.len() < root.len() {
            assert(path[r.len() as int] == root[r.len() as int]);
        }
    }
}

/// A root that does not end in a slash does not admit a path that merely
/// goes on with other characters: what follows the root must start with a
/// separator.
pub proof fn lemma_root_rejects_lookalike(root: Seq<char>, extra: Seq<char>)
    requires
        root.len() > 0 ==> root.last() != '/',
        extra.len() > 0,
        !is_separator(extra[0]),
    ensures
        !within_root(root + extra, root),
{
    let path = root + extra;
    lemma_trimmed(path);
    assert(trimmed(root) == root);
    assert(path[root.len() as int] == extra[0]);
    assert(trimmed(path).len() > root.len());
    assert(trimmed(path)[root.len() as int] == extra[0]);
}

} // verus!
