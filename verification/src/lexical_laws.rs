//! What holds of segments and of lexical resolution.

use vstd::prelude::*;
use crate::lexical::{
    current_dir, doubled_at, has_doubled, has_no_dot_segment, is_rooted,
    join_segments, lexical_form, parent_dir, resolve_segments, resolve_step, split_segments,
};

verus! {

/// A segment that names an entry: it is neither empty nor `.` nor `..`,
/// and holds no slash.
pub open spec fn is_plain(segment: Seq<char>) -> bool {
    &&& segment.len() > 0
    &&& segment != current_dir()
    &&& segment != parent_dir()
    &&& forall|j: int| 0 <= j < segment.len() ==> segment[j] != '/'
}

/// Every one of `parts` names an entry.
pub open spec fn all_plain(parts: Seq<Seq<char>>) -> bool {
    forall|k: int| 0 <= k < parts.len() ==> is_plain(#[trigger] parts[k])
}

/// Every string has at least one segment.
pub proof fn lemma_segments_exist(s: Seq<char>)
    ensures
        split_segments(s).len() >= 1,
    decreases s.len(),
{
    if s.len() > 0 {
        lemma_segments_exist(s.drop_last());
    }
}

/// No segment holds a slash.
pub proof fn lemma_segments_hold_no_slash(s: Seq<char>)
    ensures
        forall|k: int, j: int|
            0 <= k < split_segments(s).len() && 0 <= j < split_segments(s)[k].len()
                ==> #[trigger] split_segments(s)[k][j] != '/',
    decreases s.len(),
{
    if s.len() > 0 {
        lemma_segments_hold_no_slash(s.drop_last());
        lemma_segments_exist(s.drop_last());
    }
}

/// Joining one more part puts a slash and the part behind what is joined
/// already.
pub proof fn lemma_join_one_more(parts: Seq<Seq<char>>, part: Seq<char>)
    requires
        parts.len() >= 1,
    ensures
        join_segments(parts.push(part)) == join_segments(parts) + seq!['/'] + part,
{
    let all = parts.push(part);
    assert(all.drop_last() == parts);
    assert(all.last() == part);
}

/// A character behind the last part is a character behind what is joined.
pub proof fn lemma_join_longer_last(parts: Seq<Seq<char>>, c: char)
    requires
        parts.len() >= 1,
    ensures
        join_segments(parts.drop_last().push(parts.last().push(c))) == join_segments(parts).push(
            c,
        ),
{
    let grown = parts.last().push(c);
    let all = parts.drop_last().push(grown);
    if parts.len() == 1 {
        assert(all.len() == 1);
        assert(all[0] == grown);
        assert(parts[0] == parts.last());
    } else {
        lemma_join_one_more(parts.drop_last(), grown);
        lemma_join_one_more(parts.drop_last(), parts.last());
        assert(parts.drop_last().push(parts.last()) == parts);
        assert(join_segments(parts.drop_last()) + seq!['/'] + grown =~= (join_segments(
            parts.drop_last(),
        ) + seq!['/'] + parts.last()).push(c));
    }
}

/// The segments of a string, joined again with slashes, are the string.
pub proof fn lemma_split_then_join(s: Seq<char>)
    ensures
        join_segments(split_segments(s)) == s,
    decreases s.len(),
{
    if s.len() == 0 {
        assert(split_segments(s).len() == 1);
        assert(split_segments(s)[0] =~= s);
    } else {
        let shorter = s.drop_last();
        let before = split_segments(shorter);
        lemma_split_then_join(shorter);
        lemma_segments_exist(shorter);
        if s.last() == '/' {
            lemma_join_one_more(before, Seq::<char>::empty());
            assert(shorter + seq!['/'] + Seq::<char>::empty() =~= s);
        } else {
            lemma_join_longer_last(before, s.last());
            assert(shorter.push(s.last()) =~= s);
        }
    }
}

/// Resolution keeps only segments that name an entry, where the segments
/// it is given hold no slash.
pub proof fn lemma_resolved_segments_are_plain(segments: Seq<Seq<char>>)
    requires
        forall|k: int, j: int|
            0 <= k < segments.len() && 0 <= j < segments[k].len() ==> #[trigger] segments[k][j]
                != '/',
    ensures
        all_plain(resolve_segments(segments)),
    decreases segments.len(),
{
    if segments.len() > 0 {
        let earlier = segments.drop_last();
        assert forall|k: int, j: int|
            0 <= k < earlier.len() && 0 <= j < earlier[k].len() implies #[trigger] earlier[k][j]
            != '/' by {
            assert(earlier[k] == segments[k]);
        }
        lemma_resolved_segments_are_plain(earlier);
        let kept = resolve_segments(earlier);
        let last = segments.last();
        let after = resolve_step(kept, last);
        assert forall|k: int| 0 <= k < after.len() implies is_plain(#[trigger] after[k]) by {
            if k < kept.len() {
                assert(after[k] == kept[k]);
            } else {
                assert(after[k] == last);
                assert forall|j: int| 0 <= j < last.len() implies last[j] != '/' by {
                    assert(segments[segments.len() - 1][j] != '/');
                }
            }
        }
    }
}

/// The lexical resolution of any path is made of segments that name
/// entries: no `.`, no `..` and no empty segment is left in it.
pub proof fn lemma_lexical_form_is_resolved(s: Seq<char>)
    ensures
        all_plain(resolve_segments(split_segments(s))),
{
    lemma_segments_hold_no_slash(s);
    lemma_resolved_segments_are_plain(split_segments(s));
}

/// `t` holds no slash.
pub open spec fn holds_no_slash(t: Seq<char>) -> bool {
    forall|j: int| 0 <= j < t.len() ==> t[j] != '/'
}

/// Text without a slash, written behind a string, lengthens the last
/// segment and changes nothing else.
pub proof fn lemma_split_with_tail(s: Seq<char>, tail: Seq<char>)
    requires
        holds_no_slash(tail),
    ensures
        split_segments(s + tail) == split_segments(s).drop_last().push(
            split_segments(s).last() + tail,
        ),
    decreases tail.len(),
{
    lemma_segments_exist(s);
    let parts = split_segments(s);
    if tail.len() == 0 {
        assert(s + tail =~= s);
        assert(parts.last() + tail =~= parts.last());
        assert(parts.drop_last().push(parts.last()) =~= parts);
    } else {
        let shorter = tail.drop_last();
        assert(holds_no_slash(shorter)) by {
            assert forall|j: int| 0 <= j < shorter.len() implies shorter[j] != '/' by {
                assert(shorter[j] == tail[j]);
            }
        }
        lemma_split_with_tail(s, shorter);
        let whole = s + tail;
        assert(whole.drop_last() =~= s + shorter);
        assert(whole.last() == tail.last());
        let before = split_segments(s + shorter);
        assert(before.last() == parts.last() + shorter);
        assert(before.drop_last() =~= parts.drop_last());
        assert((parts.last() + shorter).push(tail.last()) =~= parts.last() + tail);
    }
}

/// Parts without slashes, joined and split again, are the same parts.
pub proof fn lemma_join_then_split(parts: Seq<Seq<char>>)
    requires
        parts.len() >= 1,
        forall|k: int| 0 <= k < parts.len() ==> holds_no_slash(#[trigger] parts[k]),
    ensures
        split_segments(join_segments(parts)) == parts,
    decreases parts.len(),
{
    let nothing = Seq::<char>::empty();
    if parts.len() == 1 {
        lemma_split_with_tail(nothing, parts[0]);
        assert(nothing + parts[0] =~= parts[0]);
        assert(split_segments(nothing) =~= seq![nothing]);
        assert(split_segments(nothing).drop_last().push(nothing + parts[0]) =~= parts);
    } else {
        let earlier = parts.drop_last();
        assert forall|k: int| 0 <= k < earlier.len() implies holds_no_slash(
            #[trigger] earlier[k],
        ) by {
            assert(earlier[k] == parts[k]);
        }
        lemma_join_then_split(earlier);
        let head = join_segments(earlier) + seq!['/'];
        assert(head.drop_last() =~= join_segments(earlier));
        assert(split_segments(head) == earlier.push(nothing));
        lemma_split_with_tail(head, parts.last());
        assert(earlier.push(nothing).drop_last().push(nothing + parts.last()) =~= parts);
    }
}

/// Behind a leading slash, parts without slashes that are joined and
/// split again are the same parts behind one empty segment.
pub proof fn lemma_rooted_join_then_split(parts: Seq<Seq<char>>)
    requires
        parts.len() >= 1,
        forall|k: int| 0 <= k < parts.len() ==> holds_no_slash(#[trigger] parts[k]),
    ensures
        split_segments(seq!['/'] + join_segments(parts)) == seq![Seq::<char>::empty()] + parts,
    decreases parts.len(),
{
    let nothing = Seq::<char>::empty();
    let slash = seq!['/'];
    assert(slash.drop_last() =~= nothing);
    assert(split_segments(nothing) =~= seq![nothing]);
    assert(split_segments(slash) =~= seq![nothing, nothing]);
    if parts.len() == 1 {
        lemma_split_with_tail(slash, parts[0]);
        assert(seq![nothing, nothing].drop_last().push(nothing + parts[0]) =~= seq![nothing]
            + parts);
    } else {
        let earlier = parts.drop_last();
        assert forall|k: int| 0 <= k < earlier.len() implies holds_no_slash(
            #[trigger] earlier[k],
        ) by {
            assert(earlier[k] == parts[k]);
        }
        lemma_rooted_join_then_split(earlier);
        let head = slash + join_segments(earlier) + slash;
        assert(head.drop_last() =~= slash + join_segments(earlier));
        assert(split_segments(head) == (seq![nothing] + earlier).push(nothing));
        lemma_split_with_tail(head, parts.last());
        assert(head + parts.last() =~= slash + join_segments(parts));
        assert((seq![nothing] + earlier).push(nothing).drop_last().push(nothing + parts.last())
            =~= seq![nothing] + parts);
    }
}

/// Resolution changes nothing where every segment names an entry, with or
/// without an empty segment in front.
pub proof fn lemma_plain_segments_resolve_to_themselves(parts: Seq<Seq<char>>)
    requires
        all_plain(parts),
    ensures
        resolve_segments(parts) == parts,
        resolve_segments(seq![Seq::<char>::empty()] + parts) == parts,
    decreases parts.len(),
{
    let nothing = Seq::<char>::empty();
    let fronted = seq![nothing] + parts;
    if parts.len() == 0 {
        let none = Seq::<Seq<char>>::empty();
        assert(resolve_segments(none) =~= none);
        assert(fronted.drop_last() =~= none);
        assert(fronted.last() == nothing);
        assert(resolve_segments(fronted) == resolve_step(resolve_segments(none), nothing));
        assert(parts =~= none);
    } else {
        let earlier = parts.drop_last();
        assert(all_plain(earlier)) by {
            assert forall|k: int| 0 <= k < earlier.len() implies is_plain(#[trigger] earlier[k]) by {
                assert(earlier[k] == parts[k]);
            }
        }
        lemma_plain_segments_resolve_to_themselves(earlier);
        assert(is_plain(parts[parts.len() - 1]));
        assert(fronted.drop_last() =~= seq![nothing] + earlier);
        assert(fronted.last() == parts.last());
        assert(earlier.push(parts.last()) =~= parts);
    }
}

/// What is joined starts with its first part.
pub proof fn lemma_join_starts_with_first(parts: Seq<Seq<char>>)
    requires
        parts.len() >= 1,
    ensures
        parts[0].is_prefix_of(join_segments(parts)),
    decreases parts.len(),
{
    if parts.len() > 1 {
        lemma_join_starts_with_first(parts.drop_last());
        assert(parts.drop_last()[0] == parts[0]);
    }
}

/// Lexical resolution is idempotent: a resolved path resolves to itself.
pub proof fn lemma_lexical_form_is_idempotent(s: Seq<char>)
    ensures
        lexical_form(lexical_form(s)) == lexical_form(s),
{
    let nothing = Seq::<char>::empty();
    let kept = resolve_segments(split_segments(s));
    let body = join_segments(kept);
    let once = lexical_form(s);
    lemma_lexical_form_is_resolved(s);
    lemma_plain_segments_resolve_to_themselves(kept);
    assert forall|k: int| 0 <= k < kept.len() implies holds_no_slash(#[trigger] kept[k]) by {
        assert(is_plain(kept[k]));
    }
    if is_rooted(s) {
        assert(once == seq!['/'] + body);
        assert(is_rooted(once));
        if kept.len() == 0 {
            assert(once =~= seq!['/']);
            assert(once.drop_last() =~= nothing);
            assert(split_segments(nothing) =~= seq![nothing]);
            assert(split_segments(once) =~= seq![nothing] + seq![nothing]);
            assert(all_plain(Seq::<Seq<char>>::empty()));
            lemma_plain_segments_resolve_to_themselves(Seq::<Seq<char>>::empty());
            assert(seq![nothing] + Seq::<Seq<char>>::empty() =~= seq![nothing]);
            assert((seq![nothing] + seq![nothing]).drop_last() =~= seq![nothing]);
            assert(resolve_segments(split_segments(once)) =~= kept);
        } else {
            lemma_rooted_join_then_split(kept);
        }
    } else {
        assert(once == body);
        if kept.len() == 0 {
            assert(once =~= nothing);
            assert(split_segments(once) =~= seq![nothing]);
            assert(seq![nothing].drop_last() =~= Seq::<Seq<char>>::empty());
            assert(resolve_segments(split_segments(once)) =~= kept);
        } else {
            lemma_join_then_split(kept);
            lemma_join_starts_with_first(kept);
            assert(is_plain(kept[0]));
            assert(body[0] == kept[0][0]);
        }
    }
}

/// Two slashes in a row leave an empty segment between them, which is
/// neither the first segment nor the last.
pub proof fn lemma_doubled_slash_is_an_empty_segment(s: Seq<char>)
    requires
        has_doubled(s, '/'),
    ensures
        exists|k: int|
            1 <= k < split_segments(s).len() - 1 && (#[trigger] split_segments(s)[k]).len() == 0,
    decreases s.len(),
{
    let at = choose|at: int| doubled_at(s, '/', at);
    let shorter = s.drop_last();
    let before = split_segments(shorter);
    let parts = split_segments(s);
    lemma_segments_exist(shorter);
    if at + 1 < shorter.len() {
        assert(doubled_at(shorter, '/', at));
        lemma_doubled_slash_is_an_empty_segment(shorter);
        let k = choose|k: int| 1 <= k < before.len() - 1 && (#[trigger] before[k]).len() == 0;
        assert(parts[k] == before[k]);
    } else {
        assert(shorter.last() == '/');
        lemma_segments_exist(shorter.drop_last());
        let k = before.len() - 1;
        assert(before[k].len() == 0);
        assert(parts[k] == before[k]);
    }
}

/// The lexical resolution of any path is normalized: none of its
/// segments is `.` or `..`, and it holds no two slashes in a row.
pub proof fn lemma_lexical_form_is_normalized(s: Seq<char>)
    ensures
        has_no_dot_segment(lexical_form(s)),
        !has_doubled(lexical_form(s), '/'),
{
    let nothing = Seq::<char>::empty();
    let kept = resolve_segments(split_segments(s));
    let once = lexical_form(s);
    let parts = split_segments(once);
    lemma_lexical_form_is_resolved(s);
    assert forall|k: int| 0 <= k < kept.len() implies holds_no_slash(#[trigger] kept[k]) by {
        assert(is_plain(kept[k]));
    }
    assert(nothing != current_dir() && nothing != parent_dir()) by {
        assert(current_dir().len() == 1 && parent_dir().len() == 2);
    }
    if kept.len() == 0 {
        assert(join_segments(kept) =~= nothing);
        assert(split_segments(nothing) =~= seq![nothing]);
        if is_rooted(s) {
            assert(once =~= seq!['/']);
            assert(once.drop_last() =~= nothing);
            assert(parts =~= seq![nothing, nothing]);
        } else {
            assert(once =~= nothing);
        }
        assert forall|k: int| 0 <= k < parts.len() implies parts[k] == nothing by {}
        assert forall|at: int| !doubled_at(once, '/', at) by {}
    } else {
        let shift: int = if is_rooted(s) {
            1
        } else {
            0
        };
        if is_rooted(s) {
            lemma_rooted_join_then_split(kept);
            assert(parts == seq![nothing] + kept);
        } else {
            lemma_join_then_split(kept);
        }
        assert forall|k: int| 0 <= k < parts.len() implies parts[k] != current_dir() && parts[k]
            != parent_dir() by {
            if k >= shift {
                assert(parts[k] == kept[k - shift]);
                assert(is_plain(kept[k - shift]));
            }
        }
        if has_doubled(once, '/') {
            lemma_doubled_slash_is_an_empty_segment(once);
            let k = choose|k: int| 1 <= k < parts.len() - 1 && (#[trigger] parts[k]).len() == 0;
            assert(parts[k] == kept[k - shift]);
            assert(is_plain(kept[k - shift]));
        }
    }
}

} // verus!
