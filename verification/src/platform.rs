//! The form in which paths are compared, which depends on the platform:
//! where case matters, a path is compared as it is spelled, without the
//! slashes at its end; where it does not, separators are unified, the
//! text is lower-cased and an extended-length prefix is dropped first.

use vstd::prelude::*;
use crate::lexical::{is_separator, trimmed, trimmed_len, within_root};
use crate::text::{chars_of, lowercase, lowercased, push_char};

verus! {

/// The conventions of the platform on which paths are compared.
#[derive(Debug, Clone, Copy, PartialEq, Eq, Structural)]
pub enum Platform {
    /// `/` separates and case matters.
    Posix,
    /// `\` and `/` both separate, case does not matter, and a path may
    /// carry an extended-length prefix.
    Windows,
}

/// `s` with every `/` written as `\`.
pub open spec fn backslashed(s: Seq<char>) -> Seq<char> {
    Seq::new(
        s.len(),
        |i: int|
            if s[i] == '/' {
                '\\'
            } else {
                s[i]
            },
    )
}

/// The extended-length prefix `\\?\`.
pub open spec fn extended_prefix() -> Seq<char> {
    seq!['\\', '\\', '?', '\\']
}

/// The extended-length prefix of a network path, `\\?\unc\`.
pub open spec fn extended_unc_prefix() -> Seq<char> {
    seq!['\\', '\\', '?', '\\', 'u', 'n', 'c', '\\']
}

/// `s` without the extended-length prefix in front of it, if it has one:
/// that of a network path is shortened to the two backslashes of a plain
/// network path, and the plain one is dropped.
pub open spec fn without_extended_prefix(s: Seq<char>) -> Seq<char> {
    if extended_unc_prefix().is_prefix_of(s) {
        seq!['\\', '\\'] + s.skip(8)
    } else if extended_prefix().is_prefix_of(s) {
        s.skip(4)
    } else {
        s
    }
}

/// `s` without the backslashes at its end.
pub open spec fn without_trailing_backslashes(s: Seq<char>) -> Seq<char>
    decreases s.len(),
{
    if s.len() > 0 && s.last() == '\\' {
        without_trailing_backslashes(s.drop_last())
    } else {
        s
    }
}

/// The form in which `s` is compared where case does not matter:
/// separators unified, lower-cased, extended-length prefixes dropped, and
/// no separator at the end.
pub open spec fn folded_form(s: Seq<char>) -> Seq<char> {
    without_trailing_backslashes(without_extended_prefix(lowercase(backslashed(s))))
}

/// The form in which `s` is compared on `platform`.
pub open spec fn comparison_form(platform: Platform, s: Seq<char>) -> Seq<char> {
    match platform {
        Platform::Posix => trimmed(s),
        Platform::Windows => folded_form(s),
    }
}

/// On `platform`, `path` is `root` itself or lies below it: the
/// comparison form of `root` is a prefix of that of `path`, and what
/// follows it is nothing or starts with a separator.
pub open spec fn within_root_on(platform: Platform, path: Seq<char>, root: Seq<char>) -> bool {
    let p = comparison_form(platform, path);
    let r = comparison_form(platform, root);
    r.is_prefix_of(p) && (p.len() == r.len() || is_separator(p[r.len() as int]))
}

/// Where case matters, the comparison is the one on spellings.
pub proof fn lemma_posix_compares_spellings(path: Seq<char>, root: Seq<char>)
    ensures
        within_root_on(Platform::Posix, path, root) == within_root(path, root),
{
}

/// On every platform a root holds itself.
pub proof fn lemma_root_holds_itself_on(platform: Platform, root: Seq<char>)
    ensures
        within_root_on(platform, root, root),
{
}

fn starts_with_chars(chars: &Vec<char>, prefix: &Vec<char>) -> (starts: bool)
    ensures
        starts == prefix@.is_prefix_of(chars@),
{
    if prefix.len() > chars.len() {
        return false;
    }
    let mut i: usize = 0;
    while i < prefix.len()
        invariant
            i <= prefix.len() <= chars.len(),
            forall|j: int| 0 <= j < i ==> chars@[j] == prefix@[j],
        decreases prefix.len() - i,
    {
        if chars[i] != prefix[i] {
            return false;
        }
        i += 1;
    }
    assert(prefix@ =~= chars@.subrange(0, prefix.len() as int));
    true
}

fn skip_chars(chars: &Vec<char>, from: usize) -> (out: Vec<char>)
    requires
        from <= chars.len(),
    ensures
        out@ == chars@.skip(from as int),
{
    let mut out: Vec<char> = Vec::new();
    let mut i: usize = from;
    while i < chars.len()
        invariant
            from <= i <= chars.len(),
            out@ == chars@.subrange(from as int, i as int),
        decreases chars.len() - i,
    {
        out.push(chars[i]);
        i += 1;
    }
    out
}

fn folded_chars(path: &str) -> (out: Vec<char>)
    ensures
        out@ == folded_form(path@),
{
    let chars = chars_of(path);
    let mut unified = String::new();
    let mut i: usize = 0;
    while i < chars.len()
        invariant
            i <= chars.len(),
            chars@ == path@,
            unified@ == backslashed(path@).take(i as int),
        decreases chars.len() - i,
    {
        let c: char = if chars[i] == '/' {
            '\\'
        } else {
            chars[i]
        };
        push_char(&mut unified, c);
        assert(backslashed(path@).take(i + 1) =~= backslashed(path@).take(i as int).push(c));
        i += 1;
    }
    assert(backslashed(path@).take(chars.len() as int) =~= backslashed(path@));
    let lowered = chars_of(lowercased(unified.as_str()).as_str());
    let mut prefix: Vec<char> = Vec::new();
    prefix.push('\\');
    prefix.push('\\');
    prefix.push('?');
    prefix.push('\\');
    assert(prefix@ =~= extended_prefix());
    let mut network_prefix: Vec<char> = Vec::new();
    network_prefix.push('\\');
    network_prefix.push('\\');
    network_prefix.push('?');
    network_prefix.push('\\');
    network_prefix.push('u');
    network_prefix.push('n');
    network_prefix.push('c');
    network_prefix.push('\\');
    assert(network_prefix@ =~= extended_unc_prefix());
    let plain = if starts_with_chars(&lowered, &network_prefix) {
        let rest = skip_chars(&lowered, 8);
        let mut network: Vec<char> = Vec::new();
        network.push('\\');
        network.push('\\');
        let mut k: usize = 0;
        while k < rest.len()
            invariant
                k <= rest.len(),
                network@ == seq!['\\', '\\'] + rest@.take(k as int),
            decreases rest.len() - k,
        {
            network.push(rest[k]);
            assert(rest@.take(k + 1) =~= rest@.take(k as int).push(rest@[k as int]));
            k += 1;
        }
        assert(rest@.take(rest.len() as int) =~= rest@);
        network
    } else if starts_with_chars(&lowered, &prefix) {
        skip_chars(&lowered, 4)
    } else {
        lowered
    };
    let mut end: usize = plain.len();
    assert(plain@.take(end as int) =~= plain@);
    while end > 0 && plain[end - 1] == '\\'
        invariant
            end <= plain.len(),
            without_trailing_backslashes(plain@) == without_trailing_backslashes(
                plain@.take(end as int),
            ),
        decreases end,
    {
        assert(plain@.take(end as int).drop_last() =~= plain@.take(end - 1));
        end -= 1;
    }
    let mut out = plain;
    out.truncate(end);
    assert(out@ =~= plain@.take(end as int));
    out
}

/// The form in which `path` is compared on `platform`.
pub fn comparison_chars(platform: Platform, path: &str) -> (out: Vec<char>)
    ensures
        out@ == comparison_form(platform, path@),
{
    match platform {
        Platform::Posix => {
            let mut chars = chars_of(path);
            let end: usize = trimmed_len(&chars);
            chars.truncate(end);
            chars
        },
        Platform::Windows => folded_chars(path),
    }
}

/// Tells whether the comparison form `root` is a prefix of the comparison
/// form `path` that ends where `path` ends or before a separator.
pub fn form_within(path: &Vec<char>, root: &Vec<char>) -> (inside: bool)
    ensures
        inside == (root@.is_prefix_of(path@) && (path@.len() == root@.len() || is_separator(
            path@[root@.len() as int],
        ))),
{
    if !starts_with_chars(path, root) {
        return false;
    }
    if path.len() == root.len() {
        true
    } else {
        let next: char = path[root.len()];
        next == '/' || next == '\\'
    }
}

/// Tells whether, on `platform`, `path` is `root` or lies below it.
pub fn is_within_root_on(platform: Platform, path: &str, root: &str) -> (inside: bool)
    ensures
        inside == within_root_on(platform, path@, root@),
{
    let p = comparison_chars(platform, path);
    let r = comparison_chars(platform, root);
    form_within(&p, &r)
}

} // verus!
