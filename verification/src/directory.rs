//! Directory listings: what an entry holds and the order in which entries
//! are listed.

use vstd::prelude::*;
use vstd::utf8::encode_utf8;

verus! {

/// One entry of a directory. The time is in seconds since the Unix epoch.
#[derive(Debug, PartialEq, Eq)]
pub struct DirectoryEntry {
    pub name: String,
    pub path: String,
    pub is_file: bool,
    pub is_directory: bool,
    pub size: Option<u64>,
    pub modified: i64,
}

/// The size that is listed for an entry of `len` bytes: files have one,
/// other entries have none.
pub open spec fn listed_size(is_file: bool, len: u64) -> Option<u64> {
    if is_file {
        Some(len)
    } else {
        None
    }
}

impl DirectoryEntry {
    /// The entry for what was found in a directory.
    pub fn new(
        name: String,
        path: String,
        is_file: bool,
        is_directory: bool,
        len: u64,
        modified: i64,
    ) -> (out: DirectoryEntry)
        ensures
            out.name == name,
            out.path == path,
            out.is_file == is_file,
            out.is_directory == is_directory,
            out.size == listed_size(is_file, len),
            out.modified == modified,
    {
        let size = if is_file {
            Some(len)
        } else {
            None
        };
        DirectoryEntry { name, path, is_file, is_directory, size, modified }
    }
}

/// From position `i` on, `a` does not come after `b` in dictionary order:
/// at the first position where the two differ `a` has the smaller byte,
/// or `a` ends first.
pub open spec fn bytes_le_from(a: Seq<u8>, b: Seq<u8>, i: int) -> bool
    decreases a.len() - i,
{
    if i >= a.len() {
        true
    } else if i >= b.len() {
        false
    } else if a[i] != b[i] {
        a[i] < b[i]
    } else {
        bytes_le_from(a, b, i + 1)
    }
}

/// The name `a` does not come after the name `b`: names are ordered as
/// their UTF-8 bytes are, in dictionary order.
pub open spec fn name_le(a: Seq<char>, b: Seq<char>) -> bool {
    bytes_le_from(encode_utf8(a), encode_utf8(b), 0)
}

/// The entry `a` does not come after the entry `b`: directories stand
/// before everything else, and within each group the names decide.
pub open spec fn entry_le(a: DirectoryEntry, b: DirectoryEntry) -> bool {
    if a.is_directory != b.is_directory {
        a.is_directory
    } else {
        name_le(a.name@, b.name@)
    }
}

/// `out` lists `input` in order, and `source` tells for each place of
/// `out` which place of `input` it was taken from: every place of `input`
/// is taken once, no entry stands before one that comes before it, and
/// entries that the order does not tell apart stand as they stood in
/// `input`.
pub open spec fn stably_listed(
    input: Seq<DirectoryEntry>,
    out: Seq<DirectoryEntry>,
    source: Seq<int>,
) -> bool {
    &&& out.len() == input.len()
    &&& source.len() == input.len()
    &&& source.no_duplicates()
    &&& forall|k: int|
        0 <= k < out.len() ==> 0 <= #[trigger] source[k] < input.len() && out[k] == input[source[k]]
    &&& forall|k: int, l: int|
        0 <= k < l < out.len() ==> entry_le(#[trigger] out[k], #[trigger] out[l]) && (entry_le(
            out[l],
            out[k],
        ) ==> source[k] < source[l])
}

proof fn lemma_bytes_le_total(a: Seq<u8>, b: Seq<u8>, i: int)
    requires
        0 <= i,
    ensures
        bytes_le_from(a, b, i) || bytes_le_from(b, a, i),
    decreases a.len() - i,
{
    if i < a.len() && i < b.len() && a[i] == b[i] {
        lemma_bytes_le_total(a, b, i + 1);
    }
}

proof fn lemma_bytes_le_transitive(a: Seq<u8>, b: Seq<u8>, c: Seq<u8>, i: int)
    requires
        0 <= i,
        bytes_le_from(a, b, i),
        bytes_le_from(b, c, i),
    ensures
        bytes_le_from(a, c, i),
    decreases a.len() - i,
{
    if i < a.len() && i < b.len() && i < c.len() && a[i] == b[i] && b[i] == c[i] {
        lemma_bytes_le_transitive(a, b, c, i + 1);
    }
}

/// Of two entries, one does not come after the other.
pub proof fn lemma_entry_le_total(a: DirectoryEntry, b: DirectoryEntry)
    ensures
        entry_le(a, b) || entry_le(b, a),
{
    lemma_bytes_le_total(encode_utf8(a.name@), encode_utf8(b.name@), 0);
}

/// The order of entries is transitive.
pub proof fn lemma_entry_le_transitive(a: DirectoryEntry, b: DirectoryEntry, c: DirectoryEntry)
    requires
        entry_le(a, b),
        entry_le(b, c),
    ensures
        entry_le(a, c),
{
    if a.is_directory == b.is_directory && b.is_directory == c.is_directory {
        lemma_bytes_le_transitive(
            encode_utf8(a.name@),
            encode_utf8(b.name@),
            encode_utf8(c.name@),
            0,
        );
    }
}

/// Tells whether the name `a` does not come after the name `b`.
pub fn name_not_after(a: &str, b: &str) -> (le: bool)
    ensures
        le == name_le(a@, b@),
{
    let x = a.as_bytes();
    let y = b.as_bytes();
    let mut i: usize = 0;
    while i < x.len() && i < y.len()
        invariant
            i <= x.len(),
            i <= y.len(),
            x@ == encode_utf8(a@),
            y@ == encode_utf8(b@),
            name_le(a@, b@) == bytes_le_from(x@, y@, i as int),
        decreases x.len() - i,
    {
        if x[i] != y[i] {
            return x[i] < y[i];
        }
        i += 1;
    }
    i >= x.len()
}

/// Tells whether the entry `a` does not come after the entry `b`.
pub fn entry_not_after(a: &DirectoryEntry, b: &DirectoryEntry) -> (le: bool)
    ensures
        le == entry_le(*a, *b),
{
    if a.is_directory != b.is_directory {
        a.is_directory
    } else {
        name_not_after(a.name.as_str(), b.name.as_str())
    }
}

/// Lists `entries` in order: directories first, then by name; entries
/// that the order does not tell apart keep their places relative to each
/// other.
pub fn sort_entries(entries: Vec<DirectoryEntry>) -> (out: Vec<DirectoryEntry>)
    ensures
        out@.to_multiset() == entries@.to_multiset(),
        exists|source: Seq<int>| stably_listed(entries@, out@, source),
{
    let mut out: Vec<DirectoryEntry> = Vec::new();
    let ghost mut source: Seq<int> = Seq::empty();
    let ghost input = entries@;
    assert(out@ =~= input.take(0));
    for entry in it: entries
        invariant
            it.seq() == input,
            out@.to_multiset() == input.take(it.index()).to_multiset(),
            stably_listed(input.take(it.index()), out@, source),
    {
        let ghost n = it.index();
        let mut at: usize = out.len();
        while at > 0 && !entry_not_after(&out[at - 1], &entry)
            invariant
                at <= out.len(),
                forall|k: int| at <= k < out.len() ==> !entry_le(#[trigger] out@[k], entry),
            decreases at,
        {
            at -= 1;
        }
        let ghost before = out@;
        let ghost before_source = source;
        out.insert(at, entry);
        proof {
            source = before_source.insert(at as int, n);
            let now = input.take(n + 1);
            assert(now[n] == entry);
            assert(now =~= input.take(n).push(entry));
            vstd::seq_lib::to_multiset_build(input.take(n), entry);
            vstd::seq_lib::to_multiset_insert(before, at as int, entry);
            assert forall|k: int| 0 <= k < out@.len() implies 0 <= #[trigger] source[k] < now.len()
                && out@[k] == now[source[k]] by {
                if k < at {
                    assert(source[k] == before_source[k]);
                } else if k > at {
                    assert(source[k] == before_source[k - 1]);
                }
            }
            assert(source.no_duplicates()) by {
                assert forall|k: int, l: int|
                    0 <= k < source.len() && 0 <= l < source.len() && k != l implies source[k]
                    != source[l] by {
                    let kk = if k < at {
                        k
                    } else {
                        k - 1
                    };
                    let ll = if l < at {
                        l
                    } else {
                        l - 1
                    };
                    if k != at && l != at {
                        assert(before_source[kk] != before_source[ll]);
                    } else if k == at {
                        assert(source[l] == before_source[ll]);
                    } else {
                        assert(source[k] == before_source[kk]);
                    }
                }
            }
            assert forall|k: int, l: int| 0 <= k < l < out@.len() implies entry_le(
                #[trigger] out@[k],
                #[trigger] out@[l],
            ) && (entry_le(out@[l], out@[k]) ==> source[k] < source[l]) by {
                if l < at {
                    assert(out@[k] == before[k] && out@[l] == before[l]);
                } else if k > at {
                    assert(out@[k] == before[k - 1] && out@[l] == before[l - 1]);
                } else if k < at && l > at {
                    assert(out@[k] == before[k] && out@[l] == before[l - 1]);
                } else if l == at {
                    assert(out@[k] == before[k]);
                    assert(source[k] == before_source[k]);
                    if k < at - 1 {
                        assert(entry_le(before[k], before[at - 1]));
                        lemma_entry_le_transitive(before[k], before[at - 1], entry);
                    }
                } else {
                    assert(k == at);
                    assert(out@[l] == before[l - 1]);
                    lemma_entry_le_total(before[l - 1], entry);
                }
            }
        }
    }
    assert(input.take(input.len() as int) == input);
    out
}

} // verus!
