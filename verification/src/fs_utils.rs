//! The pure core of the object store and of the tree builder: locating a
//! stored object by an abbreviated hash among a shard directory's file
//! names, splitting a hash into shard and file name, framing-and-hashing an
//! object for a write, keeping directory entries in traversal order, and
//! accumulating tree payload bytes. The filesystem reads and writes around
//! these live with the caller; every decision they rest on is here.

use crate::compressor::{zlib_of, Compressor};
use crate::errors::ObjectError;
use crate::git_object::tree_line::{tree_line_bytes, TreeLineModel};
use crate::git_object::{encode_frame, frame_bytes};
use crate::hasher::{create_hash, sha1_of};
use crate::text::{str_le, str_starts_with};
use vstd::prelude::*;
use vstd::multiset::Multiset;
use vstd::seq_lib::lemma_multiset_commutative;
use vstd::string::StrSliceExecFns;
use vstd::utf8::encode_utf8;

verus! {

broadcast use {vstd::multiset::group_multiset_axioms, vstd::seq_lib::group_to_multiset_ensures};

/// Whether `name` begins with the prefix `pre`, character-wise.
pub open spec fn starts_with_chars(name: Seq<char>, pre: Seq<char>) -> bool {
    pre.len() <= name.len() && name.take(pre.len() as int) == pre
}

/// How many of `names` begin with `pre`.
pub open spec fn count_matches(names: Seq<String>, pre: Seq<char>) -> nat
    decreases names.len(),
{
    if names.len() == 0 {
        0
    } else {
        (if starts_with_chars(names[0]@, pre) {
            1nat
        } else {
            0nat
        }) + count_matches(names.drop_first(), pre)
    }
}

/// Counting over a suffix peels one name at a time.
proof fn lemma_count_matches_skip(names: Seq<String>, pre: Seq<char>, i: int)
    requires
        0 <= i < names.len(),
    ensures
        count_matches(names.skip(i), pre) == (if starts_with_chars(names[i]@, pre) {
            1nat
        } else {
            0nat
        }) + count_matches(names.skip(i + 1), pre),
{
    let s = names.skip(i);
    assert(s[0] == names[i]);
    assert(s.drop_first() =~= names.skip(i + 1));
}

pub struct FsUtils {}

impl FsUtils {
    /// The heart of the prefix lookup: given an abbreviated hash and the
    /// file names of its shard directory, picks the index of the unique
    /// name that begins with the hash's remainder (its characters past the
    /// two that name the shard). A prefix shorter than six characters, or
    /// one that matches no name, is an invalid hash; one that matches more
    /// than one name is ambiguous.
    pub fn find_name_for_hash(hash: &str, names: &Vec<String>) -> (r: Result<usize, ObjectError>)
        ensures
            hash@.len() < 6 ==> r == Err::<usize, ObjectError>(ObjectError::InvalidHash),
            hash@.len() >= 6 ==> match r {
                Ok(i) => count_matches(names@, hash@.skip(2)) == 1 && i < names@.len()
                    && starts_with_chars(names@[i as int]@, hash@.skip(2)) && (forall|j: int|
                    0 <= j < names@.len() && j != i ==> !starts_with_chars(
                        names@[j]@,
                        hash@.skip(2),
                    )),
                Err(e) => (e == ObjectError::InvalidHash && count_matches(names@, hash@.skip(2))
                    == 0) || (e == ObjectError::AmbiguousHash && count_matches(
                    names@,
                    hash@.skip(2),
                ) > 1),
            },
    {
        let hash_len = hash.unicode_len();
        if hash_len < 6 {
            return Err(ObjectError::InvalidHash);
        }
        let rest = hash.substring_char(2, hash_len);
        let ghost pre = hash@.skip(2);
        let mut found: Option<usize> = None;
        let mut i: usize = 0;
        proof {
            assert(names@.skip(0) =~= names@);
        }
        while i < names.len()
            invariant
                hash@.len() >= 6,
                i <= names@.len(),
                pre == hash@.skip(2),
                rest@ == pre,
                count_matches(names@, pre) == (match found {
                    Some(_) => 1nat,
                    None => 0nat,
                }) + count_matches(names@.skip(i as int), pre),
                match found {
                    Some(f) => f < i && starts_with_chars(names@[f as int]@, pre) && (forall|
                        j: int,
                    |
                        0 <= j < i && j != f ==> !starts_with_chars(names@[j]@, pre)),
                    None => forall|j: int| 0 <= j < i ==> !starts_with_chars(names@[j]@, pre),
                },
            decreases names@.len() - i,
        {
            proof {
                lemma_count_matches_skip(names@, pre, i as int);
            }
            if str_starts_with(names[i].as_str(), rest) {
                if found.is_some() {
                    proof {
                        assert(starts_with_chars(names@[i as int]@, pre));
                        assert(count_matches(names@.skip(i as int), pre) >= 1);
                        assert(count_matches(names@, pre) >= 2);
                    }
                    return Err(ObjectError::AmbiguousHash);
                }
                found = Some(i);
            }
            i = i + 1;
        }
        proof {
            assert(names@.skip(names@.len() as int) =~= Seq::<String>::empty());
        }
        match found {
            Some(f) => Ok(f),
            None => Err(ObjectError::InvalidHash),
        }
    }

    /// Splits a hash into the two characters that name its shard directory
    /// and the remainder that names the file inside it.
    pub fn split_hash_prefix(hash: &str) -> (r: (String, String))
        requires
            hash@.len() >= 2,
        ensures
            r.0@ == hash@.take(2),
            r.1@ == hash@.skip(2),
    {
        let len = hash.unicode_len();
        let shard = hash.substring_char(0, 2).to_owned();
        let rest = hash.substring_char(2, len).to_owned();
        (shard, rest)
    }

    /// The pure half of an object write: frames the payload under its type
    /// tag, hashes the frame, and compresses it. The caller stores the
    /// compressed bytes under the hash; both are functions of the input
    /// alone, which is what makes writes idempotent.
    pub fn encode_object(object_type: &str, content_bytes: &[u8]) -> (r: (Vec<u8>, Vec<u8>))
        ensures
            r.0@ == sha1_of(frame_bytes(encode_utf8(object_type@), content_bytes@)),
            r.0@.len() == 20,
            r.1@ == zlib_of(frame_bytes(encode_utf8(object_type@), content_bytes@)),
    {
        let frame = encode_frame(object_type, content_bytes);
        let hash = create_hash(frame.as_slice());
        let compressed = Compressor::compress(frame.as_slice());
        (hash, compressed)
    }

    /// Appends one tree entry to an accumulating tree payload: the mode, a
    /// space, the name, a NUL, then the raw hash bytes.
    pub fn push_tree_entry(tree_bytes: &mut Vec<u8>, mode: &str, name: &str, hash: &[u8])
        ensures
            final(tree_bytes)@ == old(tree_bytes)@ + tree_line_bytes(
                TreeLineModel {
                    mode: encode_utf8(mode@),
                    name: encode_utf8(name@),
                    hash: hash@,
                },
            ),
    {
        tree_bytes.extend_from_slice(mode.as_bytes());
        tree_bytes.push(32);
        tree_bytes.extend_from_slice(name.as_bytes());
        tree_bytes.push(0);
        tree_bytes.extend_from_slice(hash);
        proof {
            assert(tree_bytes@ =~= old(tree_bytes)@ + tree_line_bytes(
                TreeLineModel {
                    mode: encode_utf8(mode@),
                    name: encode_utf8(name@),
                    hash: hash@,
                },
            ));
        }
    }
}

/// One directory entry as the tree builder sees it: its name and whether it
/// is a subdirectory.
#[derive(Debug)]
pub struct WalkEntry {
    pub name: String,
    pub is_dir: bool,
}

/// Whether entries are in ascending name order, codepoint-wise — the
/// traversal order the tree builder fixes before encoding.
pub open spec fn sorted_by_name(entries: Seq<WalkEntry>) -> bool {
    forall|i: int, j: int|
        0 <= i < j < entries.len() ==> crate::text::lex_le(entries[i].name@, entries[j].name@)
}

/// Inserting an element anywhere adds exactly it to the multiset.
proof fn lemma_insert_to_multiset(s: Seq<WalkEntry>, p: int, e: WalkEntry)
    requires
        0 <= p <= s.len(),
    ensures
        s.insert(p, e).to_multiset() == s.to_multiset().insert(e),
{
    broadcast use vstd::seq_lib::group_to_multiset_ensures;

    assert(s.insert(p, e) =~= s.take(p) + (seq![e] + s.skip(p)));
    assert(s =~= s.take(p) + s.skip(p));
    lemma_multiset_commutative(s.take(p), seq![e] + s.skip(p));
    lemma_multiset_commutative(seq![e], s.skip(p));
    lemma_multiset_commutative(s.take(p), s.skip(p));
    assert(seq![e] =~= Seq::<WalkEntry>::empty().push(e));
    assert(Seq::<WalkEntry>::empty().push(e).to_multiset() =~= Seq::<
        WalkEntry,
    >::empty().to_multiset().insert(e));
    assert(Seq::<WalkEntry>::empty().to_multiset() =~= Multiset::<WalkEntry>::empty());
    assert(s.insert(p, e).to_multiset() =~= s.to_multiset().insert(e));
}

/// The position a new entry belongs at in a name-sorted list: past every
/// entry that comes no later than it.
fn find_insert_pos(entries: &Vec<WalkEntry>, e: &WalkEntry) -> (p: usize)
    ensures
        p <= entries@.len(),
        forall|k: int| 0 <= k < p ==> crate::text::lex_le(#[trigger] entries@[k].name@, e.name@),
        p < entries@.len() ==> !crate::text::lex_le(entries@[p as int].name@, e.name@),
{
    let mut j: usize = 0;
    while j < entries.len()
        invariant
            j <= entries@.len(),
            forall|k: int|
                0 <= k < j ==> crate::text::lex_le(#[trigger] entries@[k].name@, e.name@),
        decreases entries@.len() - j,
    {
        if !str_le(entries[j].name.as_str(), e.name.as_str()) {
            return j;
        }
        j = j + 1;
    }
    j
}

impl FsUtils {
    /// Inserts one entry into a name-sorted entry list, keeping it sorted;
    /// the result is the old list with exactly that entry added.
    pub fn insert_sorted(entries: &mut Vec<WalkEntry>, e: WalkEntry)
        requires
            sorted_by_name(old(entries)@),
        ensures
            sorted_by_name(final(entries)@),
            exists|p: int|
                0 <= p <= old(entries)@.len() && final(entries)@ == old(entries)@.insert(p, e),
    {
        let j = find_insert_pos(entries, &e);
        proof {
            if j < entries@.len() {
                crate::text::lemma_lex_le_total(entries@[j as int].name@, e.name@);
            }
        }
        let ghost pos = j as int;
        let ghost oldseq = entries@;
        entries.insert(j, e);
        proof {
            let newseq = entries@;
            assert(newseq =~= oldseq.take(pos) + seq![e] + oldseq.skip(pos));
            assert(forall|a: int| 0 <= a < pos ==> newseq[a] == oldseq[a]);
            assert(newseq[pos] == e);
            assert(forall|b: int| pos < b < newseq.len() ==> newseq[b] == oldseq[b - 1]);
            assert forall|a: int, b: int|
                0 <= a < b < newseq.len() implies crate::text::lex_le(
                newseq[a].name@,
                newseq[b].name@,
            ) by {
                if a < pos && b == pos {
                } else if a == pos && b > pos {
                    if b - 1 > pos {
                        crate::text::lemma_lex_le_trans(
                            e.name@,
                            oldseq[pos].name@,
                            oldseq[b - 1].name@,
                        );
                    }
                } else {
                }
            }
        }
    }

    /// Puts directory entries into ascending name order, keeping exactly
    /// the same entries: the traversal order the tree builder encodes.
    pub fn sort_entries(entries: &mut Vec<WalkEntry>)
        ensures
            sorted_by_name(final(entries)@),
            final(entries)@.to_multiset() == old(entries)@.to_multiset(),
            final(entries)@.len() == old(entries)@.len(),
    {
        let mut out: Vec<WalkEntry> = Vec::new();
        while entries.len() > 0
            invariant
                sorted_by_name(out@),
                out@.to_multiset().add(entries@.to_multiset()) == old(entries)@.to_multiset(),
                out@.len() + entries@.len() == old(entries)@.len(),
            decreases entries@.len(),
        {
            let ghost prev = entries@;
            let ghost prev_out = out@;
            let e = match entries.pop() {
                Some(e) => e,
                None => {
                    proof {
                        assert(false);
                    }
                    return ;
                },
            };
            proof {
                assert(prev =~= entries@.push(e));
                assert(entries@.push(e).to_multiset() =~= entries@.to_multiset().insert(e));
            }
            Self::insert_sorted(&mut out, e);
            proof {
                let p = choose|p: int| 0 <= p <= prev_out.len() && out@ == prev_out.insert(p, e);
                lemma_insert_to_multiset(prev_out, p, e);
                assert(out@.to_multiset().add(entries@.to_multiset()) =~= prev_out.to_multiset().add(
                    prev.to_multiset(),
                ));
            }
        }
        proof {
            assert(forall|x: WalkEntry| !entries@.contains(x));
            assert(entries@.to_multiset() =~= Multiset::<WalkEntry>::empty());
            assert(out@.to_multiset().add(Multiset::<WalkEntry>::empty()) =~= out@.to_multiset());
        }
        *entries = out;
    }
}

} // verus!
