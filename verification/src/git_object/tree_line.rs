//! Tree payloads: the encoded entry list of a directory object. Each entry
//! is `"<mode> <name>\0"` followed by the 20 raw bytes of the entry's hash;
//! entries are concatenated with no further delimiter, so the fixed hash
//! width is what makes the boundaries recoverable.
//!
//! The layout is pinned down by `tree_lines_bytes` (encode) and
//! `parse_tree_lines` (decode); `lemma_tree_lines_round_trip` states that
//! decoding inverts encoding.

use crate::errors::ObjectError;
use crate::hexcode::{hex_decode, hex_encode, hex_of, lemma_unhex_of_hex, unhex};
use crate::scan::{
    copy_range, find_byte, first_index, lemma_first_index_is, lemma_first_index_none,
    lemma_first_index_some,
};
use crate::text::{bytes_to_string_lossy, lossy_of};
use vstd::prelude::*;
use vstd::string::StringSliceAdditionalSpecFns;
use vstd::utf8::encode_utf8;

verus! {

/// Length in bytes of a raw entry hash.
pub const HASH_BYTES_LENGTH: usize = 20;

/// The mode tag of a regular-file entry.
pub const TREE_LINE_MODE_FILE: &'static str = "100644";

/// The mode tag of a directory entry.
pub const TREE_LINE_MODE_FOLDER: &'static str = "40000";

/// The mathematical shape of one tree entry: mode, name and raw hash bytes.
pub struct TreeLineModel {
    pub mode: Seq<u8>,
    pub name: Seq<u8>,
    pub hash: Seq<u8>,
}

/// The encoded bytes of one entry.
pub open spec fn tree_line_bytes(line: TreeLineModel) -> Seq<u8> {
    line.mode + seq![32u8] + line.name + seq![0u8] + line.hash
}

/// The encoded bytes of an entry list: the entries, concatenated.
pub open spec fn tree_lines_bytes(lines: Seq<TreeLineModel>) -> Seq<u8>
    decreases lines.len(),
{
    if lines.len() == 0 {
        Seq::empty()
    } else {
        tree_line_bytes(lines[0]) + tree_lines_bytes(lines.drop_first())
    }
}

/// Reading an entry list back from payload bytes, exactly as the decoder
/// scans them: mode up to the first space, name up to the first NUL after
/// it, then 20 raw hash bytes; repeat until nothing remains. `None` when a
/// separator is missing or fewer than 20 bytes remain for a hash — and on
/// an empty payload, which holds no entry to read.
pub open spec fn parse_tree_lines(bytes: Seq<u8>) -> Option<Seq<TreeLineModel>>
    decreases bytes.len(),
        via parse_tree_lines_decreases
{
    match first_index(bytes, 32u8) {
        None => None,
        Some(i) => {
            let mode = bytes.take(i);
            let rest1 = bytes.skip(i + 1);
            match first_index(rest1, 0u8) {
                None => None,
                Some(j) => {
                    let name = rest1.take(j);
                    let rest2 = rest1.skip(j + 1);
                    if rest2.len() < 20 {
                        None
                    } else {
                        let line = TreeLineModel { mode, name, hash: rest2.take(20) };
                        let rest3 = rest2.skip(20);
                        if rest3.len() == 0 {
                            Some(seq![line])
                        } else {
                            match parse_tree_lines(rest3) {
                                None => None,
                                Some(t) => Some(seq![line] + t),
                            }
                        }
                    }
                },
            }
        },
    }
}

#[via_fn]
proof fn parse_tree_lines_decreases(bytes: Seq<u8>) {
    match first_index(bytes, 32u8) {
        None => {},
        Some(i) => {
            lemma_first_index_some(bytes, 32u8);
            let rest1 = bytes.skip(i + 1);
            match first_index(rest1, 0u8) {
                None => {},
                Some(j) => {
                    lemma_first_index_some(rest1, 0u8);
                },
            }
        },
    }
}

/// One tree entry, as the decoder hands it out: mode and name as text, the
/// hash hex-encoded.
#[derive(Debug)]
pub struct TreeLine {
    pub mode: String,
    pub path: String,
    pub hash: String,
}

impl Clone for TreeLine {
    fn clone(&self) -> (r: Self)
        ensures
            r == *self,
    {
        TreeLine { mode: self.mode.clone(), path: self.path.clone(), hash: self.hash.clone() }
    }
}

impl TreeLine {
    /// Builds an entry from its three fields.
    pub fn new(mode: &str, path: &str, hash: &str) -> (r: Self)
        ensures
            r.mode@ == mode@,
            r.path@ == path@,
            r.hash@ == hash@,
    {
        TreeLine { mode: mode.to_owned(), path: path.to_owned(), hash: hash.to_owned() }
    }
}

/// The entry model a `TreeLine` stands for: its mode and name as UTF-8
/// bytes, its hash read back from hex.
pub open spec fn line_model(l: TreeLine) -> TreeLineModel {
    TreeLineModel { mode: encode_utf8(l.mode@), name: encode_utf8(l.path@), hash: unhex(l.hash@) }
}

/// An ordered entry list, as decoded from or encoded into a tree payload.
#[derive(Debug)]
pub struct TreeLines(pub Vec<TreeLine>);

impl TreeLines {
    /// Builds an entry list from a slice of entries.
    pub fn new(lines: &[TreeLine]) -> (r: Self)
        ensures
            r.0@ == lines@,
    {
        let mut v: Vec<TreeLine> = Vec::new();
        let mut i: usize = 0;
        while i < lines.len()
            invariant
                i <= lines@.len(),
                v@ == lines@.take(i as int),
            decreases lines@.len() - i,
        {
            v.push(lines[i].clone());
            proof {
                assert(v@ =~= lines@.take(i + 1 as int));
            }
            i = i + 1;
        }
        proof {
            assert(lines@.take(lines@.len() as int) =~= lines@);
        }
        TreeLines(v)
    }
}

impl TreeLines {
    /// Decodes a tree payload into its entry list, exactly as
    /// `parse_tree_lines` reads it: the entries in payload order, each with
    /// its mode and name read back as text and its hash hex-encoded.
    pub fn from_bytes(bytes: &[u8]) -> (r: Result<TreeLines, ObjectError>)
        ensures
            match parse_tree_lines(bytes@) {
                None => r == Err::<TreeLines, ObjectError>(ObjectError::InvalidTreeLine),
                Some(models) => r matches Ok(t) && t.0@.len() == models.len() && (forall|k: int|
                    #![trigger models[k]]
                    0 <= k < models.len() ==> t.0@[k].mode@ == lossy_of(models[k].mode)
                    && t.0@[k].path@ == lossy_of(models[k].name) && t.0@[k].hash@ == hex_of(
                    models[k].hash,
                )),
            },
    {
        let mut lines: Vec<TreeLine> = Vec::new();
        let ghost mut models: Seq<TreeLineModel> = Seq::empty();
        let mut pos: usize = 0;
        let blen = bytes.len();
        proof {
            assert(bytes@.skip(0) =~= bytes@);
            match parse_tree_lines(bytes@) {
                None => {},
                Some(t) => {
                    assert(Seq::<TreeLineModel>::empty() + t =~= t);
                },
            }
        }
        loop
            invariant
                blen == bytes@.len(),
                pos <= bytes@.len(),
                lines@.len() == models.len(),
                forall|k: int|
                    #![trigger models[k]]
                    0 <= k < models.len() ==> lines@[k].mode@ == lossy_of(
                        models[k].mode,
                    ) && lines@[k].path@ == lossy_of(models[k].name) && lines@[k].hash@ == hex_of(
                        models[k].hash,
                    ),
                match parse_tree_lines(bytes@.skip(pos as int)) {
                    None => parse_tree_lines(bytes@) is None,
                    Some(t) => parse_tree_lines(bytes@) == Some(models + t),
                },
            decreases bytes@.len() - pos,
        {
            let ghost s = bytes@.skip(pos as int);
            let sp = match find_byte(bytes, pos, 32) {
                Some(i) => i,
                None => {
                    proof {
                        assert(forall|k: int| 0 <= k < s.len() ==> s[k] != 32u8);
                        lemma_first_index_none(s, 32u8);
                    }
                    return Err(ObjectError::InvalidTreeLine);
                },
            };
            proof {
                assert(s[sp - pos] == 32u8);
                assert(forall|k: int| 0 <= k < sp - pos ==> s[k] != 32u8);
                lemma_first_index_is(s, 32u8, sp - pos);
            }
            assert(sp < blen);
            let ghost rest1 = s.skip(sp - pos + 1);
            proof {
                assert(rest1 =~= bytes@.skip(sp + 1));
            }
            let nl = match find_byte(bytes, sp + 1, 0) {
                Some(j) => j,
                None => {
                    proof {
                        assert(forall|k: int| 0 <= k < rest1.len() ==> rest1[k] != 0u8);
                        lemma_first_index_none(rest1, 0u8);
                    }
                    return Err(ObjectError::InvalidTreeLine);
                },
            };
            proof {
                assert(rest1[nl - sp - 1] == 0u8);
                assert(forall|k: int| 0 <= k < nl - sp - 1 ==> rest1[k] != 0u8);
                lemma_first_index_is(rest1, 0u8, nl - sp - 1);
            }
            assert(nl < blen);
            let ghost rest2 = rest1.skip(nl - sp);
            proof {
                assert(rest2 =~= bytes@.skip(nl + 1));
            }
            if bytes.len() - (nl + 1) < HASH_BYTES_LENGTH {
                return Err(ObjectError::InvalidTreeLine);
            }
            let mode_b = copy_range(bytes, pos, sp);
            let name_b = copy_range(bytes, sp + 1, nl);
            let hash_b = copy_range(bytes, nl + 1, nl + 1 + HASH_BYTES_LENGTH);
            let ghost lm = TreeLineModel {
                mode: s.take(sp - pos),
                name: rest1.take(nl - sp - 1),
                hash: rest2.take(20),
            };
            proof {
                assert(mode_b@ =~= lm.mode);
                assert(name_b@ =~= lm.name);
                assert(hash_b@ =~= lm.hash);
            }
            let mode_s = bytes_to_string_lossy(mode_b.as_slice());
            let path_s = bytes_to_string_lossy(name_b.as_slice());
            let hash_s = hex_encode(hash_b.as_slice());
            let line = TreeLine::new(mode_s.as_str(), path_s.as_str(), hash_s.as_str());
            lines.push(line);
            let ghost old_models = models;
            proof {
                models = models + seq![lm];
                assert(lines@[old_models.len() as int].mode@ == lossy_of(lm.mode));
                assert(lines@[old_models.len() as int].path@ == lossy_of(lm.name));
                assert(lines@[old_models.len() as int].hash@ == hex_of(lm.hash));
                assert(forall|k: int| 0 <= k < old_models.len() ==> #[trigger] models[k]
                    == old_models[k] && lines@[k] == lines@[k]);
            }
            let ghost rest3 = rest2.skip(20);
            proof {
                assert(rest3 =~= bytes@.skip(nl + 1 + HASH_BYTES_LENGTH));
                if rest3.len() == 0 {
                    assert(parse_tree_lines(s) == Some(seq![lm]));
                    assert(old_models + seq![lm] =~= models);
                } else {
                    match parse_tree_lines(rest3) {
                        None => {
                            assert(parse_tree_lines(s) is None);
                        },
                        Some(t) => {
                            assert(parse_tree_lines(s) == Some(seq![lm] + t));
                            assert(old_models + (seq![lm] + t) =~= models + t);
                        },
                    }
                }
            }
            pos = nl + 1 + HASH_BYTES_LENGTH;
            if pos == bytes.len() {
                proof {
                    assert(parse_tree_lines(bytes@) == Some(models));
                }
                return Ok(TreeLines(lines));
            }
        }
    }
}

/// Whether every entry's hash field is a hex string: what decoding yields,
/// and what encoding needs to turn the hashes back into raw bytes.
pub open spec fn hashes_are_hex(lines: Seq<TreeLine>) -> bool {
    forall|k: int| 0 <= k < lines.len() ==> exists|b: Seq<u8>| (#[trigger] lines[k].hash@)
        == hex_of(b)
}

/// Appending one entry to a list appends its bytes to the encoding.
pub proof fn lemma_tree_lines_bytes_snoc(lines: Seq<TreeLineModel>, line: TreeLineModel)
    ensures
        tree_lines_bytes(lines + seq![line]) == tree_lines_bytes(lines) + tree_line_bytes(line),
    decreases lines.len(),
{
    if lines.len() == 0 {
        assert(lines + seq![line] =~= seq![line]);
        assert(tree_lines_bytes(seq![line].drop_first()) == Seq::<u8>::empty());
        assert(tree_lines_bytes(lines + seq![line]) =~= tree_lines_bytes(lines) + tree_line_bytes(
            line,
        ));
    } else {
        let all = lines + seq![line];
        assert(all[0] == lines[0]);
        assert(all.drop_first() =~= lines.drop_first() + seq![line]);
        lemma_tree_lines_bytes_snoc(lines.drop_first(), line);
        assert(tree_lines_bytes(all) =~= tree_lines_bytes(lines) + tree_line_bytes(line));
    }
}

impl TreeLines {
    /// Encodes the entry list as a tree payload, the exact inverse of the
    /// decoder's scan: for each entry in order, its mode, a space, its
    /// name, a NUL, then its hash turned back from hex into raw bytes.
    /// Every entry's hash must be a hex string, as the decoder produces
    /// and as a well-formed entry carries.
    pub fn to_bytes(&self) -> (r: Vec<u8>)
        requires
            hashes_are_hex(self.0@),
        ensures
            r@ == tree_lines_bytes(self.0@.map_values(|l: TreeLine| line_model(l))),
    {
        let ghost all_models = self.0@.map_values(|l: TreeLine| line_model(l));
        let mut bytes: Vec<u8> = Vec::new();
        let mut i: usize = 0;
        proof {
            assert(self.0@.take(0).map_values(|l: TreeLine| line_model(l))
                =~= Seq::<TreeLineModel>::empty());
        }
        while i < self.0.len()
            invariant
                i <= self.0@.len(),
                hashes_are_hex(self.0@),
                bytes@ == tree_lines_bytes(
                    self.0@.take(i as int).map_values(|l: TreeLine| line_model(l)),
                ),
            decreases self.0@.len() - i,
        {
            let line = &self.0[i];
            let ghost pre = self.0@.take(i as int).map_values(|l: TreeLine| line_model(l));
            bytes.extend_from_slice(line.mode.as_str().as_bytes());
            bytes.push(32);
            bytes.extend_from_slice(line.path.as_str().as_bytes());
            bytes.push(0);
            let hash_bytes = hex_decode(line.hash.as_str());
            bytes.extend_from_slice(hash_bytes.as_slice());
            proof {
                lemma_unhex_of_hex(hash_bytes@);
                assert(unhex(line.hash@) == hash_bytes@);
                assert(bytes@ =~= tree_lines_bytes(pre) + tree_line_bytes(line_model(*line)));
                lemma_tree_lines_bytes_snoc(pre, line_model(*line));
                assert(self.0@.take(i + 1).map_values(|l: TreeLine| line_model(l)) =~= pre + seq![
                    line_model(*line),
                ]);
            }
            i = i + 1;
        }
        proof {
            assert(self.0@.take(self.0@.len() as int) =~= self.0@);
        }
        bytes
    }
}

/// Round-trip law for the tree payload codec: a payload encoded from at
/// least one well-formed entry (a mode without a space byte, a name without
/// a NUL byte, a 20-byte hash) decodes back to exactly those entries.
pub proof fn lemma_tree_lines_round_trip(lines: Seq<TreeLineModel>)
    requires
        lines.len() > 0,
        forall|k: int, i: int|
            0 <= k < lines.len() && 0 <= i < lines[k].mode.len() ==> #[trigger] lines[k].mode[i]
                != 32u8,
        forall|k: int, i: int|
            0 <= k < lines.len() && 0 <= i < lines[k].name.len() ==> #[trigger] lines[k].name[i]
                != 0u8,
        forall|k: int| 0 <= k < lines.len() ==> (#[trigger] lines[k].hash).len() == 20,
    ensures
        parse_tree_lines(tree_lines_bytes(lines)) == Some(lines),
    decreases lines.len(),
{
    let line = lines[0];
    let s = tree_lines_bytes(lines);
    let tail_bytes = tree_lines_bytes(lines.drop_first());
    assert(s == tree_line_bytes(line) + tail_bytes);
    assert(s =~= line.mode + seq![32u8] + (line.name + seq![0u8] + line.hash + tail_bytes));
    assert(s[line.mode.len() as int] == 32u8);
    assert(forall|j: int| 0 <= j < line.mode.len() ==> s[j] != 32u8);
    lemma_first_index_is(s, 32u8, line.mode.len() as int);
    assert(s.take(line.mode.len() as int) =~= line.mode);
    let rest1 = s.skip(line.mode.len() as int + 1);
    assert(rest1 =~= line.name + seq![0u8] + (line.hash + tail_bytes));
    assert(rest1[line.name.len() as int] == 0u8);
    assert(forall|j: int| 0 <= j < line.name.len() ==> rest1[j] != 0u8);
    lemma_first_index_is(rest1, 0u8, line.name.len() as int);
    assert(rest1.take(line.name.len() as int) =~= line.name);
    let rest2 = rest1.skip(line.name.len() as int + 1);
    assert(rest2 =~= line.hash + tail_bytes);
    assert(rest2.len() >= 20);
    assert(rest2.take(20) =~= line.hash);
    let rest3 = rest2.skip(20);
    assert(rest3 =~= tail_bytes);
    if lines.len() == 1 {
        assert(tail_bytes =~= Seq::<u8>::empty());
        assert(parse_tree_lines(s) == Some(seq![line]));
        assert(seq![line] =~= lines);
    } else {
        assert(lines.drop_first().len() > 0);
        assert(tail_bytes.len() >= 22) by {
            let l1 = lines.drop_first()[0];
            assert(tail_bytes == tree_line_bytes(l1) + tree_lines_bytes(
                lines.drop_first().drop_first(),
            ));
            assert(l1.hash.len() == 20);
        }
        lemma_tree_lines_round_trip(lines.drop_first());
        assert(parse_tree_lines(s) == Some(seq![line] + lines.drop_first()));
        assert(seq![line] + lines.drop_first() =~= lines);
    }
}

} // verus!
