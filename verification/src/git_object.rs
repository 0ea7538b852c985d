//! The object model and its codec. An object is a blob (opaque file
//! content) or a tree (an encoded entry list). Its canonical on-disk form is
//! the frame `"<type> <payload-byte-length>\0"` followed by the payload; the
//! object's hash is the digest of that frame, and the stored bytes are the
//! compressed frame.
//!
//! The frame layout is pinned down by the spec functions `frame_bytes` and
//! `parse_frame`; `lemma_frame_round_trip` states that parsing inverts
//! framing.

use crate::compressor::{zlib_of, Compressor};
use crate::errors::ObjectError;
use crate::hasher::{create_hash, sha1_of};
use crate::hexcode::{hex_encode, hex_of};
use crate::scan::{
    bytes_eq, copy_range, find_byte, first_index, lemma_first_index_is, lemma_first_index_none,
};
use crate::text::{bytes_to_string_lossy, lossy_of, str_eq};
use vstd::prelude::*;
use vstd::string::StringSliceAdditionalSpecFns;
use vstd::utf8::{decode_utf8, encode_utf8, is_ascii_chars, is_ascii_chars_encode_utf8, valid_utf8};

pub mod tree_line;

verus! {

/// The type tag of a blob object, as written in a frame.
pub const GIT_OBJECT_TYPE_BLOB: &'static str = "blob";

/// The type tag of a tree object, as written in a frame.
pub const GIT_OBJECT_TYPE_TREE: &'static str = "tree";

/// The type tag of a blob object.
pub open spec fn blob_tag() -> Seq<char> {
    seq!['b', 'l', 'o', 'b']
}

/// The type tag of a tree object.
pub open spec fn tree_tag() -> Seq<char> {
    seq!['t', 'r', 'e', 'e']
}

/// The byte form of the two type tags, and that neither holds a space.
pub proof fn lemma_tag_bytes()
    ensures
        encode_utf8(blob_tag()) == seq![98u8, 108u8, 111u8, 98u8],
        encode_utf8(tree_tag()) == seq![116u8, 114u8, 101u8, 101u8],
{
    assert(is_ascii_chars(blob_tag()));
    assert(is_ascii_chars(tree_tag()));
    is_ascii_chars_encode_utf8(blob_tag());
    is_ascii_chars_encode_utf8(tree_tag());
    assert(encode_utf8(blob_tag()) =~= seq![98u8, 108u8, 111u8, 98u8]);
    assert(encode_utf8(tree_tag()) =~= seq![116u8, 114u8, 101u8, 101u8]);
}

/// The ASCII decimal digits of `n`, most significant first.
pub open spec fn dec_rep(n: nat) -> Seq<u8>
    decreases n,
{
    if n < 10 {
        seq![(n + 48) as u8]
    } else {
        dec_rep(n / 10) + seq![(n % 10 + 48) as u8]
    }
}

/// Every byte of a decimal representation is a digit.
pub proof fn lemma_dec_rep_digits(n: nat)
    ensures
        forall|i: int| 0 <= i < dec_rep(n).len() ==> 48 <= #[trigger] dec_rep(n)[i] <= 57,
    decreases n,
{
    if n < 10 {
        assert(dec_rep(n) =~= seq![(n + 48) as u8]);
    } else {
        lemma_dec_rep_digits(n / 10);
        let d = dec_rep(n / 10);
        assert forall|i: int| 0 <= i < dec_rep(n).len() implies 48 <= #[trigger] dec_rep(n)[i]
            <= 57 by {
            if i < d.len() {
                assert(dec_rep(n)[i] == d[i]);
            } else {
                assert(dec_rep(n)[i] == (n % 10 + 48) as u8);
            }
        }
    }
}

/// The canonical object header: type tag, space, decimal payload length,
/// NUL.
pub open spec fn header_bytes(tag: Seq<u8>, len: nat) -> Seq<u8> {
    tag + seq![32u8] + dec_rep(len) + seq![0u8]
}

/// The canonical framed form of an object: header followed by the payload.
pub open spec fn frame_bytes(tag: Seq<u8>, payload: Seq<u8>) -> Seq<u8> {
    header_bytes(tag, payload.len()) + payload
}

/// Splitting a frame: the type tag before the first space, the declared
/// length field before the first NUL after it, and the payload. `None` when
/// either separator is missing. The declared length field is carried, not
/// checked against the payload: decoding is deliberately lenient about it,
/// as the stored frames are always produced by `frame_bytes`.
pub open spec fn parse_frame(s: Seq<u8>) -> Option<(Seq<u8>, Seq<u8>, Seq<u8>)> {
    match first_index(s, 32u8) {
        None => None,
        Some(i) => {
            let tag = s.take(i);
            let rest = s.skip(i + 1);
            match first_index(rest, 0u8) {
                None => None,
                Some(j) => Some((tag, rest.take(j), rest.skip(j + 1))),
            }
        },
    }
}

/// Round-trip law for the frame codec: a frame built from a type tag
/// without spaces parses back to exactly that tag, the decimal length
/// field, and the payload, whatever bytes the payload holds.
pub proof fn lemma_frame_round_trip(tag: Seq<u8>, payload: Seq<u8>)
    requires
        forall|i: int| 0 <= i < tag.len() ==> tag[i] != 32u8,
    ensures
        parse_frame(frame_bytes(tag, payload)) == Some(
            (tag, dec_rep(payload.len()), payload),
        ),
{
    let s = frame_bytes(tag, payload);
    let d = dec_rep(payload.len());
    lemma_dec_rep_digits(payload.len());
    assert(s[tag.len() as int] == 32u8);
    lemma_first_index_is(s, 32u8, tag.len() as int);
    assert(s.take(tag.len() as int) =~= tag);
    let rest = s.skip(tag.len() as int + 1);
    assert(rest =~= d + seq![0u8] + payload);
    assert(forall|j: int| 0 <= j < d.len() ==> rest[j] != 0u8);
    assert(rest[d.len() as int] == 0u8);
    lemma_first_index_is(rest, 0u8, d.len() as int);
    assert(rest.take(d.len() as int) =~= d);
    assert(rest.skip(d.len() as int + 1) =~= payload);
}

/// Appends the ASCII decimal digits of `n`.
fn push_dec(n: usize, out: &mut Vec<u8>)
    ensures
        final(out)@ == old(out)@ + dec_rep(n as nat),
    decreases n,
{
    if n < 10 {
        out.push((n as u8) + 48);
        proof {
            assert(out@ =~= old(out)@ + dec_rep(n as nat));
        }
    } else {
        push_dec(n / 10, out);
        out.push(((n % 10) as u8) + 48);
        proof {
            assert(out@ =~= old(out)@ + dec_rep(n as nat));
        }
    }
}

/// Builds the canonical frame for a type tag and a payload.
pub fn encode_frame(tag: &str, payload: &[u8]) -> (r: Vec<u8>)
    ensures
        r@ == frame_bytes(encode_utf8(tag@), payload@),
{
    let mut out: Vec<u8> = Vec::new();
    out.extend_from_slice(tag.as_bytes());
    out.push(32);
    push_dec(payload.len(), &mut out);
    out.push(0);
    out.extend_from_slice(payload);
    proof {
        assert(out@ =~= frame_bytes(encode_utf8(tag@), payload@));
    }
    out
}

/// Splits a decompressed frame into type tag, declared length field and
/// payload, exactly as `parse_frame` reads it.
pub fn split_frame(bytes: &[u8]) -> (r: Result<(Vec<u8>, Vec<u8>, Vec<u8>), ObjectError>)
    ensures
        match parse_frame(bytes@) {
            Some(parts) => r matches Ok(t) && t.0@ == parts.0 && t.1@ == parts.1 && t.2@
                == parts.2,
            None => r == Err::<(Vec<u8>, Vec<u8>, Vec<u8>), ObjectError>(
                ObjectError::MalformedHeader,
            ),
        },
{
    let space = match find_byte(bytes, 0, 32) {
        Some(i) => i,
        None => {
            proof {
                lemma_first_index_none(bytes@, 32u8);
            }
            return Err(ObjectError::MalformedHeader);
        },
    };
    proof {
        lemma_first_index_is(bytes@, 32u8, space as int);
    }
    let blen = bytes.len();
    assert(space < blen);
    let ghost rest = bytes@.skip(space + 1);
    let nul = match find_byte(bytes, space + 1, 0) {
        Some(j) => j,
        None => {
            proof {
                assert(forall|k: int| 0 <= k < rest.len() ==> rest[k] != 0u8);
                lemma_first_index_none(rest, 0u8);
            }
            return Err(ObjectError::MalformedHeader);
        },
    };
    assert(nul < blen);
    proof {
        assert(rest[nul - space - 1] == 0u8);
        assert(forall|k: int| 0 <= k < nul - space - 1 ==> rest[k] != 0u8);
        lemma_first_index_is(rest, 0u8, nul - space - 1);
    }
    let tag = copy_range(bytes, 0, space);
    let len_field = copy_range(bytes, space + 1, nul);
    let payload = copy_range(bytes, nul + 1, bytes.len());
    proof {
        assert(tag@ =~= bytes@.take(space as int));
        assert(len_field@ =~= rest.take(nul - space - 1));
        assert(payload@ =~= rest.skip(nul - space));
    }
    Ok((tag, len_field, payload))
}

/// An object: a blob holding file content, or a tree holding an encoded
/// entry list.
pub enum GitObject {
    Blob(String),
    Tree(String),
}

impl GitObject {
    /// The object's content, as characters.
    pub open spec fn content(self) -> Seq<char> {
        match self {
            GitObject::Blob(c) => c@,
            GitObject::Tree(c) => c@,
        }
    }

    /// The object's type tag, as characters.
    pub open spec fn type_tag(self) -> Seq<char> {
        match self {
            GitObject::Blob(_) => blob_tag(),
            GitObject::Tree(_) => tree_tag(),
        }
    }

    /// The object's canonical framed bytes, the input to hashing and
    /// compression.
    pub open spec fn raw_frame(self) -> Seq<u8> {
        frame_bytes(encode_utf8(self.type_tag()), encode_utf8(self.content()))
    }

    /// The object's type tag as a string.
    pub fn object_type(&self) -> (r: String)
        ensures
            r@ == self.type_tag(),
    {
        proof {
            reveal_strlit("blob");
            reveal_strlit("tree");
            assert("blob"@ =~= blob_tag());
            assert("tree"@ =~= tree_tag());
        }
        match self {
            GitObject::Blob(_) => "blob".to_owned(),
            GitObject::Tree(_) => "tree".to_owned(),
        }
    }

    /// Builds an object from a type tag and its content. Exactly the two
    /// known tags are accepted; anything else is an unknown object type.
    pub fn new(object_type: &str, content_string: &str) -> (r: Result<GitObject, ObjectError>)
        ensures
            object_type@ == blob_tag() ==> (r matches Ok(o) && o is Blob && o.content()
                == content_string@),
            object_type@ == tree_tag() ==> (r matches Ok(o) && o is Tree && o.content()
                == content_string@),
            object_type@ != blob_tag() && object_type@ != tree_tag() ==> r == Err::<
                GitObject,
                ObjectError,
            >(ObjectError::UnknownObjectType),
    {
        proof {
            reveal_strlit("blob");
            reveal_strlit("tree");
            assert("blob"@ =~= blob_tag());
            assert("tree"@ =~= tree_tag());
        }
        if str_eq(object_type, "blob") {
            Ok(GitObject::Blob(content_string.to_owned()))
        } else if str_eq(object_type, "tree") {
            Ok(GitObject::Tree(content_string.to_owned()))
        } else {
            Err(ObjectError::UnknownObjectType)
        }
    }
}

/// What a decode result must look like for the decompressed frame `s`: the
/// exact error when the framing or the type tag is bad, and otherwise the
/// object whose content is the payload read back as text.
pub open spec fn decoded_ok(r: Result<GitObject, ObjectError>, s: Seq<u8>) -> bool {
    match parse_frame(s) {
        None => r == Err::<GitObject, ObjectError>(ObjectError::MalformedHeader),
        Some(parts) => if parts.0 == encode_utf8(blob_tag()) {
            r matches Ok(o) && o is Blob && o.content() == lossy_of(parts.2) && (valid_utf8(
                parts.2,
            ) ==> o.content() == decode_utf8(parts.2))
        } else if parts.0 == encode_utf8(tree_tag()) {
            r matches Ok(o) && o is Tree && o.content() == lossy_of(parts.2) && (valid_utf8(
                parts.2,
            ) ==> o.content() == decode_utf8(parts.2))
        } else {
            r == Err::<GitObject, ObjectError>(ObjectError::UnknownObjectType)
        },
    }
}

impl GitObject {
    /// Decodes an already-decompressed frame into an object.
    pub fn from_decompressed(bytes: &[u8]) -> (r: Result<GitObject, ObjectError>)
        ensures
            decoded_ok(r, bytes@),
    {
        proof {
            reveal_strlit("blob");
            reveal_strlit("tree");
            assert("blob"@ =~= blob_tag());
            assert("tree"@ =~= tree_tag());
        }
        let parts = match split_frame(bytes) {
            Ok(parts) => parts,
            Err(e) => {
                return Err(e);
            },
        };
        let (tag, _len_field, payload) = parts;
        if bytes_eq(tag.as_slice(), "blob".as_bytes()) {
            Ok(GitObject::Blob(bytes_to_string_lossy(payload.as_slice())))
        } else if bytes_eq(tag.as_slice(), "tree".as_bytes()) {
            Ok(GitObject::Tree(bytes_to_string_lossy(payload.as_slice())))
        } else {
            Err(ObjectError::UnknownObjectType)
        }
    }

    /// Decompresses stored object bytes and decodes the frame. Corrupt
    /// compressed data is reported as such; on the stream that compressing
    /// a frame produced, the result is exactly the decode of that frame.
    pub fn from_bytes(bytes: &[u8]) -> (r: Result<GitObject, ObjectError>)
        ensures
            forall|s: Seq<u8>| bytes@ == zlib_of(s) ==> decoded_ok(r, s),
            r matches Err(e) && e == ObjectError::CorruptData ==> (forall|s: Seq<u8>| bytes@
                != zlib_of(s)),
    {
        let decompressed = match Compressor::decompress(bytes) {
            Ok(d) => d,
            Err(e) => {
                return Err(e);
            },
        };
        GitObject::from_decompressed(decompressed.as_slice())
    }

    /// Encodes the object for storage: its hex-encoded hash and its
    /// compressed frame, both functions of the object alone.
    pub fn to_raw(&self) -> (r: (String, Vec<u8>))
        ensures
            r.0@ == hex_of(sha1_of(self.raw_frame())),
            r.1@ == zlib_of(self.raw_frame()),
    {
        let object_type = self.object_type();
        let content_string = match self {
            GitObject::Blob(c) => c,
            GitObject::Tree(c) => c,
        };
        let frame = encode_frame(object_type.as_str(), content_string.as_str().as_bytes());
        let hash_bytes = create_hash(frame.as_slice());
        let hash = hex_encode(hash_bytes.as_slice());
        let compressed = Compressor::compress(frame.as_slice());
        (hash, compressed)
    }
}

/// Round-trip law for objects: any decode result that meets `decoded_ok` on
/// the frame of an object is that object back, type tag and content alike.
/// Together with the contracts of `from_bytes` and `to_raw`, decoding the
/// compressed encoding of an object recovers it.
pub proof fn lemma_object_round_trip(o: GitObject, r: Result<GitObject, ObjectError>)
    requires
        decoded_ok(r, o.raw_frame()),
    ensures
        r matches Ok(b) && b.type_tag() == o.type_tag() && b.content() == o.content(),
{
    lemma_tag_bytes();
    let tag = encode_utf8(o.type_tag());
    let payload = encode_utf8(o.content());
    assert(forall|i: int| 0 <= i < tag.len() ==> tag[i] != 32u8);
    lemma_frame_round_trip(tag, payload);
    vstd::utf8::encode_utf8_valid_utf8(o.content());
    vstd::utf8::encode_utf8_decode_utf8(o.content());
}

/// The digest of a framed object is stable: it is a function of the type
/// tag and the payload alone, so hashing the same framing twice yields the
/// same digest.
pub proof fn lemma_hash_deterministic(tag: Seq<u8>, payload: Seq<u8>, h1: Seq<u8>, h2: Seq<u8>)
    requires
        h1 == sha1_of(frame_bytes(tag, payload)),
        h2 == sha1_of(frame_bytes(tag, payload)),
    ensures
        h1 == h2,
{
}

} // verus!
