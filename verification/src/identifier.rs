//! Content identifiers of git objects.
//!
//! An identifier names an object by its SHA-1 digest. It holds a version, the
//! code of the content type, and a multihash: the code of the hash function,
//! the length of the digest, and the digest itself.

use vstd::prelude::*;

verus! {

/// The only identifier version that this crate produces.
pub const CID_VERSION: u64 = 1;

/// The content type code of a raw git object.
pub const GIT_RAW_CODEC: u64 = 0x78;

/// The multihash code of SHA-1.
pub const SHA1_CODE: u8 = 0x11;

/// The number of bytes of a SHA-1 digest.
pub const SHA1_LENGTH: u8 = 20;

/// A content identifier.
#[derive(Clone, Debug, PartialEq, Eq)]
pub struct Cid {
    pub version: u64,
    pub codec: u64,
    /// The multihash: hash function code, digest length, digest.
    pub hash: Vec<u8>,
}

/// A [`Cid`] as a mathematical value.
pub struct CidView {
    pub version: u64,
    pub codec: u64,
    pub hash: Seq<u8>,
}

impl View for Cid {
    type V = CidView;

    open spec fn view(&self) -> CidView {
        CidView { version: self.version, codec: self.codec, hash: self.hash@ }
    }
}

/// The identifier of the git object whose SHA-1 digest is `digest`.
pub open spec fn git_cid(digest: Seq<u8>) -> CidView {
    CidView {
        version: CID_VERSION,
        codec: GIT_RAW_CODEC,
        hash: seq![SHA1_CODE, SHA1_LENGTH] + digest,
    }
}

impl CidView {
    /// The identifier is that of a git object: version 1, the raw git content
    /// type, and a multihash that holds a SHA-1 digest of 20 bytes.
    pub open spec fn wf(self) -> bool {
        &&& self.version == CID_VERSION
        &&& self.codec == GIT_RAW_CODEC
        &&& self.hash.len() == 2 + SHA1_LENGTH
        &&& self.hash[0] == SHA1_CODE
        &&& self.hash[1] == SHA1_LENGTH
    }

    /// The digest held in the multihash.
    pub open spec fn digest(self) -> Seq<u8> {
        self.hash.skip(2)
    }

    /// The binary form: one byte for the version, one for the content type,
    /// then the multihash. Both numbers of a well-formed identifier are below
    /// 128, so each is its own variable-length encoding.
    pub open spec fn encoded(self) -> Seq<u8> {
        seq![self.version as u8, self.codec as u8] + self.hash
    }
}

impl Cid {
    /// See [`CidView::wf`].
    pub open spec fn wf(&self) -> bool {
        self@.wf()
    }
}

/// The views of a sequence of identifiers.
pub open spec fn cid_views(cids: Seq<Cid>) -> Seq<CidView> {
    Seq::new(cids.len(), |i: int| cids[i]@)
}

/// An identifier is well-formed exactly when it is the identifier of some
/// digest of 20 bytes, and that digest is the one it holds.
pub proof fn lemma_wf_is_git_cid(c: CidView)
    ensures
        c.wf() <==> (c.digest().len() == SHA1_LENGTH && c == git_cid(c.digest())),
{
    if c.wf() {
        assert(c.hash =~= seq![SHA1_CODE, SHA1_LENGTH] + c.digest());
    }
    if c.digest().len() == SHA1_LENGTH && c == git_cid(c.digest()) {
        assert(c.hash.len() == 22);
    }
}

/// The identifier of a digest of 20 bytes is well-formed, holds that digest,
/// and its binary form is 24 bytes long: the four bytes `1, 0x78, 0x11, 20`
/// followed by the digest, so that its last 20 bytes are the digest.
pub proof fn lemma_git_cid_encoding(digest: Seq<u8>)
    requires
        digest.len() == SHA1_LENGTH,
    ensures
        git_cid(digest).wf(),
        git_cid(digest).digest() == digest,
        git_cid(digest).encoded() == seq![1u8, 0x78u8, 0x11u8, 20u8] + digest,
        git_cid(digest).encoded().len() == 24,
        git_cid(digest).encoded().subrange(4, 24) == digest,
{
    let c = git_cid(digest);
    assert(c.digest() =~= digest);
    assert(c.encoded() =~= seq![1u8, 0x78u8, 0x11u8, 20u8] + digest);
    assert(c.encoded().subrange(4, 24) =~= digest);
}

/// Two digests of 20 bytes have the same identifier only if they are equal.
pub proof fn lemma_git_cid_injective(a: Seq<u8>, b: Seq<u8>)
    requires
        git_cid(a) == git_cid(b),
    ensures
        a == b,
{
    assert(git_cid(a).hash.skip(2) =~= a);
    assert(git_cid(b).hash.skip(2) =~= b);
}

/// Two well-formed identifiers are equal exactly when their binary forms are.
pub proof fn lemma_encoded_injective(a: CidView, b: CidView)
    requires
        a.wf(),
        b.wf(),
    ensures
        a == b <==> a.encoded() == b.encoded(),
{
    if a.encoded() == b.encoded() {
        assert(a.hash =~= a.encoded().skip(2));
        assert(b.hash =~= b.encoded().skip(2));
    }
}

} // verus!
