use vstd::prelude::*;
use sha1::Digest;

verus! {

/// A SHA-1 hasher part-way through its input. Verus sees nothing inside it:
/// what it stands for is the sequence of bytes it has consumed.
#[verifier::external_body]
pub struct Sha1State {
    inner: sha1::Sha1,
}

/// The bytes that a SHA-1 hasher has consumed so far.
pub uninterp spec fn sha1_input(h: Sha1State) -> Seq<u8>;

/// The lowercase hexadecimal SHA-1 digest of `data`.
pub uninterp spec fn sha1_hex(data: Seq<u8>) -> Seq<char>;

/// Whether `c` is a lowercase hexadecimal digit.
pub open spec fn is_lower_hex_digit(c: char) -> bool {
    ('0' <= c && c <= '9') || ('a' <= c && c <= 'f')
}

/// Relies on `Digest::new` for `sha1::Sha1`: a hasher that has consumed nothing.
#[verifier::external_body]
fn sha1_new() -> (r: Sha1State)
    ensures
        sha1_input(r) == Seq::<u8>::empty(),
{
    Sha1State { inner: sha1::Sha1::new() }
}

/// Relies on `Digest::update` for `sha1::Sha1`: the chunk is appended to what
/// the hasher has consumed.
#[verifier::external_body]
fn sha1_update(h: &mut Sha1State, chunk: &[u8])
    ensures
        sha1_input(*final(h)) == sha1_input(*old(h)) + chunk@,
{
    h.inner.update(chunk)
}

/// Relies on `Digest::finalize` for `sha1::Sha1`, and on generic-array's
/// `LowerHex`, which writes two lowercase hex digits for each of the 20
/// digest bytes.
#[verifier::external_body]
fn sha1_finish(h: Sha1State) -> (r: String)
    ensures
        r@ == sha1_hex(sha1_input(h)),
        r@.len() == 40,
        forall|i: int| 0 <= i < r@.len() ==> is_lower_hex_digit(#[trigger] r@[i]),
{
    format!("{:x}", h.inner.finalize())
}

/// The content hash of a file: the lowercase hexadecimal SHA-1 digest of its
/// bytes.
pub open spec fn content_hash(data: Seq<u8>) -> Seq<char> {
    sha1_hex(data)
}

/// Computes a content hash from bytes handed over in chunks, so that a file
/// never needs to be held in memory whole.
pub struct ContentHasher {
    state: Sha1State,
}

impl ContentHasher {
    /// The bytes consumed so far, in order.
    pub closed spec fn consumed(&self) -> Seq<u8> {
        sha1_input(self.state)
    }

    /// A hasher that has consumed nothing.
    pub fn new() -> (r: ContentHasher)
        ensures
            r.consumed() == Seq::<u8>::empty(),
    {
        ContentHasher { state: sha1_new() }
    }

    /// Consumes the next chunk of content.
    pub fn update(&mut self, chunk: &[u8])
        ensures
            final(self).consumed() == old(self).consumed() + chunk@,
    {
        sha1_update(&mut self.state, chunk)
    }

    /// The content hash of everything consumed: 40 lowercase hex digits.
    pub fn finish(self) -> (r: String)
        ensures
            r@ == content_hash(self.consumed()),
            r@.len() == 40,
            forall|i: int| 0 <= i < r@.len() ==> is_lower_hex_digit(#[trigger] r@[i]),
    {
        sha1_finish(self.state)
    }
}

/// The content hash of bytes held in memory.
pub fn hash_bytes(data: &[u8]) -> (r: String)
    ensures
        r@ == content_hash(data@),
        r@.len() == 40,
{
    let mut h = ContentHasher::new();
    h.update(data);
    assert(h.consumed() =~= data@);
    h.finish()
}

/// Hashing depends on the content alone, not on how it was cut into chunks:
/// two runs over chunkings of the same bytes give the same hash.
pub proof fn lemma_hash_depends_on_content(a: Seq<Seq<u8>>, b: Seq<Seq<u8>>)
    requires
        a.flatten() == b.flatten(),
    ensures
        content_hash(a.flatten()) == content_hash(b.flatten()),
{
}

} // verus!
