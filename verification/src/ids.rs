//! Stable document, paragraph, and text identities.

use vstd::prelude::*;

verus! {

/// Opaque sixteen-byte document identity.
///
/// The bytes are kept as two big-endian words, so identities compare by
/// their bytes in order.
#[derive(Clone, Copy, Debug, PartialEq, Eq, Hash, PartialOrd, Ord, Structural)]
pub struct DocumentId {
    first: u64,
    second: u64,
}

/// The byte at `index` (0..16) of a document identity.
pub open spec fn document_byte(first: u64, second: u64, index: int) -> u8 {
    if index < 8 {
        ((first >> ((8 * (7 - index)) as u64)) & 0xff) as u8
    } else {
        ((second >> ((8 * (15 - index)) as u64)) & 0xff) as u8
    }
}

/// Assembles eight bytes into one big-endian word.
pub open spec fn be_word(b0: u8, b1: u8, b2: u8, b3: u8, b4: u8, b5: u8, b6: u8, b7: u8) -> u64 {
    ((b0 as u64) << 56u64) | ((b1 as u64) << 48u64) | ((b2 as u64) << 40u64) | ((b3 as u64)
        << 32u64) | ((b4 as u64) << 24u64) | ((b5 as u64) << 16u64) | ((b6 as u64) << 8u64) | (
    b7 as u64)
}

proof fn lemma_be_word_bytes(b0: u8, b1: u8, b2: u8, b3: u8, b4: u8, b5: u8, b6: u8, b7: u8)
    ensures
        ({
            let w = be_word(b0, b1, b2, b3, b4, b5, b6, b7);
            &&& ((w >> 56u64) & 0xff) as u8 == b0
            &&& ((w >> 48u64) & 0xff) as u8 == b1
            &&& ((w >> 40u64) & 0xff) as u8 == b2
            &&& ((w >> 32u64) & 0xff) as u8 == b3
            &&& ((w >> 24u64) & 0xff) as u8 == b4
            &&& ((w >> 16u64) & 0xff) as u8 == b5
            &&& ((w >> 8u64) & 0xff) as u8 == b6
            &&& ((w >> 0u64) & 0xff) as u8 == b7
        }),
{
    assert({
        let w = ((b0 as u64) << 56u64) | ((b1 as u64) << 48u64) | ((b2 as u64) << 40u64) | ((
        b3 as u64) << 32u64) | ((b4 as u64) << 24u64) | ((b5 as u64) << 16u64) | ((b6 as u64)
            << 8u64) | (b7 as u64);
        &&& ((w >> 56u64) & 0xff) as u8 == b0
        &&& ((w >> 48u64) & 0xff) as u8 == b1
        &&& ((w >> 40u64) & 0xff) as u8 == b2
        &&& ((w >> 32u64) & 0xff) as u8 == b3
        &&& ((w >> 24u64) & 0xff) as u8 == b4
        &&& ((w >> 16u64) & 0xff) as u8 == b5
        &&& ((w >> 8u64) & 0xff) as u8 == b6
        &&& ((w >> 0u64) & 0xff) as u8 == b7
    }) by (bit_vector);
}

impl DocumentId {
    /// The identity's bytes in order.
    pub closed spec fn bytes_spec(self) -> Seq<u8> {
        Seq::new(16, |i: int| document_byte(self.first, self.second, i))
    }

    /// An identity has sixteen bytes.
    pub proof fn lemma_bytes_len(self)
        ensures
            self.bytes_spec().len() == 16,
    {
    }

    /// Creates an identity from its sixteen opaque bytes.
    pub fn from_bytes(bytes: [u8; 16]) -> (id: Self)
        ensures
            id.bytes_spec() == bytes@,
    {
        let first = ((bytes[0] as u64) << 56u64) | ((bytes[1] as u64) << 48u64) | ((bytes[2] as u64)
            << 40u64) | ((bytes[3] as u64) << 32u64) | ((bytes[4] as u64) << 24u64) | ((
        bytes[5] as u64) << 16u64) | ((bytes[6] as u64) << 8u64) | (bytes[7] as u64);
        let second = ((bytes[8] as u64) << 56u64) | ((bytes[9] as u64) << 48u64) | ((
        bytes[10] as u64) << 40u64) | ((bytes[11] as u64) << 32u64) | ((bytes[12] as u64)
            << 24u64) | ((bytes[13] as u64) << 16u64) | ((bytes[14] as u64) << 8u64) | (
        bytes[15] as u64);
        let id = DocumentId { first, second };
        proof {
            let b = bytes@;
            lemma_be_word_bytes(b[0], b[1], b[2], b[3], b[4], b[5], b[6], b[7]);
            lemma_be_word_bytes(b[8], b[9], b[10], b[11], b[12], b[13], b[14], b[15]);
            assert(first == be_word(b[0], b[1], b[2], b[3], b[4], b[5], b[6], b[7]));
            assert(second == be_word(b[8], b[9], b[10], b[11], b[12], b[13], b[14], b[15]));
            assert(id.bytes_spec() =~= bytes@);
        }
        id
    }

    /// The identity as two words, for keying ordered maps.
    pub closed spec fn words_spec(self) -> (u64, u64) {
        (self.first, self.second)
    }

    /// Returns the identity as two words, for keying ordered maps.
    #[verifier::when_used_as_spec(words_spec)]
    pub(crate) fn words(self) -> (words: (u64, u64))
        ensures
            words == self.words_spec(),
    {
        (self.first, self.second)
    }

    /// Distinct identities have distinct words.
    pub proof fn lemma_words_injective(self, other: Self)
        requires
            self.words_spec() == other.words_spec(),
        ensures
            self == other,
    {
    }

    /// Returns the identity's sixteen opaque bytes.
    pub fn opaque_bytes(self) -> (bytes: [u8; 16])
        ensures
            bytes@ == self.bytes_spec(),
    {
        let mut bytes = [0u8; 16];
        let mut index: usize = 0;
        while index < 16
            invariant
                0 <= index <= 16,
                bytes@.len() == 16,
                forall|i: int|
                    0 <= i < index ==> bytes@[i] == document_byte(self.first, self.second, i),
            decreases 16 - index,
        {
            let word = if index < 8 {
                self.first
            } else {
                self.second
            };
            let shift: u64 = 8 * ((7 - index % 8) as u64);
            bytes[index] = ((word >> shift) & 0xff) as u8;
            index += 1;
        }
        assert(bytes@ =~= self.bytes_spec());
        bytes
    }
}

/// Monotonic immutable-snapshot revision of one document.
#[derive(Clone, Copy, Debug, PartialEq, Eq, Hash, PartialOrd, Ord, Structural)]
pub struct DocumentRevision(pub u64);

/// Stable identity of one paragraph within a document.
#[derive(Clone, Copy, Debug, PartialEq, Eq, Hash, PartialOrd, Ord, Structural)]
pub struct ParagraphId {
    /// Owning document.
    pub document: DocumentId,
    /// Paragraph position in the document.
    pub index: u32,
}

/// Stable identity of one semantic text leaf.
#[derive(Clone, Copy, Debug, PartialEq, Eq, Hash, PartialOrd, Ord, Structural)]
pub struct TextId {
    /// Owning document.
    pub document: DocumentId,
    /// Owning paragraph index.
    pub paragraph: u32,
    /// Leaf position in the paragraph.
    pub index: u32,
}

impl ParagraphId {
    /// Creates a paragraph identity.
    pub fn new(document: DocumentId, index: u32) -> (id: Self)
        ensures
            id.document == document,
            id.index == index,
    {
        ParagraphId { document, index }
    }
}

impl TextId {
    /// Creates a text-leaf identity.
    pub fn new(document: DocumentId, paragraph: u32, index: u32) -> (id: Self)
        ensures
            id.document == document,
            id.paragraph == paragraph,
            id.index == index,
    {
        TextId { document, paragraph, index }
    }
}

/// Which logical side owns a caret position at a boundary.
#[derive(Clone, Copy, Debug, PartialEq, Eq, Hash, Structural)]
pub enum TextAffinity {
    /// The position belongs to the preceding text.
    Upstream,
    /// The position belongs to the following text.
    Downstream,
}

/// Identity of one transient text-input composition session.
#[derive(Clone, Copy, Debug, PartialEq, Eq, Hash, Structural)]
pub struct CompositionId(pub u64);

/// Monotonic update epoch of one composition session.
#[derive(Clone, Copy, Debug, PartialEq, Eq, Hash, Structural)]
pub struct CompositionEpoch(pub u64);

/// Equal bytes make equal identities.
pub proof fn lemma_document_bytes_determine_identity(a: DocumentId, b: DocumentId)
    requires
        a.bytes_spec() == b.bytes_spec(),
    ensures
        a == b,
{
    let (af, asec) = a.words_spec();
    let (bf, bsec) = b.words_spec();
    assert(a.bytes_spec()[0] == document_byte(af, asec, 0));
    assert(b.bytes_spec()[0] == document_byte(bf, bsec, 0));
    assert(a.bytes_spec()[0] == b.bytes_spec()[0]);
    assert(document_byte(af, asec, 0) == ((af >> 56u64) & 0xff) as u8);
    assert(document_byte(bf, bsec, 0) == ((bf >> 56u64) & 0xff) as u8);
    assert(a.bytes_spec()[1] == document_byte(af, asec, 1));
    assert(b.bytes_spec()[1] == document_byte(bf, bsec, 1));
    assert(a.bytes_spec()[1] == b.bytes_spec()[1]);
    assert(document_byte(af, asec, 1) == ((af >> 48u64) & 0xff) as u8);
    assert(document_byte(bf, bsec, 1) == ((bf >> 48u64) & 0xff) as u8);
    assert(a.bytes_spec()[2] == document_byte(af, asec, 2));
    assert(b.bytes_spec()[2] == document_byte(bf, bsec, 2));
    assert(a.bytes_spec()[2] == b.bytes_spec()[2]);
    assert(document_byte(af, asec, 2) == ((af >> 40u64) & 0xff) as u8);
    assert(document_byte(bf, bsec, 2) == ((bf >> 40u64) & 0xff) as u8);
    assert(a.bytes_spec()[3] == document_byte(af, asec, 3));
    assert(b.bytes_spec()[3] == document_byte(bf, bsec, 3));
    assert(a.bytes_spec()[3] == b.bytes_spec()[3]);
    assert(document_byte(af, asec, 3) == ((af >> 32u64) & 0xff) as u8);
    assert(document_byte(bf, bsec, 3) == ((bf >> 32u64) & 0xff) as u8);
    assert(a.bytes_spec()[4] == document_byte(af, asec, 4));
    assert(b.bytes_spec()[4] == document_byte(bf, bsec, 4));
    assert(a.bytes_spec()[4] == b.bytes_spec()[4]);
    assert(document_byte(af, asec, 4) == ((af >> 24u64) & 0xff) as u8);
    assert(document_byte(bf, bsec, 4) == ((bf >> 24u64) & 0xff) as u8);
    assert(a.bytes_spec()[5] == document_byte(af, asec, 5));
    assert(b.bytes_spec()[5] == document_byte(bf, bsec, 5));
    assert(a.bytes_spec()[5] == b.bytes_spec()[5]);
    assert(document_byte(af, asec, 5) == ((af >> 16u64) & 0xff) as u8);
    assert(document_byte(bf, bsec, 5) == ((bf >> 16u64) & 0xff) as u8);
    assert(a.bytes_spec()[6] == document_byte(af, asec, 6));
    assert(b.bytes_spec()[6] == document_byte(bf, bsec, 6));
    assert(a.bytes_spec()[6] == b.bytes_spec()[6]);
    assert(document_byte(af, asec, 6) == ((af >> 8u64) & 0xff) as u8);
    assert(document_byte(bf, bsec, 6) == ((bf >> 8u64) & 0xff) as u8);
    assert(a.bytes_spec()[7] == document_byte(af, asec, 7));
    assert(b.bytes_spec()[7] == document_byte(bf, bsec, 7));
    assert(a.bytes_spec()[7] == b.bytes_spec()[7]);
    assert(document_byte(af, asec, 7) == ((af >> 0u64) & 0xff) as u8);
    assert(document_byte(bf, bsec, 7) == ((bf >> 0u64) & 0xff) as u8);
    assert(a.bytes_spec()[8] == document_byte(af, asec, 8));
    assert(b.bytes_spec()[8] == document_byte(bf, bsec, 8));
    assert(a.bytes_spec()[8] == b.bytes_spec()[8]);
    assert(document_byte(af, asec, 8) == ((asec >> 56u64) & 0xff) as u8);
    assert(document_byte(bf, bsec, 8) == ((bsec >> 56u64) & 0xff) as u8);
    assert(a.bytes_spec()[9] == document_byte(af, asec, 9));
    assert(b.bytes_spec()[9] == document_byte(bf, bsec, 9));
    assert(a.bytes_spec()[9] == b.bytes_spec()[9]);
    assert(document_byte(af, asec, 9) == ((asec >> 48u64) & 0xff) as u8);
    assert(document_byte(bf, bsec, 9) == ((bsec >> 48u64) & 0xff) as u8);
    assert(a.bytes_spec()[10] == document_byte(af, asec, 10));
    assert(b.bytes_spec()[10] == document_byte(bf, bsec, 10));
    assert(a.bytes_spec()[10] == b.bytes_spec()[10]);
    assert(document_byte(af, asec, 10) == ((asec >> 40u64) & 0xff) as u8);
    assert(document_byte(bf, bsec, 10) == ((bsec >> 40u64) & 0xff) as u8);
    assert(a.bytes_spec()[11] == document_byte(af, asec, 11));
    assert(b.bytes_spec()[11] == document_byte(bf, bsec, 11));
    assert(a.bytes_spec()[11] == b.bytes_spec()[11]);
    assert(document_byte(af, asec, 11) == ((asec >> 32u64) & 0xff) as u8);
    assert(document_byte(bf, bsec, 11) == ((bsec >> 32u64) & 0xff) as u8);
    assert(a.bytes_spec()[12] == document_byte(af, asec, 12));
    assert(b.bytes_spec()[12] == document_byte(bf, bsec, 12));
    assert(a.bytes_spec()[12] == b.bytes_spec()[12]);
    assert(document_byte(af, asec, 12) == ((asec >> 24u64) & 0xff) as u8);
    assert(document_byte(bf, bsec, 12) == ((bsec >> 24u64) & 0xff) as u8);
    assert(a.bytes_spec()[13] == document_byte(af, asec, 13));
    assert(b.bytes_spec()[13] == document_byte(bf, bsec, 13));
    assert(a.bytes_spec()[13] == b.bytes_spec()[13]);
    assert(document_byte(af, asec, 13) == ((asec >> 16u64) & 0xff) as u8);
    assert(document_byte(bf, bsec, 13) == ((bsec >> 16u64) & 0xff) as u8);
    assert(a.bytes_spec()[14] == document_byte(af, asec, 14));
    assert(b.bytes_spec()[14] == document_byte(bf, bsec, 14));
    assert(a.bytes_spec()[14] == b.bytes_spec()[14]);
    assert(document_byte(af, asec, 14) == ((asec >> 8u64) & 0xff) as u8);
    assert(document_byte(bf, bsec, 14) == ((bsec >> 8u64) & 0xff) as u8);
    assert(a.bytes_spec()[15] == document_byte(af, asec, 15));
    assert(b.bytes_spec()[15] == document_byte(bf, bsec, 15));
    assert(a.bytes_spec()[15] == b.bytes_spec()[15]);
    assert(document_byte(af, asec, 15) == ((asec >> 0u64) & 0xff) as u8);
    assert(document_byte(bf, bsec, 15) == ((bsec >> 0u64) & 0xff) as u8);
    lemma_word_from_bytes(af, bf);
    lemma_word_from_bytes(asec, bsec);
    a.lemma_words_injective(b);
}

/// Two words with the same eight bytes are equal.
proof fn lemma_word_from_bytes(x: u64, y: u64)
    requires
        ((x >> 0u64) & 0xff) as u8 == ((y >> 0u64) & 0xff) as u8,
        ((x >> 8u64) & 0xff) as u8 == ((y >> 8u64) & 0xff) as u8,
        ((x >> 16u64) & 0xff) as u8 == ((y >> 16u64) & 0xff) as u8,
        ((x >> 24u64) & 0xff) as u8 == ((y >> 24u64) & 0xff) as u8,
        ((x >> 32u64) & 0xff) as u8 == ((y >> 32u64) & 0xff) as u8,
        ((x >> 40u64) & 0xff) as u8 == ((y >> 40u64) & 0xff) as u8,
        ((x >> 48u64) & 0xff) as u8 == ((y >> 48u64) & 0xff) as u8,
        ((x >> 56u64) & 0xff) as u8 == ((y >> 56u64) & 0xff) as u8,
    ensures
        x == y,
{
    assert(x == y) by (bit_vector)
        requires
            ((x >> 0u64) & 0xff) as u8 == ((y >> 0u64) & 0xff) as u8,
            ((x >> 8u64) & 0xff) as u8 == ((y >> 8u64) & 0xff) as u8,
            ((x >> 16u64) & 0xff) as u8 == ((y >> 16u64) & 0xff) as u8,
            ((x >> 24u64) & 0xff) as u8 == ((y >> 24u64) & 0xff) as u8,
            ((x >> 32u64) & 0xff) as u8 == ((y >> 32u64) & 0xff) as u8,
            ((x >> 40u64) & 0xff) as u8 == ((y >> 40u64) & 0xff) as u8,
            ((x >> 48u64) & 0xff) as u8 == ((y >> 48u64) & 0xff) as u8,
            ((x >> 56u64) & 0xff) as u8 == ((y >> 56u64) & 0xff) as u8,
    ;
}

} // verus!
