//! Content fingerprints: the size of a byte stream and its CRC-32 checksum.
use vstd::prelude::*;
use vstd::slice::slice_subrange;

verus! {

/// Size of the chunks in which content is fed to the checksum.
pub const BUFFER_CAPACITY: usize = 524288;

/// The CRC-32 (IEEE) checksum of a byte sequence, as crc32fast computes it.
pub uninterp spec fn crc32_of(bytes: Seq<u8>) -> u32;

#[verifier::external_type_specification]
#[verifier::external_body]
pub struct ExHasher(crc32fast::Hasher);

/// A running CRC-32 computation together with the bytes fed to it so far.
pub struct ChecksumStream {
    hasher: crc32fast::Hasher,
    fed: Ghost<Seq<u8>>,
}

impl ChecksumStream {
    /// The bytes fed to this stream, in order.
    pub closed spec fn fed(&self) -> Seq<u8> {
        self.fed@
    }

    /// Relies on crc32fast::Hasher::new: a fresh hasher has consumed nothing.
    #[verifier::external_body]
    pub fn start() -> (r: ChecksumStream)
        ensures
            r.fed() == Seq::<u8>::empty(),
    {
        ChecksumStream { hasher: crc32fast::Hasher::new(), fed: Ghost(Seq::empty()) }
    }

    /// Relies on crc32fast::Hasher::update: the buffer is appended to the hashed input.
    #[verifier::external_body]
    pub fn feed(&mut self, buf: &[u8])
        ensures
            final(self).fed() == old(self).fed() + buf@,
    {
        self.hasher.update(buf);
    }

    /// Relies on crc32fast::Hasher::finalize: the checksum of all bytes fed.
    #[verifier::external_body]
    pub fn finish(self) -> (r: u32)
        ensures
            r == crc32_of(self.fed()),
    {
        self.hasher.finalize()
    }
}

/// Identifies content by its size and checksum, not by its location.
#[derive(PartialEq, Eq, Structural, Hash, Clone, Debug)]
pub struct ResourceId {
    pub data_size: u64,
    pub crc32: u32,
}

/// The fingerprint of a byte sequence.
pub open spec fn fingerprint_of(bytes: Seq<u8>) -> ResourceId {
    ResourceId { data_size: bytes.len() as u64, crc32: crc32_of(bytes) }
}

/// Computes a fingerprint from content handed over in chunks of any size.
pub struct Fingerprinter {
    stream: ChecksumStream,
    bytes_read: u64,
}

impl Fingerprinter {
    /// All bytes consumed so far.
    pub closed spec fn consumed(&self) -> Seq<u8> {
        self.stream.fed()
    }

    pub closed spec fn wf(&self) -> bool {
        self.bytes_read as int == self.stream.fed().len()
    }

    pub fn new() -> (r: Fingerprinter)
        ensures
            r.wf(),
            r.consumed() == Seq::<u8>::empty(),
    {
        Fingerprinter { stream: ChecksumStream::start(), bytes_read: 0 }
    }

    /// Number of bytes consumed so far.
    pub fn bytes_read(&self) -> (r: u64)
        requires
            self.wf(),
        ensures
            r as int == self.consumed().len(),
    {
        self.bytes_read
    }

    /// Consumes the next chunk of content.
    pub fn feed(&mut self, chunk: &[u8])
        requires
            old(self).wf(),
            old(self).consumed().len() + chunk@.len() <= u64::MAX,
        ensures
            final(self).wf(),
            final(self).consumed() == old(self).consumed() + chunk@,
    {
        self.stream.feed(chunk);
        self.bytes_read = self.bytes_read + chunk.len() as u64;
    }

    /// The fingerprint of everything consumed; the declared size must match it.
    pub fn finish(self, declared_size: u64) -> (r: ResourceId)
        requires
            self.wf(),
            self.consumed().len() == declared_size,
        ensures
            r == fingerprint_of(self.consumed()),
    {
        let crc32 = self.stream.finish();
        ResourceId { data_size: declared_size, crc32 }
    }
}

impl ResourceId {
    /// Fingerprint of raw bytes, streamed through the checksum in fixed-size chunks.
    pub fn compute_bytes(bytes: &[u8]) -> (r: ResourceId)
        requires
            bytes@.len() <= u64::MAX,
        ensures
            r == fingerprint_of(bytes@),
    {
        let mut fp = Fingerprinter::new();
        let n = bytes.len();
        let mut i: usize = 0;
        while i < n
            invariant
                n == bytes@.len(),
                n <= u64::MAX,
                i <= n,
                fp.wf(),
                fp.consumed() == bytes@.subrange(0, i as int),
            decreases n - i,
        {
            let end: usize = if n - i > BUFFER_CAPACITY {
                i + BUFFER_CAPACITY
            } else {
                n
            };
            let chunk = slice_subrange(bytes, i, end);
            fp.feed(chunk);
            assert(bytes@.subrange(0, i as int) + bytes@.subrange(i as int, end as int)
                =~= bytes@.subrange(0, end as int));
            i = end;
        }
        assert(bytes@.subrange(0, n as int) =~= bytes@);
        fp.finish(n as u64)
    }
}

/// Identical content always yields an identical fingerprint, and its size is
/// the number of bytes.
pub proof fn lemma_fingerprint_stable(a: Seq<u8>, b: Seq<u8>)
    requires
        a == b,
    ensures
        fingerprint_of(a) == fingerprint_of(b),
        fingerprint_of(a).data_size == a.len() as u64,
{
}

} // verus!
