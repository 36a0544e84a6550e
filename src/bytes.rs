use vstd::prelude::*;
use vstd::utf8::{decode_utf8, valid_utf8};

verus! {

/// The first `m` bytes of `s`, or all of `s` when it is shorter.
pub open spec fn head_bytes(s: Seq<u8>, m: nat) -> Seq<u8> {
    if s.len() <= m {
        s
    } else {
        s.take(m as int)
    }
}

/// The text that lossy UTF-8 decoding makes of `b`: each invalid sequence
/// becomes a replacement character.
pub uninterp spec fn lossy_text(b: Seq<u8>) -> Seq<char>;

/// Relies on `String::from_utf8_lossy`: it never fails, depends on the bytes
/// alone, and decodes valid UTF-8 as it is.
#[verifier::external_body]
fn decode_lossy(b: &[u8]) -> (r: String)
    ensures
        r@ == lossy_text(b@),
        valid_utf8(b@) ==> r@ == decode_utf8(b@),
{
    String::from_utf8_lossy(b).into_owned()
}

/// The first `m` bytes hold `min(B, m)` of the `B` bytes of the input.
pub proof fn lemma_head_bytes_len(s: Seq<u8>, m: nat)
    ensures
        head_bytes(s, m).len() == if s.len() <= m { s.len() } else { m },
        head_bytes(s, m) == s.take(head_bytes(s, m).len() as int),
{
    assert(s.take(s.len() as int) =~= s);
}

/// Cutting the first part and then reading on gives the first bytes of the
/// whole: the output does not depend on how the reads split the input.
pub proof fn lemma_head_bytes_by_parts(a: Seq<u8>, b: Seq<u8>, m: nat)
    ensures
        head_bytes(head_bytes(a, m) + b, m) == head_bytes(a + b, m),
{
    if a.len() <= m {
    } else {
        assert((a.take(m as int) + b).take(m as int) =~= (a + b).take(m as int));
    }
}

/// Keeps the first bytes of one input that is read in chunks, and renders
/// them as text at the end.
pub struct ByteHead {
    limit: usize,
    kept: Vec<u8>,
}

impl ByteHead {
    /// The number of bytes to keep.
    pub closed spec fn limit_spec(&self) -> nat {
        self.limit as nat
    }

    /// All bytes kept so far, over every chunk.
    pub closed spec fn kept(&self) -> Seq<u8> {
        self.kept@
    }

    pub closed spec fn wf(&self) -> bool {
        self.kept@.len() <= self.limit
    }

    /// Starts an input that keeps its first `limit` bytes.
    pub fn new(limit: usize) -> (r: Self)
        ensures
            r.wf(),
            r.limit_spec() == limit,
            r.kept() == Seq::<u8>::empty(),
    {
        ByteHead { limit, kept: Vec::new() }
    }

    /// Whether all requested bytes are kept: nothing more will be.
    pub fn is_done(&self) -> (r: bool)
        requires
            self.wf(),
        ensures
            r == (self.kept().len() == self.limit_spec()),
    {
        self.kept.len() == self.limit
    }

    /// Takes the next chunk of the input and returns how many of its first
    /// bytes belong to the head.
    pub fn feed(&mut self, chunk: &[u8]) -> (k: usize)
        requires
            old(self).wf(),
        ensures
            final(self).wf(),
            final(self).limit_spec() == old(self).limit_spec(),
            k <= chunk@.len(),
            final(self).kept() == old(self).kept() + chunk@.take(k as int),
            final(self).kept() == head_bytes(old(self).kept() + chunk@, old(self).limit_spec()),
            k < chunk@.len() ==> final(self).kept().len() == final(self).limit_spec(),
    {
        let ghost start = self.kept@;
        let room = self.limit - self.kept.len();
        let k: usize = if chunk.len() < room { chunk.len() } else { room };
        let mut i: usize = 0;
        while i < k
            invariant
                k <= chunk@.len(),
                k <= room,
                room == self.limit - start.len(),
                start.len() <= self.limit,
                i <= k,
                self.limit == old(self).limit,
                self.kept@ == start + chunk@.take(i as int),
            decreases k - i,
        {
            self.kept.push(chunk[i]);
            assert(chunk@.take(i + 1) =~= chunk@.take(i as int).push(chunk@[i as int]));
            i = i + 1;
        }
        if k == chunk.len() {
            assert(chunk@.take(k as int) =~= chunk@);
        } else {
            assert((start + chunk@).take(self.limit as int) =~= start + chunk@.take(k as int));
        }
        k
    }

    /// The kept bytes as text, invalid UTF-8 shown as replacement characters.
    pub fn text(&self) -> (r: String)
        ensures
            r@ == lossy_text(self.kept()),
            valid_utf8(self.kept()) ==> r@ == decode_utf8(self.kept()),
    {
        decode_lossy(self.kept.as_slice())
    }
}

} // verus!
