//! The magic table: the ordered byte chunks that parameterize the payload.
use vstd::prelude::*;

verus! {

/// The byte sequences held by a sequence of byte vectors.
pub open spec fn seqs_view(v: Seq<Vec<u8>>) -> Seq<Seq<u8>> {
    Seq::new(v.len(), |i: int| v[i]@)
}

/// The sum of the lengths of all chunks.
pub open spec fn total_len(t: Seq<Seq<u8>>) -> nat
    decreases t.len(),
{
    if t.len() == 0 {
        0
    } else {
        total_len(t.drop_last()) + t.last().len()
    }
}

/// Relies on rand::random (the thread-local generator): some byte, nothing
/// more is known of it.
#[verifier::external_body]
fn random_byte() -> (r: u8) {
    rand::random::<u8>()
}

#[derive(PartialEq, Eq, Clone, Debug)]
pub struct LicenseMagic {
    magic: Vec<Vec<u8>>,
}

impl View for LicenseMagic {
    type V = Seq<Seq<u8>>;

    closed spec fn view(&self) -> Seq<Seq<u8>> {
        seqs_view(self.magic@)
    }
}

impl Default for LicenseMagic {
    /// The empty table.
    fn default() -> (r: Self)
        ensures
            r@.len() == 0,
    {
        LicenseMagic { magic: Vec::new() }
    }
}

impl LicenseMagic {
    pub fn new(magic: Vec<Vec<u8>>) -> (r: LicenseMagic)
        ensures
            r@ == seqs_view(magic@),
    {
        LicenseMagic { magic }
    }

    /// Appends a chunk at the end of the table.
    pub fn push(&mut self, magic: Vec<u8>)
        ensures
            final(self)@ == old(self)@.push(magic@),
    {
        self.magic.push(magic);
        proof {
            assert(self@ =~= old(self)@.push(magic@));
        }
    }

    /// The width of the payload: the sum of the lengths of all chunks,
    /// saturated at `usize::MAX`.
    pub fn payload_size(&self) -> (r: usize)
        ensures
            r == if total_len(self@) > usize::MAX {
                usize::MAX as int
            } else {
                total_len(self@) as int
            },
    {
        let mut sum: usize = 0;
        let mut i: usize = 0;
        while i < self.magic.len()
            invariant
                i <= self@.len(),
                sum == if total_len(self@.subrange(0, i as int)) > usize::MAX {
                    usize::MAX as int
                } else {
                    total_len(self@.subrange(0, i as int)) as int
                },
            decreases self@.len() - i,
        {
            proof {
                assert(self@.subrange(0, i + 1).drop_last() =~= self@.subrange(0, i as int));
            }
            let len = self.magic[i].len();
            if sum > usize::MAX - len {
                sum = usize::MAX;
            } else {
                sum = sum + len;
            }
            i = i + 1;
        }
        proof {
            assert(self@.subrange(0, i as int) =~= self@);
        }
        sum
    }

    /// Appends `magic_size` chunks of `magic_count` random bytes each.
    pub fn randomize_magic(&mut self, magic_size: usize, magic_count: usize)
        ensures
            final(self)@.len() == old(self)@.len() + magic_size,
            final(self)@.subrange(0, old(self)@.len() as int) == old(self)@,
            forall|i: int|
                old(self)@.len() <= i < final(self)@.len() ==> #[trigger] final(self)@[i].len()
                    == magic_count,
    {
        let mut k: usize = 0;
        while k < magic_size
            invariant
                k <= magic_size,
                self@.len() == old(self)@.len() + k,
                self@.subrange(0, old(self)@.len() as int) == old(self)@,
                forall|i: int|
                    old(self)@.len() <= i < self@.len() ==> #[trigger] self@[i].len()
                        == magic_count,
            decreases magic_size - k,
        {
            let mut chunk: Vec<u8> = Vec::new();
            let mut j: usize = 0;
            while j < magic_count
                invariant
                    j <= magic_count,
                    chunk@.len() == j,
                decreases magic_count - j,
            {
                chunk.push(random_byte());
                j = j + 1;
            }
            let ghost before = self@;
            self.push(chunk);
            proof {
                assert(self@.subrange(0, old(self)@.len() as int) =~= before.subrange(
                    0,
                    old(self)@.len() as int,
                ));
            }
            k = k + 1;
        }
    }

    /// The table has no more chunks than a `usize` can count.
    pub proof fn lemma_len_bound(&self)
        ensures
            self@.len() <= usize::MAX,
    {
        assert(self.magic.len() == self.magic@.len());
    }

    pub fn get_magic(&self) -> (r: &Vec<Vec<u8>>)
        ensures
            seqs_view(r@) == self@,
    {
        &self.magic
    }
}

} // verus!
