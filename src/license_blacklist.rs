//! The set of revoked key fragments.
use vstd::prelude::*;

use crate::license_checksum::bytes_equal;
use crate::license_magic::seqs_view;

verus! {

#[derive(Clone, Debug)]
pub struct LicenseBlacklist {
    blacklist: Vec<Vec<u8>>,
}

impl View for LicenseBlacklist {
    type V = Seq<Seq<u8>>;

    closed spec fn view(&self) -> Seq<Seq<u8>> {
        seqs_view(self.blacklist@)
    }
}

impl Default for LicenseBlacklist {
    /// The empty blacklist.
    fn default() -> (r: Self)
        ensures
            r@.len() == 0,
    {
        LicenseBlacklist { blacklist: Vec::new() }
    }
}

impl LicenseBlacklist {
    pub fn new(blacklist: Vec<Vec<u8>>) -> (r: Self)
        ensures
            r@ == seqs_view(blacklist@),
    {
        LicenseBlacklist { blacklist }
    }

    /// Revokes one more key fragment.
    pub fn push(&mut self, seed: Vec<u8>)
        ensures
            final(self)@ == old(self)@.push(seed@),
    {
        self.blacklist.push(seed);
        proof {
            assert(self@ =~= old(self)@.push(seed@));
        }
    }

    /// Whether `seed` is one of the revoked fragments.
    pub fn is_blacklisted(&self, seed: Vec<u8>) -> (r: bool)
        ensures
            r == self@.contains(seed@),
    {
        let mut i: usize = 0;
        while i < self.blacklist.len()
            invariant
                i <= self@.len(),
                forall|k: int| 0 <= k < i ==> self@[k] != seed@,
            decreases self@.len() - i,
        {
            if bytes_equal(self.blacklist[i].as_slice(), seed.as_slice()) {
                proof {
                    assert(self@[i as int] == seed@);
                }
                return true;
            }
            i = i + 1;
        }
        false
    }

    pub fn get_blacklist(&self) -> (r: &Vec<Vec<u8>>)
        ensures
            seqs_view(r@) == self@,
    {
        &self.blacklist
    }
}

} // verus!
