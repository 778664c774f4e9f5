//! The pluggable strategy that maps seed bytes and a magic chunk to one payload
//! byte, and turns a raw token into a display string and back.
use vstd::prelude::*;
use vstd::string::{StrSliceExecFns, StringExecFns};

verus! {

/// A strategy for payload hashing and token display.
///
/// Each operation is a function of its arguments: the spec functions name the
/// result, so that a token generated with a strategy validates with it again.
pub trait LicenseKeySerializer {
    /// The payload byte for `seed` and one magic chunk.
    spec fn spec_hash(&self, seed: Seq<u8>, magic: Seq<u8>) -> u8;

    /// The display string of a raw token.
    spec fn spec_serialize_key(&self, key: Seq<u8>) -> Seq<char>;

    /// The raw token of a display string, if it is one.
    spec fn spec_deserialize_key(&self, key: Seq<char>) -> Option<Seq<u8>>;

    fn hash(&self, seed: &[u8], magic: &[u8]) -> (r: u8)
        ensures
            r == self.spec_hash(seed@, magic@),
    ;

    fn deserialize_key(&self, key: String) -> (r: Option<Vec<u8>>)
        ensures
            r matches Some(v) ==> self.spec_deserialize_key(key@) == Some(v@),
            r is None ==> self.spec_deserialize_key(key@) is None,
    ;

    fn serialize_key(&self, key: &[u8]) -> (r: String)
        ensures
            r@ == self.spec_serialize_key(key@),
    ;
}

/// The sum of all bytes of `s`.
pub open spec fn byte_sum(s: Seq<u8>) -> int
    decreases s.len(),
{
    if s.len() == 0 {
        0
    } else {
        byte_sum(s.drop_last()) + s.last()
    }
}

/// The default payload hash: an 8-bit accumulator starts at 0 and, for each
/// magic byte `m` in order, is multiplied by `m` when `m` is 3 or 7, has every
/// seed byte added when `m` is even, and is XORed with `m` otherwise; all
/// arithmetic wraps.
pub open spec fn payload_hash(seed: Seq<u8>, magic: Seq<u8>) -> u8
    decreases magic.len(),
{
    if magic.len() == 0 {
        0
    } else {
        let h = payload_hash(seed, magic.drop_last());
        let m = magic.last();
        if m == 3 || m == 7 {
            ((h * m) % 256) as u8
        } else if m % 2 == 0 {
            ((h + byte_sum(seed)) % 256) as u8
        } else {
            h ^ m
        }
    }
}

/// The upper-case hexadecimal digit of a value below 16.
pub open spec fn hex_digit_upper(n: int) -> char {
    if n < 10 {
        (48 + n) as char
    } else {
        (55 + n) as char
    }
}

/// Upper-case hexadecimal, two digits per byte, high nibble first.
pub open spec fn hex_upper(b: Seq<u8>) -> Seq<char>
    decreases b.len(),
{
    if b.len() == 0 {
        Seq::empty()
    } else {
        hex_upper(b.drop_last()) + seq![
            hex_digit_upper(b.last() as int / 16),
            hex_digit_upper(b.last() as int % 16),
        ]
    }
}

/// The value of a hexadecimal digit of either case.
pub open spec fn hex_value(c: char) -> Option<int> {
    let n = c as int;
    if 48 <= n <= 57 {
        Some(n - 48)
    } else if 65 <= n <= 70 {
        Some(n - 55)
    } else if 97 <= n <= 102 {
        Some(n - 87)
    } else {
        None
    }
}

/// The bytes that a hexadecimal string of either case stands for: `None`
/// where its length is odd or a character is not a hexadecimal digit.
pub open spec fn hex_decode(s: Seq<char>) -> Option<Seq<u8>>
    decreases s.len(),
{
    if s.len() % 2 != 0 {
        None
    } else if s.len() == 0 {
        Some(Seq::empty())
    } else {
        match (
            hex_decode(s.subrange(0, s.len() - 2)),
            hex_value(s[s.len() - 2]),
            hex_value(s[s.len() - 1]),
        ) {
            (Some(p), Some(h), Some(l)) => Some(p.push((h * 16 + l) as u8)),
            _ => None,
        }
    }
}

/// `s` with every dash removed.
pub open spec fn without_dashes(s: Seq<char>) -> Seq<char>
    decreases s.len(),
{
    if s.len() == 0 {
        s
    } else if s.last() == '-' {
        without_dashes(s.drop_last())
    } else {
        without_dashes(s.drop_last()).push(s.last())
    }
}

/// The first `k` pieces of `size` characters of `s`, joined by dashes.
pub open spec fn joined_pieces(s: Seq<char>, size: nat, k: nat) -> Seq<char>
    decreases k,
{
    if k <= 1 {
        s.subrange(0, (size * k) as int)
    } else {
        joined_pieces(s, size, (k - 1) as nat) + seq!['-'] + s.subrange(
            (size * (k - 1)) as int,
            (size * k) as int,
        )
    }
}

/// `s` cut into `groups` pieces of `s.len() / groups` characters each, joined
/// by dashes, with any remainder appended as one last piece; `s` itself where
/// `groups` is zero or larger than the length of `s`.
pub open spec fn dash_grouped(s: Seq<char>, groups: nat) -> Seq<char> {
    if groups == 0 || s.len() < groups {
        s
    } else {
        let size = s.len() / groups;
        let head = joined_pieces(s, size, groups);
        if size * groups < s.len() {
            head + seq!['-'] + s.subrange((size * groups) as int, s.len() as int)
        } else {
            head
        }
    }
}

/// Cuts `key` into `groups` dash-separated pieces of equal length, with any
/// remainder as one last piece; `key` unchanged where `groups` is zero or
/// larger than its length.
pub fn group_key(key: &str, groups: usize) -> (r: String)
    ensures
        r@ == dash_grouped(key@, groups as nat),
{
    let n = key.unicode_len();
    if groups == 0 || n < groups {
        return key.to_owned();
    }
    let size = n / groups;
    proof {
        reveal_strlit("-");
        assert(size * groups <= n) by (nonlinear_arith)
            requires
                size == n / groups,
                groups > 0,
        ;
    }
    let mut out = String::new();
    let mut k: usize = 0;
    while k < groups
        invariant
            0 < groups <= n,
            n == key@.len(),
            size == n / groups,
            size * groups <= n,
            k <= groups,
            out@ == joined_pieces(key@, size as nat, k as nat),
        decreases groups - k,
    {
        proof {
            reveal_strlit("-");
            assert(size * (k + 1) <= size * groups) by (nonlinear_arith)
                requires
                    k + 1 <= groups,
            ;
            assert(size * (k + 1) == size * k + size) by (nonlinear_arith);
            if k == 0 {
                assert(size * k == 0) by (nonlinear_arith)
                    requires
                        k == 0,
                ;
            }
        }
        let ghost before = out@;
        if k > 0 {
            out.append("-");
        }
        out.append(key.substring_char(size * k, size * (k + 1)));
        proof {
            if k == 0 {
                assert(before =~= Seq::<char>::empty());
                assert(out@ =~= key@.subrange(0, size as int));
            } else {
                assert(out@ =~= before + seq!['-'] + key@.subrange(
                    (size * k) as int,
                    (size * (k + 1)) as int,
                ));
            }
        }
        k = k + 1;
    }
    if size * groups < n {
        out.append("-");
        out.append(key.substring_char(size * groups, n));
    }
    out
}

/// `key` with every dash removed.
fn strip_dashes(key: &str) -> (r: String)
    ensures
        r@ == without_dashes(key@),
{
    let n = key.unicode_len();
    let mut out = String::new();
    let mut i: usize = 0;
    while i < n
        invariant
            n == key@.len(),
            i <= n,
            out@ == without_dashes(key@.subrange(0, i as int)),
        decreases n - i,
    {
        proof {
            assert(key@.subrange(0, i + 1).drop_last() =~= key@.subrange(0, i as int));
        }
        let c = key.get_char(i);
        if c != '-' {
            let ghost before = out@;
            out.append(key.substring_char(i, i + 1));
            proof {
                assert(out@ =~= before.push(c));
            }
        }
        i = i + 1;
    }
    proof {
        assert(key@.subrange(0, i as int) =~= key@);
    }
    out
}

/// A hexadecimal digit reads back as its value, and is no dash.
proof fn lemma_hex_digit(n: int)
    requires
        0 <= n < 16,
    ensures
        hex_value(hex_digit_upper(n)) == Some(n),
        hex_digit_upper(n) != '-',
{
}

/// Relies on hex::encode_upper: two upper-case digits per byte, high nibble first.
#[verifier::external_body]
fn encode_upper(key: &[u8]) -> (r: String)
    ensures
        r@ == hex_upper(key@),
{
    hex::encode_upper(key)
}

/// Relies on hex::decode: digits of either case, two per byte; fails on an odd
/// length or a character that is not a hexadecimal digit (a non-ASCII
/// character is never one, so the statement over characters holds for bytes).
#[verifier::external_body]
fn decode_hex(key: &str) -> (r: Option<Vec<u8>>)
    ensures
        r matches Some(v) ==> hex_decode(key@) == Some(v@),
        r is None ==> hex_decode(key@) is None,
{
    hex::decode(key).ok()
}

/// The default strategy: the payload hash above and upper-case hexadecimal,
/// read back with or without dashes between groups. It is not meant for
/// production: define a strategy of your own.
pub struct DefaultLicenseKeySerializer {}

impl LicenseKeySerializer for DefaultLicenseKeySerializer {
    open spec fn spec_hash(&self, seed: Seq<u8>, magic: Seq<u8>) -> u8 {
        payload_hash(seed, magic)
    }

    open spec fn spec_serialize_key(&self, key: Seq<u8>) -> Seq<char> {
        hex_upper(key)
    }

    open spec fn spec_deserialize_key(&self, key: Seq<char>) -> Option<Seq<u8>> {
        hex_decode(without_dashes(key))
    }

    fn hash(&self, seed: &[u8], magic: &[u8]) -> (r: u8) {
        let mut h: u8 = 0;
        let mut i: usize = 0;
        while i < magic.len()
            invariant
                i <= magic@.len(),
                h == payload_hash(seed@, magic@.subrange(0, i as int)),
            decreases magic@.len() - i,
        {
            proof {
                assert(magic@.subrange(0, i + 1).drop_last() =~= magic@.subrange(0, i as int));
            }
            let x = magic[i];
            if x == 3 || x == 7 {
                assert(h as u32 * x as u32 <= 255 * 255) by (nonlinear_arith)
                    requires
                        h as u32 <= 255,
                        x as u32 <= 255,
                ;
                h = ((h as u32 * x as u32) % 256) as u8;
            } else if x % 2 == 0 {
                let ghost h0 = h as int;
                let mut j: usize = 0;
                while j < seed.len()
                    invariant
                        j <= seed@.len(),
                        h as int == (h0 + byte_sum(seed@.subrange(0, j as int))) % 256,
                    decreases seed@.len() - j,
                {
                    proof {
                        assert(seed@.subrange(0, j + 1).drop_last() =~= seed@.subrange(
                            0,
                            j as int,
                        ));
                    }
                    h = ((h as u32 + seed[j] as u32) % 256) as u8;
                    j = j + 1;
                }
                proof {
                    assert(seed@.subrange(0, j as int) =~= seed@);
                }
            } else {
                h = h ^ x;
            }
            i = i + 1;
        }
        proof {
            assert(magic@.subrange(0, i as int) =~= magic@);
        }
        h
    }

    fn deserialize_key(&self, key: String) -> (r: Option<Vec<u8>>) {
        let digits = strip_dashes(key.as_str());
        decode_hex(digits.as_str())
    }

    fn serialize_key(&self, key: &[u8]) -> (r: String) {
        encode_upper(key)
    }
}

impl DefaultLicenseKeySerializer {
    /// The upper-case hexadecimal of `key`, cut into `groups` dash-separated
    /// pieces of equal length with any remainder as one last piece.
    pub fn serialize_key_grouped(&self, key: &[u8], groups: usize) -> (r: String)
        ensures
            r@ == dash_grouped(hex_upper(key@), groups as nat),
    {
        let hex = encode_upper(key);
        group_key(hex.as_str(), groups)
    }
}

/// Decoding the hexadecimal of `b` gives `b` back.
proof fn lemma_hex_round_trip(b: Seq<u8>)
    ensures
        hex_decode(hex_upper(b)) == Some(b),
        hex_upper(b).len() == 2 * b.len(),
        forall|i: int| 0 <= i < hex_upper(b).len() ==> #[trigger] hex_upper(b)[i] != '-',
    decreases b.len(),
{
    if b.len() > 0 {
        let rest = b.drop_last();
        lemma_hex_round_trip(rest);
        let x = b.last() as int;
        lemma_hex_digit(x / 16);
        lemma_hex_digit(x % 16);
        let h = hex_upper(b);
        assert(h.subrange(0, h.len() - 2) =~= hex_upper(rest));
        assert(rest.push(b.last()) =~= b);
        assert forall|i: int| 0 <= i < h.len() implies #[trigger] h[i] != '-' by {
            if i < h.len() - 2 {
                assert(h[i] == hex_upper(rest)[i]);
            }
        }
    }
}

/// Removing dashes distributes over concatenation.
proof fn lemma_without_dashes_concat(a: Seq<char>, b: Seq<char>)
    ensures
        without_dashes(a + b) == without_dashes(a) + without_dashes(b),
    decreases b.len(),
{
    if b.len() == 0 {
        assert(a + b =~= a);
        assert(without_dashes(a) + without_dashes(b) =~= without_dashes(a));
    } else {
        assert((a + b).drop_last() =~= a + b.drop_last());
        lemma_without_dashes_concat(a, b.drop_last());
        if b.last() != '-' {
            assert(without_dashes(a) + without_dashes(b.drop_last()).push(b.last()) =~= (
            without_dashes(a) + without_dashes(b.drop_last())).push(b.last()));
        }
    }
}

/// A lone dash is removed.
proof fn lemma_dash_removed()
    ensures
        without_dashes(seq!['-']) == Seq::<char>::empty(),
{
    let d = seq!['-'];
    let e = Seq::<char>::empty();
    assert(d.drop_last() =~= e);
    assert(d.last() == '-');
    assert(without_dashes(e) == e);
    assert(without_dashes(d) == without_dashes(d.drop_last()));
}

/// A sequence without dashes is left as it is.
proof fn lemma_without_dashes_none(s: Seq<char>)
    requires
        forall|i: int| 0 <= i < s.len() ==> s[i] != '-',
    ensures
        without_dashes(s) == s,
    decreases s.len(),
{
    if s.len() > 0 {
        lemma_without_dashes_none(s.drop_last());
        assert(s.drop_last().push(s.last()) =~= s);
    }
}

/// Removing the dashes from joined pieces of a dash-free sequence gives back
/// the prefix that the pieces cover.
proof fn lemma_joined_pieces(s: Seq<char>, size: nat, k: nat)
    requires
        forall|i: int| 0 <= i < s.len() ==> s[i] != '-',
        size * k <= s.len(),
    ensures
        without_dashes(joined_pieces(s, size, k)) == s.subrange(0, (size * k) as int),
    decreases k,
{
    if k <= 1 {
        lemma_without_dashes_none(s.subrange(0, (size * k) as int));
    } else {
        let j = (k - 1) as nat;
        assert(size * j <= size * k) by (nonlinear_arith)
            requires
                j <= k,
        ;
        lemma_joined_pieces(s, size, j);
        let piece = s.subrange((size * j) as int, (size * k) as int);
        lemma_without_dashes_none(piece);
        lemma_dash_removed();
        lemma_without_dashes_concat(joined_pieces(s, size, j), seq!['-']);
        lemma_without_dashes_concat(joined_pieces(s, size, j) + seq!['-'], piece);
        assert(s.subrange(0, (size * j) as int) + piece =~= s.subrange(0, (size * k) as int));
    }
}

/// Display round trip: the default strategy reads back the raw token from its
/// display string, whole or cut into any number of dash-separated groups.
pub proof fn lemma_display_round_trip(s: DefaultLicenseKeySerializer, key: Seq<u8>, groups: nat)
    ensures
        s.spec_deserialize_key(s.spec_serialize_key(key)) == Some(key),
        s.spec_deserialize_key(dash_grouped(s.spec_serialize_key(key), groups)) == Some(key),
{
    let h = hex_upper(key);
    lemma_hex_round_trip(key);
    lemma_without_dashes_none(h);
    if groups > 0 && h.len() >= groups {
        let size = h.len() / groups;
        assert(size * groups <= h.len()) by (nonlinear_arith)
            requires
                size == h.len() / groups,
                groups > 0,
        ;
        lemma_joined_pieces(h, size, groups);
        let head = joined_pieces(h, size, groups);
        if size * groups < h.len() {
            let tail = h.subrange((size * groups) as int, h.len() as int);
            lemma_without_dashes_none(tail);
            lemma_dash_removed();
            lemma_without_dashes_concat(head, seq!['-']);
            lemma_without_dashes_concat(head + seq!['-'], tail);
            assert(h.subrange(0, (size * groups) as int) + tail =~= h);
        } else {
            assert(h.subrange(0, (size * groups) as int) =~= h);
        }
    }
}

} // verus!
