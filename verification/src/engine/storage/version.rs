//! Storage version token.

use vstd::prelude::*;

verus! {

/// Opaque to callers: a backend compares the bytes.
#[derive(Debug, Clone, PartialEq, Eq, Hash)]
pub struct Version(Vec<u8>);

impl View for Version {
    type V = Seq<u8>;

    closed spec fn view(&self) -> Seq<u8> {
        self.0@
    }
}

/// The eight bytes of `n`, highest first.
pub open spec fn be_bytes(n: u64) -> Seq<u8> {
    seq![
        (n / 0x100_0000_0000_0000 % 256) as u8,
        (n / 0x1_0000_0000_0000 % 256) as u8,
        (n / 0x100_0000_0000 % 256) as u8,
        (n / 0x1_0000_0000 % 256) as u8,
        (n / 0x100_0000 % 256) as u8,
        (n / 0x1_0000 % 256) as u8,
        (n / 0x100 % 256) as u8,
        (n % 256) as u8,
    ]
}

impl Version {
    pub fn from_bytes(bytes: Vec<u8>) -> (v: Version)
        ensures
            v@ == bytes@,
    {
        Version(bytes)
    }

    pub fn as_bytes(&self) -> (bytes: &[u8])
        ensures
            bytes@ == self@,
    {
        self.0.as_slice()
    }

    /// The token of the counter value `n`.
    pub fn from_counter(n: u64) -> (v: Version)
        ensures
            v@ == be_bytes(n),
    {
        let mut bytes: Vec<u8> = Vec::new();
        bytes.push((n / 0x100_0000_0000_0000 % 256) as u8);
        bytes.push((n / 0x1_0000_0000_0000 % 256) as u8);
        bytes.push((n / 0x100_0000_0000 % 256) as u8);
        bytes.push((n / 0x1_0000_0000 % 256) as u8);
        bytes.push((n / 0x100_0000 % 256) as u8);
        bytes.push((n / 0x1_0000 % 256) as u8);
        bytes.push((n / 0x100 % 256) as u8);
        bytes.push((n % 256) as u8);
        proof {
            assert(bytes@ =~= be_bytes(n));
        }
        Version(bytes)
    }

    /// Whether both tokens are the same.
    pub fn same(&self, other: &Version) -> (b: bool)
        ensures
            b == (self@ == other@),
    {
        if self.0.len() != other.0.len() {
            return false;
        }
        let mut i: usize = 0;
        while i < self.0.len()
            invariant
                i <= self.0.len(),
                self.0.len() == other.0.len(),
                forall|j: int| 0 <= j < i ==> self.0@[j] == other.0@[j],
            decreases self.0.len() - i,
        {
            if self.0[i] != other.0[i] {
                return false;
            }
            i += 1;
        }
        proof {
            assert(self.0@ =~= other.0@);
        }
        true
    }

    /// A copy of this token.
    pub fn duplicate(&self) -> (v: Version)
        ensures
            v@ == self@,
    {
        Version(vstd::slice::slice_to_vec(self.0.as_slice()))
    }
}

/// The quotients of `n`, one byte at a time.
proof fn lemma_quotients(n: u64)
    ensures
        n / 0x100_0000_0000_0000 < 256,
        n / 0x1_0000_0000_0000 == 256 * (n / 0x100_0000_0000_0000) + n / 0x1_0000_0000_0000 % 256,
        n / 0x100_0000_0000 == 256 * (n / 0x1_0000_0000_0000) + n / 0x100_0000_0000 % 256,
        n / 0x1_0000_0000 == 256 * (n / 0x100_0000_0000) + n / 0x1_0000_0000 % 256,
        n / 0x100_0000 == 256 * (n / 0x1_0000_0000) + n / 0x100_0000 % 256,
        n / 0x1_0000 == 256 * (n / 0x100_0000) + n / 0x1_0000 % 256,
        n / 0x100 == 256 * (n / 0x1_0000) + n / 0x100 % 256,
        n == 256 * (n / 0x100) + n % 256,
{
}

/// Different counter values have different tokens.
pub proof fn law_counter_tokens_are_distinct(a: u64, b: u64)
    requires
        be_bytes(a) == be_bytes(b),
    ensures
        a == b,
{
    let x = be_bytes(a);
    let y = be_bytes(b);
    lemma_quotients(a);
    lemma_quotients(b);
    assert(x[0] == y[0]);
    assert(x[1] == y[1]);
    assert(x[2] == y[2]);
    assert(x[3] == y[3]);
    assert(x[4] == y[4]);
    assert(x[5] == y[5]);
    assert(x[6] == y[6]);
    assert(x[7] == y[7]);
}

/// The token of a counter is its eight bytes, the most significant one first.
pub proof fn law_a_token_is_the_bytes_of_its_counter(n: u64)
    ensures
        ({
            let b = be_bytes(n);
            &&& b.len() == 8
            &&& n == 256 * (256 * (256 * (256 * (256 * (256 * (256 * b[0] + b[1]) + b[2]) + b[3])
                + b[4]) + b[5]) + b[6]) + b[7]
        }),
{
    lemma_quotients(n);
}

} // verus!
