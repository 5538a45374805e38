//! The Fiat-Shamir transcript pattern: an append-only byte string that
//! declares, before any execution, the labelled challenges and responses the
//! interactive protocol will exchange.
use vstd::prelude::*;
use vstd::string::StringSliceAdditionalSpecFns;

verus! {

/// The byte that opens every entry of a pattern.
pub const SEP_BYTE: u8 = 0;

/// The operation byte of an entry that the prover sends.
pub const ABSORB: u8 = 0x41;

/// The operation byte of an entry that the verifier draws.
pub const SQUEEZE: u8 = 0x53;

/// The operation byte of a proof-of-work challenge.
pub const POW: u8 = 0x50;

/// The decimal digits of `n`, most significant first.
pub open spec fn decimal(n: nat) -> Seq<u8>
    decreases n,
{
    if n < 10 {
        seq![(48 + n) as u8]
    } else {
        decimal(n / 10).push((48 + n % 10) as u8)
    }
}

/// One entry of a pattern: the separator, the operation, the element count
/// in decimal and the label.
pub open spec fn entry(op: u8, count: nat, label: Seq<u8>) -> Seq<u8> {
    seq![SEP_BYTE, op] + decimal(count) + label
}

/// The pattern `d` after declaring `k` out-of-domain queries and their answers.
pub open spec fn ood_pattern(d: Seq<u8>, k: nat) -> Seq<u8> {
    if k == 0 {
        d
    } else {
        d + entry(SQUEEZE, k, "ood_query".spec_bytes()) + entry(ABSORB, k, "ood_ans".spec_bytes())
    }
}

/// Declaring no out-of-domain samples leaves a pattern byte for byte as it
/// was; declaring some makes it strictly longer and keeps it as a prefix.
pub proof fn lemma_ood_pattern_appends(d: Seq<u8>, k: nat)
    ensures
        k == 0 ==> ood_pattern(d, k) == d,
        k > 0 ==> ood_pattern(d, k).len() > d.len(),
        ood_pattern(d, k).subrange(0, d.len() as int) == d,
{
    if k > 0 {
        assert(ood_pattern(d, k).subrange(0, d.len() as int) =~= d);
    } else {
        assert(d.subrange(0, d.len() as int) =~= d);
    }
}

/// Appending an entry (a proof-of-work challenge, or any other) makes a
/// pattern strictly longer and keeps it as a prefix.
pub proof fn lemma_entry_appends(d: Seq<u8>, op: u8, count: nat, label: Seq<u8>)
    ensures
        (d + entry(op, count, label)).len() > d.len(),
        (d + entry(op, count, label)).subrange(0, d.len() as int) == d,
{
    assert((d + entry(op, count, label)).subrange(0, d.len() as int) =~= d);
}

/// A transcript pattern, keyed by a protocol identifier.
#[derive(Debug, Clone, PartialEq, Eq)]
pub struct DomainSeparator {
    io: Vec<u8>,
}

impl View for DomainSeparator {
    type V = Seq<u8>;

    closed spec fn view(&self) -> Seq<u8> {
        self.io@
    }
}

/// Appends the decimal digits of `n` to `out`.
fn push_decimal(out: &mut Vec<u8>, n: usize)
    ensures
        final(out)@ == old(out)@ + decimal(n as nat),
    decreases n,
{
    if n < 10 {
        out.push((48 + n) as u8);
        proof {
            assert(decimal(n as nat) =~= seq![(48 + n) as u8]);
        }
    } else {
        push_decimal(out, n / 10);
        out.push((48 + n % 10) as u8);
        proof {
            assert(old(out)@ + decimal(n as nat) =~= old(out)@ + decimal((n / 10) as nat) + seq![(48 + n % 10) as u8]);
        }
    }
}

/// Appends the bytes of `s` to `out`.
fn push_bytes(out: &mut Vec<u8>, s: &str)
    ensures
        final(out)@ == old(out)@ + s.spec_bytes(),
{
    let b = s.as_bytes();
    let mut i: usize = 0;
    while i < b.len()
        invariant
            i <= b@.len(),
            b@ == s.spec_bytes(),
            out@ == old(out)@ + b@.subrange(0, i as int),
        decreases b@.len() - i,
    {
        out.push(b[i]);
        i = i + 1;
        proof {
            assert(out@ =~= old(out)@ + b@.subrange(0, i as int));
        }
    }
    proof {
        assert(b@.subrange(0, i as int) =~= b@);
    }
}

impl DomainSeparator {
    /// An empty pattern for the protocol named `domsep`.
    pub fn new(domsep: &str) -> (r: Self)
        ensures
            r@ == domsep.spec_bytes(),
    {
        let mut io: Vec<u8> = Vec::new();
        push_bytes(&mut io, domsep);
        proof {
            assert(io@ =~= domsep.spec_bytes());
        }
        DomainSeparator { io }
    }

    /// The pattern as bytes.
    pub fn as_bytes(&self) -> (r: &[u8])
        ensures
            r@ == self@,
    {
        self.io.as_slice()
    }

    fn push_entry(self, op: u8, count: usize, label: &str) -> (r: Self)
        ensures
            r@ == self@ + entry(op, count as nat, label.spec_bytes()),
    {
        let mut io = self.io;
        io.push(SEP_BYTE);
        io.push(op);
        push_decimal(&mut io, count);
        push_bytes(&mut io, label);
        proof {
            assert(io@ =~= self@ + entry(op, count as nat, label.spec_bytes()));
        }
        DomainSeparator { io }
    }

    /// Declares `count` field elements that the prover sends, under `label`.
    pub fn add_scalars(self, count: usize, label: &str) -> (r: Self)
        ensures
            r@ == self@ + entry(ABSORB, count as nat, label.spec_bytes()),
    {
        self.push_entry(ABSORB, count, label)
    }

    /// Declares `count` field elements that the verifier draws, under `label`.
    pub fn challenge_scalars(self, count: usize, label: &str) -> (r: Self)
        ensures
            r@ == self@ + entry(SQUEEZE, count as nat, label.spec_bytes()),
    {
        self.push_entry(SQUEEZE, count, label)
    }

    /// Declares a proof-of-work challenge of 32 bytes under `label`.
    pub fn challenge_pow(self, label: &str) -> (r: Self)
        ensures
            r@ == self@ + entry(POW, 32, label.spec_bytes()),
    {
        self.push_entry(POW, 32, label)
    }
}

/// Patterns that can declare out-of-domain samples.
pub trait OODDomainSeparator: Sized {
    spec fn pattern(&self) -> Seq<u8>;

    /// Declares `num_samples` out-of-domain queries labelled `ood_query`,
    /// followed by as many answers labelled `ood_ans`; nothing when
    /// `num_samples` is zero.
    fn add_ood(self, num_samples: usize) -> (r: Self)
        ensures
            r.pattern() == ood_pattern(self.pattern(), num_samples as nat),
    ;
}

impl OODDomainSeparator for DomainSeparator {
    closed spec fn pattern(&self) -> Seq<u8> {
        self@
    }

    fn add_ood(self, num_samples: usize) -> (r: Self) {
        if num_samples > 0 {
            self.challenge_scalars(num_samples, "ood_query").add_scalars(num_samples, "ood_ans")
        } else {
            self
        }
    }
}

} // verus!
