//! The user code that the kernel carries in its own image: how it writes
//! its process id.
use vstd::prelude::*;

verus! {

/// The decimal digits of `n`, least significant first; none for zero.
pub open spec fn digits_reversed(n: u64) -> Seq<u8>
    decreases n,
{
    if n == 0 {
        Seq::empty()
    } else {
        seq![(0x30 + n % 10) as u8] + digits_reversed(n / 10)
    }
}

/// `n` written in decimal, most significant digit first; zero is written
/// as no digit at all.
pub open spec fn decimal(n: u64) -> Seq<u8> {
    digits_reversed(n).reverse()
}

/// The digits the user code prints for its process id: collected from the
/// least significant one, then put in order (see `decimal`).
pub fn pid_digits(pid: u64) -> (buf: Vec<u8>)
    ensures
        buf@ == decimal(pid),
{
    let mut buf: Vec<u8> = Vec::new();
    let mut temp = pid;
    while temp > 0
        invariant
            buf@ + digits_reversed(temp) == digits_reversed(pid),
        decreases temp,
    {
        let d = (0x30 + temp % 10) as u8;
        proof {
            assert(buf@.push(d) + digits_reversed(temp / 10) =~= buf@ + digits_reversed(temp));
        }
        buf.push(d);
        temp = temp / 10;
    }
    proof {
        assert(buf@ =~= digits_reversed(pid));
    }
    let ghost full = buf@;
    let n = buf.len();
    let mut i: usize = 0;
    while i < n / 2
        invariant
            n == buf@.len(),
            n == full.len(),
            0 <= i <= n / 2,
            forall|j: int| 0 <= j < i ==> #[trigger] buf@[j] == full[n - 1 - j],
            forall|j: int| n - i <= j < n ==> #[trigger] buf@[j] == full[n - 1 - j],
            forall|j: int| i <= j < n - i ==> #[trigger] buf@[j] == full[j],
        decreases n / 2 - i,
    {
        let tmp = buf[i];
        let other = buf[n - 1 - i];
        buf.set(i, other);
        buf.set(n - 1 - i, tmp);
        i = i + 1;
    }
    proof {
        assert(buf@ =~= full.reverse());
    }
    buf
}


/// The number a run of decimal digits denotes.
pub open spec fn read_decimal(s: Seq<u8>) -> nat
    decreases s.len(),
{
    if s.len() == 0 {
        0
    } else {
        read_decimal(s.drop_last()) * 10 + (s.last() - 0x30) as nat
    }
}

/// The digits printed for a process id denote that id.
pub proof fn law_decimal_reads_back(n: u64)
    ensures
        read_decimal(decimal(n)) == n,
    decreases n,
{
    if n > 0 {
        law_decimal_reads_back(n / 10);
        let d = (0x30 + n % 10) as u8;
        let r = digits_reversed(n / 10);
        assert((seq![d] + r).reverse() =~= r.reverse().push(d));
        assert(decimal(n) == decimal(n / 10).push(d));
        assert(decimal(n).drop_last() =~= decimal(n / 10));
    } else {
        assert(decimal(n) =~= Seq::<u8>::empty());
    }
}

} // verus!
