use vstd::prelude::*;

verus! {

/// Block size to which response payloads are padded.
pub const BLOCK_SIZE: usize = 256;

/// The ASCII space byte used as padding.
pub const SPACE: u8 = 32;

/// `n` space bytes.
pub open spec fn spaces(n: nat) -> Seq<u8> {
    Seq::new(n, |i: int| SPACE)
}

/// `message` followed by the fewest spaces that make its length a multiple
/// of `block_size`.
pub open spec fn padded(message: Seq<u8>, block_size: nat) -> Seq<u8>
    recommends
        block_size > 0,
{
    let surplus = message.len() % block_size;
    if surplus == 0 {
        message
    } else {
        message + spaces((block_size - surplus) as nat)
    }
}

/// Pads `message` with spaces at its end up to a multiple of `block_size`;
/// leaves it as it is when its length already is one.
pub fn space_pad(block_size: usize, message: &mut Vec<u8>)
    requires
        block_size > 0,
        old(message)@.len() + block_size <= usize::MAX,
    ensures
        final(message)@ == padded(old(message)@, block_size as nat),
{
    let len = message.len();
    let surplus = len % block_size;
    if surplus == 0 {
        return;
    }
    let missing = block_size - surplus;
    let mut i: usize = 0;
    while i < missing
        invariant
            i <= missing,
            missing == block_size - surplus,
            message@.len() == len + i,
            message@ == old(message)@ + spaces(i as nat),
            len == old(message)@.len(),
            len + block_size <= usize::MAX,
        decreases missing - i,
    {
        message.push(SPACE);
        i = i + 1;
        assert(message@ =~= old(message)@ + spaces(i as nat));
    }
}

/// Padding gives a length that is a multiple of the block size, keeps the
/// message as a prefix, adds nothing but spaces, and padding again changes
/// nothing.
pub proof fn lemma_padded(message: Seq<u8>, block_size: nat)
    requires
        block_size > 0,
    ensures
        padded(message, block_size).len() % block_size == 0,
        padded(message, block_size).len() >= message.len(),
        padded(message, block_size).subrange(0, message.len() as int) == message,
        forall|i: int|
            message.len() <= i < padded(message, block_size).len() ==> #[trigger] padded(
                message,
                block_size,
            )[i] == SPACE,
        padded(padded(message, block_size), block_size) == padded(message, block_size),
{
    let p = padded(message, block_size);
    let surplus = message.len() % block_size;
    if surplus != 0 {
        let len = message.len() as int;
        let b = block_size as int;
        assert((len + (b - len % b)) % b == 0) by {
            vstd::arithmetic::div_mod::lemma_fundamental_div_mod(len, b);
            vstd::arithmetic::div_mod::lemma_mod_multiples_basic(len / b + 1, b);
            assert(len + (b - len % b) == (len / b + 1) * b) by (nonlinear_arith)
                requires
                    len == b * (len / b) + len % b,
            ;
        }
        assert(p.subrange(0, len) =~= message);
    } else {
        assert(p.subrange(0, message.len() as int) =~= message);
    }
}

} // verus!
