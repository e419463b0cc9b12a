use vstd::prelude::*;

verus! {

/// The sum of the big-endian 16-bit words of the bytes from `i` on; an odd
/// trailing byte counts as the high half of a final word.
pub open spec fn words_sum(d: Seq<u8>, i: int) -> int
    decreases d.len() - i,
{
    if i + 2 <= d.len() && 0 <= i {
        d[i] * 256 + d[i + 1] + words_sum(d, i + 2)
    } else if i + 1 <= d.len() && 0 <= i {
        d[i] * 256
    } else {
        0
    }
}

/// End-around carry: folds the upper half into the lower until the value
/// fits sixteen bits.
pub open spec fn fold_carry(x: int) -> int
    decreases x,
{
    if 0 <= x < 0x10000 {
        x
    } else if x >= 0x10000 {
        fold_carry(x % 0x10000 + x / 0x10000)
    } else {
        0
    }
}

/// The internet checksum of the bytes: the one's complement of the folded
/// word sum.
pub open spec fn spec_checksum(d: Seq<u8>) -> int {
    0xFFFF - fold_carry(words_sum(d, 0))
}

pub proof fn lemma_words_sum_bound(d: Seq<u8>, i: int)
    requires
        0 <= i <= d.len(),
    ensures
        0 <= words_sum(d, i) <= (d.len() - i) * 0x8000 + 0x8000,
    decreases d.len() - i,
{
    if i + 2 <= d.len() && 0 <= i {
        lemma_words_sum_bound(d, i + 2);
    }
}

/// Computes the internet checksum, as `spec_checksum` describes.
pub fn checksum(data: &[u8]) -> (r: u16)
    requires
        data@.len() <= 0x10000,
    ensures
        r == spec_checksum(data@),
{
    let n = data.len();
    let mut sum: u32 = 0;
    let mut i: usize = 0;
    proof {
        lemma_words_sum_bound(data@, 0);
    }
    while i + 2 <= n
        invariant
            i <= n,
            n == data@.len(),
            n <= 0x10000,
            i % 2 == 0,
            sum + words_sum(data@, i as int) == words_sum(data@, 0),
            0 <= words_sum(data@, 0) <= 0x8000_8000,
            sum <= words_sum(data@, 0),
        decreases n - i,
    {
        proof {
            lemma_words_sum_bound(data@, i as int);
            lemma_words_sum_bound(data@, i + 2);
        }
        let w: u32 = data[i] as u32 * 256 + data[i + 1] as u32;
        sum = sum + w;
        i = i + 2;
    }
    if i < n {
        proof {
            lemma_words_sum_bound(data@, i as int);
        }
        sum = sum + data[i] as u32 * 256;
    }
    proof {
        assert(sum == words_sum(data@, 0));
    }
    while sum >= 0x10000
        invariant
            sum >= 0,
            fold_carry(sum as int) == fold_carry(words_sum(data@, 0)),
        decreases sum,
    {
        let lo = sum % 0x10000;
        let hi = sum / 0x10000;
        sum = lo + hi;
    }
    proof {
        assert(fold_carry(sum as int) == sum as int);
        assert(0xFFFFu32 - sum == 0xFFFF - fold_carry(words_sum(data@, 0)));
    }
    0xFFFFu16 - (sum as u16)
}

/// The eight bytes of an ICMP echo request carrying `sequence`: type eight,
/// code zero, then the checksum, then the sequence split across the
/// identifier high byte, identifier low byte and the final byte.
pub open spec fn spec_icmp_packet(sequence: u16) -> Seq<u8> {
    let base = seq![
        8u8,
        0u8,
        0u8,
        0u8,
        (sequence / 256) as u8,
        (sequence % 256) as u8,
        0u8,
        (sequence % 256) as u8,
    ];
    let ck = spec_checksum(base);
    base.update(2, (ck / 256) as u8).update(3, (ck % 256) as u8)
}

/// Builds an ICMP echo request packet, as `spec_icmp_packet` describes.
pub fn build_icmp_packet(sequence: u16) -> (r: Vec<u8>)
    ensures
        r@ == spec_icmp_packet(sequence),
{
    let mut packet: Vec<u8> = Vec::new();
    packet.push(8u8);
    packet.push(0u8);
    packet.push(0u8);
    packet.push(0u8);
    packet.push((sequence >> 8) as u8);
    packet.push((sequence & 0xff) as u8);
    packet.push(0u8);
    packet.push(sequence as u8);
    proof {
        assert(sequence >> 8 == sequence / 256) by (bit_vector);
        assert(sequence & 0xff == sequence % 256) by (bit_vector);
        assert(sequence as u8 == (sequence % 256) as u8) by (bit_vector);
        assert(packet@ =~= seq![
            8u8,
            0u8,
            0u8,
            0u8,
            (sequence / 256) as u8,
            (sequence % 256) as u8,
            0u8,
            (sequence % 256) as u8,
        ]);
    }
    let ghost base = packet@;
    let ck = checksum(packet.as_slice());
    let hi = (ck / 256) as u8;
    let lo = (ck % 256) as u8;
    let mut out = packet;
    out.set(2, hi);
    out.set(3, lo);
    proof {
        assert(ck as int == spec_checksum(base));
        assert(spec_checksum(base) < 0x10000);
        assert(out@ =~= base.update(2, ((spec_checksum(base)) / 256) as u8).update(
            3,
            ((spec_checksum(base)) % 256) as u8,
        ));
    }
    out
}

} // verus!
