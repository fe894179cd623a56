use vstd::prelude::*;
use vstd::utf8::encode_utf8;

verus! {

/// The starting value of the fingerprint (64-bit FNV-1a offset basis).
pub const FINGERPRINT_BASIS: u64 = 0xcbf29ce484222325;

/// The multiplier of the fingerprint (64-bit FNV-1a prime).
pub const FINGERPRINT_PRIME: u64 = 0x100000001b3;

/// A point in an article's history: a fingerprint of the text at that point.
/// Two versions are equal exactly when their fingerprints are.
#[derive(Clone, Copy, Debug, PartialEq, Eq, Structural)]
pub struct EditVersion {
    pub hash: u64,
}

/// One step of the fingerprint: mix in the byte `b`.
pub open spec fn mix(h: u64, b: u8) -> u64 {
    (((h ^ (b as u64)) as nat * FINGERPRINT_PRIME as nat) % 0x1_0000_0000_0000_0000) as u64
}

/// The fingerprint `h` with the bytes `bs` mixed in, in order.
pub open spec fn mix_bytes(h: u64, bs: Seq<u8>) -> u64
    decreases bs.len(),
{
    if bs.len() == 0 {
        h
    } else {
        mix(mix_bytes(h, bs.drop_last()), bs.last())
    }
}

/// The bytes that a text of lines is fingerprinted over: each line in UTF-8, then a newline.
pub open spec fn text_bytes(lines: Seq<String>) -> Seq<u8>
    decreases lines.len(),
{
    if lines.len() == 0 {
        Seq::empty()
    } else {
        text_bytes(lines.drop_last()) + encode_utf8(lines.last()@) + seq![10u8]
    }
}

/// The version of a text.
pub open spec fn version_of(lines: Seq<String>) -> EditVersion {
    EditVersion { hash: mix_bytes(FINGERPRINT_BASIS, text_bytes(lines)) }
}

proof fn lemma_mix_bytes_append(h: u64, a: Seq<u8>, b: Seq<u8>)
    ensures
        mix_bytes(h, a + b) == mix_bytes(mix_bytes(h, a), b),
    decreases b.len(),
{
    if b.len() == 0 {
        assert(a + b =~= a);
    } else {
        assert((a + b).drop_last() =~= a + b.drop_last());
        lemma_mix_bytes_append(h, a, b.drop_last());
    }
}

/// The fingerprint `h` with the bytes `bs` mixed in.
fn mix_slice(h: u64, bs: &[u8]) -> (r: u64)
    ensures
        r == mix_bytes(h, bs@),
{
    let mut acc: u64 = h;
    let mut i: usize = 0;
    while i < bs.len()
        invariant
            i <= bs@.len(),
            acc == mix_bytes(h, bs@.subrange(0, i as int)),
        decreases bs@.len() - i,
    {
        assert(bs@.subrange(0, i as int + 1).drop_last() =~= bs@.subrange(0, i as int));
        acc = (acc ^ (bs[i] as u64)).wrapping_mul(FINGERPRINT_PRIME);
        i += 1;
    }
    assert(bs@.subrange(0, bs@.len() as int) =~= bs@);
    acc
}

/// The version of a text given as its lines.
pub fn text_version(lines: &Vec<String>) -> (r: EditVersion)
    ensures
        r == version_of(lines@),
{
    let mut acc: u64 = FINGERPRINT_BASIS;
    let mut i: usize = 0;
    while i < lines.len()
        invariant
            i <= lines@.len(),
            acc == mix_bytes(FINGERPRINT_BASIS, text_bytes(lines@.subrange(0, i as int))),
        decreases lines@.len() - i,
    {
        let ghost prev = lines@.subrange(0, i as int);
        let ghost next = lines@.subrange(0, i as int + 1);
        assert(next.drop_last() =~= prev);
        let line: &str = lines[i].as_str();
        let bytes = line.as_bytes();
        let newline: [u8; 1] = [10u8];
        let with_line = mix_slice(acc, bytes);
        let nl = mix_slice(with_line, newline.as_slice());
        proof {
            assert(newline@ =~= seq![10u8]);
            lemma_mix_bytes_append(FINGERPRINT_BASIS, text_bytes(prev), encode_utf8(lines@[i as int]@));
            lemma_mix_bytes_append(
                FINGERPRINT_BASIS,
                text_bytes(prev) + encode_utf8(lines@[i as int]@),
                seq![10u8],
            );
        }
        acc = nl;
        i += 1;
    }
    assert(lines@.subrange(0, lines@.len() as int) =~= lines@);
    EditVersion { hash: acc }
}

} // verus!
