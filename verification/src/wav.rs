//! WAV files of 16 bit stereo samples.
use vstd::prelude::*;

verus! {

/// A number of four bytes, the lowest first.
pub open spec fn le32(n: u32) -> Seq<u8> {
    seq![
        (n % 256) as u8,
        (n / 256 % 256) as u8,
        (n / 65536 % 256) as u8,
        (n / 16777216) as u8,
    ]
}

/// A number of two bytes, the lowest first.
pub open spec fn le16(n: u16) -> Seq<u8> {
    seq![(n % 256) as u8, (n / 256) as u8]
}

/// The number that four bytes stand for.
pub open spec fn from_le32(b: Seq<u8>) -> int {
    b[0] + 256 * b[1] + 65536 * b[2] + 16777216 * b[3]
}

/// A sample in two's complement.
pub open spec fn sample_bits(s: i16) -> u16 {
    if s >= 0 {
        s as u16
    } else {
        (65536 + s) as u16
    }
}

/// How many bytes the header says that the samples take: four for each pair.
pub open spec fn data_len(samples: nat) -> nat {
    samples / 2 * 4
}

/// The bytes of the samples.
pub open spec fn sample_bytes(s: Seq<i16>) -> Seq<u8>
    decreases s.len(),
{
    if s.len() == 0 {
        Seq::empty()
    } else {
        sample_bytes(s.drop_last()) + le16(sample_bits(s.last()))
    }
}

/// The header: two channels of 16 bit PCM.
pub open spec fn header(samples: nat, rate: u32) -> Seq<u8> {
    seq![0x52u8, 0x49, 0x46, 0x46] + le32((36 + data_len(samples)) as u32) + seq![
        0x57u8,
        0x41,
        0x56,
        0x45,
        0x66,
        0x6D,
        0x74,
        0x20,
    ] + le32(16) + le16(1) + le16(2) + le32(rate) + le32((rate * 4) as u32) + le16(4) + le16(16)
        + seq![0x64u8, 0x61, 0x74, 0x61] + le32(data_len(samples) as u32)
}

/// The file of the given samples, which alternate between left and right.
pub open spec fn file_of(s: Seq<i16>, rate: u32) -> Seq<u8> {
    header(s.len(), rate) + sample_bytes(s)
}

fn push32(v: &mut Vec<u8>, n: u32)
    ensures
        final(v)@ == old(v)@ + le32(n),
{
    let ghost before = v@;
    v.push((n % 256) as u8);
    v.push((n / 256 % 256) as u8);
    v.push((n / 65536 % 256) as u8);
    v.push((n / 16777216) as u8);
    assert(v@ =~= before + le32(n));
}

fn push16(v: &mut Vec<u8>, n: u16)
    ensures
        final(v)@ == old(v)@ + le16(n),
{
    let ghost before = v@;
    v.push((n % 256) as u8);
    v.push((n / 256) as u8);
    assert(v@ =~= before + le16(n));
}

fn push4(v: &mut Vec<u8>, a: u8, b: u8, c: u8, d: u8)
    ensures
        final(v)@ == old(v)@ + seq![a, b, c, d],
{
    let ghost before = v@;
    v.push(a);
    v.push(b);
    v.push(c);
    v.push(d);
    assert(v@ =~= before + seq![a, b, c, d]);
}

fn bits_of(s: i16) -> (r: u16)
    ensures
        r == sample_bits(s),
{
    if s >= 0 {
        s as u16
    } else {
        (65536i32 + s as i32) as u16
    }
}

/// The bytes of a WAV file.
pub fn write_wav_pcm16(samples: &Vec<i16>, sample_rate: u32) -> (r: Vec<u8>)
    requires
        36 + data_len(samples@.len()) <= u32::MAX,
        sample_rate * 4 <= u32::MAX,
    ensures
        r@ == file_of(samples@, sample_rate),
{
    let n: u32 = (samples.len() / 2 * 4) as u32;
    let mut r: Vec<u8> = Vec::new();
    push4(&mut r, 0x52, 0x49, 0x46, 0x46);
    push32(&mut r, 36 + n);
    push4(&mut r, 0x57, 0x41, 0x56, 0x45);
    push4(&mut r, 0x66, 0x6D, 0x74, 0x20);
    push32(&mut r, 16);
    push16(&mut r, 1);
    push16(&mut r, 2);
    push32(&mut r, sample_rate);
    push32(&mut r, sample_rate * 4);
    push16(&mut r, 4);
    push16(&mut r, 16);
    push4(&mut r, 0x64, 0x61, 0x74, 0x61);
    push32(&mut r, n);
    assert(r@ =~= header(samples@.len(), sample_rate));
    let ghost head = r@;
    let mut i: usize = 0;
    assert(r@ =~= head + sample_bytes(samples@.take(0)));
    while i < samples.len()
        invariant
            i <= samples@.len(),
            r@ == head + sample_bytes(samples@.take(i as int)),
        decreases samples.len() - i,
    {
        assert(samples@.take(i + 1).drop_last() =~= samples@.take(i as int));
        push16(&mut r, bits_of(samples[i]));
        assert(r@ =~= head + sample_bytes(samples@.take(i + 1)));
        i = i + 1;
    }
    assert(samples@.take(samples@.len() as int) =~= samples@);
    r
}

proof fn lemma_le32(n: u32)
    ensures
        from_le32(le32(n)) == n,
{
    let b = le32(n);
    assert(b[0] == n % 256);
    assert(b[1] == n / 256 % 256);
    assert(b[2] == n / 65536 % 256);
    assert(b[3] == n / 16777216);
    assert(n % 256 + 256 * (n / 256 % 256) + 65536 * (n / 65536 % 256) + 16777216 * (n / 16777216)
        == n) by (bit_vector);
}

proof fn lemma_sample_bytes_len(s: Seq<i16>)
    ensures
        sample_bytes(s).len() == 2 * s.len(),
    decreases s.len(),
{
    if s.len() > 0 {
        lemma_sample_bytes_len(s.drop_last());
    }
}

/// The header takes 44 bytes and the samples two each. Where the samples come in pairs, the
/// header says how many bytes of them follow, and how many follow its own beginning.
pub proof fn law_wav_sizes(s: Seq<i16>, rate: u32)
    requires
        36 + data_len(s.len()) <= u32::MAX,
        s.len() % 2 == 0,
    ensures
        file_of(s, rate).len() == 44 + 2 * s.len(),
        from_le32(file_of(s, rate).subrange(40, 44)) == 2 * s.len(),
        from_le32(file_of(s, rate).subrange(4, 8)) == file_of(s, rate).len() - 8,
        from_le32(file_of(s, rate).subrange(24, 28)) == rate,
{
    lemma_sample_bytes_len(s);
    let f = file_of(s, rate);
    assert(f.subrange(40, 44) =~= le32(data_len(s.len()) as u32));
    assert(f.subrange(4, 8) =~= le32((36 + data_len(s.len())) as u32));
    assert(f.subrange(24, 28) =~= le32(rate));
    lemma_le32(data_len(s.len()) as u32);
    lemma_le32((36 + data_len(s.len())) as u32);
    lemma_le32(rate);
}

/// A sample as its two bytes tell it.
pub open spec fn from_le16(lo: u8, hi: u8) -> int {
    let n = lo + 256 * hi;
    if n >= 32768 {
        n - 65536
    } else {
        n
    }
}

proof fn lemma_sample_at(s: Seq<i16>, i: int)
    requires
        0 <= i < s.len(),
    ensures
        from_le16(sample_bytes(s)[2 * i], sample_bytes(s)[2 * i + 1]) == s[i],
    decreases s.len(),
{
    let rest = s.drop_last();
    lemma_sample_bytes_len(rest);
    lemma_sample_bytes_len(s);
    if i < rest.len() {
        lemma_sample_at(rest, i);
        assert(sample_bytes(s)[2 * i] == sample_bytes(rest)[2 * i]);
        assert(sample_bytes(s)[2 * i + 1] == sample_bytes(rest)[2 * i + 1]);
    } else {
        let u = sample_bits(s.last());
        assert(sample_bytes(s)[2 * i] == le16(u)[0]);
        assert(sample_bytes(s)[2 * i + 1] == le16(u)[1]);
        assert(u % 256 + 256 * (u / 256) == u);
        assert(le16(u)[0] == u % 256 && le16(u)[1] == u / 256);
    }
}

/// A file gives back each of its samples, in their order, behind a header of 44 bytes that says what
/// they are: PCM in two channels of 16 bits, four bytes for each pair.
pub proof fn law_wav_gives_back_its_samples(s: Seq<i16>, rate: u32, i: int)
    requires
        36 + data_len(s.len()) <= u32::MAX,
        rate * 4 <= u32::MAX,
        0 <= i < s.len(),
    ensures
        ({
            let f = file_of(s, rate);
            &&& f.len() == 44 + 2 * s.len()
            &&& from_le16(f[44 + 2 * i], f[44 + 2 * i + 1]) == s[i]
            &&& f.subrange(0, 4) == seq![0x52u8, 0x49, 0x46, 0x46]
            &&& f.subrange(8, 16) == seq![0x57u8, 0x41, 0x56, 0x45, 0x66, 0x6D, 0x74, 0x20]
            &&& from_le32(f.subrange(16, 20)) == 16
            &&& from_le16(f[20], f[21]) == 1
            &&& from_le16(f[22], f[23]) == 2
            &&& from_le32(f.subrange(24, 28)) == rate
            &&& from_le32(f.subrange(28, 32)) == rate * 4
            &&& from_le16(f[32], f[33]) == 4
            &&& from_le16(f[34], f[35]) == 16
            &&& f.subrange(36, 40) == seq![0x64u8, 0x61, 0x74, 0x61]
            &&& from_le32(f.subrange(40, 44)) == s.len() / 2 * 4
        }),
{
    lemma_sample_bytes_len(s);
    lemma_sample_at(s, i);
    let f = file_of(s, rate);
    assert(f.subrange(0, 4) =~= seq![0x52u8, 0x49, 0x46, 0x46]);
    assert(f.subrange(8, 16) =~= seq![0x57u8, 0x41, 0x56, 0x45, 0x66, 0x6D, 0x74, 0x20]);
    assert(f.subrange(16, 20) =~= le32(16));
    assert(f.subrange(24, 28) =~= le32(rate));
    assert(f.subrange(28, 32) =~= le32((rate * 4) as u32));
    assert(f.subrange(36, 40) =~= seq![0x64u8, 0x61, 0x74, 0x61]);
    assert(f.subrange(40, 44) =~= le32(data_len(s.len()) as u32));
    assert(f.subrange(20, 22) =~= le16(1));
    assert(f.subrange(22, 24) =~= le16(2));
    assert(f.subrange(32, 34) =~= le16(4));
    assert(f.subrange(34, 36) =~= le16(16));
    assert(f[20] == f.subrange(20, 22)[0] && f[21] == f.subrange(20, 22)[1]);
    assert(f[22] == f.subrange(22, 24)[0] && f[23] == f.subrange(22, 24)[1]);
    assert(f[32] == f.subrange(32, 34)[0] && f[33] == f.subrange(32, 34)[1]);
    assert(f[34] == f.subrange(34, 36)[0] && f[35] == f.subrange(34, 36)[1]);
    lemma_le32(16);
    lemma_le32(rate);
    lemma_le32((rate * 4) as u32);
    lemma_le32(data_len(s.len()) as u32);
}

} // verus!
