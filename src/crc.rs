//! CRC-32 as used by the PNG chunk trailer: reflected, polynomial 0xEDB88320,
//! initial register 0xFFFFFFFF, final register inverted.
use vstd::prelude::*;

verus! {

/// One shift of the reflected CRC register.
pub open spec fn crc_shift(c: u32) -> u32 {
    if c & 1 == 1 {
        (c >> 1) ^ 0xEDB8_8320u32
    } else {
        c >> 1
    }
}

/// Eight shifts: the work done for one input byte once it is XORed in.
pub open spec fn crc_byte_step(c: u32) -> u32 {
    crc_shift(crc_shift(crc_shift(crc_shift(crc_shift(crc_shift(crc_shift(crc_shift(c))))))))
}

/// The CRC register after feeding `s`, before the final inversion.
pub open spec fn crc_register(s: Seq<u8>) -> u32
    decreases s.len(),
{
    if s.len() == 0 {
        0xFFFF_FFFFu32
    } else {
        crc_byte_step(crc_register(s.drop_last()) ^ (s.last() as u32))
    }
}

/// The CRC-32 of a byte sequence.
pub open spec fn crc32(s: Seq<u8>) -> u32 {
    crc_register(s) ^ 0xFFFF_FFFFu32
}

/// Splitting one byte step into a table lookup on the low byte and a plain shift.
proof fn lemma_table_step(c: u32, b: u8)
    ensures
        crc_byte_step(c ^ (b as u32)) == crc_byte_step((c ^ (b as u32)) & 0xff) ^ (c >> 8),
{
    assert(crc_byte_step(c ^ (b as u32)) == crc_byte_step((c ^ (b as u32)) & 0xff) ^ (c >> 8))
        by (bit_vector);
}

proof fn lemma_shift_injective(a: u32, b: u32)
    ensures
        crc_shift(a) == crc_shift(b) ==> a == b,
{
    assert(crc_shift(a) == crc_shift(b) ==> a == b) by (bit_vector);
}

proof fn lemma_byte_step_injective(a: u32, b: u32)
    ensures
        crc_byte_step(a) == crc_byte_step(b) ==> a == b,
{
    let (a1, b1) = (crc_shift(a), crc_shift(b));
    let (a2, b2) = (crc_shift(a1), crc_shift(b1));
    let (a3, b3) = (crc_shift(a2), crc_shift(b2));
    let (a4, b4) = (crc_shift(a3), crc_shift(b3));
    let (a5, b5) = (crc_shift(a4), crc_shift(b4));
    let (a6, b6) = (crc_shift(a5), crc_shift(b5));
    let (a7, b7) = (crc_shift(a6), crc_shift(b6));
    lemma_shift_injective(a, b);
    lemma_shift_injective(a1, b1);
    lemma_shift_injective(a2, b2);
    lemma_shift_injective(a3, b3);
    lemma_shift_injective(a4, b4);
    lemma_shift_injective(a5, b5);
    lemma_shift_injective(a6, b6);
    lemma_shift_injective(a7, b7);
}

/// The registers after two inputs of one length that differ in exactly one byte, taken
/// over any prefix that holds that byte, differ.
proof fn lemma_registers_differ(s: Seq<u8>, t: Seq<u8>, j: int, n: int)
    requires
        s.len() == t.len(),
        0 <= j < n <= s.len(),
        s[j] != t[j],
        forall|i: int| 0 <= i < s.len() && i != j ==> s[i] == t[i],
    ensures
        crc_register(s.take(n)) != crc_register(t.take(n)),
    decreases n,
{
    let (x, y) = (s[n - 1], t[n - 1]);
    assert(s.take(n).drop_last() =~= s.take(n - 1));
    assert(t.take(n).drop_last() =~= t.take(n - 1));
    let (r1, r2) = (crc_register(s.take(n - 1)), crc_register(t.take(n - 1)));
    if n == j + 1 {
        assert(s.take(n - 1) =~= t.take(n - 1));
        assert(x != y ==> r1 ^ (x as u32) != r1 ^ (y as u32)) by (bit_vector);
    } else {
        lemma_registers_differ(s, t, j, n - 1);
        assert(r1 != r2 ==> r1 ^ (x as u32) != r2 ^ (x as u32)) by (bit_vector);
    }
    lemma_byte_step_injective(r1 ^ (x as u32), r2 ^ (y as u32));
}

/// Changing any one byte of the input changes its CRC-32.
pub proof fn lemma_crc_detects_byte_change(s: Seq<u8>, j: int, v: u8)
    requires
        0 <= j < s.len(),
        v != s[j],
    ensures
        crc32(s.update(j, v)) != crc32(s),
{
    let t = s.update(j, v);
    lemma_registers_differ(s, t, j, s.len() as int);
    assert(s.take(s.len() as int) =~= s);
    assert(t.take(t.len() as int) =~= t);
    let (r1, r2) = (crc_register(s), crc_register(t));
    assert(r1 != r2 ==> r1 ^ 0xFFFF_FFFFu32 != r2 ^ 0xFFFF_FFFFu32) by (bit_vector);
}

/// The 256-entry lookup table of the byte step.
pub struct CrcTable {
    entries: Vec<u32>,
}

impl CrcTable {
    pub closed spec fn wf(&self) -> bool {
        &&& self.entries@.len() == 256
        &&& forall|i: int| 0 <= i < 256 ==> self.entries@[i] == crc_byte_step(i as u32)
    }

    /// Builds the table.
    pub fn new() -> (t: CrcTable)
        ensures
            t.wf(),
    {
        let mut entries: Vec<u32> = Vec::with_capacity(256);
        let mut n: u32 = 0;
        while n < 256
            invariant
                n <= 256,
                entries@.len() == n,
                forall|i: int| 0 <= i < n ==> entries@[i] == crc_byte_step(i as u32),
            decreases 256 - n,
        {
            let c: u32 = Self::byte_step(n);
            entries.push(c);
            n = n + 1;
        }
        CrcTable { entries }
    }

    fn shift(c: u32) -> (r: u32)
        ensures
            r == crc_shift(c),
    {
        if c & 1 == 1 {
            (c >> 1) ^ 0xEDB8_8320u32
        } else {
            c >> 1
        }
    }

    fn byte_step(c: u32) -> (r: u32)
        ensures
            r == crc_byte_step(c),
    {
        let mut r: u32 = Self::shift(c);
        r = Self::shift(r);
        r = Self::shift(r);
        r = Self::shift(r);
        r = Self::shift(r);
        r = Self::shift(r);
        r = Self::shift(r);
        Self::shift(r)
    }

    /// The CRC-32 of `bytes`.
    pub fn compute(&self, bytes: &[u8]) -> (r: u32)
        requires
            self.wf(),
        ensures
            r == crc32(bytes@),
    {
        let mut c: u32 = 0xFFFF_FFFF;
        let mut i: usize = 0;
        while i < bytes.len()
            invariant
                self.wf(),
                i <= bytes@.len(),
                c == crc_register(bytes@.subrange(0, i as int)),
            decreases bytes@.len() - i,
        {
            let b: u8 = bytes[i];
            proof {
                lemma_table_step(c, b);
                let s = bytes@.subrange(0, i as int + 1);
                assert(s.drop_last() =~= bytes@.subrange(0, i as int));
            }
            let x: u32 = c ^ (b as u32);
            assert(x & 0xff < 256) by (bit_vector);
            c = self.entries[(x & 0xff) as usize] ^ (c >> 8);
            i = i + 1;
        }
        assert(bytes@.subrange(0, i as int) =~= bytes@);
        c ^ 0xFFFF_FFFF
    }

    /// Whether the CRC-32 of `bytes` is `expected`.
    pub fn verify(&self, bytes: &[u8], expected: u32) -> (r: bool)
        requires
            self.wf(),
        ensures
            r == (crc32(bytes@) == expected),
    {
        self.compute(bytes) == expected
    }
}

} // verus!
