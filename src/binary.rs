//! A cursor over an in-memory byte container: fixed-width little-endian
//! integers, byte runs, relative jumps, and RAR-style variable-length integers.
use vstd::prelude::*;

verus! {

/// 256 to the power `n`.
pub open spec fn pow256(n: nat) -> nat
    decreases n,
{
    if n == 0 {
        1
    } else {
        256 * pow256((n - 1) as nat)
    }
}

/// The number that the bytes of `s` spell out, least significant byte first.
pub open spec fn le_value(s: Seq<u8>) -> nat
    decreases s.len(),
{
    if s.len() == 0 {
        0
    } else {
        s[0] as nat + 256 * le_value(s.drop_first())
    }
}

/// The `n` least significant bytes of `v`, least significant byte first.
pub open spec fn le_bytes(v: nat, n: nat) -> Seq<u8>
    decreases n,
{
    if n == 0 {
        Seq::empty()
    } else {
        seq![(v % 256) as u8] + le_bytes(v / 256, (n - 1) as nat)
    }
}

/// The little-endian number stored in `s[i .. i + n]`.
pub open spec fn le_at(s: Seq<u8>, i: int, n: int) -> nat {
    le_value(s.subrange(i, i + n))
}

/// Whether `s[i .. i + n]` lies within `s`.
pub open spec fn fits(s: Seq<u8>, i: int, n: int) -> bool {
    0 <= i && 0 <= n && i + n <= s.len()
}

/// The powers of 256 that the fixed-width reads use.
pub proof fn lemma_pow256_values()
    ensures
        pow256(1) == 0x100,
        pow256(2) == 0x1_0000,
        pow256(4) == 0x1_0000_0000,
        pow256(8) == 0x1_0000_0000_0000_0000,
{
    assert(pow256(0) == 1);
    assert(pow256(1) == 0x100);
    assert(pow256(2) == 0x1_0000);
    assert(pow256(3) == 0x100_0000);
    assert(pow256(4) == 0x1_0000_0000);
    assert(pow256(5) == 0x100_0000_0000);
    assert(pow256(6) == 0x1_0000_0000_0000);
    assert(pow256(7) == 0x100_0000_0000_0000);
    assert(pow256(8) == 0x1_0000_0000_0000_0000);
}

pub proof fn lemma_le_bytes_len(v: nat, n: nat)
    ensures
        le_bytes(v, n).len() == n,
    decreases n,
{
    if n > 0 {
        lemma_le_bytes_len(v / 256, (n - 1) as nat);
    }
}

pub proof fn lemma_pow256_mono(a: nat, b: nat)
    requires
        a <= b,
    ensures
        pow256(a) <= pow256(b),
    decreases b,
{
    if a < b {
        lemma_pow256_mono(a, (b - 1) as nat);
    }
}

/// Writing `v` in `n` little-endian bytes and reading them back gives `v`.
pub proof fn lemma_le_round_trip(v: nat, n: nat)
    requires
        v < pow256(n),
    ensures
        le_value(le_bytes(v, n)) == v,
        le_bytes(v, n).len() == n,
    decreases n,
{
    lemma_le_bytes_len(v, n);
    if n > 0 {
        let rest = le_bytes(v / 256, (n - 1) as nat);
        assert(le_bytes(v, n).drop_first() =~= rest);
        assert(v / 256 < pow256((n - 1) as nat)) by {
            vstd::arithmetic::div_mod::lemma_fundamental_div_mod(v as int, 256);
        }
        lemma_le_round_trip(v / 256, (n - 1) as nat);
        vstd::arithmetic::div_mod::lemma_fundamental_div_mod(v as int, 256);
    }
}

/// Appends the `n` least significant bytes of `v`, least significant first.
pub fn write_le(out: &mut Vec<u8>, v: u64, n: usize)
    requires
        n <= 8,
    ensures
        final(out)@ == old(out)@ + le_bytes(v as nat, n as nat),
{
    let mut cur: u64 = v;
    let mut i: usize = 0;
    while i < n
        invariant
            i <= n,
            out@ + le_bytes(cur as nat, (n - i) as nat) == old(out)@ + le_bytes(v as nat, n as nat),
        decreases n - i,
    {
        let ghost before = out@;
        out.push((cur % 256) as u8);
        assert(le_bytes(cur as nat, (n - i) as nat) == seq![(cur % 256) as u8] + le_bytes(
            (cur / 256) as nat,
            (n - i - 1) as nat,
        ));
        assert(out@ + le_bytes((cur / 256) as nat, (n - i - 1) as nat) =~= before + le_bytes(
            cur as nat,
            (n - i) as nat,
        ));
        cur = cur / 256;
        i = i + 1;
    }
    assert(le_bytes(cur as nat, 0) =~= Seq::<u8>::empty());
    assert(out@ + le_bytes(cur as nat, 0) =~= out@);
}

/// Appends `v` as two little-endian bytes.
pub fn write_u16le(out: &mut Vec<u8>, v: u16)
    ensures
        final(out)@ == old(out)@ + le_bytes(v as nat, 2),
{
    write_le(out, v as u64, 2);
}

/// Appends `v` as four little-endian bytes.
pub fn write_u32le(out: &mut Vec<u8>, v: u32)
    ensures
        final(out)@ == old(out)@ + le_bytes(v as nat, 4),
{
    write_le(out, v as u64, 4);
}

/// Appends `v` as eight little-endian bytes.
pub fn write_u64le(out: &mut Vec<u8>, v: u64)
    ensures
        final(out)@ == old(out)@ + le_bytes(v as nat, 8),
{
    write_le(out, v, 8);
}

/// The byte length of the variable-length integer at the start of `s`: its
/// bytes run up to and including the first byte whose high bit is clear.
pub open spec fn vint_len(s: Seq<u8>) -> Option<nat>
    decreases s.len(),
{
    if s.len() == 0 {
        None
    } else if s[0] < 128 {
        Some(1)
    } else {
        match vint_len(s.drop_first()) {
            Some(n) => Some(n + 1),
            None => None,
        }
    }
}

/// The number that the 7-bit groups of `s` spell out, least significant group first.
pub open spec fn vint_digits(s: Seq<u8>) -> nat
    decreases s.len(),
{
    if s.len() == 0 {
        0
    } else {
        (s[0] % 128) as nat + 128 * vint_digits(s.drop_first())
    }
}

/// The variable-length integer that starts at `s[i]`: its value and byte length.
pub open spec fn vint_at(s: Seq<u8>, i: int) -> Option<(nat, nat)> {
    if 0 <= i <= s.len() {
        match vint_len(s.subrange(i, s.len() as int)) {
            Some(n) => Some((vint_digits(s.subrange(i, i + n)), n)),
            None => None,
        }
    } else {
        None
    }
}

/// The shortest variable-length encoding of `v`.
pub open spec fn vint_bytes(v: nat) -> Seq<u8>
    decreases v,
{
    if v < 128 {
        seq![v as u8]
    } else {
        seq![(v % 128 + 128) as u8] + vint_bytes(v / 128)
    }
}

proof fn lemma_vint_bytes_len(v: nat, rest: Seq<u8>)
    ensures
        vint_len(vint_bytes(v) + rest) == Some(vint_bytes(v).len()),
        vint_digits(vint_bytes(v)) == v,
    decreases v,
{
    let t = vint_bytes(v) + rest;
    if v < 128 {
        assert(vint_bytes(v).drop_first() =~= Seq::<u8>::empty());
        assert(vint_digits(Seq::<u8>::empty()) == 0);
        assert(vint_digits(vint_bytes(v)) == (v as u8 % 128) as nat + 128 * vint_digits(
            Seq::<u8>::empty(),
        ));
    } else {
        lemma_vint_bytes_len(v / 128, rest);
        assert(t.drop_first() =~= vint_bytes(v / 128) + rest);
        assert(vint_bytes(v).drop_first() =~= vint_bytes(v / 128));
        vstd::arithmetic::div_mod::lemma_fundamental_div_mod(v as int, 128);
        assert(((v % 128 + 128) as u8) % 128 == v % 128);
        assert(vint_digits(vint_bytes(v)) == (v % 128) + 128 * vint_digits(vint_bytes(v / 128)));
    }
}

/// Decoding the encoding of `v`, followed by any bytes, gives back `v` and
/// the encoding's length.
pub proof fn lemma_vint_round_trip(v: nat, rest: Seq<u8>)
    ensures
        vint_at(vint_bytes(v) + rest, 0) == Some((v, vint_bytes(v).len())),
{
    let t = vint_bytes(v) + rest;
    lemma_vint_bytes_len(v, rest);
    assert(t.subrange(0, t.len() as int) =~= t);
    assert(t.subrange(0, vint_bytes(v).len() as int) =~= vint_bytes(v));
}

proof fn lemma_vint_digits_suffix(s: Seq<u8>, a: int, b: int, end: int)
    requires
        0 <= a <= b <= end <= s.len(),
    ensures
        vint_digits(s.subrange(a, end)) >= vint_digits(s.subrange(b, end)),
    decreases b - a,
{
    if a < b {
        lemma_vint_digits_suffix(s, a + 1, b, end);
        assert(s.subrange(a, end).drop_first() =~= s.subrange(a + 1, end));
    }
}

/// Appends the bytes of `b`.
pub fn write_bytes(out: &mut Vec<u8>, b: &[u8])
    ensures
        final(out)@ == old(out)@ + b@,
{
    let mut i: usize = 0;
    while i < b.len()
        invariant
            i <= b@.len(),
            out@ == old(out)@ + b@.subrange(0, i as int),
        decreases b@.len() - i,
    {
        out.push(b[i]);
        assert(b@.subrange(0, i + 1) =~= b@.subrange(0, i as int).push(b@[i as int]));
        i = i + 1;
    }
    assert(b@.subrange(0, b@.len() as int) =~= b@);
}

/// A read position over an owned byte container.
pub struct Reader {
    pub data: Vec<u8>,
    pub pos: usize,
}

impl Reader {
    /// A reader at the start of `data`.
    pub fn new(data: Vec<u8>) -> (r: Reader)
        ensures
            r.data@ == data@,
            r.pos == 0,
    {
        Reader { data, pos: 0 }
    }

    /// The number of bytes in the container.
    pub fn size(&self) -> (r: usize)
        ensures
            r == self.data@.len(),
    {
        self.data.len()
    }

    /// The current position.
    pub fn position(&self) -> (r: usize)
        ensures
            r == self.pos,
    {
        self.pos
    }

    /// Moves to the absolute position `pos`.
    pub fn seek(&mut self, pos: usize)
        ensures
            final(self).data@ == old(self).data@,
            final(self).pos == pos,
    {
        self.pos = pos;
    }

    /// Moves to the start.
    pub fn rewind(&mut self)
        ensures
            final(self).data@ == old(self).data@,
            final(self).pos == 0,
    {
        self.pos = 0;
    }

    /// Whether `n` more bytes can be read.
    pub fn has(&self, n: u64) -> (r: bool)
        ensures
            r == fits(self.data@, self.pos as int, n as int),
            self.data@.len() <= usize::MAX,
    {
        self.pos <= self.data.len() && n <= (self.data.len() - self.pos) as u64
    }

    /// Moves `n` bytes forward when they lie within the container; otherwise
    /// stays and returns `false`.
    pub fn jump(&mut self, n: u64) -> (r: bool)
        ensures
            final(self).data@ == old(self).data@,
            r == fits(old(self).data@, old(self).pos as int, n as int),
            r ==> final(self).pos == old(self).pos + n,
            !r ==> final(self).pos == old(self).pos,
    {
        if self.has(n) {
            self.pos = self.pos + n as usize;
            true
        } else {
            false
        }
    }

    /// Moves `n` bytes forward, past the end of the container if need be; a
    /// position beyond what a `usize` holds stops at `usize::MAX`.
    pub fn advance(&mut self, n: u64)
        ensures
            final(self).data@ == old(self).data@,
            final(self).pos == if old(self).pos + n > usize::MAX {
                usize::MAX as int
            } else {
                old(self).pos + n
            },
    {
        if n > (usize::MAX - self.pos) as u64 {
            self.pos = usize::MAX;
        } else {
            self.pos = self.pos + n as usize;
        }
    }

    /// The next byte.
    pub fn read_u8(&mut self) -> (r: Option<u8>)
        ensures
            final(self).data@ == old(self).data@,
            fits(old(self).data@, old(self).pos as int, 1) ==> r == Some(
                old(self).data@[old(self).pos as int],
            ) && final(self).pos == old(self).pos + 1,
            !fits(old(self).data@, old(self).pos as int, 1) ==> r is None && final(self).pos
                == old(self).pos,
    {
        if self.has(1) {
            let b = self.data[self.pos];
            self.pos = self.pos + 1;
            Some(b)
        } else {
            None
        }
    }

    /// The next `n` bytes.
    pub fn read_bytes(&mut self, n: u64) -> (r: Option<Vec<u8>>)
        ensures
            final(self).data@ == old(self).data@,
            fits(old(self).data@, old(self).pos as int, n as int) ==> (r matches Some(v) && v@
                == old(self).data@.subrange(old(self).pos as int, old(self).pos + n) && final(self).pos == old(self).pos + n),
            !fits(old(self).data@, old(self).pos as int, n as int) ==> r is None && final(self).pos == old(self).pos,
    {
        if !self.has(n) {
            return None;
        }
        let start = self.pos;
        let end = self.pos + n as usize;
        let mut out: Vec<u8> = Vec::new();
        let mut i: usize = start;
        while i < end
            invariant
                start <= i <= end <= self.data@.len(),
                out@ == self.data@.subrange(start as int, i as int),
            decreases end - i,
        {
            out.push(self.data[i]);
            assert(self.data@.subrange(start as int, i + 1) =~= self.data@.subrange(
                start as int,
                i as int,
            ).push(self.data@[i as int]));
            i = i + 1;
        }
        self.pos = end;
        Some(out)
    }

    /// The little-endian number in the next `n` bytes, `n` at most 8.
    pub fn read_le(&mut self, n: usize) -> (r: Option<u64>)
        requires
            n <= 8,
        ensures
            final(self).data@ == old(self).data@,
            fits(old(self).data@, old(self).pos as int, n as int) ==> r == Some(
                le_at(old(self).data@, old(self).pos as int, n as int) as u64,
            ) && final(self).pos == old(self).pos + n && le_at(
                old(self).data@,
                old(self).pos as int,
                n as int,
            ) < pow256(n as nat),
            !fits(old(self).data@, old(self).pos as int, n as int) ==> r is None && final(self).pos == old(self).pos,
    {
        if !self.has(n as u64) {
            return None;
        }
        let start = self.pos;
        let ghost s = self.data@;
        let mut acc: u64 = 0;
        let mut j: usize = n;
        proof {
            assert(s.subrange(start + n, start + n) =~= Seq::<u8>::empty());
            lemma_pow256_values();
        }
        while j > 0
            invariant
                j <= n <= 8,
                start + n <= s.len() <= usize::MAX,
                s == self.data@,
                pow256(8) == 0x1_0000_0000_0000_0000,
                acc as nat == le_value(s.subrange(start + j, start + n)),
                (acc as nat) < pow256((n - j) as nat),
            decreases j,
        {
            let b = self.data[start + j - 1];
            proof {
                let sub = s.subrange(start + j - 1, start + n);
                assert(sub.drop_first() =~= s.subrange(start + j, start + n));
                assert(sub[0] == b);
                lemma_pow256_mono((n - j + 1) as nat, 8);
                assert(pow256((n - j + 1) as nat) == 256 * pow256((n - j) as nat));
            }
            acc = acc * 256 + b as u64;
            j = j - 1;
        }
        self.pos = start + n;
        Some(acc)
    }

    /// The next two bytes as a little-endian `u16`.
    pub fn read_u16le(&mut self) -> (r: Option<u16>)
        ensures
            final(self).data@ == old(self).data@,
            fits(old(self).data@, old(self).pos as int, 2) ==> r == Some(
                le_at(old(self).data@, old(self).pos as int, 2) as u16,
            ) && final(self).pos == old(self).pos + 2 && le_at(
                old(self).data@,
                old(self).pos as int,
                2,
            ) < 0x1_0000,
            !fits(old(self).data@, old(self).pos as int, 2) ==> r is None && final(self).pos
                == old(self).pos,
    {
        proof {
            lemma_pow256_values();
        }
        match self.read_le(2) {
            Some(v) => Some(v as u16),
            None => None,
        }
    }

    /// The next four bytes as a little-endian `u32`.
    pub fn read_u32le(&mut self) -> (r: Option<u32>)
        ensures
            final(self).data@ == old(self).data@,
            fits(old(self).data@, old(self).pos as int, 4) ==> r == Some(
                le_at(old(self).data@, old(self).pos as int, 4) as u32,
            ) && final(self).pos == old(self).pos + 4 && le_at(
                old(self).data@,
                old(self).pos as int,
                4,
            ) < 0x1_0000_0000,
            !fits(old(self).data@, old(self).pos as int, 4) ==> r is None && final(self).pos
                == old(self).pos,
    {
        proof {
            lemma_pow256_values();
        }
        match self.read_le(4) {
            Some(v) => Some(v as u32),
            None => None,
        }
    }

    /// The next eight bytes as a little-endian `u64`.
    pub fn read_u64le(&mut self) -> (r: Option<u64>)
        ensures
            final(self).data@ == old(self).data@,
            fits(old(self).data@, old(self).pos as int, 8) ==> r == Some(
                le_at(old(self).data@, old(self).pos as int, 8) as u64,
            ) && final(self).pos == old(self).pos + 8,
            !fits(old(self).data@, old(self).pos as int, 8) ==> r is None && final(self).pos
                == old(self).pos,
    {
        self.read_le(8)
    }
    /// The variable-length integer at the current position, when it fits in a `u64`.
    pub fn read_vint(&mut self) -> (r: Option<u64>)
        ensures
            final(self).data@ == old(self).data@,
            match vint_at(old(self).data@, old(self).pos as int) {
                Some((v, n)) => if v <= u64::MAX {
                    r == Some(v as u64) && final(self).pos == old(self).pos + n
                } else {
                    r is None && final(self).pos == old(self).pos
                },
                None => r is None && final(self).pos == old(self).pos,
            },
    {
        let len = self.data.len();
        let start = self.pos;
        if start > len {
            return None;
        }
        let ghost s = self.data@;
        let mut k: usize = start;
        while k < len && self.data[k] >= 128
            invariant
                start <= k <= len,
                len == s.len(),
                s == self.data@,
                vint_len(s.subrange(start as int, len as int)) == match vint_len(
                    s.subrange(k as int, len as int),
                ) {
                    Some(m) => Some(m + (k - start) as nat),
                    None => None,
                },
            decreases len - k,
        {
            proof {
                let sub = s.subrange(k as int, len as int);
                assert(sub.drop_first() =~= s.subrange(k + 1, len as int));
            }
            k = k + 1;
        }
        if k == len {
            proof {
                assert(s.subrange(k as int, len as int).len() == 0);
            }
            return None;
        }
        let end = k + 1;
        proof {
            assert(vint_len(s.subrange(k as int, len as int)) == Some(1nat));
            assert(vint_at(s, start as int) == Some(
                (vint_digits(s.subrange(start as int, end as int)), (end - start) as nat),
            ));
        }
        let mut acc: u64 = 0;
        let mut j: usize = end;
        proof {
            assert(s.subrange(end as int, end as int) =~= Seq::<u8>::empty());
        }
        while j > start
            invariant
                start <= j <= end <= len,
                len == s.len(),
                s == self.data@,
                self.pos == start,
                vint_at(s, start as int) == Some(
                    (vint_digits(s.subrange(start as int, end as int)), (end - start) as nat),
                ),
                acc as nat == vint_digits(s.subrange(j as int, end as int)),
            decreases j,
        {
            let d = (self.data[j - 1] % 128) as u64;
            proof {
                let sub = s.subrange(j - 1, end as int);
                assert(sub.drop_first() =~= s.subrange(j as int, end as int));
            }
            if acc > (u64::MAX - d) / 128 {
                proof {
                    lemma_vint_digits_suffix(s, start as int, j - 1, end as int);
                    assert(vint_digits(s.subrange(j - 1, end as int)) > u64::MAX) by (nonlinear_arith)
                        requires
                            acc > (u64::MAX - d) / 128,
                            d < 128,
                            vint_digits(s.subrange(j - 1, end as int)) == d + 128 * acc,
                    ;
                }
                return None;
            }
            proof {
                assert(acc * 128 + d <= u64::MAX) by (nonlinear_arith)
                    requires
                        acc <= (u64::MAX - d) / 128,
                        d < 128,
                ;
            }
            acc = acc * 128 + d;
            j = j - 1;
        }
        self.pos = end;
        Some(acc)
    }
}

} // verus!
