//! The bit-symbol format shared by the encoder and the decoder.
//!
//! A symbol is a variable-length bit pattern, parsed MSB-first out of a 32-bit
//! window whose top bits are the buffered stream. Runs of zero bits use
//! two-field codes (a unary prefix followed by a payload of the same width),
//! runs of one bits use plain unary codes, and 24-bit long codes carry large
//! lengths, the continuation marker `0xFFD`, the no-op `0xFFE` and the
//! end-of-stream marker `0xFFF`.
use vstd::prelude::*;
use vstd::std_specs::bits::u32_leading_zeros;
use vstd::arithmetic::power2::pow2;

verus! {

broadcast use vstd::std_specs::bits::axiom_u32_leading_zeros;

/// Number of leading zero bits of the symbol window, the unary prefix length.
pub open spec fn sym_prefix(w: u32) -> u32 {
    u32_leading_zeros(w)
}

/// A prefix of twelve or more zero bits selects the 24-bit long format.
pub open spec fn sym_is_long(w: u32) -> bool {
    sym_prefix(w) >= 12
}

/// The 12-bit payload of a long symbol: window bits 12..24, counted MSB-first.
pub open spec fn sym_long_payload(w: u32) -> u32 {
    (w >> 8) & 0xFFF
}

/// Total bit length of the symbol at the top of `w`, parsed for a run of bit
/// value `mode` (`false`: two-field code, `true`: unary code).
pub open spec fn sym_len(w: u32, mode: bool) -> int {
    if sym_is_long(w) {
        24
    } else if mode {
        sym_prefix(w) + 1
    } else {
        2 * (sym_prefix(w) + 1)
    }
}

/// Payload mask of a short two-field code: as many low bits as the prefix is long.
pub open spec fn sym_short_mask(w: u32) -> u32 {
    (((1u32 << ((sym_prefix(w) + 1) as u32)) - 1) as u32)
}

/// Payload field of a short two-field code.
pub open spec fn sym_short_payload(w: u32) -> u32 {
    ((w >> ((32 - sym_len(w, false)) as u32)) & sym_short_mask(w))
}

/// End-of-stream marker.
pub open spec fn sym_term(w: u32) -> bool {
    sym_is_long(w) && sym_long_payload(w) == 0xFFF
}

/// Continuation marker: the next symbol extends the same run.
pub open spec fn sym_cont(w: u32) -> bool {
    sym_is_long(w) && sym_long_payload(w) == 0xFFD
}

/// Run length decoded from the symbol at the top of `w` in mode `mode`.
/// The end-of-stream and no-op symbols carry no run.
pub open spec fn sym_count(w: u32, mode: bool) -> int {
    if sym_is_long(w) {
        let v = sym_long_payload(w);
        if v == 0xFFF || v == 0xFFE {
            0
        } else if mode {
            v + 13
        } else {
            v + 8191
        }
    } else if mode {
        sym_prefix(w) + 1
    } else {
        sym_short_payload(w) + sym_short_mask(w)
    }
}

/// One parsed symbol: how many window bits it spans and what it means.
pub(crate) struct Symbol {
    /// Bit length of the symbol.
    pub(crate) shift: usize,
    /// Decoded run length, zero for the markers.
    pub(crate) count: usize,
    /// Continuation: the following symbol continues the same run.
    pub(crate) cont: bool,
    /// End-of-stream.
    pub(crate) term: bool,
}

/// Parses the symbol at the top of the 32-bit window `w` in mode `mode`.
pub(crate) fn parse_symbol(w: u32, mode: bool) -> (s: Symbol)
    ensures
        s.shift == sym_len(w, mode),
        s.count == sym_count(w, mode),
        s.cont == sym_cont(w),
        s.term == sym_term(w),
        1 <= s.shift <= 24,
        s.count <= 12284,
{
    let p = w.leading_zeros();
    if p < 12 {
        if mode {
            Symbol { shift: (p + 1) as usize, count: (p + 1) as usize, cont: false, term: false }
        } else {
            let shift = 2 * (p + 1);
            let down: u32 = 32 - shift;
            proof {
                assert(1u32 << (p + 1) >= 2) by (bit_vector)
                    requires
                        p < 12,
                ;
            }
            let mask: u32 = (1u32 << (p + 1)) - 1;
            let payload: u32 = (w >> down) & mask;
            proof {
                assert(payload <= mask && mask <= 0xFFF) by (bit_vector)
                    requires
                        payload == (w >> down) & mask,
                        mask == (1u32 << (p + 1)) - 1,
                        p < 12,
                ;
            }
            Symbol {
                shift: shift as usize,
                count: (payload + mask) as usize,
                cont: false,
                term: false,
            }
        }
    } else {
        let payload: u32 = (w >> 8) & 0xFFF;
        proof {
            assert(payload <= 0xFFF) by (bit_vector)
                requires
                    payload == (w >> 8) & 0xFFF,
            ;
        }
        if payload == 0xFFF {
            Symbol { shift: 24, count: 0, cont: false, term: true }
        } else if payload == 0xFFE {
            Symbol { shift: 24, count: 0, cont: false, term: false }
        } else {
            let count = if mode {
                payload + 13
            } else {
                payload + 8191
            };
            Symbol { shift: 24, count: count as usize, cont: payload == 0xFFD, term: false }
        }
    }
}

/// Largest run length one non-continuation code can carry for a run of bit
/// value `b`.
pub open spec fn direct_max(b: bool) -> int {
    if b {
        4105
    } else {
        12283
    }
}

/// Run length consumed by one continuation symbol.
pub open spec fn cont_stride(b: bool) -> int {
    direct_max(b) + 1
}

/// Bit length of the two-field code for a zero run of length `n`,
/// `1 <= n <= 8190`: lengths in `[2^k - 1, 2^(k+1) - 2]` take a `k`-bit unary
/// prefix and a `k`-bit payload.
pub open spec fn short_code_len(n: int) -> int {
    if n <= 2 {
        2
    } else if n <= 6 {
        4
    } else if n <= 14 {
        6
    } else if n <= 30 {
        8
    } else if n <= 62 {
        10
    } else if n <= 126 {
        12
    } else if n <= 254 {
        14
    } else if n <= 510 {
        16
    } else if n <= 1022 {
        18
    } else if n <= 2046 {
        20
    } else if n <= 4094 {
        22
    } else {
        24
    }
}

/// Whether the code for a run of length `n` and bit value `b` is a
/// continuation.
pub open spec fn run_code_cont(n: int, b: bool) -> bool {
    n >= cont_stride(b)
}

/// Bit length of the code emitted for a run of length `n` and bit value `b`.
pub open spec fn run_code_len(n: int, b: bool) -> int {
    if n == 0 || run_code_cont(n, b) {
        24
    } else if b {
        if n <= 12 {
            n
        } else {
            24
        }
    } else {
        if n <= 8190 {
            short_code_len(n)
        } else {
            24
        }
    }
}

/// The code emitted for a run of length `n` and bit value `b`, right-aligned.
/// A two-field code of `2k` bits is the value `n + 1`: the prefix `0^(k-1) 1`
/// is the high half of `n + 1`, the payload `n - (2^k - 1)` the low half.
pub open spec fn run_code_pattern(n: int, b: bool) -> u32 {
    if n == 0 {
        0xFFE
    } else if run_code_cont(n, b) {
        0xFFD
    } else if b {
        if n <= 12 {
            1
        } else {
            ((n - 13) as u32)
        }
    } else {
        if n <= 8190 {
            ((n + 1) as u32)
        } else {
            ((n - 8191) as u32)
        }
    }
}

/// One run-length code: the right-aligned pattern and its bit length.
pub(crate) struct Code {
    /// The code bits, right-aligned.
    pub(crate) pattern: u32,
    /// Bit length of the code.
    pub(crate) len: usize,
    /// The code is a continuation; `cont_stride` bits of the run remain to be
    /// re-coded.
    pub(crate) cont: bool,
}

/// Computes the code for a completed run of length `n` and bit value `b`.
pub(crate) fn run_code(n: usize, b: bool) -> (c: Code)
    ensures
        c.pattern == run_code_pattern(n as int, b),
        c.len == run_code_len(n as int, b),
        c.cont == run_code_cont(n as int, b),
        1 <= c.len <= 24,
        c.pattern < pow2(c.len as nat),
        c.pattern < (1u32 << (c.len as u32)),
        c.cont ==> n >= cont_stride(b),
{
    proof {
        vstd::arithmetic::power2::lemma2_to64();
    }
    let c = if n == 0 {
        Code { pattern: 0xFFE, len: 24, cont: false }
    } else if b {
        if n <= 12 {
            proof {
                vstd::arithmetic::power2::lemma_pow2_strictly_increases(0, n as nat);
            }
            Code { pattern: 1, len: n, cont: false }
        } else if n <= 4105 {
            Code { pattern: (n - 13) as u32, len: 24, cont: false }
        } else {
            Code { pattern: 0xFFD, len: 24, cont: true }
        }
    } else {
        if n <= 8190 {
            let k: usize = if n <= 2 {
                1
            } else if n <= 6 {
                2
            } else if n <= 14 {
                3
            } else if n <= 30 {
                4
            } else if n <= 62 {
                5
            } else if n <= 126 {
                6
            } else if n <= 254 {
                7
            } else if n <= 510 {
                8
            } else if n <= 1022 {
                9
            } else if n <= 2046 {
                10
            } else if n <= 4094 {
                11
            } else {
                12
            };
            Code { pattern: (n + 1) as u32, len: 2 * k, cont: false }
        } else if n <= 12283 {
            Code { pattern: (n - 8191) as u32, len: 24, cont: false }
        } else {
            Code { pattern: 0xFFD, len: 24, cont: true }
        }
    };
    proof {
        if c.len < 24 {
            vstd::arithmetic::power2::lemma_pow2_strictly_increases(c.len as nat, 24);
        }
        vstd::bits::lemma_u32_shl_is_mul(1u32, c.len as u32);
    }
    c
}

/// `w` has exactly `p` leading zero bits when everything above bit `31 - p`
/// is zero and bit `31 - p` itself is set.
proof fn lemma_leading_zeros_is(w: u32, p: u32)
    requires
        p < 32,
        (w >> ((31 - p) as u32)) == 1,
    ensures
        u32_leading_zeros(w) == p,
{
    let lz = u32_leading_zeros(w);
    assert(w != 0) by (bit_vector)
        requires
            (w >> ((31 - p) as u32)) == 1,
            p < 32,
    ;
    assert(lz < 32);
    if lz < p {
        let j = (31 - lz) as u32;
        assert((w >> j) & 1 == 0) by (bit_vector)
            requires
                (w >> ((31 - p) as u32)) == 1,
                p < 32,
                31 - p < j < 32,
        ;
        assert(false);
    }
    if lz > p {
        assert((w >> ((31 - p) as u32)) == 0) by (bit_vector)
            requires
                (w >> ((32 - lz) as u32)) == 0,
                lz <= 32,
                32 - lz <= 31 - p,
        ;
        assert(false);
    }
}

/// A window whose top twelve bits are zero parses as a long symbol.
pub(crate) proof fn lemma_leading_zeros_long(w: u32)
    requires
        (w >> 20) == 0,
    ensures
        u32_leading_zeros(w) >= 12,
{
    let lz = u32_leading_zeros(w);
    if lz < 12 {
        let j = (31 - lz) as u32;
        assert((w >> j) & 1 == 0) by (bit_vector)
            requires
                (w >> 20) == 0,
                20 <= j < 32,
        ;
        assert(false);
    }
}

/// Parsing inverts encoding, one symbol at a time: the code emitted for a
/// completed run of length `n` and bit value `b`, placed at the top of the
/// symbol window above arbitrary following stream bits `low`, parses in mode
/// `b` back to the same length. A direct code decodes to exactly `n` bits
/// and is never mistaken for a marker; a continuation code decodes to the
/// continuation stride, the amount the encoder subtracted, and keeps the
/// mode, so the run is picked up exactly where the encoder left off.
pub proof fn lemma_code_round_trip(n: int, b: bool, low: u32)
    requires
        0 <= n,
        low < (1u32 << ((32 - run_code_len(n, b)) as u32)),
    ensures
        ({
            let w = ((run_code_pattern(n, b) << ((32 - run_code_len(n, b)) as u32)) | low);
            &&& sym_len(w, b) == run_code_len(n, b)
            &&& !sym_term(w)
            &&& sym_cont(w) == run_code_cont(n, b)
            &&& (!run_code_cont(n, b) ==> sym_count(w, b) == n)
            &&& (run_code_cont(n, b) ==> sym_count(w, b) == cont_stride(b))
        }),
{
    let len = run_code_len(n, b);
    let pat = run_code_pattern(n, b);
    let w = (pat << ((32 - len) as u32)) | low;

    if n == 0 || run_code_cont(n, b) || (b && n > 12) || (!b && n > 8190) {
        // all the 24-bit long codes: the payload comes back out unharmed
        assert(pat <= 0xFFE && len == 24);
        assert((w >> 20) == 0 && ((w >> 8) & 0xFFF) == pat) by (bit_vector)
            requires
                w == (pat << 8) | low,
                pat <= 0xFFE,
                low < (1u32 << 8),
        ;
        lemma_leading_zeros_long(w);
    } else if b {
        // unary code: `n - 1` zero bits, then a one bit
        let nu = n as u32;
        assert((w >> ((31 - (nu - 1)) as u32)) == 1) by (bit_vector)
            requires
                w == (1u32 << ((32 - nu) as u32)) | low,
                low < (1u32 << ((32 - nu) as u32)),
                1 <= nu <= 12,
        ;
        lemma_leading_zeros_is(w, (nu - 1) as u32);
    } else {
        // two-field code: the `2k`-bit value `n + 1`
        let nu = n as u32;
        let k = (short_code_len(n) / 2) as u32;
        assert((1u32 << 1) == 2 && (1u32 << 2) == 4 && (1u32 << 3) == 8 && (1u32 << 4) == 16
            && (1u32 << 5) == 32 && (1u32 << 6) == 64 && (1u32 << 7) == 128 && (1u32 << 8) == 256
            && (1u32 << 9) == 512 && (1u32 << 10) == 1024 && (1u32 << 11) == 2048
            && (1u32 << 12) == 4096 && (1u32 << 13) == 8192) by (bit_vector);
        assert(1 <= k <= 12 && (1u32 << k) <= nu + 1 && nu + 1 < (1u32 << ((k + 1) as u32)));
        assert((w >> ((31 - (k - 1)) as u32)) == 1) by (bit_vector)
            requires
                w == (((nu + 1) as u32) << ((32 - 2 * k) as u32)) | low,
                low < (1u32 << ((32 - 2 * k) as u32)),
                (1u32 << k) <= nu + 1,
                nu + 1 < (1u32 << ((k + 1) as u32)),
                1 <= k <= 12,
        ;
        lemma_leading_zeros_is(w, (k - 1) as u32);
        assert(((w >> ((32 - 2 * k) as u32)) & (((1u32 << k) - 1) as u32))
            + (((1u32 << k) - 1) as u32) == nu) by (bit_vector)
            requires
                w == (((nu + 1) as u32) << ((32 - 2 * k) as u32)) | low,
                low < (1u32 << ((32 - 2 * k) as u32)),
                (1u32 << k) <= nu + 1,
                nu + 1 < (1u32 << ((k + 1) as u32)),
                1 <= k <= 12,
        ;
    }
}

/// The format is canonical, one symbol at a time: a run-carrying or no-op
/// symbol that the decoder accepts in mode `b` is bit-for-bit the code that
/// the encoder emits for the decoded run length. Together with
/// `lemma_code_round_trip` this makes the symbol alphabet a bijection
/// between codes and direct run lengths.
pub proof fn lemma_code_canonical(w: u32, b: bool)
    requires
        !sym_term(w),
        !sym_cont(w),
    ensures
        !run_code_cont(sym_count(w, b), b),
        run_code_len(sym_count(w, b), b) == sym_len(w, b),
        run_code_pattern(sym_count(w, b), b) == (w >> ((32 - sym_len(w, b)) as u32)),
{
    let p = u32_leading_zeros(w);
    assert(0 <= p <= 32 && (w == 0 <==> p == 32));

    if p >= 12 {
        let v = sym_long_payload(w);
        if p < 32 {
            assert((w >> 20) == 0) by (bit_vector)
                requires
                    (w >> ((32 - p) as u32)) == 0,
                    12 <= p < 32,
            ;
        } else {
            assert((0u32 >> 20) == 0) by (bit_vector);
        }
        assert(v <= 0xFFF && (w >> 8) == v && ((w >> 8) & 0xFFF) == v) by (bit_vector)
            requires
                (w >> 20) == 0,
                v == (w >> 8) & 0xFFF,
        ;
    } else if b {
        assert((w >> ((31 - p) as u32)) == 1) by (bit_vector)
            requires
                (w >> ((31 - p) as u32)) & 1 != 0,
                (w >> ((32 - p) as u32)) == 0,
                p < 12,
        ;
    } else {
        let k = (p + 1) as u32;
        let mask = sym_short_mask(w);
        let raw = sym_short_payload(w);
        let n = sym_count(w, b);
        assert((1u32 << 1) == 2 && (1u32 << 2) == 4 && (1u32 << 3) == 8 && (1u32 << 4) == 16
            && (1u32 << 5) == 32 && (1u32 << 6) == 64 && (1u32 << 7) == 128 && (1u32 << 8) == 256
            && (1u32 << 9) == 512 && (1u32 << 10) == 1024 && (1u32 << 11) == 2048
            && (1u32 << 12) == 4096 && (1u32 << 13) == 8192) by (bit_vector);
        assert(raw <= mask && mask == (1u32 << k) - 1
            && (w >> ((32 - 2 * k) as u32)) == (1u32 << k) + raw) by (bit_vector)
            requires
                (w >> ((31 - (k - 1)) as u32)) & 1 != 0,
                (w >> ((32 - (k - 1)) as u32)) == 0,
                1 <= k <= 12,
                mask == (1u32 << k) - 1,
                raw == (w >> ((32 - 2 * k) as u32)) & mask,
        ;
        assert(n == raw + mask && (1u32 << k) <= n + 1 && n + 1 < (1u32 << ((k + 1) as u32)));
        assert(short_code_len(n) == 2 * k);
        assert(run_code_pattern(n, b) == ((n + 1) as u32));
    }
}

} // verus!
