use std::collections::HashMap;
use vstd::prelude::*;

verus! {

/// `2^n`.
pub open spec fn pow2(n: nat) -> nat
    decreases n,
{
    if n == 0 {
        1
    } else {
        2 * pow2((n - 1) as nat)
    }
}

pub proof fn lemma_pow2_8()
    ensures
        pow2(0) == 1,
        pow2(1) == 2,
        pow2(2) == 4,
        pow2(3) == 8,
        pow2(4) == 16,
        pow2(5) == 32,
        pow2(6) == 64,
        pow2(7) == 128,
        pow2(8) == 256,
        pow2(12) == 4096,
{
    assert(pow2(0) == 1);
    assert(pow2(1) == 2);
    assert(pow2(2) == 4);
    assert(pow2(3) == 8);
    assert(pow2(4) == 16);
    assert(pow2(5) == 32);
    assert(pow2(6) == 64);
    assert(pow2(7) == 128);
    assert(pow2(8) == 256);
    assert(pow2(9) == 512);
    assert(pow2(10) == 1024);
    assert(pow2(11) == 2048);
}

pub proof fn lemma_pow2_add(a: nat, b: nat)
    ensures
        pow2(a + b) == pow2(a) * pow2(b),
    decreases a,
{
    if a == 0 {
        assert(a + b == b);
        assert(pow2(a) == 1);
    } else {
        lemma_pow2_add((a - 1) as nat, b);
        assert((a - 1 + b) as nat == (a + b - 1) as nat);
        assert(pow2(a + b) == 2 * pow2((a + b - 1) as nat));
        assert(pow2(a) == 2 * pow2((a - 1) as nat));
        assert(2 * (pow2((a - 1) as nat) * pow2(b)) == (2 * pow2((a - 1) as nat)) * pow2(b)) by (nonlinear_arith);
    }
}

pub proof fn lemma_pow2_positive(n: nat)
    ensures
        pow2(n) >= 1,
    decreases n,
{
    if n > 0 {
        lemma_pow2_positive((n - 1) as nat);
    }
}

pub proof fn lemma_pow2_monotone(a: nat, b: nat)
    requires
        a <= b,
    ensures
        pow2(a) <= pow2(b),
    decreases b,
{
    if a < b {
        lemma_pow2_monotone(a, (b - 1) as nat);
        lemma_pow2_positive((b - 1) as nat);
    }
}

pub proof fn lemma_shift_is_pow2(n: u32)
    requires
        n < 32,
    ensures
        (1u32 << n) as nat == pow2(n as nat),
    decreases n,
{
    if n == 0 {
        assert(1u32 << 0u32 == 1u32) by (bit_vector);
    } else {
        lemma_shift_is_pow2((n - 1) as u32);
        let m: u32 = (n - 1) as u32;
        assert((1u32 << (m + 1)) == 2 * (1u32 << m)) by (bit_vector)
            requires
                m < 31,
        ;
    }
}

/// The little-endian value of a byte string.
pub open spec fn le_value(bytes: Seq<u8>) -> nat
    decreases bytes.len(),
{
    if bytes.len() == 0 {
        0
    } else {
        le_value(bytes.drop_last()) + (bytes.last() as nat) * pow2(8 * (bytes.len() - 1) as nat)
    }
}

pub proof fn lemma_le_value_bound(bytes: Seq<u8>)
    ensures
        le_value(bytes) < pow2(8 * bytes.len()),
    decreases bytes.len(),
{
    if bytes.len() > 0 {
        let n = (bytes.len() - 1) as nat;
        lemma_le_value_bound(bytes.drop_last());
        lemma_pow2_add(8 * n, 8);
        lemma_pow2_8();
        assert(le_value(bytes) < pow2(8 * n) + 255 * pow2(8 * n)) by (nonlinear_arith)
            requires
                le_value(bytes) == le_value(bytes.drop_last()) + (bytes.last() as nat) * pow2(8 * n),
                le_value(bytes.drop_last()) < pow2(8 * n),
                bytes.last() <= 255,
        ;
        assert(8 * bytes.len() == 8 * n + 8);
    }
}

/// The `n` little-endian bytes of `value` (taken modulo `256^n`).
pub open spec fn le_bytes(value: nat, n: nat) -> Seq<u8>
    decreases n,
{
    if n == 0 {
        Seq::empty()
    } else {
        let low = pow2(8 * (n - 1) as nat);
        le_bytes(value % low, (n - 1) as nat).push(((value / low) % 256) as u8)
    }
}

/// A byte string is the little-endian form of its value.
pub proof fn lemma_le_bytes_unique(bytes: Seq<u8>)
    ensures
        bytes == le_bytes(le_value(bytes), bytes.len()),
    decreases bytes.len(),
{
    if bytes.len() > 0 {
        let n = (bytes.len() - 1) as nat;
        let low = pow2(8 * n);
        let rest = bytes.drop_last();
        lemma_le_value_bound(rest);
        lemma_pow2_positive(8 * n);
        lemma_le_bytes_unique(rest);
        let value = le_value(bytes);
        assert(value == (bytes.last() as nat) * low + le_value(rest));
        vstd::arithmetic::div_mod::lemma_fundamental_div_mod_converse(
            value as int,
            low as int,
            bytes.last() as int,
            le_value(rest) as int,
        );
        assert(bytes =~= rest.push(bytes.last()));
    }
}

/// The bytes of the GIF LZW stream for `indexed`.
pub open spec fn lzw_bytes(indexed: Seq<u8>, minimum_code_size: u8) -> Seq<u8> {
    let codes = lzw_codes(indexed, minimum_code_size);
    le_bytes(packed_value(codes), (packed_len(codes) + 7) / 8)
}

/// A code and the number of bits it is written with.
pub type WidthCode = (u16, u8);

/// The total width of a code sequence.
pub open spec fn packed_len(codes: Seq<WidthCode>) -> nat
    decreases codes.len(),
{
    if codes.len() == 0 {
        0
    } else {
        packed_len(codes.drop_last()) + codes.last().1 as nat
    }
}

/// The value of a code sequence packed least significant bit first: each code sits above all
/// earlier ones.
pub open spec fn packed_value(codes: Seq<WidthCode>) -> nat
    decreases codes.len(),
{
    if codes.len() == 0 {
        0
    } else {
        packed_value(codes.drop_last()) + (codes.last().0 as nat) * pow2(packed_len(codes.drop_last()))
    }
}

/// Packs variable-width codes into bytes, least significant bit first.
pub struct BitWriter {
    pub bytes: Vec<u8>,
    pub bits: u32,
    pub bit_count: u8,
}

impl BitWriter {
    pub open spec fn wf(&self) -> bool {
        &&& self.bit_count < 8
        &&& self.bits < pow2(self.bit_count as nat)
    }

    /// The number of bits written so far.
    pub open spec fn length(&self) -> nat {
        8 * self.bytes@.len() + self.bit_count as nat
    }

    /// The value of everything written so far.
    pub open spec fn value(&self) -> nat {
        le_value(self.bytes@) + (self.bits as nat) * pow2(8 * self.bytes@.len())
    }

    pub fn new() -> (writer: BitWriter)
        ensures
            writer.wf(),
            writer.length() == 0,
            writer.value() == 0,
    {
        BitWriter { bytes: Vec::new(), bits: 0, bit_count: 0 }
    }

    /// Appends `code` in `width` bits.
    pub fn write(&mut self, code: u16, width: u8)
        requires
            old(self).wf(),
            width <= 12,
            code < pow2(width as nat),
        ensures
            final(self).wf(),
            final(self).length() == old(self).length() + width,
            final(self).value() == old(self).value() + (code as nat) * pow2(old(self).length()),
    {
        let ghost old_length = self.length();
        let ghost old_value = self.value();
        let bc = self.bit_count as u32;
        let c = code as u32;
        let w = width as u32;
        proof {
            lemma_shift_is_pow2(bc);
            lemma_shift_is_pow2(w);
            lemma_shift_is_pow2((bc + w) as u32);
            lemma_pow2_add(bc as nat, w as nat);
        }
        let bits = self.bits;
        assert(c < (1u32 << w));
        assert(bits < (1u32 << bc));
        assert((bits | (c << bc)) == bits + c * (1u32 << bc) && bits + c * (1u32 << bc) < (1u32 << (bc + w))) by (bit_vector)
            requires
                bc < 8,
                w <= 12,
                c < (1u32 << w),
                bits < (1u32 << bc),
        ;
        self.bits = bits | (c << bc);
        self.bit_count = self.bit_count + width;
        proof {
            lemma_pow2_add(8 * self.bytes@.len(), bc as nat);
            assert((c as nat) * pow2(old_length) == (c as nat) * pow2(bc as nat) * pow2(8 * self.bytes@.len())) by (nonlinear_arith)
                requires
                    pow2(old_length) == pow2(8 * self.bytes@.len()) * pow2(bc as nat),
            ;
            assert(self.bits as nat * pow2(8 * self.bytes@.len()) == (bits as nat) * pow2(8 * self.bytes@.len()) + (c as nat) * pow2(bc as nat) * pow2(8 * self.bytes@.len())) by (nonlinear_arith)
                requires
                    self.bits as nat == bits as nat + (c as nat) * pow2(bc as nat),
            ;
        }
        while self.bit_count >= 8
            invariant
                self.bit_count <= 19,
                self.bits < pow2(self.bit_count as nat),
                self.length() == old_length + width,
                self.value() == old_value + (code as nat) * pow2(old_length),
            decreases self.bit_count,
        {
            let ghost before = self.bytes@;
            let ghost before_bits = self.bits;
            let byte = (self.bits % 256) as u8;
            self.bytes.push(byte);
            self.bits = self.bits / 256;
            self.bit_count = self.bit_count - 8;
            proof {
                let n = before.len();
                assert(self.bytes@.drop_last() =~= before);
                lemma_pow2_add(8 * n, 8);
                lemma_pow2_add(self.bit_count as nat, 8);
                lemma_pow2_8();
                assert(8 * self.bytes@.len() == 8 * n + 8);
                assert((before_bits as nat) * pow2(8 * n) == (byte as nat) * pow2(8 * n) + (self.bits as nat) * (pow2(8 * n) * 256)) by (nonlinear_arith)
                    requires
                        before_bits as nat == byte as nat + 256 * (self.bits as nat),
                ;
                assert(self.bits < pow2(self.bit_count as nat)) by (nonlinear_arith)
                    requires
                        before_bits < pow2(self.bit_count as nat) * 256,
                        self.bits == before_bits / 256,
                ;
            }
        }
    }

    /// The written bytes, the last one padded with zero bits.
    pub fn finish(self) -> (bytes: Vec<u8>)
        requires
            self.wf(),
        ensures
            le_value(bytes@) == self.value(),
            bytes@.len() == (self.length() + 7) / 8,
    {
        let mut bytes = self.bytes;
        if self.bit_count == 0 {
            assert(self.bits == 0);
        } else {
            let ghost before = bytes@;
            proof {
                lemma_pow2_monotone(self.bit_count as nat, 8);
                lemma_pow2_8();
            }
            bytes.push(self.bits as u8);
            assert(bytes@.drop_last() =~= before);
            assert(bytes@.last() as nat == self.bits as nat);
            assert(le_value(bytes@) == le_value(before) + (self.bits as nat) * pow2(8 * before.len()));
        }
        bytes
    }
}

/// The LZW encoder's state after some input: dictionary of `(prefix, suffix)` keys, next free
/// code, current code width, pending prefix and the codes emitted so far.
pub struct LzwState {
    pub dict: Map<u32, u16>,
    pub next_code: u16,
    pub width: u8,
    pub prefix: u16,
    pub codes: Seq<WidthCode>,
}

/// The dictionary key of a prefix code extended by one index.
pub open spec fn lzw_key(prefix: u16, suffix: u8) -> u32 {
    (prefix as nat * 256 + suffix as nat) as u32
}

/// The clear code for a minimum code size.
pub open spec fn clear_code(minimum_code_size: u8) -> nat {
    pow2(minimum_code_size as nat)
}

/// The width after a code is emitted: one bit more once the next code no longer fits, up to 12.
pub open spec fn bumped_width(next_code: u16, width: u8) -> u8 {
    if next_code == pow2(width as nat) && width < 12 {
        (width + 1) as u8
    } else {
        width
    }
}

/// The state after the first index: a clear code has been emitted and the index is pending.
pub open spec fn lzw_start(first: u8, minimum_code_size: u8) -> LzwState {
    LzwState {
        dict: Map::empty(),
        next_code: (clear_code(minimum_code_size) + 2) as u16,
        width: (minimum_code_size + 1) as u8,
        prefix: first as u16,
        codes: seq![(clear_code(minimum_code_size) as u16, (minimum_code_size + 1) as u8)],
    }
}

/// One step of greedy LZW: extend the pending prefix while the dictionary knows the extension;
/// otherwise emit the prefix, add the extension as the next code (or, with the table full,
/// emit a clear code and start over), and restart from the new index.
pub open spec fn lzw_step(state: LzwState, suffix: u8, minimum_code_size: u8) -> LzwState {
    let key = lzw_key(state.prefix, suffix);
    if state.dict.contains_key(key) {
        LzwState { prefix: state.dict[key], ..state }
    } else {
        let codes = state.codes.push((state.prefix, state.width));
        let width = bumped_width(state.next_code, state.width);
        if state.next_code <= 4095 {
            LzwState {
                dict: state.dict.insert(key, state.next_code),
                next_code: (state.next_code + 1) as u16,
                width,
                prefix: suffix as u16,
                codes,
            }
        } else {
            LzwState {
                dict: Map::empty(),
                next_code: (clear_code(minimum_code_size) + 2) as u16,
                width: (minimum_code_size + 1) as u8,
                prefix: suffix as u16,
                codes: codes.push((clear_code(minimum_code_size) as u16, width)),
            }
        }
    }
}

/// The state after the first `n` indices (`n >= 1`).
pub open spec fn lzw_run(indexed: Seq<u8>, n: nat, minimum_code_size: u8) -> LzwState
    decreases n,
{
    if n <= 1 {
        lzw_start(indexed[0], minimum_code_size)
    } else {
        lzw_step(lzw_run(indexed, (n - 1) as nat, minimum_code_size), indexed[n - 1], minimum_code_size)
    }
}

/// The full GIF LZW code stream: a clear code, the greedy codes, the pending prefix and the
/// end code.
pub open spec fn lzw_codes(indexed: Seq<u8>, minimum_code_size: u8) -> Seq<WidthCode> {
    let clear = clear_code(minimum_code_size);
    if indexed.len() == 0 {
        seq![
            (clear as u16, (minimum_code_size + 1) as u8),
            ((clear + 1) as u16, (minimum_code_size + 1) as u8),
        ]
    } else {
        let last = lzw_run(indexed, indexed.len(), minimum_code_size);
        last.codes.push((last.prefix, last.width)).push(
            ((clear + 1) as u16, bumped_width(last.next_code, last.width)),
        )
    }
}

/// The bounds that keep every emitted code within its width.
pub open spec fn lzw_inv(state: LzwState, minimum_code_size: u8) -> bool {
    &&& 2 <= minimum_code_size <= 8
    &&& minimum_code_size + 1 <= state.width <= 12
    &&& clear_code(minimum_code_size) + 2 <= state.next_code <= pow2(state.width as nat)
    &&& state.next_code <= 4096
    &&& state.prefix < state.next_code
    &&& forall|key: u32| #[trigger] state.dict.contains_key(key) ==> state.dict[key] < state.next_code
}

pub proof fn lemma_clear_bounds(minimum_code_size: u8)
    requires
        2 <= minimum_code_size <= 8,
    ensures
        4 <= clear_code(minimum_code_size) <= 256,
        clear_code(minimum_code_size) + 2 <= pow2((minimum_code_size + 1) as nat),
{
    lemma_pow2_monotone(2, minimum_code_size as nat);
    lemma_pow2_monotone(minimum_code_size as nat, 8);
    lemma_pow2_8();
    assert(pow2((minimum_code_size + 1) as nat) == 2 * pow2(minimum_code_size as nat));
}

pub proof fn lemma_width_bound(width: u8)
    requires
        width <= 12,
    ensures
        pow2(width as nat) <= 4096,
{
    lemma_pow2_monotone(width as nat, 12);
    lemma_pow2_8();
}

pub proof fn lemma_step_inv(state: LzwState, suffix: u8, minimum_code_size: u8)
    requires
        lzw_inv(state, minimum_code_size),
        (suffix as nat) < clear_code(minimum_code_size),
    ensures
        lzw_inv(lzw_step(state, suffix, minimum_code_size), minimum_code_size),
{
    lemma_clear_bounds(minimum_code_size);
    lemma_width_bound(state.width);
    let key = lzw_key(state.prefix, suffix);
    let next = lzw_step(state, suffix, minimum_code_size);
    if state.dict.contains_key(key) {
        assert(next.prefix == state.dict[key]);
    } else {
        let width = bumped_width(state.next_code, state.width);
        if state.width < 12 {
            assert(pow2((state.width + 1) as nat) == 2 * pow2(state.width as nat));
        }
        lemma_pow2_positive(state.width as nat);
        if state.next_code <= 4095 {
            if state.next_code == pow2(state.width as nat) && state.width < 12 {
                assert(width as nat == (state.width + 1) as nat);
                assert(pow2(width as nat) == 2 * pow2(state.width as nat));
            } else {
                assert(width == state.width);
                if state.width == 12 {
                    lemma_pow2_8();
                    assert(pow2(state.width as nat) == pow2(12));
                }
                assert(state.next_code < pow2(state.width as nat));
            }
            assert(state.next_code + 1 <= pow2(width as nat));
            assert forall|k: u32| #[trigger] next.dict.contains_key(k) implies next.dict[k] < next.next_code by {
                if k != key {
                    assert(state.dict.contains_key(k));
                }
            }
        } else {
            lemma_pow2_monotone((minimum_code_size + 1) as nat, width as nat);
            assert(next.dict == Map::<u32, u16>::empty());
        }
    }
}

pub proof fn lemma_le_bytes_len(n: nat)
    ensures
        forall|value: nat| #[trigger] le_bytes(value, n).len() == n,
    decreases n,
{
    if n > 0 {
        lemma_le_bytes_len((n - 1) as nat);
        assert forall|value: nat| #[trigger] le_bytes(value, n).len() == n by {
            let low = pow2(8 * (n - 1) as nat);
            lemma_pow2_positive(8 * (n - 1) as nat);
            assert(le_bytes(value % low, (n - 1) as nat).len() == n - 1);
        }
    }
}

proof fn lemma_packed_len_push(codes: Seq<WidthCode>, code: WidthCode)
    ensures
        packed_len(codes.push(code)) == packed_len(codes) + code.1,
{
    assert(codes.push(code).drop_last() =~= codes);
}

/// A run over `n` indices keeps the encoder's bounds and has emitted at most `2n - 1` codes of at
/// most twelve bits each.
pub proof fn lemma_run_codes(indexed: Seq<u8>, n: nat, minimum_code_size: u8)
    requires
        1 <= n <= indexed.len(),
        2 <= minimum_code_size <= 8,
        forall|i: int| 0 <= i < indexed.len() ==> (#[trigger] indexed[i] as nat) < clear_code(minimum_code_size),
    ensures
        lzw_inv(lzw_run(indexed, n, minimum_code_size), minimum_code_size),
        lzw_run(indexed, n, minimum_code_size).codes.len() <= 2 * n - 1,
        packed_len(lzw_run(indexed, n, minimum_code_size).codes) <= 12 * lzw_run(indexed, n, minimum_code_size).codes.len(),
    decreases n,
{
    lemma_clear_bounds(minimum_code_size);
    if n == 1 {
        let state = lzw_start(indexed[0], minimum_code_size);
        assert((indexed[0] as nat) < clear_code(minimum_code_size));
        assert(state.codes.drop_last() =~= Seq::<WidthCode>::empty());
        let code = (clear_code(minimum_code_size) as u16, (minimum_code_size + 1) as u8);
        lemma_packed_len_push(Seq::<WidthCode>::empty(), code);
        assert(Seq::<WidthCode>::empty().push(code) =~= state.codes);
        assert(packed_len(Seq::<WidthCode>::empty()) == 0);
        assert(pow2((minimum_code_size + 1) as nat) == 2 * pow2(minimum_code_size as nat));
        lemma_pow2_8();
    } else {
        let previous = lzw_run(indexed, (n - 1) as nat, minimum_code_size);
        lemma_run_codes(indexed, (n - 1) as nat, minimum_code_size);
        let suffix = indexed[n - 1];
        assert((suffix as nat) < clear_code(minimum_code_size));
        lemma_step_inv(previous, suffix, minimum_code_size);
        let key = lzw_key(previous.prefix, suffix);
        if !previous.dict.contains_key(key) {
            let emitted = previous.codes.push((previous.prefix, previous.width));
            lemma_packed_len_push(previous.codes, (previous.prefix, previous.width));
            if previous.next_code > 4095 {
                let width = bumped_width(previous.next_code, previous.width);
                lemma_packed_len_push(emitted, (clear_code(minimum_code_size) as u16, width));
            }
        }
    }
}

/// The LZW stream for `n` indices takes at most `3n + 4` bytes.
pub proof fn lemma_lzw_bytes_len(indexed: Seq<u8>, minimum_code_size: u8)
    requires
        2 <= minimum_code_size <= 8,
        forall|i: int| 0 <= i < indexed.len() ==> (#[trigger] indexed[i] as nat) < clear_code(minimum_code_size),
    ensures
        lzw_bytes(indexed, minimum_code_size).len() <= 3 * indexed.len() + 4,
{
    let codes = lzw_codes(indexed, minimum_code_size);
    let clear = clear_code(minimum_code_size);
    lemma_le_bytes_len((packed_len(codes) + 7) / 8);
    if indexed.len() == 0 {
        let first = seq![(clear as u16, (minimum_code_size + 1) as u8)];
        assert(codes == first.push(((clear + 1) as u16, (minimum_code_size + 1) as u8)));
        lemma_packed_len_push(first, ((clear + 1) as u16, (minimum_code_size + 1) as u8));
        lemma_packed_len_push(Seq::<WidthCode>::empty(), (clear as u16, (minimum_code_size + 1) as u8));
        assert(Seq::<WidthCode>::empty().push((clear as u16, (minimum_code_size + 1) as u8)) =~= first);
    } else {
        let n = indexed.len();
        let last = lzw_run(indexed, n, minimum_code_size);
        lemma_run_codes(indexed, n, minimum_code_size);
        let pending = last.codes.push((last.prefix, last.width));
        lemma_packed_len_push(last.codes, (last.prefix, last.width));
        lemma_packed_len_push(pending, ((clear + 1) as u16, bumped_width(last.next_code, last.width)));
        assert(packed_len(codes) <= 24 * n + 12);
    }
}

/// LZW-compresses palette indices as a GIF image stream, packed least significant bit first.
pub fn lzw_encode(indexed: &[u8], minimum_code_size: u8) -> (bytes: Vec<u8>)
    requires
        2 <= minimum_code_size <= 8,
        forall|i: int| 0 <= i < indexed@.len() ==> (#[trigger] indexed@[i] as nat) < clear_code(minimum_code_size),
    ensures
        bytes@ == lzw_bytes(indexed@, minimum_code_size),
{
    proof {
        lemma_clear_bounds(minimum_code_size);
        lemma_shift_is_pow2(minimum_code_size as u32);
    }
    let clear: u16 = (1u32 << minimum_code_size as u32) as u16;
    let end: u16 = clear + 1;
    let first_free: u16 = end + 1;
    let mut output = BitWriter::new();
    let mut dictionary: HashMap<u32, u16> = HashMap::new();
    let mut next_code: u16 = first_free;
    let mut code_width: u8 = minimum_code_size + 1;
    proof {
        assert(pow2((minimum_code_size + 1) as nat) == 2 * pow2(minimum_code_size as nat));
    }
    output.write(clear, code_width);
    proof {
        let first = seq![(clear, code_width)];
        assert(first.drop_last() =~= Seq::<WidthCode>::empty());
        assert(first.last() == (clear, code_width));
        assert(packed_value(Seq::<WidthCode>::empty()) == 0);
        assert(packed_len(Seq::<WidthCode>::empty()) == 0);
        lemma_pow2_8();
        assert(packed_value(first) == clear as nat);
        assert(packed_len(first) == code_width as nat);
    }
    if indexed.len() == 0 {
        let ghost first = seq![(clear, code_width)];
        let ghost codes = lzw_codes(indexed@, minimum_code_size);
        assert(codes.drop_last() =~= first);
        assert(codes.last() == (end, code_width));
        output.write(end, code_width);
        assert(output.value() == packed_value(codes));
        assert(output.length() == packed_len(codes));
        let bytes = output.finish();
        proof {
            lemma_le_bytes_unique(bytes@);
        }
        return bytes;
    }
    let mut prefix: u16 = indexed[0] as u16;
    let mut i: usize = 1;
    proof {
        assert((indexed@[0] as nat) < clear_code(minimum_code_size));
    }
    while i < indexed.len()
        invariant
            1 <= i <= indexed@.len(),
            2 <= minimum_code_size <= 8,
            clear as nat == clear_code(minimum_code_size),
            end == clear + 1,
            first_free == clear + 2,
            forall|j: int| 0 <= j < indexed@.len() ==> (#[trigger] indexed@[j] as nat) < clear_code(minimum_code_size),
            output.wf(),
            ({
                let state = lzw_run(indexed@, i as nat, minimum_code_size);
                &&& lzw_inv(state, minimum_code_size)
                &&& dictionary@ == state.dict
                &&& next_code == state.next_code
                &&& code_width == state.width
                &&& prefix == state.prefix
                &&& output.value() == packed_value(state.codes)
                &&& output.length() == packed_len(state.codes)
            }),
        decreases indexed@.len() - i,
    {
        let ghost state = lzw_run(indexed@, i as nat, minimum_code_size);
        let suffix = indexed[i];
        proof {
            lemma_step_inv(state, suffix, minimum_code_size);
            lemma_width_bound(code_width);
        }
        assert(lzw_run(indexed@, (i + 1) as nat, minimum_code_size) == lzw_step(state, suffix, minimum_code_size));
        let key: u32 = prefix as u32 * 256 + suffix as u32;
        assert(key == lzw_key(prefix, suffix));
        let ghost next = lzw_step(state, suffix, minimum_code_size);
        match dictionary.get(&key) {
            Some(combined) => {
                assert(state.dict.contains_key(key));
                prefix = *combined;
            },
            None => {
                assert(!state.dict.contains_key(key));
                let ghost emitted = state.codes.push((state.prefix, state.width));
                assert(emitted.drop_last() =~= state.codes);
                output.write(prefix, code_width);
                assert(output.value() == packed_value(emitted));
                assert(output.length() == packed_len(emitted));
                proof {
                    lemma_shift_is_pow2(code_width as u32);
                }
                if next_code as u32 == (1u32 << code_width as u32) && code_width < 12 {
                    code_width = code_width + 1;
                }
                assert(code_width == bumped_width(state.next_code, state.width));
                if next_code <= 4095 {
                    dictionary.insert(key, next_code);
                    next_code = next_code + 1;
                } else {
                    proof {
                        lemma_pow2_monotone((minimum_code_size + 1) as nat, code_width as nat);
                        assert(pow2((minimum_code_size + 1) as nat) == 2 * pow2(minimum_code_size as nat));
                    }
                    let ghost cleared = emitted.push((clear, code_width));
                    assert(cleared.drop_last() =~= emitted);
                    output.write(clear, code_width);
                    dictionary.clear();
                    next_code = first_free;
                    code_width = minimum_code_size + 1;
                    assert(output.value() == packed_value(cleared));
                    assert(output.length() == packed_len(cleared));
                }
                prefix = suffix as u16;
            },
        }
        assert(dictionary@ == next.dict);
        assert(prefix == next.prefix);
        assert(next_code == next.next_code);
        assert(code_width == next.width);
        i += 1;
    }
    let ghost state = lzw_run(indexed@, indexed@.len(), minimum_code_size);
    let ghost emitted = state.codes.push((state.prefix, state.width));
    assert(emitted.drop_last() =~= state.codes);
    proof {
        lemma_width_bound(code_width);
    }
    output.write(prefix, code_width);
    assert(output.value() == packed_value(emitted));
    assert(output.length() == packed_len(emitted));
    proof {
        lemma_shift_is_pow2(code_width as u32);
    }
    if next_code as u32 == (1u32 << code_width as u32) && code_width < 12 {
        code_width = code_width + 1;
    }
    assert(code_width == bumped_width(state.next_code, state.width));
    proof {
        lemma_pow2_monotone((minimum_code_size + 1) as nat, code_width as nat);
        assert(pow2((minimum_code_size + 1) as nat) == 2 * pow2(minimum_code_size as nat));
    }
    let ghost codes = lzw_codes(indexed@, minimum_code_size);
    assert(codes == emitted.push((end, code_width)));
    assert(codes.drop_last() =~= emitted);
    output.write(end, code_width);
    assert(output.value() == packed_value(codes));
    assert(output.length() == packed_len(codes));
    let bytes = output.finish();
    proof {
        lemma_le_bytes_unique(bytes@);
    }
    bytes
}

} // verus!
