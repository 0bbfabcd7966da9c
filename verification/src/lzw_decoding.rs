//! What a GIF decoder reads back from the LZW streams of `lzw_encode`: the decoder is written
//! out as spec functions, and the stream for any indices decodes to those indices.
use vstd::prelude::*;
use crate::lzw::{
    WidthCode, bumped_width, clear_code, le_bytes, le_value, lemma_clear_bounds, lemma_le_bytes_len, lemma_pow2_8,
    lemma_pow2_add, lemma_pow2_monotone, lemma_pow2_positive, lemma_run_codes, lzw_bytes, lzw_codes, lzw_inv,
    lzw_key, lzw_run, lzw_start, lzw_step, packed_len, packed_value, pow2,
};

verus! {

/// A GIF decoder part way through an LZW code stream: the strings of the codes past the end
/// code learned since the last clear code, the width of the next code, the string of the
/// previous code (none right after a clear code), the indices output so far, and whether the
/// end code has been read.
pub struct LzwDecoder {
    pub entries: Seq<Seq<u8>>,
    pub width: nat,
    pub previous: Option<Seq<u8>>,
    pub output: Seq<u8>,
    pub ended: bool,
}

/// The decoder before the first code.
pub open spec fn decoder_start(minimum_code_size: u8) -> LzwDecoder {
    LzwDecoder {
        entries: Seq::empty(),
        width: (minimum_code_size + 1) as nat,
        previous: None,
        output: Seq::empty(),
        ended: false,
    }
}

/// The string `code` stands for: itself below the clear code, a learned entry, or (for the
/// code about to be learned) the previous string followed by its own first index.
pub open spec fn code_string(decoder: LzwDecoder, code: nat, minimum_code_size: u8) -> Seq<u8> {
    let clear = clear_code(minimum_code_size);
    if code < clear {
        seq![code as u8]
    } else if code >= clear + 2 && code - (clear + 2) < decoder.entries.len() {
        decoder.entries[code - (clear + 2)]
    } else {
        let previous = decoder.previous->Some_0;
        previous.push(previous[0])
    }
}

/// The decoder after reading `code`: a clear code forgets the learned entries and resets the
/// width, the end code stops it, and any other code outputs its string and, after a previous
/// code, learns the previous string extended by the first index of this one while the table
/// has room, widening the codes once the table fills the current width.
pub open spec fn decoder_step(decoder: LzwDecoder, code: nat, minimum_code_size: u8) -> LzwDecoder {
    let clear = clear_code(minimum_code_size);
    if decoder.ended {
        decoder
    } else if code == clear {
        LzwDecoder {
            entries: Seq::empty(),
            width: (minimum_code_size + 1) as nat,
            previous: None,
            ..decoder
        }
    } else if code == clear + 1 {
        LzwDecoder { ended: true, ..decoder }
    } else {
        let string = code_string(decoder, code, minimum_code_size);
        let learned = match decoder.previous {
            Some(previous) => if clear + 2 + decoder.entries.len() < 4096 {
                decoder.entries.push(previous.push(string[0]))
            } else {
                decoder.entries
            },
            None => decoder.entries,
        };
        let width = if decoder.previous is Some && clear + 2 + learned.len() == pow2(decoder.width)
            && decoder.width < 12 {
            decoder.width + 1
        } else {
            decoder.width
        };
        LzwDecoder {
            entries: learned,
            width,
            previous: Some(string),
            output: decoder.output + string,
            ended: false,
        }
    }
}

/// The decoder after reading the values of `codes` in turn.
pub open spec fn decode_codes(codes: Seq<WidthCode>, minimum_code_size: u8) -> LzwDecoder
    decreases codes.len(),
{
    if codes.len() == 0 {
        decoder_start(minimum_code_size)
    } else {
        decoder_step(decode_codes(codes.drop_last(), minimum_code_size), codes.last().0 as nat, minimum_code_size)
    }
}

/// Every code is written at the width the decoder reads it with.
pub open spec fn widths_match(codes: Seq<WidthCode>, minimum_code_size: u8) -> bool {
    forall|k: int|
        0 <= k < codes.len() ==> decode_codes(codes.take(k), minimum_code_size).width == (#[trigger] codes[k]).1
}

/// The strings the encoder's codes past the end code stand for, and the input since its last
/// emitted code, after the first `n` indices.
pub open spec fn encoder_strings(indexed: Seq<u8>, n: nat, minimum_code_size: u8) -> (Seq<Seq<u8>>, Seq<u8>)
    decreases n,
{
    if n <= 1 {
        (Seq::empty(), seq![indexed[0]])
    } else {
        let (strings, pending) = encoder_strings(indexed, (n - 1) as nat, minimum_code_size);
        let state = lzw_run(indexed, (n - 1) as nat, minimum_code_size);
        let suffix = indexed[n - 1];
        if state.dict.contains_key(lzw_key(state.prefix, suffix)) {
            (strings, pending.push(suffix))
        } else if state.next_code <= 4095 {
            (strings.push(pending.push(suffix)), seq![suffix])
        } else {
            (Seq::empty(), seq![suffix])
        }
    }
}

/// The string of an encoder code given the strings of its codes past the end code.
pub open spec fn encoder_code_string(strings: Seq<Seq<u8>>, code: int, minimum_code_size: u8) -> Seq<u8> {
    if code < clear_code(minimum_code_size) {
        seq![code as u8]
    } else {
        strings[code - (clear_code(minimum_code_size) + 2)]
    }
}

/// How the decoder, having read the codes emitted after `n` indices, stands to the encoder.
pub open spec fn decoding_inv(indexed: Seq<u8>, n: nat, minimum_code_size: u8) -> bool {
    let state = lzw_run(indexed, n, minimum_code_size);
    let (strings, pending) = encoder_strings(indexed, n, minimum_code_size);
    let decoder = decode_codes(state.codes, minimum_code_size);
    let clear = clear_code(minimum_code_size);
    &&& lzw_inv(state, minimum_code_size)
    &&& widths_match(state.codes, minimum_code_size)
    &&& !decoder.ended
    &&& decoder.output + pending == indexed.take(n as int)
    &&& decoder.width == state.width as nat
    &&& pending.len() > 0
    &&& strings.len() == state.next_code - (clear + 2)
    &&& forall|j: int| 0 <= j < strings.len() ==> (#[trigger] strings[j]).len() > 0
    &&& state.prefix < clear || state.prefix >= clear + 2
    &&& encoder_code_string(strings, state.prefix as int, minimum_code_size) == pending
    &&& forall|key: u32|
        #[trigger] state.dict.contains_key(key) ==> {
            &&& state.dict[key] >= clear + 2
            &&& key / 256 < state.next_code
            &&& (key / 256 < clear || key / 256 >= clear + 2)
            &&& strings[state.dict[key] - (clear + 2)] == encoder_code_string(
                strings,
                (key / 256) as int,
                minimum_code_size,
            ).push((key % 256) as u8)
        }
    &&& match decoder.previous {
        None => strings.len() == 0 && decoder.entries.len() == 0 && decoder.width == (minimum_code_size + 1) as nat,
        Some(previous) => {
            &&& strings.len() >= 1
            &&& decoder.entries == strings.drop_last()
            &&& previous.len() > 0
            &&& strings.last() == previous.push(pending[0])
        },
    }
}

proof fn lemma_decode_push(codes: Seq<WidthCode>, code: WidthCode, minimum_code_size: u8)
    ensures
        decode_codes(codes.push(code), minimum_code_size) == decoder_step(
            decode_codes(codes, minimum_code_size),
            code.0 as nat,
            minimum_code_size,
        ),
{
    assert(codes.push(code).drop_last() =~= codes);
}

proof fn lemma_widths_push(codes: Seq<WidthCode>, code: WidthCode, minimum_code_size: u8)
    requires
        widths_match(codes, minimum_code_size),
        decode_codes(codes, minimum_code_size).width == code.1 as nat,
    ensures
        widths_match(codes.push(code), minimum_code_size),
{
    let longer = codes.push(code);
    assert forall|k: int| 0 <= k < longer.len() implies decode_codes(longer.take(k), minimum_code_size).width
        == (#[trigger] longer[k]).1 by {
        if k < codes.len() {
            assert(longer.take(k) =~= codes.take(k));
            assert(decode_codes(codes.take(k), minimum_code_size).width == codes[k].1);
        } else {
            assert(longer.take(k) =~= codes);
        }
    }
}

proof fn lemma_key_parts(prefix: u16, suffix: u8)
    requires
        prefix < 4096,
    ensures
        lzw_key(prefix, suffix) / 256 == prefix,
        lzw_key(prefix, suffix) % 256 == suffix,
{
    let key = lzw_key(prefix, suffix);
    assert(prefix * 256 + suffix < 0x1_0000_0000);
    assert(key == prefix * 256 + suffix);
    vstd::arithmetic::div_mod::lemma_fundamental_div_mod_converse(key as int, 256, prefix as int, suffix as int);
}

/// The input up to `n` indices is the previous input followed by index `n - 1`.
proof fn lemma_take_push(indexed: Seq<u8>, n: nat)
    requires
        1 <= n <= indexed.len(),
    ensures
        indexed.take(n as int) == indexed.take(n - 1).push(indexed[n - 1]),
{
    assert(indexed.take(n as int) =~= indexed.take(n - 1).push(indexed[n - 1]));
}

/// The decoder's state after the first index.
proof fn lemma_decoding_first(indexed: Seq<u8>, minimum_code_size: u8)
    requires
        1 <= indexed.len(),
        2 <= minimum_code_size <= 8,
        forall|i: int| 0 <= i < indexed.len() ==> (#[trigger] indexed[i] as nat) < clear_code(minimum_code_size),
    ensures
        decoding_inv(indexed, 1, minimum_code_size),
{
    let m = minimum_code_size;
    let clear = clear_code(m);
    lemma_clear_bounds(m);
    lemma_run_codes(indexed, 1, m);
    let state = lzw_start(indexed[0], m);
    assert(lzw_run(indexed, 1, m) == state);
    let code = (clear as u16, (m + 1) as u8);
    assert(state.codes =~= Seq::<WidthCode>::empty().push(code));
    lemma_decode_push(Seq::empty(), code, m);
    assert(widths_match(Seq::<WidthCode>::empty(), m));
    lemma_widths_push(Seq::empty(), code, m);
    assert((indexed[0] as nat) < clear);
    let decoder = decode_codes(state.codes, m);
    assert(decoder.output =~= Seq::<u8>::empty());
    assert(decoder.output + seq![indexed[0]] =~= indexed.take(1));
}

/// A known extension of the pending prefix only lengthens it.
proof fn lemma_decoding_extend(indexed: Seq<u8>, n: nat, minimum_code_size: u8)
    requires
        2 <= n <= indexed.len(),
        2 <= minimum_code_size <= 8,
        forall|i: int| 0 <= i < indexed.len() ==> (#[trigger] indexed[i] as nat) < clear_code(minimum_code_size),
        decoding_inv(indexed, (n - 1) as nat, minimum_code_size),
        ({
            let state = lzw_run(indexed, (n - 1) as nat, minimum_code_size);
            state.dict.contains_key(lzw_key(state.prefix, indexed[n - 1]))
        }),
    ensures
        decoding_inv(indexed, n, minimum_code_size),
{
    let m = minimum_code_size;
    let clear = clear_code(m);
    lemma_clear_bounds(m);
    lemma_run_codes(indexed, n, m);
    let state = lzw_run(indexed, (n - 1) as nat, m);
    let (strings, pending) = encoder_strings(indexed, (n - 1) as nat, m);
    let decoder = decode_codes(state.codes, m);
    let suffix = indexed[n - 1];
    let key = lzw_key(state.prefix, suffix);
    assert(lzw_run(indexed, n, m) == lzw_step(state, suffix, m));
    lemma_key_parts(state.prefix, suffix);
    lemma_take_push(indexed, n);
    assert(encoder_strings(indexed, n, m) == (strings, pending.push(suffix)));
    assert(decoder.output + pending.push(suffix) =~= (decoder.output + pending).push(suffix));
    assert(encoder_code_string(strings, state.dict[key] as int, m) == pending.push(suffix));
}

/// The string the decoder gives the pending prefix code, once the encoder emits it, is the
/// pending input.
proof fn lemma_emitted_string(indexed: Seq<u8>, n: nat, minimum_code_size: u8)
    requires
        1 <= n <= indexed.len(),
        2 <= minimum_code_size <= 8,
        decoding_inv(indexed, n, minimum_code_size),
    ensures
        ({
            let state = lzw_run(indexed, n, minimum_code_size);
            let decoder = decode_codes(state.codes, minimum_code_size);
            code_string(decoder, state.prefix as nat, minimum_code_size) == encoder_strings(indexed, n, minimum_code_size).1
        }),
{
    let m = minimum_code_size;
    let clear = clear_code(m);
    let state = lzw_run(indexed, n, m);
    let (strings, pending) = encoder_strings(indexed, n, m);
    let decoder = decode_codes(state.codes, m);
    if state.prefix >= clear + 2 {
        let j = state.prefix - (clear + 2);
        if j < decoder.entries.len() {
            assert(decoder.entries[j] == strings[j]);
        } else {
            let previous = decoder.previous->Some_0;
            assert(strings[j] == strings.last());
            assert(pending == previous.push(pending[0]));
            assert(pending[0] == previous[0]);
        }
    }
}

/// An unknown extension with room in the table emits the pending prefix and learns the
/// extension.
proof fn lemma_decoding_learn(indexed: Seq<u8>, n: nat, minimum_code_size: u8)
    requires
        2 <= n <= indexed.len(),
        2 <= minimum_code_size <= 8,
        forall|i: int| 0 <= i < indexed.len() ==> (#[trigger] indexed[i] as nat) < clear_code(minimum_code_size),
        decoding_inv(indexed, (n - 1) as nat, minimum_code_size),
        ({
            let state = lzw_run(indexed, (n - 1) as nat, minimum_code_size);
            &&& !state.dict.contains_key(lzw_key(state.prefix, indexed[n - 1]))
            &&& state.next_code <= 4095
        }),
    ensures
        decoding_inv(indexed, n, minimum_code_size),
{
    let m = minimum_code_size;
    let clear = clear_code(m);
    lemma_clear_bounds(m);
    lemma_run_codes(indexed, n, m);
    let state = lzw_run(indexed, (n - 1) as nat, m);
    let (strings, pending) = encoder_strings(indexed, (n - 1) as nat, m);
    let decoder = decode_codes(state.codes, m);
    let suffix = indexed[n - 1];
    assert((suffix as nat) < clear);
    let key = lzw_key(state.prefix, suffix);
    let next = lzw_step(state, suffix, m);
    assert(lzw_run(indexed, n, m) == next);
    lemma_key_parts(state.prefix, suffix);
    lemma_take_push(indexed, n);
    let code = (state.prefix, state.width);
    let emitted = state.codes.push(code);
    lemma_decode_push(state.codes, code, m);
    lemma_widths_push(state.codes, code, m);
    lemma_emitted_string(indexed, (n - 1) as nat, m);
    let after = decoder_step(decoder, state.prefix as nat, m);
    assert(after.output + seq![suffix] =~= indexed.take(n as int));
    let grown = strings.push(pending.push(suffix));
    assert(encoder_strings(indexed, n, m) == (grown, seq![suffix]));
    assert(next.codes == emitted);
    assert(after.entries =~= strings);
    assert(grown.drop_last() =~= strings);
    assert forall|i: int| 0 <= i < grown.len() implies (#[trigger] grown[i]).len() > 0 by {
        if i < strings.len() {
            assert(grown[i] == strings[i]);
        }
    }
    assert(encoder_code_string(grown, suffix as int, m) == seq![suffix]);
    assert forall|k: u32| #[trigger] next.dict.contains_key(k) implies {
        &&& next.dict[k] >= clear + 2
        &&& k / 256 < next.next_code
        &&& (k / 256 < clear || k / 256 >= clear + 2)
        &&& grown[next.dict[k] - (clear + 2)] == encoder_code_string(grown, (k / 256) as int, m).push((k % 256) as u8)
    } by {
        if k == key {
            assert(encoder_code_string(grown, state.prefix as int, m) == encoder_code_string(
                strings,
                state.prefix as int,
                m,
            ));
        } else {
            assert(state.dict.contains_key(k));
            assert(grown[state.dict[k] - (clear + 2)] == strings[state.dict[k] - (clear + 2)]);
            assert(encoder_code_string(grown, (k / 256) as int, m) == encoder_code_string(
                strings,
                (k / 256) as int,
                m,
            ));
        }
    }
}

/// An unknown extension with the table full emits the pending prefix and a clear code.
proof fn lemma_decoding_reset(indexed: Seq<u8>, n: nat, minimum_code_size: u8)
    requires
        2 <= n <= indexed.len(),
        2 <= minimum_code_size <= 8,
        forall|i: int| 0 <= i < indexed.len() ==> (#[trigger] indexed[i] as nat) < clear_code(minimum_code_size),
        decoding_inv(indexed, (n - 1) as nat, minimum_code_size),
        ({
            let state = lzw_run(indexed, (n - 1) as nat, minimum_code_size);
            &&& !state.dict.contains_key(lzw_key(state.prefix, indexed[n - 1]))
            &&& state.next_code > 4095
        }),
    ensures
        decoding_inv(indexed, n, minimum_code_size),
{
    let m = minimum_code_size;
    let clear = clear_code(m);
    lemma_clear_bounds(m);
    lemma_run_codes(indexed, n, m);
    let state = lzw_run(indexed, (n - 1) as nat, m);
    let (strings, pending) = encoder_strings(indexed, (n - 1) as nat, m);
    let decoder = decode_codes(state.codes, m);
    let suffix = indexed[n - 1];
    assert((suffix as nat) < clear);
    let next = lzw_step(state, suffix, m);
    assert(lzw_run(indexed, n, m) == next);
    lemma_take_push(indexed, n);
    let code = (state.prefix, state.width);
    let emitted = state.codes.push(code);
    lemma_decode_push(state.codes, code, m);
    lemma_widths_push(state.codes, code, m);
    lemma_emitted_string(indexed, (n - 1) as nat, m);
    let after = decoder_step(decoder, state.prefix as nat, m);
    assert(after.output + seq![suffix] =~= indexed.take(n as int));
    assert(encoder_strings(indexed, n, m) == (Seq::<Seq<u8>>::empty(), seq![suffix]));
    let width = bumped_width(state.next_code, state.width);
    if state.width < 12 {
        lemma_pow2_monotone(state.width as nat, 11);
        lemma_pow2_8();
    }
    assert(state.width == 12);
    assert(after.width == 12);
    let cleared = emitted.push((clear as u16, width));
    assert(next.codes == cleared);
    lemma_decode_push(emitted, (clear as u16, width), m);
    lemma_widths_push(emitted, (clear as u16, width), m);
    assert(decode_codes(cleared, m).output == after.output);
}

/// The decoder keeps pace with the encoder over every prefix of the input.
proof fn lemma_decoding_run(indexed: Seq<u8>, n: nat, minimum_code_size: u8)
    requires
        1 <= n <= indexed.len(),
        2 <= minimum_code_size <= 8,
        forall|i: int| 0 <= i < indexed.len() ==> (#[trigger] indexed[i] as nat) < clear_code(minimum_code_size),
    ensures
        decoding_inv(indexed, n, minimum_code_size),
    decreases n,
{
    if n == 1 {
        lemma_decoding_first(indexed, minimum_code_size);
    } else {
        lemma_decoding_run(indexed, (n - 1) as nat, minimum_code_size);
        let state = lzw_run(indexed, (n - 1) as nat, minimum_code_size);
        if state.dict.contains_key(lzw_key(state.prefix, indexed[n - 1])) {
            lemma_decoding_extend(indexed, n, minimum_code_size);
        } else if state.next_code <= 4095 {
            lemma_decoding_learn(indexed, n, minimum_code_size);
        } else {
            lemma_decoding_reset(indexed, n, minimum_code_size);
        }
    }
}

/// Reading the codes of the LZW stream for `indexed`, each at the width it was written with,
/// outputs `indexed` and ends at the end code.
pub proof fn lemma_codes_decode(indexed: Seq<u8>, minimum_code_size: u8)
    requires
        2 <= minimum_code_size <= 8,
        forall|i: int| 0 <= i < indexed.len() ==> (#[trigger] indexed[i] as nat) < clear_code(minimum_code_size),
    ensures
        widths_match(lzw_codes(indexed, minimum_code_size), minimum_code_size),
        decode_codes(lzw_codes(indexed, minimum_code_size), minimum_code_size).ended,
        decode_codes(lzw_codes(indexed, minimum_code_size), minimum_code_size).output == indexed,
{
    let m = minimum_code_size;
    let clear = clear_code(m);
    lemma_clear_bounds(m);
    let codes = lzw_codes(indexed, m);
    if indexed.len() == 0 {
        let first = (clear as u16, (m + 1) as u8);
        let last = ((clear + 1) as u16, (m + 1) as u8);
        assert(codes =~= Seq::<WidthCode>::empty().push(first).push(last));
        assert(widths_match(Seq::<WidthCode>::empty(), m));
        lemma_decode_push(Seq::empty(), first, m);
        lemma_widths_push(Seq::empty(), first, m);
        lemma_decode_push(Seq::<WidthCode>::empty().push(first), last, m);
        lemma_widths_push(Seq::<WidthCode>::empty().push(first), last, m);
        assert(indexed =~= Seq::<u8>::empty());
    } else {
        let n = indexed.len();
        lemma_decoding_run(indexed, n, m);
        let state = lzw_run(indexed, n, m);
        let (strings, pending) = encoder_strings(indexed, n, m);
        let decoder = decode_codes(state.codes, m);
        let code = (state.prefix, state.width);
        let emitted = state.codes.push(code);
        let end = ((clear + 1) as u16, bumped_width(state.next_code, state.width));
        assert(codes == emitted.push(end));
        lemma_decode_push(state.codes, code, m);
        lemma_widths_push(state.codes, code, m);
        lemma_emitted_string(indexed, n, m);
        let after = decoder_step(decoder, state.prefix as nat, m);
        assert(after.output == indexed.take(n as int));
        assert(indexed.take(n as int) =~= indexed);
        if decoder.previous is None {
            assert(pow2((m + 1) as nat) == 2 * pow2(m as nat));
        }
        assert(after.width == end.1 as nat);
        lemma_decode_push(emitted, end, m);
        lemma_widths_push(emitted, end, m);
    }
}

/// Every code is below two to the power of its width.
pub open spec fn codes_fit(codes: Seq<WidthCode>) -> bool {
    forall|k: int| 0 <= k < codes.len() ==> ((#[trigger] codes[k]).0 as nat) < pow2(codes[k].1 as nat)
}

proof fn lemma_run_codes_fit(indexed: Seq<u8>, n: nat, minimum_code_size: u8)
    requires
        1 <= n <= indexed.len(),
        2 <= minimum_code_size <= 8,
        forall|i: int| 0 <= i < indexed.len() ==> (#[trigger] indexed[i] as nat) < clear_code(minimum_code_size),
    ensures
        codes_fit(lzw_run(indexed, n, minimum_code_size).codes),
    decreases n,
{
    let m = minimum_code_size;
    let clear = clear_code(m);
    lemma_clear_bounds(m);
    if n == 1 {
        assert(lzw_run(indexed, 1, m) == lzw_start(indexed[0], m));
    } else {
        lemma_run_codes_fit(indexed, (n - 1) as nat, m);
        lemma_run_codes(indexed, (n - 1) as nat, m);
        let state = lzw_run(indexed, (n - 1) as nat, m);
        let suffix = indexed[n - 1];
        let next = lzw_step(state, suffix, m);
        assert(lzw_run(indexed, n, m) == next);
        if !state.dict.contains_key(lzw_key(state.prefix, suffix)) {
            let width = bumped_width(state.next_code, state.width);
            lemma_pow2_monotone((m + 1) as nat, width as nat);
            assert forall|k: int| 0 <= k < next.codes.len() implies ((#[trigger] next.codes[k]).0 as nat) < pow2(
                next.codes[k].1 as nat,
            ) by {
                if k < state.codes.len() {
                    assert(next.codes[k] == state.codes[k]);
                }
            }
        }
    }
}

/// The codes of every LZW stream fit their widths.
proof fn lemma_codes_fit(indexed: Seq<u8>, minimum_code_size: u8)
    requires
        2 <= minimum_code_size <= 8,
        forall|i: int| 0 <= i < indexed.len() ==> (#[trigger] indexed[i] as nat) < clear_code(minimum_code_size),
    ensures
        codes_fit(lzw_codes(indexed, minimum_code_size)),
{
    let m = minimum_code_size;
    lemma_clear_bounds(m);
    let codes = lzw_codes(indexed, m);
    if indexed.len() > 0 {
        let n = indexed.len();
        lemma_run_codes_fit(indexed, n, m);
        lemma_run_codes(indexed, n, m);
        let state = lzw_run(indexed, n, m);
        lemma_pow2_monotone((m + 1) as nat, bumped_width(state.next_code, state.width) as nat);
        assert forall|k: int| 0 <= k < codes.len() implies ((#[trigger] codes[k]).0 as nat) < pow2(codes[k].1 as nat) by {
            if k < state.codes.len() {
                assert(codes[k] == state.codes[k]);
            }
        }
    }
}

proof fn lemma_packed_value_bound(codes: Seq<WidthCode>)
    requires
        codes_fit(codes),
    ensures
        packed_value(codes) < pow2(packed_len(codes)),
    decreases codes.len(),
{
    lemma_pow2_positive(packed_len(codes));
    if codes.len() > 0 {
        let rest = codes.drop_last();
        assert forall|k: int| 0 <= k < rest.len() implies ((#[trigger] rest[k]).0 as nat) < pow2(rest[k].1 as nat) by {
            assert(rest[k] == codes[k]);
        }
        lemma_packed_value_bound(rest);
        let length = packed_len(rest);
        let last = codes.last();
        assert((last.0 as nat) < pow2(last.1 as nat));
        lemma_pow2_add(length, last.1 as nat);
        assert(packed_value(codes) < pow2(length) * pow2(last.1 as nat)) by (nonlinear_arith)
            requires
                packed_value(codes) == packed_value(rest) + (last.0 as nat) * pow2(length),
                packed_value(rest) < pow2(length),
                (last.0 as nat) + 1 <= pow2(last.1 as nat),
        ;
    }
}

proof fn lemma_packed_concat(front: Seq<WidthCode>, back: Seq<WidthCode>)
    ensures
        packed_len(front + back) == packed_len(front) + packed_len(back),
        packed_value(front + back) == packed_value(front) + pow2(packed_len(front)) * packed_value(back),
    decreases back.len(),
{
    if back.len() == 0 {
        assert(front + back =~= front);
        assert(packed_value(back) == 0);
        assert(packed_len(back) == 0);
        assert(pow2(packed_len(front)) * 0 == 0);
    } else {
        let shorter = back.drop_last();
        lemma_packed_concat(front, shorter);
        assert((front + back).drop_last() =~= front + shorter);
        assert((front + back).last() == back.last());
        let front_length = packed_len(front);
        let shorter_length = packed_len(shorter);
        lemma_pow2_add(front_length, shorter_length);
        let code = back.last().0 as nat;
        assert(packed_len(back) == shorter_length + back.last().1);
        assert(packed_len(front + back) == packed_len(front + shorter) + back.last().1);
        assert(packed_value(back) == packed_value(shorter) + code * pow2(shorter_length));
        assert(packed_value(front + back) == packed_value(front + shorter) + code * pow2(
            packed_len(front + shorter),
        ));
        assert(packed_value(front + back) == packed_value(front) + pow2(front_length) * packed_value(back))
            by (nonlinear_arith)
            requires
                packed_value(front + back) == packed_value(front + shorter) + code * pow2(front_length + shorter_length),
                packed_value(front + shorter) == packed_value(front) + pow2(front_length) * packed_value(shorter),
                pow2(front_length + shorter_length) == pow2(front_length) * pow2(shorter_length),
                packed_value(back) == packed_value(shorter) + code * pow2(shorter_length),
        ;
    }
}

/// The bits of a packed code stream at the position of code `k` hold code `k`.
proof fn lemma_packed_code(codes: Seq<WidthCode>, k: int)
    requires
        codes_fit(codes),
        0 <= k < codes.len(),
    ensures
        (packed_value(codes) / pow2(packed_len(codes.take(k)))) % pow2(codes[k].1 as nat) == codes[k].0 as nat,
{
    let front = codes.take(k);
    let code = codes[k];
    let rest = codes.skip(k + 1);
    let single = seq![code];
    assert(codes =~= front + (single + rest));
    lemma_packed_concat(front, single + rest);
    lemma_packed_concat(single, rest);
    assert(single.drop_last() =~= Seq::<WidthCode>::empty());
    assert(single.last() == code);
    assert(packed_value(Seq::<WidthCode>::empty()) == 0);
    assert(packed_len(Seq::<WidthCode>::empty()) == 0);
    assert(pow2(0) == 1);
    assert(single.len() == 1);
    assert(packed_value(single) == packed_value(single.drop_last()) + (single.last().0 as nat) * pow2(
        packed_len(single.drop_last()),
    ));
    assert(packed_value(single.drop_last()) == 0);
    assert(pow2(packed_len(single.drop_last())) == 1);
    assert(packed_value(single) == code.0 as nat) by (nonlinear_arith)
        requires
            packed_value(single) == packed_value(single.drop_last()) + (single.last().0 as nat) * pow2(
                packed_len(single.drop_last()),
            ),
            packed_value(single.drop_last()) == 0,
            pow2(packed_len(single.drop_last())) == 1,
            single.last() == code,
    ;
    assert(packed_len(single) == code.1 as nat);
    assert forall|i: int| 0 <= i < front.len() implies ((#[trigger] front[i]).0 as nat) < pow2(front[i].1 as nat) by {
        assert(front[i] == codes[i]);
    }
    lemma_packed_value_bound(front);
    let low = pow2(packed_len(front));
    let unit = pow2(code.1 as nat);
    lemma_pow2_positive(packed_len(front));
    lemma_pow2_positive(code.1 as nat);
    let tail = (code.0 as nat) + unit * packed_value(rest);
    assert(packed_value(codes) == packed_value(front) + low * tail);
    assert(packed_value(codes) == tail * low + packed_value(front)) by (nonlinear_arith)
        requires
            packed_value(codes) == packed_value(front) + low * tail,
    ;
    vstd::arithmetic::div_mod::lemma_fundamental_div_mod_converse(
        packed_value(codes) as int,
        low as int,
        tail as int,
        packed_value(front) as int,
    );
    assert((code.0 as nat) < unit);
    assert(tail == packed_value(rest) * unit + code.0) by (nonlinear_arith)
        requires
            tail == (code.0 as nat) + unit * packed_value(rest),
    ;
    vstd::arithmetic::div_mod::lemma_fundamental_div_mod_converse(
        tail as int,
        unit as int,
        packed_value(rest) as int,
        code.0 as int,
    );
}

/// The little-endian value of the `n` bytes of `value` is `value` modulo `2^(8n)`.
proof fn lemma_le_bytes_value(value: nat, n: nat)
    ensures
        le_value(le_bytes(value, n)) == value % pow2(8 * n),
    decreases n,
{
    lemma_pow2_positive(8 * n);
    if n == 0 {
        assert(pow2(0) == 1);
    } else {
        let low = pow2(8 * (n - 1) as nat);
        lemma_pow2_positive(8 * (n - 1) as nat);
        lemma_le_bytes_value(value % low, (n - 1) as nat);
        lemma_le_bytes_len((n - 1) as nat);
        let bytes = le_bytes(value, n);
        let rest = le_bytes(value % low, (n - 1) as nat);
        let top = (value / low) % 256;
        assert(bytes == rest.push(top as u8));
        assert(rest.len() == n - 1);
        assert(bytes.drop_last() =~= rest);
        assert(bytes.last() as nat == top);
        assert(bytes.len() == n);
        assert(le_value(bytes) == le_value(rest) + top * low);
        vstd::arithmetic::div_mod::lemma_small_mod(value % low, low);
        assert(le_value(rest) == value % low);
        lemma_pow2_add(8 * (n - 1) as nat, 8);
        lemma_pow2_8();
        assert(8 * (n - 1) as nat + 8 == 8 * n);
        assert(pow2(8 * n) == low * 256);
        vstd::arithmetic::div_mod::lemma_mod_breakdown(value as int, low as int, 256);
        assert(value % pow2(8 * n) == low * top + value % low);
    }
}

/// The `width` bits of `bytes` from bit `position` on, least significant first.
pub open spec fn read_bits(bytes: Seq<u8>, position: nat, width: nat) -> nat {
    (le_value(bytes) / pow2(position)) % pow2(width)
}

/// The decoder after reading `count` codes from `bytes`, each at the decoder's width at the
/// time, and the bit position it has reached.
pub open spec fn decode_stream(bytes: Seq<u8>, minimum_code_size: u8, count: nat) -> (LzwDecoder, nat)
    decreases count,
{
    if count == 0 {
        (decoder_start(minimum_code_size), 0)
    } else {
        let (decoder, position) = decode_stream(bytes, minimum_code_size, (count - 1) as nat);
        (
            decoder_step(decoder, read_bits(bytes, position, decoder.width), minimum_code_size),
            position + decoder.width,
        )
    }
}

/// Reading the first `k` codes of a packed stream, each at its width, reaches the decoder
/// state of those codes at the bit position where they end.
proof fn lemma_stream_prefix(stream: Seq<u8>, codes: Seq<WidthCode>, minimum_code_size: u8, k: nat)
    requires
        k <= codes.len(),
        le_value(stream) == packed_value(codes),
        codes_fit(codes),
        widths_match(codes, minimum_code_size),
    ensures
        decode_stream(stream, minimum_code_size, k) == (
            decode_codes(codes.take(k as int), minimum_code_size),
            packed_len(codes.take(k as int)),
        ),
    decreases k,
{
    if k == 0 {
        assert(codes.take(0) =~= Seq::<WidthCode>::empty());
    } else {
        let j = (k - 1) as nat;
        lemma_stream_prefix(stream, codes, minimum_code_size, j);
        let (decoder, position) = decode_stream(stream, minimum_code_size, j);
        assert(decoder.width == codes[j as int].1);
        lemma_packed_code(codes, j as int);
        assert(read_bits(stream, position, decoder.width) == codes[j as int].0 as nat);
        let longer = codes.take(k as int);
        assert(longer.drop_last() =~= codes.take(j as int));
        assert(longer.last() == codes[j as int]);
    }
}

/// A GIF decoder reading the stream `lzw_encode` writes for `indexed` gets `indexed` back:
/// after as many codes as the stream holds it has read the end code (after which it reads
/// nothing more) and output exactly those indices, whichever code widths and clear codes the
/// stream went through.
pub proof fn lemma_lzw_stream_decodes(indexed: Seq<u8>, minimum_code_size: u8)
    requires
        2 <= minimum_code_size <= 8,
        forall|i: int| 0 <= i < indexed.len() ==> (#[trigger] indexed[i] as nat) < clear_code(minimum_code_size),
    ensures
        ({
            let stream = lzw_bytes(indexed, minimum_code_size);
            let count = lzw_codes(indexed, minimum_code_size).len();
            &&& decode_stream(stream, minimum_code_size, count).0.ended
            &&& decode_stream(stream, minimum_code_size, count).0.output == indexed
        }),
{
    let m = minimum_code_size;
    let codes = lzw_codes(indexed, m);
    let stream = lzw_bytes(indexed, m);
    lemma_codes_decode(indexed, m);
    lemma_codes_fit(indexed, m);
    lemma_packed_value_bound(codes);
    let bits = packed_len(codes);
    let byte_count = (bits + 7) / 8;
    lemma_le_bytes_value(packed_value(codes), byte_count);
    lemma_pow2_monotone(bits, 8 * byte_count);
    vstd::arithmetic::div_mod::lemma_small_mod(packed_value(codes), pow2(8 * byte_count));
    assert(le_value(stream) == packed_value(codes));
    lemma_stream_prefix(stream, codes, m, codes.len());
    assert(codes.take(codes.len() as int) =~= codes);
}

} // verus!
