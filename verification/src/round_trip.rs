use vstd::prelude::*;
use vstd::utf8::*;
use crate::fields::{lemma_split_field_then_rest, lemma_split_nul_free, split_nul};
use crate::options::pairs_to_map;
use crate::text::{ascii_lower, lemma_encode_nul_free, no_nul_char};
use crate::tftp_protocol::{
    be16, be16_bytes, decode, encode_pairs, option_fields_valid, options_of, pair_count,
    lemma_decode_empty, text_field, MalformedPacket, Packet, PacketModel, OPCODE_ACK,
    OPCODE_DATA,
};

verus! {

/// A name that comes back from the wire as it went: not empty, without NUL
/// and without upper-case ASCII letters.
pub open spec fn legal_name(s: Seq<char>) -> bool {
    &&& s.len() > 0
    &&& no_nul_char(s)
    &&& ascii_lower(s) == s
}

/// Options whose names are legal and whose values hold no NUL.
pub open spec fn legal_pairs(pairs: Seq<(Seq<char>, Seq<char>)>) -> bool {
    forall|i: int|
        0 <= i < pairs.len() ==> legal_name((#[trigger] pairs[i]).0) && no_nul_char(pairs[i].1)
}

/// A packet that the wire format can carry without loss: texts hold no NUL,
/// a request's filename is not empty, and the mode and the option names are
/// in lower case.
pub open spec fn legal(p: Packet) -> bool {
    match p {
        Packet::RRQ { filename, mode, options } => {
            &&& filename@.len() > 0
            &&& no_nul_char(filename@)
            &&& no_nul_char(mode@)
            &&& ascii_lower(mode@) == mode@
            &&& legal_pairs(options.pairs())
        },
        Packet::WRQ { filename, mode, options } => {
            &&& filename@.len() > 0
            &&& no_nul_char(filename@)
            &&& no_nul_char(mode@)
            &&& ascii_lower(mode@) == mode@
            &&& legal_pairs(options.pairs())
        },
        Packet::DATA { .. } => true,
        Packet::ACK { .. } => true,
        Packet::ERROR { msg, .. } => no_nul_char(msg@),
        Packet::OACK { options } => legal_pairs(options.pairs()),
    }
}

/// The fields that the options are written as: name, value, name, value.
pub open spec fn pair_fields(pairs: Seq<(Seq<char>, Seq<char>)>) -> Seq<Seq<u8>>
    decreases pairs.len(),
{
    if pairs.len() == 0 {
        Seq::empty()
    } else {
        seq![encode_utf8(pairs[0].0), encode_utf8(pairs[0].1)] + pair_fields(pairs.drop_first())
    }
}

proof fn lemma_split_pairs(pairs: Seq<(Seq<char>, Seq<char>)>)
    requires
        legal_pairs(pairs),
    ensures
        split_nul(encode_pairs(pairs)) == pair_fields(pairs) + seq![Seq::<u8>::empty()],
    decreases pairs.len(),
{
    if pairs.len() == 0 {
        lemma_split_nul_free(Seq::<u8>::empty());
        assert(pair_fields(pairs) + seq![Seq::<u8>::empty()] =~= seq![Seq::<u8>::empty()]);
    } else {
        let name = encode_utf8(pairs[0].0);
        let value = encode_utf8(pairs[0].1);
        let rest = pairs.drop_first();
        assert(legal_pairs(rest)) by {
            assert forall|i: int| 0 <= i < rest.len() implies legal_name((#[trigger] rest[i]).0)
                && no_nul_char(rest[i].1) by {
                assert(rest[i] == pairs[i + 1]);
            }
        }
        lemma_split_pairs(rest);
        lemma_encode_nul_free(pairs[0].0);
        lemma_encode_nul_free(pairs[0].1);
        let tail = value + seq![0u8] + encode_pairs(rest);
        assert(encode_pairs(pairs) =~= name + seq![0u8] + tail);
        lemma_split_field_then_rest(name, tail);
        lemma_split_field_then_rest(value, encode_pairs(rest));
        assert(split_nul(encode_pairs(pairs)) =~= pair_fields(pairs) + seq![Seq::<u8>::empty()]);
    }
}

proof fn lemma_pair_fields_index(pairs: Seq<(Seq<char>, Seq<char>)>, i: int)
    requires
        0 <= i < pairs.len(),
    ensures
        pair_fields(pairs).len() == 2 * pairs.len(),
        pair_fields(pairs)[2 * i] == encode_utf8(pairs[i].0),
        pair_fields(pairs)[2 * i + 1] == encode_utf8(pairs[i].1),
    decreases pairs.len(),
{
    lemma_pair_fields_len(pairs);
    lemma_pair_fields_len(pairs.drop_first());
    if i > 0 {
        lemma_pair_fields_index(pairs.drop_first(), i - 1);
    }
}

proof fn lemma_pair_fields_len(pairs: Seq<(Seq<char>, Seq<char>)>)
    ensures
        pair_fields(pairs).len() == 2 * pairs.len(),
    decreases pairs.len(),
{
    if pairs.len() > 0 {
        lemma_pair_fields_len(pairs.drop_first());
    }
}

proof fn lemma_options_of_pairs(
    fields: Seq<Seq<u8>>,
    from: int,
    pairs: Seq<(Seq<char>, Seq<char>)>,
    n: int,
)
    requires
        0 <= from,
        0 <= n <= pairs.len(),
        from + 2 * pairs.len() <= fields.len(),
        legal_pairs(pairs),
        forall|i: int|
            0 <= i < pairs.len() ==> #[trigger] fields[from + 2 * i] == encode_utf8(pairs[i].0)
                && fields[from + 2 * i + 1] == encode_utf8(pairs[i].1),
    ensures
        options_of(fields, from, n) == pairs_to_map(pairs.take(n)),
    decreases n,
{
    if n > 0 {
        lemma_options_of_pairs(fields, from, pairs, n - 1);
        let pair = pairs[n - 1];
        assert(fields[from + 2 * (n - 1)] == encode_utf8(pair.0));
        assert(fields[from + 2 * (n - 1) + 1] == encode_utf8(pair.1));
        encode_utf8_decode_utf8(pair.0);
        encode_utf8_decode_utf8(pair.1);
        assert(legal_name(pair.0));
        assert(pairs.take(n).drop_last() =~= pairs.take(n - 1));
        assert(pairs.take(n).last() == pair);
    }
}

proof fn lemma_be16_round_trip(x: u16)
    ensures
        be16_bytes(x).len() == 2,
        be16(be16_bytes(x)[0], be16_bytes(x)[1]) == x,
{
}

/// The fields after the opcode of written options decode to the mapping of
/// the list.
proof fn lemma_decode_pairs(fields: Seq<Seq<u8>>, from: int, pairs: Seq<(Seq<char>, Seq<char>)>)
    requires
        0 <= from,
        legal_pairs(pairs),
        fields.len() == from + 2 * pairs.len() + 1,
        pair_fields(pairs).len() == 2 * pairs.len(),
        forall|j: int| 0 <= j < 2 * pairs.len() ==> #[trigger] fields[from + j] == pair_fields(pairs)[j],
    ensures
        pair_count(fields, from) == pairs.len(),
        option_fields_valid(fields, from),
        options_of(fields, from, pair_count(fields, from)) == pairs_to_map(pairs),
{
    assert forall|i: int| 0 <= i < pairs.len() implies #[trigger] fields[from + 2 * i]
        == encode_utf8(pairs[i].0) && fields[from + 2 * i + 1] == encode_utf8(pairs[i].1) by {
        lemma_pair_fields_index(pairs, i);
        assert(fields[from + 2 * i] == pair_fields(pairs)[2 * i]);
        assert(fields[from + (2 * i + 1)] == pair_fields(pairs)[2 * i + 1]);
    }
    assert forall|j: int| from <= j < from + 2 * pair_count(fields, from) implies valid_utf8(
        #[trigger] fields[j],
    ) by {
        let i = (j - from) / 2;
        lemma_pair_fields_index(pairs, i);
        if (j - from) % 2 == 0 {
            assert(fields[from + 2 * i] == encode_utf8(pairs[i].0));
            encode_utf8_valid_utf8(pairs[i].0);
        } else {
            assert(fields[from + 2 * i] == encode_utf8(pairs[i].0));
            assert(fields[from + 2 * i + 1] == encode_utf8(pairs[i].1));
            encode_utf8_valid_utf8(pairs[i].1);
        }
    }
    lemma_options_of_pairs(fields, from, pairs, pairs.len() as int);
    assert(pairs.take(pairs.len() as int) =~= pairs);
}

proof fn lemma_request_round_trip(
    opcode: u16,
    filename: Seq<char>,
    mode: Seq<char>,
    pairs: Seq<(Seq<char>, Seq<char>)>,
)
    requires
        filename.len() > 0,
        no_nul_char(filename),
        no_nul_char(mode),
        ascii_lower(mode) == mode,
        legal_pairs(pairs),
    ensures
        ({
            let bytes = be16_bytes(opcode) + text_field(filename) + text_field(mode)
                + encode_pairs(pairs);
            let fields = split_nul(bytes.subrange(2, bytes.len() as int));
            &&& bytes.len() >= 2
            &&& be16(bytes[0], bytes[1]) == opcode
            &&& fields.len() >= 2
            &&& valid_utf8(fields[0])
            &&& valid_utf8(fields[1])
            &&& fields[0].len() > 0
            &&& decode_utf8(fields[0]) == filename
            &&& ascii_lower(decode_utf8(fields[1])) == mode
            &&& option_fields_valid(fields, 2)
            &&& options_of(fields, 2, pair_count(fields, 2)) == pairs_to_map(pairs)
        }),
{
    let bytes = be16_bytes(opcode) + text_field(filename) + text_field(mode) + encode_pairs(pairs);
    let payload = bytes.subrange(2, bytes.len() as int);
    let name = encode_utf8(filename);
    let how = encode_utf8(mode);
    let tail = how + seq![0u8] + encode_pairs(pairs);
    lemma_be16_round_trip(opcode);
    assert(bytes[0] == be16_bytes(opcode)[0]);
    assert(bytes[1] == be16_bytes(opcode)[1]);
    assert(payload =~= name + seq![0u8] + tail);
    lemma_encode_nul_free(filename);
    lemma_encode_nul_free(mode);
    lemma_split_field_then_rest(name, tail);
    lemma_split_field_then_rest(how, encode_pairs(pairs));
    lemma_split_pairs(pairs);
    lemma_pair_fields_len(pairs);
    let fields = split_nul(payload);
    assert(fields =~= seq![name] + (seq![how] + (pair_fields(pairs) + seq![Seq::<u8>::empty()])));
    encode_utf8_valid_utf8(filename);
    encode_utf8_valid_utf8(mode);
    encode_utf8_decode_utf8(filename);
    encode_utf8_decode_utf8(mode);
    lemma_decode_empty(name);
    assert forall|j: int| 0 <= j < 2 * pairs.len() implies #[trigger] fields[2 + j] == pair_fields(
        pairs,
    )[j] by {}
    lemma_decode_pairs(fields, 2, pairs);
}

/// Reading what was written gives the packet back, with its options as a
/// mapping: `decode(p.wire()) == Ok(p@)` for every legal packet `p`.
pub proof fn lemma_decode_wire(p: Packet)
    requires
        legal(p),
    ensures
        decode(p.wire()) == Ok::<PacketModel, MalformedPacket>(p@),
{
    let bytes = p.wire();
    match p {
        Packet::RRQ { filename, mode, options } => {
            lemma_request_round_trip(1, filename@, mode@, options.pairs());
        },
        Packet::WRQ { filename, mode, options } => {
            lemma_request_round_trip(2, filename@, mode@, options.pairs());
        },
        Packet::DATA { block_num, data } => {
            lemma_be16_round_trip(3);
            lemma_be16_round_trip(block_num);
            assert(bytes.subrange(4, bytes.len() as int) =~= data@);
        },
        Packet::ACK { block_num } => {
            lemma_be16_round_trip(4);
            lemma_be16_round_trip(block_num);
        },
        Packet::ERROR { code, msg } => {
            lemma_be16_round_trip(5);
            lemma_be16_round_trip(code);
            let text = encode_utf8(msg@);
            assert(bytes.subrange(4, bytes.len() as int) =~= text + seq![0u8] + Seq::<u8>::empty());
            lemma_encode_nul_free(msg@);
            lemma_split_field_then_rest(text, Seq::<u8>::empty());
            encode_utf8_valid_utf8(msg@);
            encode_utf8_decode_utf8(msg@);
        },
        Packet::OACK { options } => {
            lemma_be16_round_trip(6);
            let pairs = options.pairs();
            let fields = split_nul(bytes.subrange(2, bytes.len() as int));
            assert(bytes.subrange(2, bytes.len() as int) =~= encode_pairs(pairs));
            lemma_split_pairs(pairs);
            lemma_pair_fields_len(pairs);
            assert forall|j: int| 0 <= j < 2 * pairs.len() implies #[trigger] fields[0 + j]
                == pair_fields(pairs)[j] by {}
            lemma_decode_pairs(fields, 0, pairs);
        },
    }
}

/// An ACK packet's bytes are read as that ACK.
pub proof fn lemma_decode_ack_wire(block_num: u16)
    ensures
        decode(be16_bytes(OPCODE_ACK) + be16_bytes(block_num)) == Ok::<
            PacketModel,
            MalformedPacket,
        >(PacketModel::ACK { block_num }),
{
    lemma_be16_round_trip(OPCODE_ACK);
    lemma_be16_round_trip(block_num);
}

/// A DATA packet's bytes are read as that DATA packet, whatever its payload.
pub proof fn lemma_decode_data_wire(block_num: u16, payload: Seq<u8>)
    ensures
        decode(be16_bytes(OPCODE_DATA) + be16_bytes(block_num) + payload) == Ok::<
            PacketModel,
            MalformedPacket,
        >(PacketModel::DATA { block_num, data: payload }),
{
    lemma_be16_round_trip(OPCODE_DATA);
    lemma_be16_round_trip(block_num);
    let bytes = be16_bytes(OPCODE_DATA) + be16_bytes(block_num) + payload;
    assert(bytes.subrange(4, bytes.len() as int) =~= payload);
}

} // verus!
