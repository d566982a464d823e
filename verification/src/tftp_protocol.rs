use vstd::prelude::*;
use vstd::slice::{slice_subrange, slice_to_vec};
use vstd::utf8::*;
use crate::fields::{slice_views, split_fields, split_nul};
use crate::options::Options;
use crate::text::{ascii_lower, lossy_text, string_from_utf8_lossy};

verus! {

/// Default data payload per DATA packet (RFC 1350).
pub const BLOCK_SIZE: usize = 512;

/// Largest block size that can be negotiated.
pub const MAX_BLKSIZE: usize = 65464;

/// Opcode of a read request.
pub const OPCODE_RRQ: u16 = 1;

/// Opcode of a write request.
pub const OPCODE_WRQ: u16 = 2;

/// Opcode of a data block.
pub const OPCODE_DATA: u16 = 3;

/// Opcode of an acknowledgment.
pub const OPCODE_ACK: u16 = 4;

/// Opcode of an error.
pub const OPCODE_ERROR: u16 = 5;

/// Opcode of an option acknowledgment (RFC 2347).
pub const OPCODE_OACK: u16 = 6;

/// Why a datagram is no TFTP packet.
#[derive(Debug, Clone, Copy, PartialEq, Eq, Structural)]
pub enum MalformedPacket {
    /// Fewer than two bytes: no opcode.
    TooShort,
    /// The opcode is none of 1 to 6.
    UnknownOpcode { opcode: u16 },
    /// A request with fewer than two fields.
    MissingMode,
    /// A request whose filename is empty.
    EmptyFilename,
    /// A text field that is not UTF-8.
    InvalidText,
    /// A DATA packet without a whole block number.
    ShortData,
    /// An ACK packet without a whole block number.
    ShortAck,
    /// An ERROR packet of fewer than five bytes.
    ShortError,
}

/// A fully parsed TFTP packet.
#[derive(Debug, Clone)]
pub enum Packet {
    RRQ { filename: String, mode: String, options: Options },
    WRQ { filename: String, mode: String, options: Options },
    DATA { block_num: u16, data: Vec<u8> },
    ACK { block_num: u16 },
    ERROR { code: u16, msg: String },
    /// Option acknowledgment (RFC 2347).
    OACK { options: Options },
}

/// What a packet says, with the options as a mapping from name to value.
pub enum PacketModel {
    RRQ { filename: Seq<char>, mode: Seq<char>, options: Map<Seq<char>, Seq<char>> },
    WRQ { filename: Seq<char>, mode: Seq<char>, options: Map<Seq<char>, Seq<char>> },
    DATA { block_num: u16, data: Seq<u8> },
    ACK { block_num: u16 },
    ERROR { code: u16, msg: Seq<char> },
    OACK { options: Map<Seq<char>, Seq<char>> },
}

impl View for Packet {
    type V = PacketModel;

    open spec fn view(&self) -> PacketModel {
        match self {
            Packet::RRQ { filename, mode, options } => PacketModel::RRQ {
                filename: filename@,
                mode: mode@,
                options: options@,
            },
            Packet::WRQ { filename, mode, options } => PacketModel::WRQ {
                filename: filename@,
                mode: mode@,
                options: options@,
            },
            Packet::DATA { block_num, data } => PacketModel::DATA {
                block_num: *block_num,
                data: data@,
            },
            Packet::ACK { block_num } => PacketModel::ACK { block_num: *block_num },
            Packet::ERROR { code, msg } => PacketModel::ERROR { code: *code, msg: msg@ },
            Packet::OACK { options } => PacketModel::OACK { options: options@ },
        }
    }
}

/// The 16-bit number that two bytes spell, high byte first.
pub open spec fn be16(hi: u8, lo: u8) -> u16 {
    (hi as int * 256 + lo as int) as u16
}

/// The number of (name, value) pairs among the fields from `from` on; a
/// field left over at the end belongs to no pair.
pub open spec fn pair_count(fields: Seq<Seq<u8>>, from: int) -> int {
    if fields.len() >= from {
        (fields.len() - from) / 2
    } else {
        0
    }
}

/// Every field that belongs to a pair is UTF-8.
pub open spec fn option_fields_valid(fields: Seq<Seq<u8>>, from: int) -> bool {
    forall|j: int| from <= j < from + 2 * pair_count(fields, from) ==> valid_utf8(#[trigger] fields[j])
}

/// The options that the first `n` pairs from `from` on give: names in lower
/// case, values as they are, pairs with an empty name left out, a later
/// pair replacing an earlier one of the same name.
pub open spec fn options_of(fields: Seq<Seq<u8>>, from: int, n: int) -> Map<Seq<char>, Seq<char>>
    decreases n,
{
    if n <= 0 {
        Map::empty()
    } else {
        let before = options_of(fields, from, n - 1);
        let name = ascii_lower(decode_utf8(fields[from + 2 * (n - 1)]));
        let value = decode_utf8(fields[from + 2 * (n - 1) + 1]);
        if name.len() == 0 {
            before
        } else {
            before.insert(name, value)
        }
    }
}

/// What a read or write request's bytes say.
pub open spec fn decode_request(bytes: Seq<u8>, is_rrq: bool) -> Result<PacketModel, MalformedPacket>
    recommends
        bytes.len() >= 2,
{
    let fields = split_nul(bytes.subrange(2, bytes.len() as int));
    if fields.len() < 2 {
        Err(MalformedPacket::MissingMode)
    } else if !valid_utf8(fields[0]) || !valid_utf8(fields[1]) {
        Err(MalformedPacket::InvalidText)
    } else if fields[0].len() == 0 {
        Err(MalformedPacket::EmptyFilename)
    } else if !option_fields_valid(fields, 2) {
        Err(MalformedPacket::InvalidText)
    } else {
        let filename = decode_utf8(fields[0]);
        let mode = ascii_lower(decode_utf8(fields[1]));
        let options = options_of(fields, 2, pair_count(fields, 2));
        if is_rrq {
            Ok(PacketModel::RRQ { filename, mode, options })
        } else {
            Ok(PacketModel::WRQ { filename, mode, options })
        }
    }
}

/// What a DATA packet's bytes say: all that follows the header is payload.
pub open spec fn decode_data(bytes: Seq<u8>) -> Result<PacketModel, MalformedPacket> {
    if bytes.len() < 4 {
        Err(MalformedPacket::ShortData)
    } else {
        Ok(
            PacketModel::DATA {
                block_num: be16(bytes[2], bytes[3]),
                data: bytes.subrange(4, bytes.len() as int),
            },
        )
    }
}

/// What an ACK packet's bytes say: bytes after the fourth are ignored.
pub open spec fn decode_ack(bytes: Seq<u8>) -> Result<PacketModel, MalformedPacket> {
    if bytes.len() < 4 {
        Err(MalformedPacket::ShortAck)
    } else {
        Ok(PacketModel::ACK { block_num: be16(bytes[2], bytes[3]) })
    }
}

/// What an ERROR packet's bytes say: the message runs from the fifth byte
/// to the first NUL, or to the end where there is none.
pub open spec fn decode_error(bytes: Seq<u8>) -> Result<PacketModel, MalformedPacket> {
    if bytes.len() < 5 {
        Err(MalformedPacket::ShortError)
    } else {
        Ok(
            PacketModel::ERROR {
                code: be16(bytes[2], bytes[3]),
                msg: lossy_text(split_nul(bytes.subrange(4, bytes.len() as int))[0]),
            },
        )
    }
}

/// What an option acknowledgment's bytes say.
pub open spec fn decode_oack(bytes: Seq<u8>) -> Result<PacketModel, MalformedPacket>
    recommends
        bytes.len() >= 2,
{
    let fields = split_nul(bytes.subrange(2, bytes.len() as int));
    if !option_fields_valid(fields, 0) {
        Err(MalformedPacket::InvalidText)
    } else {
        Ok(PacketModel::OACK { options: options_of(fields, 0, pair_count(fields, 0)) })
    }
}

/// What a datagram says, or why it is no packet.
pub open spec fn decode(bytes: Seq<u8>) -> Result<PacketModel, MalformedPacket> {
    if bytes.len() < 2 {
        Err(MalformedPacket::TooShort)
    } else {
        let opcode = be16(bytes[0], bytes[1]);
        if opcode == OPCODE_RRQ {
            decode_request(bytes, true)
        } else if opcode == OPCODE_WRQ {
            decode_request(bytes, false)
        } else if opcode == OPCODE_DATA {
            decode_data(bytes)
        } else if opcode == OPCODE_ACK {
            decode_ack(bytes)
        } else if opcode == OPCODE_ERROR {
            decode_error(bytes)
        } else if opcode == OPCODE_OACK {
            decode_oack(bytes)
        } else {
            Err(MalformedPacket::UnknownOpcode { opcode })
        }
    }
}

/// A parse result with the packet replaced by what it says.
pub open spec fn parsed(r: Result<Packet, MalformedPacket>) -> Result<PacketModel, MalformedPacket> {
    match r {
        Ok(p) => Ok(p@),
        Err(e) => Err(e),
    }
}

fn read_be16(hi: u8, lo: u8) -> (r: u16)
    ensures
        r == be16(hi, lo),
{
    let h: u16 = hi as u16;
    let l: u16 = lo as u16;
    h * 256 + l
}

/// Parse DATA: 2-byte opcode | 2-byte block# | 0..N bytes
fn parse_data(buf: &[u8]) -> (r: Result<Packet, MalformedPacket>)
    ensures
        parsed(r) == decode_data(buf@),
{
    if buf.len() < 4 {
        return Err(MalformedPacket::ShortData);
    }
    let block_num = read_be16(buf[2], buf[3]);
    let data = slice_to_vec(slice_subrange(buf, 4, buf.len()));
    Ok(Packet::DATA { block_num, data })
}

/// Parse ACK: 2-byte opcode | 2-byte block#
fn parse_ack(buf: &[u8]) -> (r: Result<Packet, MalformedPacket>)
    ensures
        parsed(r) == decode_ack(buf@),
{
    if buf.len() < 4 {
        return Err(MalformedPacket::ShortAck);
    }
    let block_num = read_be16(buf[2], buf[3]);
    Ok(Packet::ACK { block_num })
}

/// Parse ERROR: 2-byte opcode | 2-byte code | msg\0
fn parse_error(buf: &[u8]) -> (r: Result<Packet, MalformedPacket>)
    ensures
        parsed(r) == decode_error(buf@),
{
    if buf.len() < 5 {
        return Err(MalformedPacket::ShortError);
    }
    let code = read_be16(buf[2], buf[3]);
    let fields = split_fields(buf, 4);
    assert(slice_views(fields@)[0] == fields@[0]@);
    let msg = string_from_utf8_lossy(fields[0]);
    Ok(Packet::ERROR { code, msg })
}

/// The text of a field, or `None` where it is not UTF-8.
fn field_text(field: &[u8]) -> (r: Option<String>)
    ensures
        r is Some <==> valid_utf8(field@),
        r is Some ==> r->0@ == decode_utf8(field@),
{
    match String::from_utf8(slice_to_vec(field)) {
        Ok(s) => Some(s),
        Err(_) => None,
    }
}

/// Parse RFC 2347 options: the (name, value) pairs from field `from` on.
fn parse_options(fields: &Vec<&[u8]>, from: usize) -> (r: Result<Options, MalformedPacket>)
    requires
        from <= fields@.len(),
    ensures
        match r {
            Ok(options) => {
                &&& option_fields_valid(slice_views(fields@), from as int)
                &&& options@ == options_of(
                    slice_views(fields@),
                    from as int,
                    pair_count(slice_views(fields@), from as int),
                )
            },
            Err(e) => {
                &&& e == MalformedPacket::InvalidText
                &&& !option_fields_valid(slice_views(fields@), from as int)
            },
        },
{
    let ghost fs = slice_views(fields@);
    let len: usize = fields.len();
    let n: usize = (len - from) / 2;
    let mut options = Options::new();
    let mut k: usize = 0;
    while k < n
        invariant
            k <= n,
            n == pair_count(fs, from as int),
            from + 2 * n <= len,
            len == fields@.len(),
            fs == slice_views(fields@),
            forall|j: int| from <= j < from + 2 * k ==> valid_utf8(#[trigger] fs[j]),
            options@ == options_of(fs, from as int, k as int),
        decreases n - k,
    {
        let at: usize = from + 2 * k;
        assert(fs[at as int] == fields@[at as int]@);
        assert(fs[at + 1] == fields@[at + 1]@);
        let name = match field_text(fields[at]) {
            Some(s) => s.as_str().to_ascii_lowercase(),
            None => {
                return Err(MalformedPacket::InvalidText);
            },
        };
        let value = match field_text(fields[at + 1]) {
            Some(s) => s,
            None => {
                return Err(MalformedPacket::InvalidText);
            },
        };
        if !name.as_str().is_empty() {
            options.insert(name, value);
        }
        k += 1;
    }
    Ok(options)
}

/// Parse RRQ / WRQ: 2-byte opcode | filename\0 | mode\0 [| option\0 | value\0 ]*
fn parse_request(buf: &[u8], is_rrq: bool) -> (r: Result<Packet, MalformedPacket>)
    requires
        buf@.len() >= 2,
    ensures
        parsed(r) == decode_request(buf@, is_rrq),
{
    let fields = split_fields(buf, 2);
    let ghost fs = slice_views(fields@);
    if fields.len() < 2 {
        return Err(MalformedPacket::MissingMode);
    }
    assert(fs[0] == fields@[0]@);
    assert(fs[1] == fields@[1]@);
    let filename = match field_text(fields[0]) {
        Some(s) => s,
        None => {
            return Err(MalformedPacket::InvalidText);
        },
    };
    let mode = match field_text(fields[1]) {
        Some(s) => s.as_str().to_ascii_lowercase(),
        None => {
            return Err(MalformedPacket::InvalidText);
        },
    };
    if filename.as_str().is_empty() {
        proof {
            lemma_decode_empty(fs[0]);
        }
        return Err(MalformedPacket::EmptyFilename);
    }
    proof {
        lemma_decode_empty(fs[0]);
    }
    let options = match parse_options(&fields, 2) {
        Ok(o) => o,
        Err(e) => {
            return Err(e);
        },
    };
    if is_rrq {
        Ok(Packet::RRQ { filename, mode, options })
    } else {
        Ok(Packet::WRQ { filename, mode, options })
    }
}

/// Parse OACK: 2-byte opcode | [option\0 | value\0]*
fn parse_oack(buf: &[u8]) -> (r: Result<Packet, MalformedPacket>)
    requires
        buf@.len() >= 2,
    ensures
        parsed(r) == decode_oack(buf@),
{
    let fields = split_fields(buf, 2);
    match parse_options(&fields, 0) {
        Ok(options) => Ok(Packet::OACK { options }),
        Err(e) => Err(e),
    }
}

/// A well-formed byte sequence decodes to the empty text exactly when it is
/// empty.
pub proof fn lemma_decode_empty(bytes: Seq<u8>)
    requires
        valid_utf8(bytes),
    ensures
        decode_utf8(bytes).len() == 0 <==> bytes.len() == 0,
{
}

/// The two bytes that spell a 16-bit number, high byte first.
pub open spec fn be16_bytes(x: u16) -> Seq<u8> {
    seq![(x / 256) as u8, (x % 256) as u8]
}

/// A text on the wire: its UTF-8 bytes and a NUL.
pub open spec fn text_field(s: Seq<char>) -> Seq<u8> {
    encode_utf8(s) + seq![0u8]
}

/// Options on the wire: for each pair in turn the name and the value, each
/// followed by a NUL.
pub open spec fn encode_pairs(pairs: Seq<(Seq<char>, Seq<char>)>) -> Seq<u8>
    decreases pairs.len(),
{
    if pairs.len() == 0 {
        Seq::empty()
    } else {
        text_field(pairs[0].0) + text_field(pairs[0].1) + encode_pairs(pairs.drop_first())
    }
}

/// A request on the wire.
pub open spec fn encode_request_spec(
    opcode: u16,
    filename: Seq<char>,
    mode: Seq<char>,
    pairs: Seq<(Seq<char>, Seq<char>)>,
) -> Seq<u8> {
    be16_bytes(opcode) + text_field(filename) + text_field(mode) + encode_pairs(pairs)
}

/// The options of two lists written one after the other are the options of
/// the joined list.
pub proof fn lemma_encode_pairs_concat(
    a: Seq<(Seq<char>, Seq<char>)>,
    b: Seq<(Seq<char>, Seq<char>)>,
)
    ensures
        encode_pairs(a + b) == encode_pairs(a) + encode_pairs(b),
    decreases a.len(),
{
    if a.len() == 0 {
        assert(a + b =~= b);
        assert(encode_pairs(a) + encode_pairs(b) =~= encode_pairs(b));
    } else {
        lemma_encode_pairs_concat(a.drop_first(), b);
        assert((a + b).drop_first() =~= a.drop_first() + b);
        assert(encode_pairs(a + b) =~= encode_pairs(a) + encode_pairs(b));
    }
}

fn push_be16(buf: &mut Vec<u8>, x: u16)
    ensures
        final(buf)@ == old(buf)@ + be16_bytes(x),
{
    buf.push((x / 256) as u8);
    buf.push((x % 256) as u8);
    assert(buf@ =~= old(buf)@ + be16_bytes(x));
}

fn push_text(buf: &mut Vec<u8>, s: &str)
    ensures
        final(buf)@ == old(buf)@ + text_field(s@),
{
    buf.extend_from_slice(s.as_bytes());
    buf.push(0);
    assert(buf@ =~= old(buf)@ + text_field(s@));
}

fn push_options(buf: &mut Vec<u8>, options: &Options)
    ensures
        final(buf)@ == old(buf)@ + encode_pairs(options.pairs()),
{
    let n = options.len();
    let mut i: usize = 0;
    assert(options.pairs().take(0) =~= Seq::empty());
    assert(buf@ =~= old(buf)@ + encode_pairs(options.pairs().take(0)));
    while i < n
        invariant
            i <= n,
            n == options.pairs().len(),
            buf@ == old(buf)@ + encode_pairs(options.pairs().take(i as int)),
        decreases n - i,
    {
        let ghost before = buf@;
        push_text(buf, options.name_at(i).as_str());
        push_text(buf, options.value_at(i).as_str());
        proof {
            let pairs = options.pairs();
            let one = seq![pairs[i as int]];
            assert(pairs.take(i + 1) =~= pairs.take(i as int) + one);
            lemma_encode_pairs_concat(pairs.take(i as int), one);
            assert(one.drop_first() =~= Seq::empty());
            assert(encode_pairs(one.drop_first()) =~= Seq::empty());
            assert(encode_pairs(one) =~= text_field(pairs[i as int].0) + text_field(
                pairs[i as int].1,
            ));
            assert(buf@ =~= old(buf)@ + encode_pairs(pairs.take(i + 1)));
        }
        i += 1;
    }
    assert(options.pairs().take(n as int) =~= options.pairs());
}

fn encode_request(opcode: u16, filename: &str, mode: &str, options: &Options) -> (r: Vec<u8>)
    ensures
        r@ == encode_request_spec(opcode, filename@, mode@, options.pairs()),
{
    let mut buf: Vec<u8> = Vec::new();
    push_be16(&mut buf, opcode);
    push_text(&mut buf, filename);
    push_text(&mut buf, mode);
    push_options(&mut buf, options);
    assert(buf@ =~= encode_request_spec(opcode, filename@, mode@, options.pairs()));
    buf
}

impl Packet {
    /// The packet on the wire.
    pub open spec fn wire(&self) -> Seq<u8> {
        match self {
            Packet::RRQ { filename, mode, options } => encode_request_spec(
                OPCODE_RRQ,
                filename@,
                mode@,
                options.pairs(),
            ),
            Packet::WRQ { filename, mode, options } => encode_request_spec(
                OPCODE_WRQ,
                filename@,
                mode@,
                options.pairs(),
            ),
            Packet::DATA { block_num, data } => be16_bytes(OPCODE_DATA) + be16_bytes(*block_num)
                + data@,
            Packet::ACK { block_num } => be16_bytes(OPCODE_ACK) + be16_bytes(*block_num),
            Packet::ERROR { code, msg } => be16_bytes(OPCODE_ERROR) + be16_bytes(*code)
                + text_field(msg@),
            Packet::OACK { options } => be16_bytes(OPCODE_OACK) + encode_pairs(options.pairs()),
        }
    }

    /// Serialize the packet to bytes for transmission.
    pub fn to_bytes(&self) -> (r: Vec<u8>)
        ensures
            r@ == self.wire(),
    {
        match self {
            Packet::RRQ { filename, mode, options } => encode_request(
                OPCODE_RRQ,
                filename.as_str(),
                mode.as_str(),
                options,
            ),
            Packet::WRQ { filename, mode, options } => encode_request(
                OPCODE_WRQ,
                filename.as_str(),
                mode.as_str(),
                options,
            ),
            Packet::DATA { block_num, data } => {
                let mut buf: Vec<u8> = Vec::new();
                push_be16(&mut buf, OPCODE_DATA);
                push_be16(&mut buf, *block_num);
                buf.extend_from_slice(data.as_slice());
                assert(buf@ =~= self.wire());
                buf
            },
            Packet::ACK { block_num } => {
                let mut buf: Vec<u8> = Vec::new();
                push_be16(&mut buf, OPCODE_ACK);
                push_be16(&mut buf, *block_num);
                assert(buf@ =~= self.wire());
                buf
            },
            Packet::ERROR { code, msg } => {
                let mut buf: Vec<u8> = Vec::new();
                push_be16(&mut buf, OPCODE_ERROR);
                push_be16(&mut buf, *code);
                push_text(&mut buf, msg.as_str());
                assert(buf@ =~= self.wire());
                buf
            },
            Packet::OACK { options } => {
                let mut buf: Vec<u8> = Vec::new();
                push_be16(&mut buf, OPCODE_OACK);
                push_options(&mut buf, options);
                assert(buf@ =~= self.wire());
                buf
            },
        }
    }

    /// Parse raw bytes into a `Packet`.
    pub fn from_bytes(buf: &[u8]) -> (r: Result<Packet, MalformedPacket>)
        ensures
            parsed(r) == decode(buf@),
    {
        if buf.len() < 2 {
            return Err(MalformedPacket::TooShort);
        }
        let opcode = read_be16(buf[0], buf[1]);
        if opcode == OPCODE_RRQ {
            parse_request(buf, true)
        } else if opcode == OPCODE_WRQ {
            parse_request(buf, false)
        } else if opcode == OPCODE_DATA {
            parse_data(buf)
        } else if opcode == OPCODE_ACK {
            parse_ack(buf)
        } else if opcode == OPCODE_ERROR {
            parse_error(buf)
        } else if opcode == OPCODE_OACK {
            parse_oack(buf)
        } else {
            Err(MalformedPacket::UnknownOpcode { opcode })
        }
    }

    /// Build an ERROR packet from a numeric code.
    pub fn error(code: u16, msg: &str) -> (r: Packet)
        ensures
            r@ == (PacketModel::ERROR { code, msg: msg@ }),
    {
        Packet::ERROR { code, msg: msg.to_owned() }
    }
}

} // verus!
