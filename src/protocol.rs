//! The packet codec: packets to wire bytes and wire bytes back to packets.
use vstd::prelude::*;
use vstd::utf8::encode_utf8;
use crate::config::{AppConfig, encoding_named};
use crate::encoding::{TextEncoding, decoded, gbk_encoded, encode_text, decode_text};
use crate::text::{
    split_seq, views, decimal, parse_u32_spec, parse_u32_or_zero, trimmed, split_on, parse_u32,
    push_char, push_decimal, trim_text, lemma_split_nonempty, count_char, trim_start, trim_end,
    lemma_split_concat, lemma_split_single, lemma_count_trim_start, lemma_count_trimmed,
    lemma_trim_start_concat, lemma_trim_end_concat, lemma_decimal_digits, lemma_digits_no_colon,
    lemma_parse_decimal, lemma_count_absent, lemma_split_len, lemma_count_concat,
};

pub mod commands;

verus! {

/// One protocol message.
#[derive(Clone, Debug)]
pub struct IpMsgPacket {
    pub version: String,
    pub packet_no: u32,
    pub sender_user: String,
    pub sender_host: String,
    pub command: u32,
    pub sender_name: String,
    pub group_name: String,
    pub additional_msg: String,
}

/// What a packet holds, as mathematical values.
pub struct PacketModel {
    pub version: Seq<char>,
    pub packet_no: u32,
    pub sender_user: Seq<char>,
    pub sender_host: Seq<char>,
    pub command: u32,
    pub sender_name: Seq<char>,
    pub group_name: Seq<char>,
    pub additional_msg: Seq<char>,
}

impl View for IpMsgPacket {
    type V = PacketModel;

    open spec fn view(&self) -> PacketModel {
        PacketModel {
            version: self.version@,
            packet_no: self.packet_no,
            sender_user: self.sender_user@,
            sender_host: self.sender_host@,
            command: self.command,
            sender_name: self.sender_name@,
            group_name: self.group_name@,
            additional_msg: self.additional_msg@,
        }
    }
}

/// Why bytes could not be read as a packet.
#[derive(Clone, Copy, Debug, PartialEq, Eq, Structural)]
pub enum DecodeError {
    /// Fewer than six colon-separated fields, or (on the strict path) a
    /// numeric field that is not a 32-bit decimal number.
    MalformedPacket,
}

/// The `i`-th of `pieces`, or the empty text where there is none.
pub open spec fn piece(pieces: Seq<Seq<char>>, i: int) -> Seq<char> {
    if 0 <= i < pieces.len() {
        pieces[i]
    } else {
        Seq::empty()
    }
}

/// The packet whose fields are the colon-separated `parts`, with the given
/// numbers; the sixth part splits on NUL into name, group and message.
pub open spec fn packet_of_parts(parts: Seq<Seq<char>>, packet_no: u32, command: u32) -> PacketModel {
    let tail = split_seq(parts[5], '\0');
    PacketModel {
        version: parts[0],
        packet_no,
        sender_user: parts[2],
        sender_host: parts[3],
        command,
        sender_name: piece(tail, 0),
        group_name: piece(tail, 1),
        additional_msg: piece(tail, 2),
    }
}

/// Strict reading of a packet text: six or more fields and both numbers
/// well-formed.
pub open spec fn parse_packet_spec(s: Seq<char>) -> Option<PacketModel> {
    let parts = split_seq(s, ':');
    if parts.len() < 6 {
        None
    } else {
        match (parse_u32_spec(parts[1]), parse_u32_spec(parts[4])) {
            (Some(no), Some(cmd)) => Some(packet_of_parts(parts, no, cmd)),
            _ => None,
        }
    }
}

/// Lenient reading of a packet text: six or more fields, numbers that do not
/// read taken as zero.
pub open spec fn fallback_packet_spec(s: Seq<char>) -> Option<PacketModel> {
    let parts = split_seq(s, ':');
    if parts.len() < 6 {
        None
    } else {
        Some(packet_of_parts(parts, parse_u32_or_zero(parts[1]), parse_u32_or_zero(parts[4])))
    }
}

/// The field sent after the command: name and group joined by NUL for a
/// group packet, the message otherwise.
pub open spec fn wire_additional(p: PacketModel) -> Seq<char> {
    if p.group_name.len() == 0 {
        p.additional_msg
    } else {
        p.sender_name + seq!['\0'] + p.group_name
    }
}

/// The text put on the wire for `p`; the sender slot always holds `aaMsg`.
pub open spec fn wire_text(p: PacketModel) -> Seq<char> {
    p.version + seq![':'] + decimal(p.packet_no as nat) + seq![':'] + "aaMsg"@ + seq![':']
        + p.sender_host + seq![':'] + decimal(p.command as nat) + seq![':'] + wire_additional(p)
}

/// The plain text form of `p`, with the sender's name in the sender slot.
pub open spec fn plain_text(p: PacketModel) -> Seq<char> {
    p.version + seq![':'] + decimal(p.packet_no as nat) + seq![':'] + p.sender_name + seq![':']
        + p.sender_host + seq![':'] + decimal(p.command as nat) + seq![':'] + p.additional_msg
}

/// The bytes of `t` in `enc`.
pub open spec fn encoded(enc: TextEncoding, t: Seq<char>) -> Seq<u8> {
    match enc {
        TextEncoding::Utf8 => encode_utf8(t),
        TextEncoding::Gbk => gbk_encoded(t),
    }
}

/// The wire bytes of `p` in `enc`.
pub open spec fn encode_spec(p: PacketModel, enc: TextEncoding) -> Seq<u8> {
    encoded(enc, wire_text(p))
}

/// A printable ASCII byte: a graphic character or the space.
pub open spec fn is_printable_ascii(b: u8) -> bool {
    0x20 <= b <= 0x7e
}

/// A control character (Unicode general category Cc), as `char::is_control`
/// tests it; NUL is one.
pub open spec fn is_control_char(c: char) -> bool {
    c as u32 <= 0x1f || (0x7f <= c as u32 <= 0x9f)
}

/// The bytes of `b` before the first one that is not printable ASCII.
pub open spec fn printable_prefix(b: Seq<u8>) -> Seq<u8>
    decreases b.len(),
{
    if b.len() == 0 || !is_printable_ascii(b[0]) {
        Seq::empty()
    } else {
        seq![b[0]] + printable_prefix(b.drop_first())
    }
}

/// The characters of `s` before the first control character.
pub open spec fn control_free_prefix(s: Seq<char>) -> Seq<char>
    decreases s.len(),
{
    if s.len() == 0 || is_control_char(s[0]) {
        Seq::empty()
    } else {
        seq![s[0]] + control_free_prefix(s.drop_first())
    }
}

/// Bytes read as ASCII characters.
pub open spec fn ascii_chars(b: Seq<u8>) -> Seq<char> {
    b.map_values(|x: u8| x as char)
}

/// The printable start of a datagram that did not decode cleanly: under GBK
/// the decoded text, trimmed, up to its first control character; otherwise
/// the leading printable ASCII bytes, trimmed.
pub open spec fn fallback_text(b: Seq<u8>, enc: TextEncoding) -> Seq<char> {
    match enc {
        TextEncoding::Gbk => control_free_prefix(trimmed(decoded(TextEncoding::Gbk, b).0)),
        TextEncoding::Utf8 => trimmed(ascii_chars(printable_prefix(b))),
    }
}

/// The packet that a datagram decodes to under `enc`, if any: the strict
/// reading of the trimmed text where it decoded without error, the lenient
/// reading of its printable start where it did not.
pub open spec fn decode_spec(b: Seq<u8>, enc: TextEncoding) -> Option<PacketModel> {
    let (text, had_errors) = decoded(enc, b);
    if !had_errors {
        parse_packet_spec(trimmed(text))
    } else {
        fallback_packet_spec(fallback_text(b, enc))
    }
}

/// Where each field of a packet without a group lands when its wire text is
/// read back strictly, as a clean decode does: the numbers and the host come
/// back as they were, the sender slot reads `aaMsg`, and the message, being
/// the last field, is split on NUL into the name, group and message slots.
/// This needs a version, host and message without colons (a colon in them
/// would shift the fields). Trimming drops whitespace from the start of the
/// version and the end of the message.
pub proof fn lemma_wire_fields(p: PacketModel)
    requires
        p.group_name.len() == 0,
        count_char(p.version, ':') == 0,
        count_char(p.sender_host, ':') == 0,
        count_char(p.additional_msg, ':') == 0,
    ensures
        parse_packet_spec(trimmed(wire_text(p))) == Some(
            packet_of_parts(
                seq![
                    trim_start(p.version),
                    decimal(p.packet_no as nat),
                    "aaMsg"@,
                    p.sender_host,
                    decimal(p.command as nat),
                    trim_end(p.additional_msg),
                ],
                p.packet_no,
                p.command,
            ),
        ),
{
    let v = p.version;
    let tv = trim_start(v);
    let d1 = decimal(p.packet_no as nat);
    let a = "aaMsg"@;
    let h = p.sender_host;
    let d2 = decimal(p.command as nat);
    let add = p.additional_msg;
    let ta = trim_end(add);
    let m = seq![':'] + d1 + seq![':'] + a + seq![':'] + h + seq![':'] + d2 + seq![':'];
    assert(wire_text(p) =~= v + (m + add));
    lemma_trim_start_concat(v, m + add);
    assert(tv + (m + add) =~= (tv + m) + add);
    lemma_trim_end_concat(tv + m, add);
    let r4 = d2.push(':') + ta;
    let r3 = h.push(':') + r4;
    let r2 = a.push(':') + r3;
    let r1 = d1.push(':') + r2;
    let text = tv.push(':') + r1;
    assert(trimmed(wire_text(p)) =~= text);
    lemma_split_concat(tv, r1, ':');
    lemma_split_concat(d1, r2, ':');
    lemma_split_concat(a, r3, ':');
    lemma_split_concat(h, r4, ':');
    lemma_split_concat(d2, ta, ':');
    lemma_count_trim_start(v, ':');
    lemma_split_single(tv, ':');
    lemma_decimal_digits(p.packet_no as nat);
    lemma_digits_no_colon(d1);
    lemma_split_single(d1, ':');
    lemma_decimal_digits(p.command as nat);
    lemma_digits_no_colon(d2);
    lemma_split_single(d2, ':');
    reveal_strlit("aaMsg");
    lemma_count_absent(a, ':');
    lemma_split_single(a, ':');
    lemma_split_single(h, ':');
    lemma_count_trimmed(add, ':');
    lemma_split_single(ta, ':');
    let parts = seq![tv, d1, a, h, d2, ta];
    assert(split_seq(text, ':') =~= parts);
    lemma_parse_decimal(p.packet_no);
    lemma_parse_decimal(p.command);
}

/// A packet without a group and without a message comes back from its wire
/// text with its packet number, command, host and (empty) message.
pub proof fn lemma_round_trip(p: PacketModel)
    requires
        p.group_name.len() == 0,
        p.additional_msg.len() == 0,
        count_char(p.version, ':') == 0,
        count_char(p.sender_host, ':') == 0,
    ensures
        parse_packet_spec(trimmed(wire_text(p))) is Some,
        ({
            let q = parse_packet_spec(trimmed(wire_text(p)))->Some_0;
            &&& q.packet_no == p.packet_no
            &&& q.command == p.command
            &&& q.sender_host == p.sender_host
            &&& q.additional_msg == p.additional_msg
        }),
{
    lemma_count_absent(p.additional_msg, ':');
    lemma_wire_fields(p);
    assert(trim_end(p.additional_msg) =~= Seq::<char>::empty());
    assert(split_seq(Seq::<char>::empty(), '\0') == seq![Seq::<char>::empty()]);
}

/// Round trip through the wire bytes: where the encoding carries the wire
/// text of a packet without a group and without a message back unchanged
/// (clean input), decoding its encoding gives back its packet number,
/// command, host and (empty) message.
pub proof fn lemma_round_trip_bytes(p: PacketModel, enc: TextEncoding)
    requires
        p.group_name.len() == 0,
        p.additional_msg.len() == 0,
        count_char(p.version, ':') == 0,
        count_char(p.sender_host, ':') == 0,
        decoded(enc, encode_spec(p, enc)) == (wire_text(p), false),
    ensures
        decode_spec(encode_spec(p, enc), enc) is Some,
        ({
            let q = decode_spec(encode_spec(p, enc), enc)->Some_0;
            &&& q.packet_no == p.packet_no
            &&& q.command == p.command
            &&& q.sender_host == p.sender_host
            &&& q.additional_msg == p.additional_msg
        }),
{
    lemma_round_trip(p);
}

/// The lenient reading never fails on text with six or more colon-separated
/// fields; a number field that does not read is taken as zero.
pub proof fn lemma_fallback_total(s: Seq<char>)
    requires
        count_char(s, ':') >= 5,
    ensures
        fallback_packet_spec(s) is Some,
        ({
            let parts = split_seq(s, ':');
            let q = fallback_packet_spec(s)->Some_0;
            &&& q.packet_no == parse_u32_or_zero(parts[1])
            &&& q.command == parse_u32_or_zero(parts[4])
            &&& parse_u32_spec(parts[1]) is None ==> q.packet_no == 0
            &&& parse_u32_spec(parts[4]) is None ==> q.command == 0
        }),
{
    lemma_split_len(s, ':');
}

proof fn lemma_printable_prefix_concat(a: Seq<u8>, b: Seq<u8>)
    requires
        forall|i: int| 0 <= i < a.len() ==> is_printable_ascii(#[trigger] a[i]),
    ensures
        printable_prefix(a + b) == a + printable_prefix(b),
    decreases a.len(),
{
    if a.len() == 0 {
        assert(a + b =~= b);
        assert(a + printable_prefix(b) =~= printable_prefix(b));
    } else {
        assert((a + b)[0] == a[0]);
        assert(is_printable_ascii(a[0]));
        assert((a + b).drop_first() =~= a.drop_first() + b);
        assert forall|i: int| 0 <= i < a.drop_first().len() implies is_printable_ascii(#[trigger] a.drop_first()[i]) by {
            assert(a.drop_first()[i] == a[i + 1]);
        }
        lemma_printable_prefix_concat(a.drop_first(), b);
        assert(seq![a[0]] + (a.drop_first() + printable_prefix(b)) =~= a + printable_prefix(b));
    }
}

/// A datagram that starts with printable ASCII holding six or more
/// colon-separated fields decodes to a packet under UTF-8 whatever bytes
/// follow, whenever the decode reports malformed input: the lenient reading
/// of the printable start takes over, and it does not fail.
pub proof fn lemma_fallback_never_fails(prefix: Seq<u8>, garbage: Seq<u8>)
    requires
        forall|i: int| 0 <= i < prefix.len() ==> is_printable_ascii(#[trigger] prefix[i]),
        count_char(ascii_chars(prefix), ':') >= 5,
        decoded(TextEncoding::Utf8, prefix + garbage).1,
    ensures
        decode_spec(prefix + garbage, TextEncoding::Utf8) is Some,
        decode_spec(prefix + garbage, TextEncoding::Utf8) == fallback_packet_spec(
            fallback_text(prefix + garbage, TextEncoding::Utf8),
        ),
{
    let b = prefix + garbage;
    lemma_printable_prefix_concat(prefix, garbage);
    assert(ascii_chars(prefix + printable_prefix(garbage)) =~= ascii_chars(prefix) + ascii_chars(
        printable_prefix(garbage),
    ));
    lemma_count_concat(ascii_chars(prefix), ascii_chars(printable_prefix(garbage)), ':');
    lemma_count_trimmed(ascii_chars(printable_prefix(b)), ':');
    lemma_fallback_total(fallback_text(b, TextEncoding::Utf8));
}

proof fn lemma_printable_prefix(b: Seq<u8>, i: int)
    requires
        0 <= i <= b.len(),
        forall|j: int| 0 <= j < i ==> is_printable_ascii(#[trigger] b[j]),
        i == b.len() || !is_printable_ascii(b[i]),
    ensures
        printable_prefix(b) == b.subrange(0, i),
    decreases i,
{
    if i > 0 {
        assert forall|j: int| 0 <= j < i - 1 implies is_printable_ascii(#[trigger] b.drop_first()[j]) by {
            assert(b.drop_first()[j] == b[j + 1]);
        }
        lemma_printable_prefix(b.drop_first(), i - 1);
        assert(is_printable_ascii(b[0]));
        assert(seq![b[0]] + b.drop_first().subrange(0, i - 1) =~= b.subrange(0, i));
    } else {
        assert(b.subrange(0, i) =~= Seq::<u8>::empty());
    }
}

proof fn lemma_control_free_prefix(s: Seq<char>, i: int)
    requires
        0 <= i <= s.len(),
        forall|j: int| 0 <= j < i ==> !is_control_char(#[trigger] s[j]),
        i == s.len() || is_control_char(s[i]),
    ensures
        control_free_prefix(s) == s.subrange(0, i),
    decreases i,
{
    if i > 0 {
        assert forall|j: int| 0 <= j < i - 1 implies !is_control_char(#[trigger] s.drop_first()[j]) by {
            assert(s.drop_first()[j] == s[j + 1]);
        }
        lemma_control_free_prefix(s.drop_first(), i - 1);
        assert(!is_control_char(s[0]));
        assert(seq![s[0]] + s.drop_first().subrange(0, i - 1) =~= s.subrange(0, i));
    } else {
        assert(s.subrange(0, i) =~= Seq::<char>::empty());
    }
}

/// The printable ASCII start of `data`, trimmed.
pub fn extract_string_part(data: &[u8]) -> (r: String)
    ensures
        r@ == trimmed(ascii_chars(printable_prefix(data@))),
{
    let mut result = String::new();
    let mut i: usize = 0;
    while i < data.len() && 0x20 <= data[i] && data[i] <= 0x7e
        invariant
            i <= data.len(),
            forall|j: int| 0 <= j < i ==> is_printable_ascii(#[trigger] data@[j]),
            result@ == ascii_chars(data@.subrange(0, i as int)),
        decreases data.len() - i,
    {
        push_char(&mut result, data[i] as char);
        i = i + 1;
        assert(result@ =~= ascii_chars(data@.subrange(0, i as int)));
    }
    proof {
        lemma_printable_prefix(data@, i as int);
    }
    let t = trim_text(result.as_str());
    String::from_str(t)
}

/// The printable start of a datagram that did not decode cleanly under the
/// wire encoding that `config` selects.
pub fn extract_string_part2(data: &[u8], config: &AppConfig) -> (r: String)
    ensures
        r@ == fallback_text(data@, encoding_named(config.encoding.protocol@)),
{
    match config.encoding.protocol_encoding() {
        TextEncoding::Gbk => {
            let (text, _) = decode_text(TextEncoding::Gbk, data);
            let s = trim_text(text.as_str());
            let mut result = String::new();
            let mut stopped = false;
            let ghost mut k: int = 0;
            let ghost mut seen: Seq<char> = Seq::empty();
            for c in it: s.chars()
                invariant
                    it.seq() == s@,
                    seen == it.seq().subrange(0, it.index() as int),
                    0 <= k <= seen.len(),
                    forall|j: int| 0 <= j < k ==> !is_control_char(#[trigger] s@[j]),
                    result@ == s@.subrange(0, k),
                    stopped ==> is_control_char(s@[k]) && k < seen.len(),
                    !stopped ==> k == seen.len(),
            {
                proof {
                    assert(seen.push(c) =~= it.seq().subrange(0, it.index() + 1));
                    assert(seen.push(c)[seen.len() as int] == c);
                }
                let u = c as u32;
                if !stopped {
                    if u <= 0x1f || (0x7f <= u && u <= 0x9f) {
                        stopped = true;
                    } else {
                        push_char(&mut result, c);
                        proof {
                            k = k + 1;
                        }
                        assert(result@ =~= s@.subrange(0, k));
                    }
                }
                proof {
                    seen = seen.push(c);
                }
            }
            proof {
                lemma_control_free_prefix(s@, k);
            }
            result
        },
        TextEncoding::Utf8 => extract_string_part(data),
    }
}

fn packet_from_parts(parts: &Vec<String>, packet_no: u32, command: u32) -> (r: IpMsgPacket)
    requires
        parts.len() >= 6,
    ensures
        r@ == packet_of_parts(views(parts@), packet_no, command),
{
    let tail = split_on(parts[5].as_str(), '\0');
    proof {
        lemma_split_nonempty(parts[5]@, '\0');
    }
    let sender_name = tail[0].clone();
    let group_name = if tail.len() > 1 {
        tail[1].clone()
    } else {
        String::new()
    };
    let additional_msg = if tail.len() > 2 {
        tail[2].clone()
    } else {
        String::new()
    };
    let r = IpMsgPacket {
        version: parts[0].clone(),
        packet_no,
        sender_user: parts[2].clone(),
        sender_host: parts[3].clone(),
        command,
        sender_name,
        group_name,
        additional_msg,
    };
    assert(r@.sender_name =~= piece(split_seq(views(parts@)[5], '\0'), 0));
    r
}

impl IpMsgPacket {
    /// The plain text form `version:packet_no:sender_name:sender_host:command:additional_msg`.
    pub fn encode(&self) -> (r: String)
        ensures
            r@ == plain_text(self@),
    {
        let mut r = self.version.clone();
        push_char(&mut r, ':');
        push_decimal(&mut r, self.packet_no);
        push_char(&mut r, ':');
        r.append(self.sender_name.as_str());
        push_char(&mut r, ':');
        r.append(self.sender_host.as_str());
        push_char(&mut r, ':');
        push_decimal(&mut r, self.command);
        push_char(&mut r, ':');
        r.append(self.additional_msg.as_str());
        assert(r@ =~= plain_text(self@));
        r
    }

    /// The wire bytes of this packet, in the encoding that `config` selects.
    pub fn encode_with_config(&self, config: &AppConfig) -> (r: Vec<u8>)
        ensures
            r@ == encode_spec(self@, encoding_named(config.encoding.protocol@)),
    {
        let additional = if self.group_name.as_str().is_empty() {
            self.additional_msg.clone()
        } else {
            let mut a = self.sender_name.clone();
            push_char(&mut a, '\0');
            a.append(self.group_name.as_str());
            a
        };
        assert(additional@ =~= wire_additional(self@));
        let mut text = self.version.clone();
        push_char(&mut text, ':');
        push_decimal(&mut text, self.packet_no);
        push_char(&mut text, ':');
        text.append("aaMsg");
        push_char(&mut text, ':');
        text.append(self.sender_host.as_str());
        push_char(&mut text, ':');
        push_decimal(&mut text, self.command);
        push_char(&mut text, ':');
        text.append(additional.as_str());
        assert(text@ =~= wire_text(self@));
        encode_text(config.encoding.protocol_encoding(), text.as_str())
    }

    /// Decodes a datagram under the wire encoding that `config` selects:
    /// strictly where the bytes decode without error, leniently from their
    /// printable start where they do not.
    pub fn decode_with_config(data: &[u8], config: &AppConfig) -> (r: Result<IpMsgPacket, DecodeError>)
        ensures
            match r {
                Ok(p) => decode_spec(data@, encoding_named(config.encoding.protocol@)) == Some(p@),
                Err(_) => decode_spec(data@, encoding_named(config.encoding.protocol@)) is None,
            },
    {
        let enc = config.encoding.protocol_encoding();
        let (text, had_errors) = decode_text(enc, data);
        if had_errors {
            let fallback = extract_string_part2(data, config);
            return Self::decode_fallback(fallback.as_str());
        }
        let s = trim_text(text.as_str());
        Self::parse_packet_str(s)
    }

    /// Lenient reading: six or more fields, numbers that do not read taken as zero.
    pub fn decode_fallback(s: &str) -> (r: Result<IpMsgPacket, DecodeError>)
        ensures
            match r {
                Ok(p) => fallback_packet_spec(s@) == Some(p@),
                Err(_) => fallback_packet_spec(s@) is None,
            },
    {
        let parts = split_on(s, ':');
        if parts.len() < 6 {
            return Err(DecodeError::MalformedPacket);
        }
        let packet_no = match parse_u32(parts[1].as_str()) {
            Some(n) => n,
            None => 0,
        };
        let command = match parse_u32(parts[4].as_str()) {
            Some(n) => n,
            None => 0,
        };
        Ok(packet_from_parts(&parts, packet_no, command))
    }

    /// Strict reading: six or more fields and both numbers well-formed.
    pub fn parse_packet_str(s: &str) -> (r: Result<IpMsgPacket, DecodeError>)
        ensures
            match r {
                Ok(p) => parse_packet_spec(s@) == Some(p@),
                Err(_) => parse_packet_spec(s@) is None,
            },
    {
        let parts = split_on(s, ':');
        if parts.len() < 6 {
            return Err(DecodeError::MalformedPacket);
        }
        let packet_no = match parse_u32(parts[1].as_str()) {
            Some(n) => n,
            None => return Err(DecodeError::MalformedPacket),
        };
        let command = match parse_u32(parts[4].as_str()) {
            Some(n) => n,
            None => return Err(DecodeError::MalformedPacket),
        };
        Ok(packet_from_parts(&parts, packet_no, command))
    }
}

impl Default for IpMsgPacket {
    fn default() -> (r: Self)
        ensures
            r.version@ == "lanMsg 0.1"@,
            r.packet_no == 0,
            r.sender_user@ == "default_user"@,
            r.sender_host@ == Seq::<char>::empty(),
            r.command == 0,
            r.sender_name@ == Seq::<char>::empty(),
            r.group_name@ == Seq::<char>::empty(),
            r.additional_msg@ == Seq::<char>::empty(),
    {
        IpMsgPacket {
            version: String::from_str("lanMsg 0.1"),
            packet_no: 0,
            sender_user: String::from_str("default_user"),
            sender_host: String::new(),
            command: 0,
            sender_name: String::new(),
            group_name: String::new(),
            additional_msg: String::new(),
        }
    }
}

} // verus!
