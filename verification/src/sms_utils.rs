//! The transport engine's codecs: the nibble-swapped phone-number encoding,
//! the 7-bit message codec over its hex representation, the outgoing message
//! unit (PDU) and the transaction plans run against the modem channel.
use vstd::prelude::*;
use vstd::string::*;

use crate::common::Error;
use crate::strutil::{
    chars_contain, chars_to_string, contains_sub, dec_digit, digit_of, first_occurrence,
    is_dec_digit, push_char,
    spec_dec, str_to_chars, subrange_chars, u64_to_string, find_first,
};

verus! {

#[derive(Debug, Clone, PartialEq)]
pub struct SmsConfig {
    pub modem_device: String,
    pub qmi_modem_device: String,
    pub qmi_binary_file: String,
    pub sim_pin: String,
    pub sms_send_timeout_sec: u64,
}

#[derive(Debug, Clone, PartialEq)]
pub struct IncomingSms {
    pub from: String,
    pub msg: String,
}

#[derive(Debug, Clone, PartialEq)]
pub struct OutgoingSms {
    pub to: String,
    pub msg: String,
}

// ---------------------------------------------------------------------------
// Phone-number codec
// ---------------------------------------------------------------------------
/// The numbers this gateway addresses: a plus sign followed by decimal digits.
pub open spec fn valid_phone_number(s: Seq<char>) -> bool {
    s.len() >= 2 && s[0] == '+' && forall|i: int| 1 <= i < s.len() ==> is_dec_digit(s[i])
}

/// Adjacent characters swapped pairwise; the wire order of number nibbles.
pub open spec fn swap_pairs(s: Seq<char>) -> Seq<char>
    recommends
        s.len() % 2 == 0,
{
    Seq::new(
        s.len(),
        |i: int|
            if i % 2 == 0 {
                s[i + 1]
            } else {
                s[i - 1]
            },
    )
}

/// Encoding: strip the leading plus, pad with the fill nibble to even length,
/// swap adjacent pairs.
pub open spec fn spec_encode_phone(s: Seq<char>) -> Seq<char> {
    let digits = s.skip(1);
    let padded = if digits.len() % 2 == 1 {
        digits.push('F')
    } else {
        digits
    };
    swap_pairs(padded)
}

/// Decoding: swap adjacent pairs back, strip one trailing fill nibble, prepend
/// the plus.
pub open spec fn spec_decode_phone(e: Seq<char>) -> Seq<char> {
    let swapped = swap_pairs(e);
    let digits = if swapped.len() > 0 && swapped.last() == 'F' {
        swapped.drop_last()
    } else {
        swapped
    };
    seq!['+'] + digits
}

#[verifier::loop_isolation(false)]
fn swap_adjacent(v: &Vec<char>) -> (r: Vec<char>)
    requires
        v@.len() % 2 == 0,
    ensures
        r@ == swap_pairs(v@),
{
    let n: usize = v.len();
    let mut r: Vec<char> = Vec::new();
    let mut i: usize = 0;
    while i < n
        invariant
            i <= n,
            i % 2 == 0,
            n == v@.len(),
            n % 2 == 0,
            r@.len() == i,
            forall|j: int| 0 <= j < i ==> r@[j] == swap_pairs(v@)[j],
        decreases n - i,
    {
        r.push(v[i + 1]);
        r.push(v[i]);
        i = i + 2;
    }
    proof {
        assert(r@ =~= swap_pairs(v@));
    }
    r
}

/// Wire form of a destination number, fill-padded and nibble-swapped.
#[verifier::loop_isolation(false)]
pub fn encode_phone_number(phone_number: &str) -> (r: String)
    requires
        valid_phone_number(phone_number@),
    ensures
        r@ == spec_encode_phone(phone_number@),
{
    let chars: Vec<char> = str_to_chars(phone_number);
    let n: usize = chars.len();
    let mut digits: Vec<char> = Vec::new();
    let mut i: usize = 1;
    while i < n
        invariant
            1 <= i <= n,
            n == chars@.len(),
            n >= 1,
            digits@ == chars@.subrange(1, i as int),
        decreases n - i,
    {
        digits.push(chars[i]);
        proof {
            assert(chars@.subrange(1, i as int).push(chars@[i as int]) =~= chars@.subrange(
                1,
                i as int + 1,
            ));
        }
        i = i + 1;
    }
    proof {
        assert(chars@.subrange(1, n as int) =~= chars@.skip(1));
    }
    if digits.len() % 2 == 1 {
        digits.push('F');
    }
    let swapped: Vec<char> = swap_adjacent(&digits);
    chars_to_string(&swapped)
}

/// Original number for a wire-form one: pairs swapped back, fill stripped, the
/// plus restored.
#[verifier::loop_isolation(false)]
pub fn decode_phone_number(encoded_phone_number: &str) -> (r: String)
    requires
        encoded_phone_number@.len() % 2 == 0,
    ensures
        r@ == spec_decode_phone(encoded_phone_number@),
{
    let chars: Vec<char> = str_to_chars(encoded_phone_number);
    let mut swapped: Vec<char> = swap_adjacent(&chars);
    if swapped.len() > 0 {
        let last: char = swapped[swapped.len() - 1];
        if last == 'F' {
            let _ = swapped.pop();
            proof {
                assert(swap_pairs(chars@).drop_last() =~= swapped@);
            }
        }
    }
    let mut out: Vec<char> = Vec::new();
    out.push('+');
    let n: usize = swapped.len();
    let mut i: usize = 0;
    while i < n
        invariant
            i <= n,
            n == swapped@.len(),
            out@ == seq!['+'] + swapped@.take(i as int),
        decreases n - i,
    {
        out.push(swapped[i]);
        proof {
            assert((seq!['+'] + swapped@.take(i as int)).push(swapped@[i as int]) =~= seq!['+']
                + swapped@.take(i as int + 1));
        }
        i = i + 1;
    }
    proof {
        assert(swapped@.take(n as int) =~= swapped@);
    }
    chars_to_string(&out)
}

// ---------------------------------------------------------------------------
// Hexadecimal representation
// ---------------------------------------------------------------------------
pub open spec fn hex_upper_digit(d: int) -> char
    recommends
        0 <= d < 16,
{
    if d < 10 {
        dec_digit(d)
    } else {
        ('A' as int + (d - 10)) as char
    }
}

/// Uppercase hex text of a byte string, two digits per byte.
pub open spec fn spec_hex_upper(b: Seq<u8>) -> Seq<char> {
    Seq::new(
        b.len() * 2,
        |i: int|
            if i % 2 == 0 {
                hex_upper_digit(b[i / 2] as int / 16)
            } else {
                hex_upper_digit(b[i / 2] as int % 16)
            },
    )
}

pub open spec fn is_hex_digit(c: char) -> bool {
    is_dec_digit(c) || ('a' <= c && c <= 'f') || ('A' <= c && c <= 'F')
}

pub open spec fn hex_val(c: char) -> int
    recommends
        is_hex_digit(c),
{
    if is_dec_digit(c) {
        digit_of(c)
    } else if 'a' <= c && c <= 'f' {
        c as int - 'a' as int + 10
    } else {
        c as int - 'A' as int + 10
    }
}

pub open spec fn valid_hex(s: Seq<char>) -> bool {
    s.len() % 2 == 0 && forall|i: int| 0 <= i < s.len() ==> is_hex_digit(s[i])
}

pub open spec fn spec_hex_decode(s: Seq<char>) -> Seq<u8>
    recommends
        valid_hex(s),
{
    Seq::new(s.len() / 2, |i: int| (hex_val(s[2 * i]) * 16 + hex_val(s[2 * i + 1])) as u8)
}

/// Relies on hex::encode_upper: two uppercase hex digits per input byte, in
/// input order.
#[verifier::external_body]
fn hex_encode_upper(data: &Vec<u8>) -> (r: String)
    ensures
        r@ == spec_hex_upper(data@),
{
    hex::encode_upper(data.as_slice())
}

/// Relies on hex::decode: accepts exactly the even-length strings of hex
/// digits of either case and yields one byte per digit pair, in order.
#[verifier::external_body]
fn hex_decode_chars(data: &str) -> (r: Option<Vec<u8>>)
    ensures
        r is Some <==> valid_hex(data@),
        r is Some ==> r.unwrap()@ == spec_hex_decode(data@),
{
    hex::decode(data).ok()
}

fn hex_digit_char(d: u8) -> (r: char)
    requires
        d < 16,
    ensures
        r == hex_upper_digit(d as int),
{
    if d < 10 {
        (48 + d) as char
    } else {
        (55 + d) as char
    }
}

/// The two hex digits of one byte, as written into the message unit's fields.
fn byte_to_hex_chars(b: u8) -> (r: Vec<char>)
    ensures
        r@ == spec_hex_upper(seq![b]),
{
    let mut v: Vec<char> = Vec::new();
    v.push(hex_digit_char(b / 16));
    v.push(hex_digit_char(b % 16));
    proof {
        assert(v@ =~= spec_hex_upper(seq![b]));
    }
    v
}

/// Hex encoding decodes back to the bytes it came from.
pub proof fn lemma_hex_upper_valid(b: Seq<u8>)
    ensures
        valid_hex(spec_hex_upper(b)),
        spec_hex_decode(spec_hex_upper(b)) == b,
{
    let h = spec_hex_upper(b);
    assert forall|i: int| 0 <= i < h.len() implies is_hex_digit(h[i]) by {
        let d: int = if i % 2 == 0 {
            b[i / 2] as int / 16
        } else {
            b[i / 2] as int % 16
        };
        assert(0 <= d < 16);
        assert(h[i] == hex_upper_digit(d));
    }
    assert forall|i: int| 0 <= i < b.len() implies spec_hex_decode(h)[i] == b[i] by {
        let v: int = b[i] as int;
        assert(h[2 * i] == hex_upper_digit(v / 16));
        assert(h[2 * i + 1] == hex_upper_digit(v % 16));
        assert(hex_val(hex_upper_digit(v / 16)) == v / 16);
        assert(hex_val(hex_upper_digit(v % 16)) == v % 16);
        assert((v / 16) * 16 + v % 16 == v) by (nonlinear_arith);
    }
    assert(spec_hex_decode(h) =~= b);
}

// ---------------------------------------------------------------------------
// 7-bit message codec (through the gsm7 crate)
// ---------------------------------------------------------------------------
/// Whether every character of the text belongs to the 7-bit default alphabet,
/// extension table included; exactly the texts the packer accepts.
pub uninterp spec fn gsm7_encodable(s: Seq<char>) -> bool;

/// The packed bytes of an encodable text.
pub uninterp spec fn gsm7_packed(s: Seq<char>) -> Seq<u8>;

/// The characters read back from a byte string the unpacker accepts.
pub uninterp spec fn gsm7_unpacked(b: Seq<u8>) -> Seq<char>;

/// Whether the unpacker accepts the byte string.
pub uninterp spec fn gsm7_unpackable(b: Seq<u8>) -> bool;

/// Relies on gsm7's Gsm7Writer (write_str, then into_writer): packs the text's
/// characters into 7-bit units and byte-aligns the result, failing exactly
/// when some character is outside the 7-bit default alphabet and its extension
/// table.
#[verifier::external_body]
fn gsm7_pack(message: &str) -> (r: Option<Vec<u8>>)
    ensures
        r is Some <==> gsm7_encodable(message@),
        r is Some ==> r.unwrap()@ == gsm7_packed(message@),
{
    let mut writer = gsm7::Gsm7Writer::new(Vec::new());
    writer.write_str(message).ok()?;
    writer.into_writer().ok()
}

/// The packer writes this character as a bare escape unit, which the unpacker
/// then reads as the start of an extension pair: texts containing it do not
/// read back.
pub open spec fn escape_free(s: Seq<char>) -> bool {
    forall|k: int| 0 <= k < s.len() ==> s[k] != '\x1B'
}

/// Relies on gsm7's Gsm7Reader: unpacks 7-bit units back into characters until
/// the bytes are exhausted. Reading back what Gsm7Writer packed from an
/// escape-free text yields that text again, possibly followed by filler
/// arising from byte alignment, never by less.
#[verifier::external_body]
fn gsm7_unpack(bytes: &Vec<u8>) -> (r: Option<String>)
    ensures
        r is Some <==> gsm7_unpackable(bytes@),
        r is Some ==> r.unwrap()@ == gsm7_unpacked(bytes@),
        forall|s: Seq<char>|
            gsm7_encodable(s) && escape_free(s) && bytes@ == #[trigger] gsm7_packed(s) ==> r
                is Some && r.unwrap()@.len() >= s.len() && r.unwrap()@.take(s.len() as int) == s,
{
    let reader = gsm7::Gsm7Reader::new(std::io::Cursor::new(bytes.as_slice()));
    reader.collect::<std::io::Result<String>>().ok()
}

/// The text cut to the announced character count; shorter text is kept whole.
pub open spec fn spec_truncate_chars(s: Seq<char>, n: int) -> Seq<char> {
    if n < s.len() {
        s.take(n)
    } else {
        s
    }
}

/// Wire text of a message: the packed 7-bit units in uppercase hex. Fails
/// exactly on characters outside the supported alphabet.
pub fn encode_message(message: &str) -> (r: Option<String>)
    ensures
        r is Some <==> gsm7_encodable(message@),
        r is Some ==> r.unwrap()@ == spec_hex_upper(gsm7_packed(message@)),
{
    match gsm7_pack(message) {
        None => None,
        Some(bytes) => Some(hex_encode_upper(&bytes)),
    }
}

/// Message text of its wire form: hex decoded, units unpacked, and the result
/// cut to the announced character count. Decoding the encoding of any
/// supported text of that count yields the text back.
pub fn decode_message(encoded_message: &str, size_septet: usize) -> (r: Option<String>)
    ensures
        r is Some <==> valid_hex(encoded_message@) && gsm7_unpackable(
            spec_hex_decode(encoded_message@),
        ),
        r is Some ==> r.unwrap()@ == spec_truncate_chars(
            gsm7_unpacked(spec_hex_decode(encoded_message@)),
            size_septet as int,
        ),
        forall|s: Seq<char>|
            gsm7_encodable(s) && escape_free(s) && encoded_message@ == spec_hex_upper(
                #[trigger] gsm7_packed(s),
            ) && size_septet == s.len() ==> r is Some && r.unwrap()@ == s,
{
    match hex_decode_chars(encoded_message) {
        None => {
            proof {
                assert forall|s: Seq<char>|
                    gsm7_encodable(s) && encoded_message@ == spec_hex_upper(
                        #[trigger] gsm7_packed(s),
                    ) implies valid_hex(encoded_message@) by {
                    lemma_hex_upper_valid(gsm7_packed(s));
                }
            }
            None
        },
        Some(bytes) => {
            let unpacked: Option<String> = gsm7_unpack(&bytes);
            proof {
                assert forall|s: Seq<char>|
                    gsm7_encodable(s) && encoded_message@ == spec_hex_upper(
                        #[trigger] gsm7_packed(s),
                    ) implies bytes@ == gsm7_packed(s) by {
                    lemma_hex_upper_valid(gsm7_packed(s));
                }
            }
            match unpacked {
                None => None,
                Some(text) => {
                    let chars: Vec<char> = str_to_chars(text.as_str());
                    let cut: Vec<char> = if size_septet < chars.len() {
                        subrange_chars(&chars, 0, size_septet)
                    } else {
                        chars
                    };
                    proof {
                        assert(text@.subrange(0, size_septet as int) =~= text@.take(
                            size_septet as int,
                        ));
                        assert forall|s: Seq<char>|
                            gsm7_encodable(s) && escape_free(s) && encoded_message@
                                == spec_hex_upper(#[trigger] gsm7_packed(s)) && size_septet
                                == s.len() implies cut@ == s by {
                            if size_septet >= text@.len() {
                                assert(text@.take(s.len() as int) =~= text@);
                            }
                        }
                    }
                    Some(chars_to_string(&cut))
                },
            }
        },
    }
}

// ---------------------------------------------------------------------------
// Outgoing message unit and the channel transaction plans
// ---------------------------------------------------------------------------
/// Validity period field of every outgoing message.
pub const SMS_VALIDITY_PERIOD: u8 = 1;

/// The assembled wire unit: fixed header, length-prefixed encoded destination,
/// protocol and validity fields, the character count, the encoded text, and
/// the data-entry terminator.
pub open spec fn spec_send_pdu(to: Seq<char>, msg: Seq<char>) -> Seq<char>
    recommends
        msg.len() <= 140,
{
    "0011000B91"@ + spec_encode_phone(to) + "0000"@ + spec_hex_upper(seq![SMS_VALIDITY_PERIOD])
        + spec_hex_upper(seq![msg.len() as u8]) + spec_hex_upper(gsm7_packed(msg)) + seq!['\x1A']
}

/// Builds the outgoing unit. Messages longer than 140 characters, and
/// characters outside the supported alphabet, are rejected before anything
/// touches the channel.
pub fn build_send_pdu(to: &str, msg: &str) -> (r: Result<String, Error>)
    requires
        valid_phone_number(to@),
    ensures
        r is Ok <==> msg@.len() <= 140 && gsm7_encodable(msg@),
        r is Ok ==> r.unwrap()@ == spec_send_pdu(to@, msg@),
        r is Err ==> r.unwrap_err() == Error::SmsSendingError,
{
    let len: usize = msg.unicode_len();
    if len > 140 {
        return Err(Error::SmsSendingError);
    }
    match encode_message(msg) {
        None => Err(Error::SmsSendingError),
        Some(encoded) => {
            let mut pdu: String = String::from_str("0011000B91");
            let number: String = encode_phone_number(to);
            pdu.append(number.as_str());
            pdu.append("0000");
            let validity: Vec<char> = byte_to_hex_chars(SMS_VALIDITY_PERIOD);
            let validity_text: String = chars_to_string(&validity);
            pdu.append(validity_text.as_str());
            let count: Vec<char> = byte_to_hex_chars(len as u8);
            let count_text: String = chars_to_string(&count);
            pdu.append(count_text.as_str());
            pdu.append(encoded.as_str());
            push_char(&mut pdu, '\x1A');
            proof {
                assert(pdu@ =~= spec_send_pdu(to@, msg@));
            }
            Ok(pdu)
        },
    }
}

/// One step of a channel transaction: write the command, then read until the
/// expected token appears, an error token appears, or the step's timeout runs
/// out; the first unmet expectation fails the whole transaction.
#[derive(Debug, Clone, PartialEq)]
pub struct AtExchange {
    pub command: String,
    pub expected: String,
}

/// What one look at the text read back since a command was written tells the
/// transaction.
#[derive(Debug, Clone, Copy, PartialEq, Eq, Structural)]
pub enum AtResponse {
    /// The expected token arrived: the step is met.
    Matched,
    /// The channel reported an error token: the step failed for good.
    ServiceError,
    /// Nothing conclusive yet: keep reading until the step's timeout.
    KeepWaiting,
}

/// The shared reader decision behind every transaction step: the expected
/// token settles the step, a reported `ERROR` fails it, anything else keeps
/// the reader waiting; the caller's per-step timeout bounds the wait.
pub fn classify_at_response(accumulated: &str, expected: &str) -> (r: AtResponse)
    requires
        expected@.len() >= 1,
    ensures
        r is Matched <==> contains_sub(accumulated@, expected@),
        r is ServiceError <==> !contains_sub(accumulated@, expected@) && contains_sub(
            accumulated@,
            "ERROR"@,
        ),
        r is KeepWaiting <==> !contains_sub(accumulated@, expected@) && !contains_sub(
            accumulated@,
            "ERROR"@,
        ),
{
    let text: Vec<char> = str_to_chars(accumulated);
    let wanted: Vec<char> = str_to_chars(expected);
    let error_token: Vec<char> = str_to_chars("ERROR");
    proof {
        reveal_strlit("ERROR");
    }
    if chars_contain(&text, &wanted) {
        AtResponse::Matched
    } else if chars_contain(&text, &error_token) {
        AtResponse::ServiceError
    } else {
        AtResponse::KeepWaiting
    }
}

/// The one-time receive arming transaction: binary-unit mode, then unsolicited
/// forwarding of incoming messages.
pub fn sms_init_exchanges() -> (r: Vec<AtExchange>)
    ensures
        r@.len() == 2,
        r@[0].command@ == "AT+CMGF=0\r"@,
        r@[0].expected@ == "OK"@,
        r@[1].command@ == "AT+CNMI=2,2\r"@,
        r@[1].expected@ == "OK"@,
{
    let mut v: Vec<AtExchange> = Vec::new();
    v.push(
        AtExchange {
            command: String::from_str("AT+CMGF=0\r"),
            expected: String::from_str("OK"),
        },
    );
    v.push(
        AtExchange {
            command: String::from_str("AT+CNMI=2,2\r"),
            expected: String::from_str("OK"),
        },
    );
    v
}

/// The send transaction: announce the octet count and await the prompt, then
/// write the unit with its terminator and await completion. Oversized or
/// unencodable messages fail here, before any channel I/O.
pub fn send_sms_exchanges(sms: &OutgoingSms) -> (r: Result<Vec<AtExchange>, Error>)
    requires
        valid_phone_number(sms.to@),
    ensures
        r is Ok <==> sms.msg@.len() <= 140 && gsm7_encodable(sms.msg@),
        r is Err ==> r.unwrap_err() == Error::SmsSendingError,
        r is Ok ==> r.unwrap()@.len() == 2 && r.unwrap()@[0].command@ == "AT+CMGS="@ + spec_dec(
            ((spec_send_pdu(sms.to@, sms.msg@).len() - 2) / 2) as nat,
        ) + "\r"@ && r.unwrap()@[0].expected@ == ">"@ && r.unwrap()@[1].command@ == spec_send_pdu(
            sms.to@,
            sms.msg@,
        ) && r.unwrap()@[1].expected@ == "OK"@,
{
    match build_send_pdu(sms.to.as_str(), sms.msg.as_str()) {
        Err(e) => Err(e),
        Ok(pdu) => {
            let pdu_len: usize = pdu.as_str().unicode_len();
            proof {
                assert(spec_send_pdu(sms.to@, sms.msg@).len() >= 10) by {
                    reveal_strlit("0011000B91");
                }
            }
            let octets: u64 = ((pdu_len - 2) / 2) as u64;
            let mut announce: String = String::from_str("AT+CMGS=");
            let octets_text: String = u64_to_string(octets);
            announce.append(octets_text.as_str());
            announce.append("\r");
            let mut v: Vec<AtExchange> = Vec::new();
            v.push(AtExchange { command: announce, expected: String::from_str(">") });
            v.push(AtExchange { command: pdu, expected: String::from_str("OK") });
            Ok(v)
        },
    }
}

// ---------------------------------------------------------------------------
// Receive side: scanning the channel for an incoming message
// ---------------------------------------------------------------------------
/// The payload line of the first incoming-message notification in the
/// accumulated channel text: the non-empty line that follows the line opened
/// by the notification header.
pub open spec fn spec_cmt_payload(s: Seq<char>) -> Option<Seq<char>> {
    match first_occurrence(s, "+CMT:"@, 0) {
        None => None,
        Some(h) => match first_occurrence(s, "\r\n"@, h + 5) {
            None => None,
            Some(j) => match first_occurrence(s, "\r\n"@, j + 2) {
                None => None,
                Some(l) => if l > j + 2 {
                    Some(s.subrange(j + 2, l))
                } else {
                    None
                },
            },
        },
    }
}

/// One look at the accumulated channel text: the payload line of an incoming
/// message if a complete notification is present, nothing otherwise (the
/// caller keeps reading; non-matching content is not an error).
#[verifier::loop_isolation(false)]
pub fn scan_incoming_sms(buffer: &str) -> (r: Option<String>)
    ensures
        match spec_cmt_payload(buffer@) {
            Some(p) => r is Some && r.unwrap()@ == p,
            None => r is None,
        },
{
    let s: Vec<char> = str_to_chars(buffer);
    let n: usize = s.len();
    let header: Vec<char> = str_to_chars("+CMT:");
    let line_break: Vec<char> = str_to_chars("\r\n");
    proof {
        reveal_strlit("+CMT:");
        reveal_strlit("\r\n");
    }
    if let Some(h) = find_first(&s, &header, 0) {
        if let Some(j) = find_first(&s, &line_break, h + 5) {
            if let Some(l) = find_first(&s, &line_break, j + 2) {
                if l > j + 2 {
                    let payload: Vec<char> = subrange_chars(&s, j + 2, l);
                    return Some(chars_to_string(&payload));
                }
            }
        }
    }
    None
}

// ---------------------------------------------------------------------------
// Parsing an incoming message unit
// ---------------------------------------------------------------------------
pub open spec fn spec_pdu_number_field(p: Seq<char>) -> Seq<char> {
    p.subrange(22, 34)
}

pub open spec fn spec_pdu_size_field(p: Seq<char>) -> Seq<char> {
    p.subrange(52, 54)
}

pub open spec fn spec_pdu_body(p: Seq<char>) -> Seq<char> {
    p.skip(54)
}

/// Sender and text of an incoming message unit: the encoded origin number at
/// its fixed offset, the character count, and the encoded text that follows.
/// Anything too short or malformed yields nothing rather than failing.
pub fn parse_incoming_sms(pdu: &str) -> (r: Option<IncomingSms>)
    ensures
        r is Some <==> pdu@.len() >= 54 && valid_hex(spec_pdu_size_field(pdu@)) && valid_hex(
            spec_pdu_body(pdu@),
        ) && gsm7_unpackable(spec_hex_decode(spec_pdu_body(pdu@))),
        r is Some ==> r.unwrap().from@ == spec_decode_phone(spec_pdu_number_field(pdu@))
            && r.unwrap().msg@ == spec_truncate_chars(
            gsm7_unpacked(spec_hex_decode(spec_pdu_body(pdu@))),
            spec_hex_decode(spec_pdu_size_field(pdu@))[0] as int,
        ),
{
    let chars: Vec<char> = str_to_chars(pdu);
    let n: usize = chars.len();
    if n < 54 {
        return None;
    }
    let number_field: Vec<char> = subrange_chars(&chars, 22, 34);
    let number_text: String = chars_to_string(&number_field);
    let size_field: Vec<char> = subrange_chars(&chars, 52, 54);
    let size_text: String = chars_to_string(&size_field);
    let body_field: Vec<char> = subrange_chars(&chars, 54, n);
    let body_text: String = chars_to_string(&body_field);
    proof {
        assert(chars@.subrange(54, n as int) =~= pdu@.skip(54));
    }
    let size_bytes: Vec<u8> = match hex_decode_chars(size_text.as_str()) {
        None => {
            return None;
        },
        Some(b) => b,
    };
    let septets: u8 = size_bytes[0];
    let from: String = decode_phone_number(number_text.as_str());
    match decode_message(body_text.as_str(), septets as usize) {
        None => None,
        Some(msg) => Some(IncomingSms { from, msg }),
    }
}

/// A phone number survives the round trip through the wire encoding, whatever
/// the parity of its digit count.
pub proof fn lemma_phone_number_round_trip(s: Seq<char>)
    requires
        valid_phone_number(s),
    ensures
        spec_decode_phone(spec_encode_phone(s)) == s,
{
    let digits = s.skip(1);
    assert(forall|i: int| 0 <= i < digits.len() ==> is_dec_digit(#[trigger] digits[i]));
    let padded = if digits.len() % 2 == 1 {
        digits.push('F')
    } else {
        digits
    };
    let encoded = swap_pairs(padded);
    assert(swap_pairs(encoded) =~= padded);
    if digits.len() % 2 == 1 {
        assert(padded.last() == 'F');
        assert(padded.drop_last() =~= digits);
        assert(seq!['+'] + digits =~= s);
    } else {
        assert(padded.len() == digits.len());
        if digits.len() > 0 {
            assert(is_dec_digit(digits.last()));
            assert(digits.last() != 'F');
        }
        assert(seq!['+'] + digits =~= s);
    }
}

} // verus!
