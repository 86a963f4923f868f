use telco_vecchio::common::Error;
use telco_vecchio::sms_utils::{
    build_send_pdu, classify_at_response, decode_message, decode_phone_number, encode_message,
    encode_phone_number, parse_incoming_sms, scan_incoming_sms, send_sms_exchanges,
    sms_init_exchanges, AtResponse, OutgoingSms,
};

#[test]
fn phone_number_round_trip_even() {
    let encoded = encode_phone_number("+15551234");
    assert_eq!(encoded, "51552143");
    assert_eq!(decode_phone_number(&encoded), "+15551234");
}

#[test]
fn phone_number_round_trip_odd() {
    let encoded = encode_phone_number("+155");
    assert_eq!(encoded, "51F5");
    assert_eq!(decode_phone_number(&encoded), "+155");
}

#[test]
fn phone_number_round_trip_single_digit() {
    let encoded = encode_phone_number("+7");
    assert_eq!(encoded, "F7");
    assert_eq!(decode_phone_number(&encoded), "+7");
}

#[test]
fn message_encodes_to_uppercase_hex() {
    assert_eq!(encode_message("Hello").unwrap(), "C8329BFD06");
}

#[test]
fn message_round_trip() {
    let encoded = encode_message("Hello").unwrap();
    assert_eq!(decode_message(&encoded, 5).unwrap(), "Hello");
}

#[test]
fn message_round_trip_seven_characters() {
    // seven septets fill exactly one extra filler character on unpacking
    let encoded = encode_message("Tunnels").unwrap();
    assert_eq!(decode_message(&encoded, 7).unwrap(), "Tunnels");
}

#[test]
fn message_with_unsupported_character_is_refused() {
    assert!(encode_message("\u{4e16}\u{754c}").is_none());
}

#[test]
fn decode_message_rejects_bad_hex() {
    assert!(decode_message("zz", 1).is_none());
    assert!(decode_message("C83", 2).is_none());
}

#[test]
fn pdu_layout_is_exact() {
    let pdu = build_send_pdu("+1555", "Hello").unwrap();
    assert_eq!(pdu, "0011000B91515500000105C8329BFD06\u{1A}");
}

#[test]
fn oversized_message_is_rejected_before_any_io() {
    let long_msg: String = std::iter::repeat('a').take(141).collect();
    let sms = OutgoingSms { to: "+1555".to_string(), msg: long_msg };
    assert_eq!(send_sms_exchanges(&sms).unwrap_err(), Error::SmsSendingError);

    let ok_msg: String = std::iter::repeat('a').take(140).collect();
    let sms = OutgoingSms { to: "+1555".to_string(), msg: ok_msg };
    assert!(send_sms_exchanges(&sms).is_ok());
}

#[test]
fn send_transaction_steps() {
    let sms = OutgoingSms { to: "+1555".to_string(), msg: "Hello".to_string() };
    let steps = send_sms_exchanges(&sms).unwrap();
    assert_eq!(steps.len(), 2);
    // the unit is 33 characters; the announced octet count excludes the
    // length byte and the terminator
    assert_eq!(steps[0].command, "AT+CMGS=15\r");
    assert_eq!(steps[0].expected, ">");
    assert_eq!(steps[1].command, build_send_pdu("+1555", "Hello").unwrap());
    assert_eq!(steps[1].expected, "OK");
}

#[test]
fn init_transaction_steps() {
    let steps = sms_init_exchanges();
    assert_eq!(steps.len(), 2);
    assert_eq!(steps[0].command, "AT+CMGF=0\r");
    assert_eq!(steps[0].expected, "OK");
    assert_eq!(steps[1].command, "AT+CNMI=2,2\r");
    assert_eq!(steps[1].expected, "OK");
}

#[test]
fn incoming_notification_is_scanned_out_of_noise() {
    let buffer = "noise\r\n+CMT: ,24\r\nDEADBEEF\r\ntrailing";
    assert_eq!(scan_incoming_sms(buffer).unwrap(), "DEADBEEF");
}

#[test]
fn incomplete_notification_keeps_waiting() {
    assert!(scan_incoming_sms("garbage with no header").is_none());
    assert!(scan_incoming_sms("+CMT: ,24\r\nDEADBEEF").is_none());
    assert!(scan_incoming_sms("+CMT: ,24\r\n\r\n").is_none());
}

#[test]
fn incoming_unit_is_parsed() {
    let pdu = format!(
        "{}{}{}{}{}",
        "0000000000000000000000", // 22 characters before the origin number
        "515521430000",           // +155512340000, fill-padded and swapped
        "000000000000000000",     // fields between number and character count
        "05",                     // five characters
        "C8329BFD06"              // "Hello"
    );
    let sms = parse_incoming_sms(&pdu).unwrap();
    assert_eq!(sms.from, "+155512340000");
    assert_eq!(sms.msg, "Hello");
}

#[test]
fn short_or_malformed_incoming_unit_is_refused() {
    assert!(parse_incoming_sms("too short").is_none());
    let bad_size = format!(
        "{}{}{}{}{}",
        "0000000000000000000000", "515521430000", "000000000000000000", "ZZ", "C8329BFD06"
    );
    assert!(parse_incoming_sms(&bad_size).is_none());
}

#[test]
fn channel_reader_classification() {
    assert_eq!(classify_at_response("\r\nOK\r\n", "OK"), AtResponse::Matched);
    assert_eq!(classify_at_response("\r\n> ", ">"), AtResponse::Matched);
    assert_eq!(classify_at_response("\r\nERROR\r\n", "OK"), AtResponse::ServiceError);
    assert_eq!(classify_at_response("\r\n+CMS ERROR: 500\r\n", ">"), AtResponse::ServiceError);
    assert_eq!(classify_at_response("\r\nAT+", "OK"), AtResponse::KeepWaiting);
    // the expected token wins even when an error token is also present
    assert_eq!(classify_at_response("ERROR then OK", "OK"), AtResponse::Matched);
}
