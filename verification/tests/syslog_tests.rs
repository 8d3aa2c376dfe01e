use syslog_sniffer::packet::{payload_of, payload_offset, PacketData};
use syslog_sniffer::syslog::{extract_hostname, HeaderGrammar};
use syslog_sniffer::{parse_syslog_packet, SyslogPacket};

#[test]
fn test_parse_valid_syslog() {
    let data = "<13>Hello world".as_bytes();
    let packet = parse_syslog_packet(data).unwrap();
    assert_eq!(packet.message, "<13>Hello world");
}

#[test]
fn test_parse_empty() {
    let data = [].as_slice();
    assert!(parse_syslog_packet(data).is_none());
}

#[test]
fn test_parse_invalid_utf8() {
    let data = [0xff, 0xff, 0xff];
    assert!(parse_syslog_packet(&data).is_none());
}

#[test]
fn test_parse_no_hostname() {
    let data = "Simple message".as_bytes();
    let packet = parse_syslog_packet(data).unwrap();
    assert_eq!(packet.message, "Simple message");
    assert!(packet.hostname.is_none());
}

#[test]
fn test_debug_impls() {
    let packet = SyslogPacket {
        message: "msg".to_string(),
        hostname: Some("host".to_string()),
    };
    let debug_str = format!("{:?}", packet);
    assert!(debug_str.contains("SyslogPacket"));
    assert!(debug_str.contains("msg"));
    assert!(debug_str.contains("host"));

    let packet_clone = packet.clone();
    assert_eq!(packet, packet_clone);

    let data = PacketData {
        data: vec![1, 2, 3],
    };
    let data_debug = format!("{:?}", data);
    assert!(data_debug.contains("PacketData"));
    let data_clone = data.clone();
    assert_eq!(data, data_clone);
}

#[test]
fn rfc3164_header_gives_hostname_and_whole_text() {
    let text = "<13>Oct 11 22:14:15 mymachine su: su root";
    let packet = parse_syslog_packet(text.as_bytes()).unwrap();
    assert_eq!(packet.hostname.as_deref(), Some("mymachine"));
    assert_eq!(packet.message, text);
}

#[test]
fn rfc5424_header_gives_hostname() {
    let text = "<165>1 2003-10-11T22:14:15.003Z mymachine.example.com app 1234 ID47 - msg";
    let packet = parse_syslog_packet(text.as_bytes()).unwrap();
    assert_eq!(packet.hostname.as_deref(), Some("mymachine.example.com"));
    assert_eq!(packet.message, text);
}

#[test]
fn message_without_header_is_kept_unattributed() {
    let packet = parse_syslog_packet("Simple message without hostname".as_bytes()).unwrap();
    assert_eq!(packet.hostname, None);
    assert_eq!(packet.message, "Simple message without hostname");
}

#[test]
fn header_must_start_the_text() {
    let packet = parse_syslog_packet(" <13>Oct 11 22:14:15 mymachine su: su root".as_bytes()).unwrap();
    assert_eq!(packet.hostname, None);
    assert_eq!(packet.message, " <13>Oct 11 22:14:15 mymachine su: su root");
}

#[test]
fn version_digit_selects_newer_layout() {
    let packet = parse_syslog_packet("<34>1 stamp hostfive app - - -".as_bytes()).unwrap();
    assert_eq!(packet.hostname.as_deref(), Some("hostfive"));
}

#[test]
fn priority_of_four_digits_is_no_header() {
    let packet = parse_syslog_packet("<1234>Oct 11 22:14:15 mymachine su: x".as_bytes()).unwrap();
    assert_eq!(packet.hostname, None);
}

#[test]
fn non_ascii_text_is_decoded() {
    let text = "<13>Oct 11 22:14:15 höst größe: ünïcode";
    let packet = parse_syslog_packet(text.as_bytes()).unwrap();
    assert_eq!(packet.message, text);
    assert_eq!(packet.hostname.as_deref(), Some("höst"));
}

#[test]
fn truncated_utf8_is_dropped() {
    let mut data = "<13>Oct 11 22:14:15 mymachine su: ".as_bytes().to_vec();
    data.push(0xc3);
    assert!(parse_syslog_packet(&data).is_none());
}

#[test]
fn extract_hostname_on_text() {
    assert_eq!(
        extract_hostname("<13>Oct 11 22:14:15 mymachine su: su root").as_deref(),
        Some("mymachine")
    );
    assert_eq!(extract_hostname("no header here"), None);
    assert_eq!(extract_hostname(""), None);
}

#[test]
fn grammar_capture_lists_every_group() {
    let groups = HeaderGrammar::Rfc3164
        .capture("<13>Oct 11 22:14:15 mymachine su: su root")
        .unwrap();
    assert_eq!(groups.len(), 4);
    assert_eq!(groups[0].as_deref(), Some("<13>Oct 11 22:14:15 mymachine "));
    assert_eq!(groups[1].as_deref(), Some("13"));
    assert_eq!(groups[2].as_deref(), Some("Oct 11 22:14:15"));
    assert_eq!(groups[3].as_deref(), Some("mymachine"));
    assert_eq!(HeaderGrammar::Rfc3164.hostname_in(&groups).as_deref(), Some("mymachine"));
    assert!(HeaderGrammar::Rfc5424
        .capture("<13>Oct 11 22:14:15 mymachine su: su root")
        .is_none());
}

#[test]
fn hostname_in_reads_the_layouts_group() {
    let groups = vec![
        Some("whole".to_string()),
        Some("1".to_string()),
        None,
        Some("three".to_string()),
        Some("four".to_string()),
    ];
    assert_eq!(HeaderGrammar::Rfc5424.hostname_group(), 4);
    assert_eq!(HeaderGrammar::Rfc3164.hostname_group(), 3);
    assert_eq!(HeaderGrammar::Rfc5424.hostname_in(&groups).as_deref(), Some("four"));
    assert_eq!(HeaderGrammar::Rfc3164.hostname_in(&groups).as_deref(), Some("three"));
    let short = vec![Some("whole".to_string()), None];
    assert_eq!(HeaderGrammar::Rfc5424.hostname_in(&short), None);
    let absent = vec![Some("w".to_string()), None, None, None];
    assert_eq!(HeaderGrammar::Rfc3164.hostname_in(&absent), None);
}

#[test]
fn patterns_are_the_two_layouts() {
    assert_eq!(
        HeaderGrammar::Rfc5424.pattern(),
        r"^<(\d{1,3})>(\d)\s+(\S+)\s+(\S+)\s+"
    );
    assert_eq!(
        HeaderGrammar::Rfc3164.pattern(),
        r"^<(\d{1,3})>([A-Z][a-z]{2}\s+\d+\s+\d{2}:\d{2}:\d{2})\s+(\S+)\s+"
    );
}

#[test]
fn payload_starts_at_first_marker() {
    let frame = [0u8, 1, 2, b'<', b'1', b'<', b'x'];
    assert_eq!(payload_offset(&frame), 3);
    assert_eq!(payload_of(&frame), &frame[3..]);
    let plain = [7u8, 8, 9];
    assert_eq!(payload_offset(&plain), 0);
    assert_eq!(payload_of(&plain), &plain[..]);
    let empty: [u8; 0] = [];
    assert_eq!(payload_offset(&empty), 0);
    assert_eq!(payload_of(&empty).len(), 0);
}

#[test]
fn leading_junk_changes_nothing() {
    let message = "<13>Oct 11 22:14:15 mymachine su: su root".as_bytes();
    let mut frame = vec![0x00u8, 0x45, 0xff, 0x11, 0x02];
    frame.extend_from_slice(message);
    let with_junk = parse_syslog_packet(payload_of(&frame)).unwrap();
    let without = parse_syslog_packet(payload_of(message)).unwrap();
    assert_eq!(with_junk, without);
    assert_eq!(with_junk.hostname.as_deref(), Some("mymachine"));
}
