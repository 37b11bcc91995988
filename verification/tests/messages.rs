use airplay_bridge::headers::{
    parse_content_length, parse_server_port, parse_session_id, parse_timing_port,
};
use airplay_bridge::requests::{
    write_announce, write_description, write_keepalive, write_options, write_pair_setup,
    write_pin_start, write_record, write_setup, write_teardown, write_url, write_volume,
};
use airplay_bridge::response::{ReadAction, ResponseReader, RtspResponse};
use airplay_bridge::text::{
    chars_of, contains_text, find_char, has_prefix, has_prefix_any_case, is_whitespace, number,
    push_decimal, push_hex, string_of, trimmed,
};

fn chars(s: &str) -> Vec<char> {
    s.chars().collect()
}

#[test]
fn white_space_is_that_of_unicode() {
    for n in 0..=0x10ffffu32 {
        if let Some(c) = char::from_u32(n) {
            assert_eq!(is_whitespace(c), c.is_whitespace(), "{:x}", n);
        }
    }
}

#[test]
fn trimming_is_that_of_strings() {
    for s in ["", " ", "a", " a ", "\t\r\n", " a b\u{3000}", "\u{85}x", "x\u{200b} "] {
        let all = chars(s);
        assert_eq!(string_of(trimmed(&all)), s.trim());
        assert_eq!(chars_of(s), all);
    }
}

#[test]
fn numbers_are_those_of_strings() {
    for s in [
        "", "0", "7", "+7", "++7", "+", "-1", "-0", "65535", "65536", "007", "000000000065535", "1a",
        " 1", "18446744073709551615", "18446744073709551616", "99999999999999999999999", "٣",
    ] {
        let all = chars(s);
        assert_eq!(number(&all, 65535), s.parse::<u16>().ok().map(|n| n as u64), "{}", s);
        assert_eq!(number(&all, u64::MAX), s.parse::<u64>().ok(), "{}", s);
    }
}

#[test]
fn numbers_are_written_as_they_are_read() {
    for n in [0u64, 9, 10, 352, 44100, u32::MAX as u64, u64::MAX] {
        let mut out = String::from("n=");
        push_decimal(&mut out, n);
        assert_eq!(out, format!("n={}", n));
        assert_eq!(number(&chars(&out[2..]), u64::MAX), Some(n));
        let mut out = String::new();
        push_hex(&mut out, n, 16);
        assert_eq!(out, format!("{:016X}", n));
    }
}

#[test]
fn searching_in_text() {
    let all = chars("RTSP/1.0 200 OK");
    assert_eq!(find_char(&all, ' '), 8);
    assert_eq!(find_char(&all, '?'), 15);
    assert!(contains_text(&all, &chars("200")));
    assert!(contains_text(&all, &chars("")));
    assert!(!contains_text(&all, &chars("2000")));
    assert!(has_prefix(&all, &chars("RTSP")));
    assert!(!has_prefix(&all, &chars("rtsp")));
    assert!(has_prefix_any_case(&all, &chars("rtsp/")));
    assert!(!has_prefix_any_case(&chars("RT"), &chars("rtsp")));
}

#[test]
fn server_port_of_transport() {
    let one = "Transport: RTP/AVP/UDP;unicast;server_port=6001;control_port=6002\r\n";
    assert_eq!(parse_server_port(one), Some(6001));
    assert_eq!(parse_server_port("TRANSPORT: x; Server_port= 6000-6001 \r\n"), Some(6000));
    assert_eq!(parse_server_port("transport: x;server_port=\r\nTransport: y;server_port=5"), None);
    assert_eq!(parse_server_port("transport: x\r\nTransport: y;server_port=5"), Some(5));
    assert_eq!(parse_server_port("Transport: x;server_port=65536"), None);
    assert_eq!(parse_server_port("Transport: x;SERVER_PORT=7"), None);
    assert_eq!(parse_server_port("X-Transport: x;server_port=7"), None);
    assert_eq!(parse_server_port(""), None);
}

#[test]
fn timing_port_of_transport() {
    assert_eq!(parse_timing_port("Transport: a;timing_port=6003;b\r\n"), Some(6003));
    assert_eq!(parse_timing_port("Transport: a;Timing_port=+6003"), Some(6003));
    assert_eq!(parse_timing_port("Transport: a;timing_port=6003-6004"), None);
    assert_eq!(parse_timing_port("Transport: a;server_port=1"), None);
}

#[test]
fn session_names() {
    assert_eq!(parse_session_id("Session: DEADBEEF;timeout=60\r\n"), Some("DEADBEEF".to_string()));
    assert_eq!(parse_session_id("session:1\r\n"), Some("1".to_string()));
    assert_eq!(parse_session_id("Session: \r\nSESSION: b:c\r\n"), Some("b".to_string()));
    assert_eq!(parse_session_id("Session: ;timeout=60\r\n"), None);
    assert_eq!(parse_session_id("CSeq: 4\r\n"), None);
    assert_eq!(parse_session_id("Sess\u{130}on: 1\r\n"), None);
}

#[test]
fn content_lengths() {
    assert_eq!(parse_content_length("Content-Length: 32\r\n"), Some(32));
    assert_eq!(parse_content_length("a: b\ncontent-length:0"), Some(0));
    assert_eq!(parse_content_length("Content-Length: x\r\nContent-Length: 3\r\n"), None);
    assert_eq!(parse_content_length("Content-Length: 1:2\r\n"), Some(1));
    assert_eq!(parse_content_length("\r\n"), None);
}

#[test]
fn requests_as_written() {
    let url = write_url("10.0.0.2", 7000, 4294967295);
    assert_eq!(url, "rtsp://10.0.0.2:7000/4294967295");
    assert_eq!(
        write_options(1, "00AB", 5, "AAE="),
        "OPTIONS * RTSP/1.0\r\nCSeq: 1\r\nUser-Agent: iTunes/12.0 (Macintosh)\r\n\
         Client-Instance: 00AB\r\nDACP-ID: 00AB\r\nActive-Remote: 5\r\n\
         Apple-Challenge: AAE=\r\n\r\n"
    );
    assert_eq!(
        write_keepalive(9, "S1"),
        "OPTIONS * RTSP/1.0\r\nCSeq: 9\r\nUser-Agent: iTunes/12.0 (Macintosh)\r\n\
         Session: S1\r\n\r\n"
    );
    assert_eq!(
        write_pair_setup(2, 32),
        "POST /pair-setup RTSP/1.0\r\nCSeq: 2\r\nUser-Agent: OuterTune/1.0\r\n\
         Content-Type: application/octet-stream\r\nContent-Length: 32\r\n\r\n"
    );
    assert_eq!(
        write_pin_start(3),
        "POST /pair-pin-start RTSP/1.0\r\nCSeq: 3\r\nUser-Agent: OuterTune/1.0\r\n\
         Content-Length: 0\r\n\r\n"
    );
    assert_eq!(
        write_setup(&url, 4, 10, 11, "00AB"),
        "SETUP rtsp://10.0.0.2:7000/4294967295 RTSP/1.0\r\nCSeq: 4\r\n\
         Transport: RTP/AVP/UDP;unicast;interleaved=0-1;mode=record;control_port=10;\
         timing_port=11\r\nUser-Agent: iTunes/12.0 (Macintosh)\r\nClient-Instance: 00AB\r\n\r\n"
    );
    assert_eq!(
        write_record(&url, 5, 65535, 352, "S1"),
        "RECORD rtsp://10.0.0.2:7000/4294967295 RTSP/1.0\r\nCSeq: 5\r\nRange: npt=0-\r\n\
         RTP-Info: url=rtsp://10.0.0.2:7000/4294967295;seq=65535;rtptime=352\r\n\
         User-Agent: iTunes/12.0 (Macintosh)\r\nSession: S1\r\n\r\n"
    );
    assert_eq!(
        write_teardown(&url, 6, "S1"),
        "TEARDOWN rtsp://10.0.0.2:7000/4294967295 RTSP/1.0\r\nCSeq: 6\r\n\
         User-Agent: iTunes/12.0 (Macintosh)\r\nSession: S1\r\n\r\n"
    );
}

#[test]
fn announce_counts_its_description_in_bytes() {
    let description = write_description("192.168.1.5");
    assert_eq!(
        description,
        "v=0\r\no=iTunes 1 1 IN IP4 192.168.1.5\r\ns=iTunes\r\nc=IN IP4 192.168.1.5\r\nt=0 0\r\n\
         m=audio 0 RTP/AVP 96\r\na=rtpmap:96 AppleLossless\r\n\
         a=fmtp:96 352 0 16 40 10 14 2 255 0 0 44100\r\n"
    );
    let request = write_announce("rtsp://h:1/2", 4, "C", &description);
    assert_eq!(
        request,
        format!(
            "ANNOUNCE rtsp://h:1/2 RTSP/1.0\r\nCSeq: 4\r\nContent-Type: application/sdp\r\n\
             Content-Length: {}\r\nUser-Agent: iTunes/12.0 (Macintosh)\r\nClient-Instance: C\r\n\
             \r\n{}",
            description.len(),
            description
        )
    );
    assert!(write_announce("u", 1, "C", "é").contains("Content-Length: 2\r\n"));
}

#[test]
fn volume_counts_its_body() {
    assert_eq!(
        write_volume("10.0.0.2", 7000, 8, "-20.000000"),
        "SET_PARAMETER rtsp://10.0.0.2:7000/audio RTSP/1.0\r\nCSeq: 8\r\n\
         User-Agent: OuterTune/1.0\r\nContent-Type: text/parameters\r\nContent-Length: 20\r\n\r\n\
         volume: -20.000000\r\n"
    );
}

#[test]
fn response_with_a_body() {
    let mut reader = ResponseReader::new();
    assert!(matches!(reader.next(), ReadAction::Line));
    reader.line(" RTSP/1.0 200 OK\r\n");
    for line in ["CSeq: 2\r\n", "Content-Length: 3\r\n"] {
        assert!(matches!(reader.next(), ReadAction::Line));
        reader.line(line);
    }
    reader.line(" \r\n");
    assert!(matches!(reader.next(), ReadAction::Body(3)));
    reader.line("ignored\r\n");
    assert!(matches!(reader.next(), ReadAction::Body(3)));
    reader.body(vec![1, 2, 3]);
    assert!(matches!(reader.next(), ReadAction::Done));
    reader.body(vec![4]);
    let r = reader.finish();
    assert_eq!(r.status_line, "RTSP/1.0 200 OK");
    assert_eq!(r.headers, "CSeq: 2\r\nContent-Length: 3\r\n");
    assert_eq!(r.body, vec![1, 2, 3]);
    assert!(r.has_code("200"));
    assert!(!r.has_code("403"));
}

#[test]
fn response_without_a_body() {
    for header in ["", "Content-Length: 0\r\n", "Content-Length: many\r\n", "X: y\r\n"] {
        let mut reader = ResponseReader::new();
        reader.line("RTSP/1.0 403 Forbidden\r\n");
        if header != "" {
            reader.line(header);
        }
        // The end of the connection reads as an empty line.
        reader.line("");
        assert!(matches!(reader.next(), ReadAction::Done));
        let r = reader.finish();
        assert_eq!(r.headers, header);
        assert!(r.body.is_empty());
    }
}

#[test]
fn a_code_is_found_anywhere() {
    let r = RtspResponse {
        status_line: "RTSP/1.0 1200".to_string(),
        headers: String::new(),
        body: Vec::new(),
    };
    assert!(r.has_code("200"));
    assert!(!r.has_code("401"));
}

#[test]
fn only_transport_lines_count() {
    let all = "CSeq: 1\r\nserver_port=1\r\ntransport: a;timing_port=7\r\nX: ;server_port=2\n\
               TRANSPORT: b;server_port=3\r\n";
    let kept = "transport: a;timing_port=7\r\nTRANSPORT: b;server_port=3\r\n";
    assert_eq!(parse_server_port(all), Some(3));
    assert_eq!(parse_server_port(kept), Some(3));
    assert_eq!(parse_timing_port(all), Some(7));
    assert_eq!(parse_timing_port(kept), Some(7));
    assert_eq!(parse_server_port("CSeq: 1\r\nserver_port=1\r\n"), None);
}

#[test]
fn first_port_decides() {
    let headers = "Transport: a\r\nTransport: b;server_port=x-1;timing_port=\r\n\
                   Transport: c;server_port=6000;timing_port=6001\r\n";
    assert_eq!(parse_server_port(headers), None);
    assert_eq!(parse_timing_port(headers), None);
}
