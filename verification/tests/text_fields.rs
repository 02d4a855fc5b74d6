use snap7::client::info::{plc_status_from_szl, scan_ascii_fields, trim_slice};
use snap7::types::PlcStatus;
use snap7::text::{trimmed_bytes, upper_text_bytes};
use snap7::client::info::detect_protocol;
use snap7::types::Protocol;

#[test]
fn ascii_runs_become_trimmed_text() {
    let data = b"\x00\x01  CPU 315-2 DP \x00\x02ab\x00\x7fS7-300 \x00";
    let fields = scan_ascii_fields(data, 10, 3);
    assert_eq!(fields, vec!["CPU 315-2 DP".to_string(), "S7-300".to_string()]);
    let first = scan_ascii_fields(data, 1, 1);
    assert_eq!(first, vec!["CPU 315-2 DP".to_string()]);
    assert!(scan_ascii_fields(b"\x00\x01\x02", 5, 1).is_empty());
}

#[test]
fn trim_removes_outer_white_space() {
    assert_eq!(trim_slice(b"  ab c \t"), b"ab c".to_vec());
    assert_eq!(trim_slice(b"   "), Vec::<u8>::new());
}

#[test]
fn short_status_block_is_unknown() {
    assert_eq!(plc_status_from_szl(&[0u8; 4]), PlcStatus::Unknown);
}

#[test]
fn text_fields_trim_unicode_white_space() {
    assert_eq!(trimmed_bytes("\u{a0}CPU 1516\u{3000} ".as_bytes()), b"CPU 1516".to_vec());
    assert_eq!(trimmed_bytes("\u{a0}".as_bytes()), Vec::<u8>::new());
    assert_eq!(trimmed_bytes(b"\t ab c\r\n"), b"ab c".to_vec());
}

#[test]
fn upper_case_follows_unicode() {
    assert_eq!(upper_text_bytes("cpu \u{131}".as_bytes()), b"CPU I".to_vec());
    assert_eq!(upper_text_bytes(b"et 200sp"), b"ET 200SP".to_vec());
    assert_eq!(detect_protocol(&[], "cpu 1512sp"), Protocol::S7Plus);
}
