use library::bridge::{
    bin_location, decode, decoded, echo_reply, report, terminated, typeset_args, typeset_report,
};

#[test]
fn echo_reply_puts_the_call_behind_its_heading() {
    assert_eq!(echo_reply("veiśu"), "Received:veiśu");
    assert_eq!(echo_reply(""), "Received:");
}

#[test]
fn terminated_adds_one_nul() {
    assert_eq!(terminated("abc"), "abc\0");
    assert_eq!(terminated("").as_bytes(), &[0u8]);
}

#[test]
fn bin_location_depends_on_the_caller() {
    assert_eq!(bin_location(true), "./src/app/utils/interop/library/src/graphemy");
    assert_eq!(bin_location(false), "./src/graphemy");
}

#[test]
fn typeset_args_are_five_in_fixed_order() {
    assert_eq!(
        typeset_args("./src/Veiśu", "veiśu"),
        vec!["typeset", "--lang", "./src/Veiśu", "from-arg", "veiśu"]
    );
}

#[test]
fn report_has_two_headings() {
    assert_eq!(report("done", ""), "Output: done\nError: ");
    assert_eq!(report("", "no such language"), "Output: \nError: no such language");
}

#[test]
fn decoded_reads_utf8() {
    assert_eq!(decoded(vec![0x76, 0x65, 0x69, 0xc5, 0x9b, 0x75]), "veiśu");
    assert_eq!(decoded(Vec::new()), "");
}

#[test]
fn decoded_describes_bytes_that_are_no_utf8() {
    assert_eq!(
        decoded(vec![0x61, 0xff, 0x62]),
        "invalid utf-8 sequence of 1 bytes from index 1"
    );
    assert_eq!(decoded(vec![0x61, 0x62, 0xe8, 0xb6]), "incomplete utf-8 byte sequence from index 2");
}

#[test]
fn decode_describes_the_same_bytes_the_same_way() {
    assert_eq!(
        decode(vec![0x61, 0xff, 0x62]),
        Err(String::from("invalid utf-8 sequence of 1 bytes from index 1"))
    );
    assert_eq!(decode(vec![0x61, 0xff, 0x62]), decode(vec![0x61, 0xff, 0x62]));
}

#[test]
fn typeset_report_decodes_both_streams() {
    assert_eq!(
        typeset_report(b"written".to_vec(), b"warning: wide glyph".to_vec()),
        "Output: written\nError: warning: wide glyph"
    );
}

#[test]
fn typeset_report_describes_a_bad_stream_and_keeps_the_other() {
    assert_eq!(
        typeset_report(vec![0xc3], b"ok".to_vec()),
        "Output: incomplete utf-8 byte sequence from index 0\nError: ok"
    );
    assert_eq!(
        typeset_report(b"ok".to_vec(), vec![0x80]),
        "Output: ok\nError: invalid utf-8 sequence of 1 bytes from index 0"
    );
}

#[test]
fn decode_tells_text_from_other_bytes() {
    assert_eq!(decode(b"graphemes".to_vec()), Ok(String::from("graphemes")));
    assert_eq!(decode(vec![0xe8, 0xb6, 0x8a]), Ok(String::from("越")));
    assert!(decode(vec![0xe8, 0xb6]).is_err());
    assert!(decode(vec![0xed, 0xa0, 0x80]).is_err());
    assert!(decode(vec![0xc0, 0xaf]).is_err());
}
