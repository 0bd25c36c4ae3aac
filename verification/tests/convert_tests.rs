use csv_snake::convert::convert;

fn conv(s: &[u8]) -> Vec<u8> {
    convert(s)
}

#[test]
fn simple_camel_case() {
    assert_eq!(conv(b"FirstName"), b"first_name".to_vec());
    assert_eq!(conv(b"LastName"), b"last_name".to_vec());
    assert_eq!(conv(b"Age"), b"age".to_vec());
    assert_eq!(conv(b"camelCase"), b"camel_case".to_vec());
}

#[test]
fn acronym_runs() {
    assert_eq!(conv(b"HTTPStatusCode"), b"http_status_code".to_vec());
    assert_eq!(conv(b"HTTPServer"), b"http_server".to_vec());
    assert_eq!(conv(b"ID"), b"id".to_vec());
    assert_eq!(conv(b"userID"), b"user_id".to_vec());
}

#[test]
fn separators_are_collapsed() {
    assert_eq!(conv(b"  foo--bar "), b"foo_bar".to_vec());
    assert_eq!(conv(b" userID "), b"user_id".to_vec());
    assert_eq!(conv(b" user-Email "), b"user_email".to_vec());
    assert_eq!(conv(b"__a__b__"), b"a_b".to_vec());
    assert_eq!(conv(b"...."), b"".to_vec());
}

#[test]
fn digits_split_from_letters() {
    assert_eq!(conv(b"v2Beta"), b"v_2_beta".to_vec());
    assert_eq!(conv(b"123"), b"123".to_vec());
    assert_eq!(conv(b"user1"), b"user_1".to_vec());
    assert_eq!(conv(b"2fast2furious"), b"2_fast_2_furious".to_vec());
}

#[test]
fn empty_input_gives_empty_output() {
    assert_eq!(conv(b""), b"".to_vec());
}

#[test]
fn snake_case_input_is_unchanged() {
    assert_eq!(conv(b"already_snake_case"), b"already_snake_case".to_vec());
    assert_eq!(conv(b"a_1_b"), b"a_1_b".to_vec());
}

#[test]
fn non_ascii_bytes_pass_through() {
    // "éB" in UTF-8: the non-ASCII bytes are kept, the letter is lowercased
    assert_eq!(conv(&[0xC3, 0xA9, b'B']), vec![0xC3, 0xA9, b'b']);
    assert_eq!(conv(&[0xC3, 0xA9]), vec![0xC3, 0xA9]);
}

#[test]
fn conversion_is_idempotent_on_samples() {
    let samples: Vec<&[u8]> = vec![
        b"FirstName",
        b"HTTPStatusCode",
        b" userID ",
        b"v2Beta",
        b"",
        b"123",
        b"already_snake",
        b"--A--B--",
        &[0xC3, 0xA9, b'B', b'7'],
        &[0x00, 0xFF, b'Q'],
    ];
    for s in samples {
        let once = conv(s);
        let twice = conv(&once);
        assert_eq!(twice, once);
    }
}

#[test]
fn output_is_normalized_on_samples() {
    let samples: Vec<&[u8]> = vec![
        b"FirstName",
        b"HTTPStatusCode",
        b" userID , user-Email ",
        b"v2Beta",
        b"__X__",
        b"123abcDEF",
        &[0xC3, 0xA9, b'B', b'_', b'_'],
    ];
    for s in samples {
        let out = conv(s);
        for (k, &b) in out.iter().enumerate() {
            assert!(!(b.is_ascii_uppercase()), "uppercase byte in output");
            if b == b'_' {
                assert!(k != 0, "leading underscore");
                assert!(k != out.len() - 1, "trailing underscore");
                assert!(out[k + 1] != b'_', "doubled underscore");
            }
        }
    }
}
