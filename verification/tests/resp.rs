use codecrafters_redis::parser::number::{bytes_to_signed, bytes_to_unsigned, unsigned_to_bytes};
use codecrafters_redis::parser::resp::{
    find_first_crlf, parse_array, parse_buffer, parse_bulk_string, parse_bytes,
    parse_simple_string, parse_token, ParseError, Token,
};

#[test]
fn simple_string_parsing_works() {
    let message = b"+OK\r\n";
    let result = parse_simple_string(message).unwrap();
    assert_eq!(result.len, message.len());
    assert_eq!(
        result.tokens.first(),
        Some(&Token::SimpleString("OK".to_owned()))
    )
}

#[test]
fn bulk_string_parsing_works() {
    let message = b"$5\r\nhello\r\n";
    let result = parse_bulk_string(message).unwrap();
    assert_eq!(result.len, message.len());
    assert_eq!(
        result.tokens.first(),
        Some(&Token::BulkString(b"hello".to_vec()))
    )
}

#[test]
fn array_parsing_works() {
    let message = b"*2\r\n$3\r\nget\r\n$5\r\nfruit\r\n";
    let result = parse_array(message).unwrap();
    assert_eq!(result.len, message.len());
    assert_eq!(
        result.tokens,
        vec![Token::Array(vec![
            Token::BulkString(b"get".to_vec()),
            Token::BulkString(b"fruit".to_vec())
        ])]
    );
}

#[test]
fn array_of_array_parsing_works() {
    let message = b"*2\r\n*2\r\n$3\r\nget\r\n$5\r\nfruit\r\n*2\r\n$3\r\nget\r\n$5\r\nfruit\r\n";
    let result = parse_array(message).unwrap();
    assert_eq!(result.len, message.len());
    assert_eq!(
        result.tokens,
        vec![Token::Array(vec![
            Token::Array(vec![
                Token::BulkString(b"get".to_vec()),
                Token::BulkString(b"fruit".to_vec()),
            ]),
            Token::Array(vec![
                Token::BulkString(b"get".to_vec()),
                Token::BulkString(b"fruit".to_vec()),
            ]),
        ])]
    )
}

fn sample_frames() -> Vec<Token> {
    vec![
        Token::SimpleString("OK".to_owned()),
        Token::SimpleString(String::new()),
        Token::SimpleString("a lone \r stays, and so does a lone \n".to_owned()),
        Token::SimpleString("gr\u{fc}\u{df}e \u{4e16}\u{754c}".to_owned()),
        Token::BulkString(b"hello".to_vec()),
        Token::BulkString(Vec::new()),
        Token::BulkString(b"with\r\ninside".to_vec()),
        Token::BulkString(vec![0, 255, 13, 10, 36, 42]),
        Token::NullBulkString,
        Token::Integer(0),
        Token::Integer(42),
        Token::Integer(-7),
        Token::Integer(i64::MAX),
        Token::Integer(i64::MIN),
        Token::Array(Vec::new()),
        Token::Array(vec![
            Token::BulkString(b"SET".to_vec()),
            Token::BulkString(b"k".to_vec()),
            Token::BulkString(b"v".to_vec()),
        ]),
        Token::Array(vec![
            Token::Array(vec![Token::Integer(1), Token::NullBulkString]),
            Token::SimpleString("x".to_owned()),
            Token::Array(Vec::new()),
            Token::Array(vec![Token::Array(vec![Token::BulkString(b"deep".to_vec())])]),
        ]),
    ]
}

#[test]
fn serialize_gives_the_wire_form() {
    assert_eq!(Token::SimpleString("OK".to_owned()).serialize(), b"+OK\r\n".to_vec());
    assert_eq!(Token::BulkString(b"hello".to_vec()).serialize(), b"$5\r\nhello\r\n".to_vec());
    assert_eq!(Token::BulkString(Vec::new()).serialize(), b"$0\r\n\r\n".to_vec());
    assert_eq!(Token::NullBulkString.serialize(), b"$-1\r\n".to_vec());
    assert_eq!(Token::Integer(0).serialize(), b":0\r\n".to_vec());
    assert_eq!(Token::Integer(1234567890).serialize(), b":1234567890\r\n".to_vec());
    assert_eq!(Token::Integer(-15).serialize(), b":-15\r\n".to_vec());
    assert_eq!(
        Token::Integer(i64::MIN).serialize(),
        b":-9223372036854775808\r\n".to_vec()
    );
    assert_eq!(Token::Array(Vec::new()).serialize(), b"*0\r\n".to_vec());
    assert_eq!(
        Token::Array(vec![
            Token::BulkString(b"get".to_vec()),
            Token::Array(vec![Token::Integer(3)]),
        ])
        .serialize(),
        b"*2\r\n$3\r\nget\r\n*1\r\n:3\r\n".to_vec()
    );
    let mut out = b"abc".to_vec();
    Token::Integer(5).serialize_into(&mut out);
    assert_eq!(out, b"abc:5\r\n".to_vec());
}

#[test]
fn parsing_a_serialized_frame_gives_it_back() {
    for frame in sample_frames() {
        let bytes = frame.serialize();
        let (parsed, len) = parse_token(&bytes).unwrap();
        assert_eq!(parsed, frame);
        assert_eq!(len, bytes.len());
    }
}

#[test]
fn every_shorter_prefix_is_incomplete() {
    for frame in sample_frames() {
        let bytes = frame.serialize();
        for cut in 0..bytes.len() {
            assert_eq!(
                parse_token(&bytes[..cut]),
                Err(ParseError::Incomplete),
                "{:?} cut at {}",
                frame,
                cut
            );
        }
    }
}

#[test]
fn concatenated_frames_parse_one_after_the_other() {
    let frames = sample_frames();
    for first in frames.iter() {
        for second in frames.iter() {
            let mut bytes = first.serialize();
            let first_len = bytes.len();
            bytes.extend_from_slice(&second.serialize());
            let (parsed, len) = parse_token(&bytes).unwrap();
            assert_eq!(&parsed, first);
            assert_eq!(len, first_len);
            let (next, next_len) = parse_token(&bytes[len..]).unwrap();
            assert_eq!(&next, second);
            assert_eq!(next_len, bytes.len() - first_len);
        }
    }
}

#[test]
fn a_damaged_length_header_is_invalid() {
    let frames = vec![
        Token::BulkString(b"hello".to_vec()),
        Token::BulkString(b"0123456789ab".to_vec()),
        Token::NullBulkString,
        Token::Array(vec![Token::Integer(1), Token::Integer(2)]),
        Token::Array(Vec::new()),
    ];
    for frame in frames {
        let bytes = frame.serialize();
        let header_end = find_first_crlf(&bytes).unwrap();
        for at in 1..=header_end {
            for b in 0..=255u8 {
                if b.is_ascii_digit() && frame != Token::NullBulkString {
                    continue;
                }
                let mut damaged = bytes[..at].to_vec();
                damaged.push(b);
                damaged.extend_from_slice(&bytes[at..]);
                assert_eq!(
                    parse_token(&damaged),
                    Err(ParseError::Invalid),
                    "{:?} with {} at {}",
                    frame,
                    b,
                    at
                );
            }
        }
    }
}

#[test]
fn a_minus_before_the_length_one_spells_the_null_bulk_string() {
    assert_eq!(
        parse_token(b"$-1\r\nx\r\n"),
        Ok((Token::NullBulkString, 5))
    );
    assert_eq!(parse_token(b"$1-\r\nx\r\n"), Err(ParseError::Invalid));
    assert_eq!(parse_token(b"*-1\r\n"), Err(ParseError::Invalid));
}

#[test]
fn nested_array_keeps_its_shape_as_a_frame() {
    let message = b"*2\r\n*1\r\n$3\r\nget\r\n:-7\r\n";
    let (token, len) = parse_token(message).unwrap();
    assert_eq!(len, message.len());
    assert_eq!(
        token,
        Token::Array(vec![
            Token::Array(vec![Token::BulkString(b"get".to_vec())]),
            Token::Integer(-7),
        ])
    );
    assert_eq!(token.serialize(), message.to_vec());
    let result = parse_buffer(message).unwrap();
    assert_eq!(result.tokens, vec![token]);
    assert_eq!(result.len, message.len());
}

#[test]
fn parse_buffer_gives_a_serialized_frame_back() {
    for frame in sample_frames() {
        let bytes = frame.serialize();
        let result = parse_buffer(&bytes).unwrap();
        assert_eq!(result.len, bytes.len());
        assert_eq!(result.tokens, vec![frame]);
    }
}

#[test]
fn parse_buffer_takes_concatenated_frames_one_by_one() {
    let frames = sample_frames();
    for first in frames.iter() {
        for second in frames.iter() {
            let mut bytes = first.serialize();
            let first_len = bytes.len();
            bytes.extend_from_slice(&second.serialize());
            let result = parse_buffer(&bytes).unwrap();
            assert_eq!(result.tokens, vec![first.clone()]);
            assert_eq!(result.len, first_len);
            let next = parse_buffer(&bytes[result.len..]).unwrap();
            assert_eq!(next.tokens, vec![second.clone()]);
            assert_eq!(next.len, bytes.len() - first_len);
        }
    }
}

#[test]
fn the_parsers_by_kind_agree_with_the_parser_of_any_frame() {
    for frame in sample_frames() {
        let mut bytes = frame.serialize();
        bytes.extend_from_slice(b"+after\r\n");
        let expected = parse_buffer(&bytes).unwrap();
        let result = match bytes[0] {
            b'+' => parse_simple_string(&bytes),
            b'$' => parse_bulk_string(&bytes),
            b'*' => parse_array(&bytes),
            _ => parse_buffer(&bytes),
        }
        .unwrap();
        assert_eq!(result.tokens, expected.tokens);
        assert_eq!(result.tokens, vec![frame]);
        assert_eq!(result.len, expected.len);
    }
    assert!(matches!(parse_array(b"*2\r\n:1\r\n"), Err(ParseError::Incomplete)));
    assert!(matches!(parse_bulk_string(b"$x\r\n"), Err(ParseError::Invalid)));
    assert!(matches!(parse_simple_string(b"+\xff\r\n"), Err(ParseError::Invalid)));
}

#[test]
fn parse_buffer_gives_a_lone_frame_as_one_token() {
    let result = parse_buffer(b":12\r\n+next\r\n").unwrap();
    assert_eq!(result.tokens, vec![Token::Integer(12)]);
    assert_eq!(result.len, 5);
    let result = parse_buffer(b"$-1\r\n").unwrap();
    assert_eq!(result.tokens, vec![Token::NullBulkString]);
    assert_eq!(
        parse_buffer(b"*0\r\n").unwrap().tokens,
        vec![Token::Array(Vec::new())]
    );
    assert!(matches!(parse_buffer(b""), Err(ParseError::Incomplete)));
    assert!(matches!(parse_buffer(b"?\r\n"), Err(ParseError::Invalid)));
}

#[test]
fn an_empty_buffer_is_incomplete_and_an_unknown_tag_is_invalid() {
    assert_eq!(parse_token(b""), Err(ParseError::Incomplete));
    assert_eq!(parse_token(b"+OK"), Err(ParseError::Incomplete));
    assert_eq!(parse_token(b"+OK\r"), Err(ParseError::Incomplete));
    assert_eq!(parse_token(b"-ERR no\r\n"), Err(ParseError::Invalid));
    assert_eq!(parse_token(b"hello\r\n"), Err(ParseError::Invalid));
    assert_eq!(parse_token(b"\r\n"), Err(ParseError::Invalid));
}

#[test]
fn a_simple_string_must_be_utf8() {
    assert_eq!(
        parse_token(b"+caf\xc3\xa9\r\n"),
        Ok((Token::SimpleString("caf\u{e9}".to_owned()), 8))
    );
    assert_eq!(parse_token(b"+caf\xe9\r\n"), Err(ParseError::Invalid));
    assert_eq!(parse_token(b"+\xff\r\n"), Err(ParseError::Invalid));
    assert_eq!(parse_token(b"+\xc3\r\n"), Err(ParseError::Invalid));
}

#[test]
fn integers_are_signed_decimal_numbers() {
    assert_eq!(parse_token(b":0\r\n"), Ok((Token::Integer(0), 4)));
    assert_eq!(parse_token(b":-0\r\n"), Ok((Token::Integer(0), 5)));
    assert_eq!(parse_token(b":007\r\n"), Ok((Token::Integer(7), 6)));
    assert_eq!(
        parse_token(b":9223372036854775807\r\n"),
        Ok((Token::Integer(i64::MAX), 22))
    );
    assert_eq!(
        parse_token(b":-9223372036854775808\r\n"),
        Ok((Token::Integer(i64::MIN), 23))
    );
    assert_eq!(parse_token(b":9223372036854775808\r\n"), Err(ParseError::Invalid));
    assert_eq!(parse_token(b":-9223372036854775809\r\n"), Err(ParseError::Invalid));
    assert_eq!(parse_token(b":+5\r\n"), Err(ParseError::Invalid));
    assert_eq!(parse_token(b":\r\n"), Err(ParseError::Invalid));
    assert_eq!(parse_token(b":-\r\n"), Err(ParseError::Invalid));
    assert_eq!(parse_token(b":1 \r\n"), Err(ParseError::Invalid));
    assert_eq!(parse_token(b":12a\r\n"), Err(ParseError::Invalid));
}

#[test]
fn bulk_strings_hold_any_bytes_and_need_their_terminator() {
    assert_eq!(
        parse_token(b"$4\r\n\r\n\r\n\r\n"),
        Ok((Token::BulkString(b"\r\n\r\n".to_vec()), 10))
    );
    assert_eq!(parse_token(b"$0\r\n\r\n"), Ok((Token::BulkString(Vec::new()), 6)));
    assert_eq!(parse_token(b"$3\r\nabcde\r\n"), Err(ParseError::Invalid));
    assert_eq!(parse_token(b"$3\r\nabc\rX"), Err(ParseError::Invalid));
    assert_eq!(parse_token(b"$3\r\nabc\r"), Err(ParseError::Incomplete));
    assert_eq!(parse_token(b"$3\r\nab"), Err(ParseError::Incomplete));
    assert_eq!(parse_token(b"$+3\r\nabc\r\n"), Err(ParseError::Invalid));
    assert_eq!(parse_token(b"$\r\n\r\n"), Err(ParseError::Invalid));
    assert_eq!(parse_token(b"$-2\r\n"), Err(ParseError::Invalid));
    assert_eq!(
        parse_token(b"$18446744073709551615\r\nabc\r\n"),
        Err(ParseError::Incomplete)
    );
    assert_eq!(
        parse_token(b"$18446744073709551616\r\nabc\r\n"),
        Err(ParseError::Invalid)
    );
    assert_eq!(parse_token(b"$007\r\n1234567\r\n").unwrap().1, 15);
}

#[test]
fn arrays_stop_at_the_first_item_that_fails() {
    assert_eq!(parse_token(b"*2\r\n:1\r\n"), Err(ParseError::Incomplete));
    assert_eq!(parse_token(b"*2\r\n:1\r\n?"), Err(ParseError::Invalid));
    assert_eq!(parse_token(b"*2\r\n:x\r\n:1\r\n"), Err(ParseError::Invalid));
    assert_eq!(parse_token(b"*x\r\n"), Err(ParseError::Invalid));
    assert_eq!(parse_token(b"*1"), Err(ParseError::Incomplete));
    assert_eq!(
        parse_token(b"*1\r\n:1\r\n:2\r\n"),
        Ok((Token::Array(vec![Token::Integer(1)]), 8))
    );
    assert_eq!(
        parse_token(b"*18446744073709551615\r\n"),
        Err(ParseError::Incomplete)
    );
}

#[test]
fn find_first_crlf_finds_the_earliest() {
    assert_eq!(find_first_crlf(b""), None);
    assert_eq!(find_first_crlf(b"\r"), None);
    assert_eq!(find_first_crlf(b"\n\r"), None);
    assert_eq!(find_first_crlf(b"abc\rdef\n"), None);
    assert_eq!(find_first_crlf(b"\r\n"), Some(0));
    assert_eq!(find_first_crlf(b"ab\r\ncd\r\n"), Some(2));
    assert_eq!(find_first_crlf(b"a\r\r\n"), Some(2));
}

#[test]
fn parse_bytes_takes_a_length_and_a_terminator() {
    assert_eq!(parse_bytes(b"hello\r\nrest", 5), Ok(b"hello".as_slice()));
    assert_eq!(parse_bytes(b"\r\n", 0), Ok(b"".as_slice()));
    assert_eq!(parse_bytes(b"hello\r", 5), Err(ParseError::Incomplete));
    assert_eq!(parse_bytes(b"", 0), Err(ParseError::Incomplete));
    assert_eq!(parse_bytes(b"hello!!", 5), Err(ParseError::Invalid));
    assert_eq!(parse_bytes(b"hello\r\n", u64::MAX), Err(ParseError::Incomplete));
}

#[test]
fn token_getters_give_the_payload_or_refuse() {
    let bulk = Token::BulkString(b"abc".to_vec());
    let simple = Token::SimpleString("abc".to_owned());
    assert_eq!(bulk.get_bulk_string_data(), Ok(&b"abc".to_vec()));
    assert_eq!(simple.get_bulk_string_data(), Err(ParseError::Invalid));
    assert_eq!(Token::NullBulkString.get_bulk_string_data(), Err(ParseError::Invalid));
    assert_eq!(simple.get_simple_string_data(), Ok(&"abc".to_owned()));
    assert_eq!(bulk.get_simple_string_data(), Err(ParseError::Invalid));
    assert_eq!(Token::Integer(1).get_simple_string_data(), Err(ParseError::Invalid));
}

#[test]
fn a_cloned_token_equals_its_source() {
    for frame in sample_frames() {
        assert_eq!(frame.clone(), frame);
    }
}

#[test]
fn parse_errors_say_what_they_mean() {
    assert_eq!(
        ParseError::Incomplete.to_string(),
        "need more data to correctly process message"
    );
    assert_eq!(
        ParseError::Invalid.to_string(),
        "containing RESP message is malformed"
    );
}

#[test]
fn unsigned_numbers_are_digits_and_nothing_else() {
    assert_eq!(bytes_to_unsigned(b"0"), Some(0));
    assert_eq!(bytes_to_unsigned(b"42"), Some(42));
    assert_eq!(bytes_to_unsigned(b"007"), Some(7));
    assert_eq!(bytes_to_unsigned(b"18446744073709551615"), Some(u64::MAX));
    assert_eq!(bytes_to_unsigned(b"18446744073709551616"), None);
    assert_eq!(bytes_to_unsigned(b"99999999999999999999999"), None);
    assert_eq!(bytes_to_unsigned(b""), None);
    assert_eq!(bytes_to_unsigned(b"+1"), None);
    assert_eq!(bytes_to_unsigned(b"-1"), None);
    assert_eq!(bytes_to_unsigned(b"1 "), None);
    assert_eq!(bytes_to_unsigned(b"1a"), None);
    assert_eq!(bytes_to_unsigned(b"99999999999999999999999x"), None);
    assert_eq!(bytes_to_signed(b"-12"), Some(-12));
    assert_eq!(bytes_to_signed(b"12"), Some(12));
    assert_eq!(bytes_to_signed(b"--12"), None);
    assert_eq!(bytes_to_signed(b""), None);
    assert_eq!(unsigned_to_bytes(0), b"0".to_vec());
    assert_eq!(unsigned_to_bytes(10), b"10".to_vec());
    assert_eq!(unsigned_to_bytes(65536), b"65536".to_vec());
    assert_eq!(unsigned_to_bytes(u64::MAX), b"18446744073709551615".to_vec());
}

#[test]
fn what_is_parsed_stays_parsed_when_more_comes_in() {
    let buffers: Vec<&[u8]> = vec![
        b"+OK\r\n",
        b"$5\r\nhello\r\n",
        b"$-1\r\n",
        b":-12\r\n",
        b"*2\r\n$3\r\nget\r\n*1\r\n:1\r\n",
        b"*0\r\n",
        b"?",
        b"$x\r\n",
        b"$3\r\nabcde",
        b"*2\r\n:1\r\n:x\r\n",
        b"+\xff\r\n",
        b":+1\r\n",
    ];
    let tails: Vec<&[u8]> = vec![b"", b"\r", b"\r\n", b"+more\r\n", b"*3\r\n$1", b"\xff\x00"];
    for buffer in buffers.iter() {
        let outcome = parse_token(buffer);
        assert_ne!(outcome, Err(ParseError::Incomplete));
        for tail in tails.iter() {
            let mut longer = buffer.to_vec();
            longer.extend_from_slice(tail);
            assert_eq!(parse_token(&longer), outcome);
        }
    }
}
