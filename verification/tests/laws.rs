use parser_algebra::parse::{match_buf, Parser, ParserExt};

fn digit(buf: &[u8]) -> Result<(u8, &[u8]), ()> {
    match buf.split_first() {
        Some((first, rest)) if first.is_ascii_digit() => Ok((*first - b'0', rest)),
        _ => Err(()),
    }
}

fn is_suffix(rest: &[u8], input: &[u8]) -> bool {
    rest.len() <= input.len() && rest == &input[input.len() - rest.len()..]
}

#[test]
fn rest_is_a_suffix_of_the_input() {
    let pattern = [b'a', b'b'];
    let inputs: [&[u8]; 5] = [b"", b"a", b"ab", b"abc", b"ab12"];
    for input in inputs {
        if let Ok((_, rest)) = match_buf(&pattern[..]).parse(input) {
            assert!(is_suffix(rest, input));
            assert_eq!(input.len() - rest.len(), 2);
        }
        if let Ok((_, rest)) = match_buf(&pattern[..]).then(digit).parse(input) {
            assert!(is_suffix(rest, input));
            assert_eq!(input.len() - rest.len(), 3);
        }
        let (_, rest) = match_buf(&pattern[..]).optional().parse(input).unwrap();
        assert!(is_suffix(rest, input));
        if let Ok((_, rest)) = digit.flat_map(|_| digit).parse(input) {
            assert!(is_suffix(rest, input));
        }
    }
}

#[test]
fn parsing_twice_gives_the_same() {
    let pattern = [b'a'];
    let parser = match_buf(&pattern[..]).then_right(digit).map(|d| d + 1).optional();
    let inputs: [&[u8]; 4] = [b"", b"a", b"a7", b"a7b"];
    for input in inputs {
        let first = parser.parse(input);
        let second = parser.parse(input);
        assert_eq!(first, second);
    }
    assert_eq!(parser.parse(b"a7b"), Ok((Some(8u8), &b"b"[..])));
}

#[test]
fn optional_never_fails() {
    let pattern = [b'x', b'y'];
    let inputs: [&[u8]; 5] = [b"", b"x", b"xy", b"xyz", b"yx"];
    for input in inputs {
        let plain = match_buf(&pattern[..]).parse(input);
        let optional = match_buf(&pattern[..]).optional().parse(input);
        match plain {
            Ok((value, rest)) => assert_eq!(optional, Ok((Some(value), rest))),
            Err(()) => assert_eq!(optional, Ok((None, input))),
        }
    }
}

#[test]
fn map_keeps_what_was_consumed() {
    let inputs: [&[u8]; 4] = [b"", b"7", b"42", b"x1"];
    for input in inputs {
        let plain = digit.parse(input);
        let mapped = digit.map(|d| u32::from(d) * 100).parse(input);
        match plain {
            Ok((value, rest)) => assert_eq!(mapped, Ok((u32::from(value) * 100, rest))),
            Err(()) => assert_eq!(mapped, Err(())),
        }
    }
    assert_eq!(digit.map(|d| u32::from(d) * 100).parse(b"42"), Ok((400u32, &b"2"[..])));
}
