use parser_algebra::parse::{match_buf, Parser};

#[test]
fn literal_matches_prefix() {
    let pattern = [1u8, 2];
    let input = [1u8, 2, 3];
    let (value, rest) = match_buf(&pattern[..]).parse(&input[..]).unwrap();
    assert_eq!(value, &[1u8, 2][..]);
    assert_eq!(rest, &[3u8][..]);
}

#[test]
fn literal_rejects_mismatch() {
    let pattern = [1u8, 2];
    let input = [1u8, 3];
    assert_eq!(match_buf(&pattern[..]).parse(&input[..]), Err(()));
}

#[test]
fn literal_empty_pattern_consumes_nothing() {
    let pattern: [u8; 0] = [];
    let input = [9u8];
    let (value, rest) = match_buf(&pattern[..]).parse(&input[..]).unwrap();
    assert_eq!(value, &[0u8; 0][..]);
    assert_eq!(rest, &[9u8][..]);
}

#[test]
fn literal_rejects_pattern_longer_than_input() {
    let pattern = [1u8, 2, 3];
    let input = [1u8, 2];
    assert_eq!(match_buf(&pattern[..]).parse(&input[..]), Err(()));
}

#[test]
fn literal_empty_pattern_on_empty_input() {
    let pattern: [u8; 0] = [];
    let input: [u8; 0] = [];
    let (value, rest) = match_buf(&pattern[..]).parse(&input[..]).unwrap();
    assert!(value.is_empty());
    assert!(rest.is_empty());
}

#[test]
fn literal_rejects_empty_input() {
    let pattern = [7u8];
    let input: [u8; 0] = [];
    assert_eq!(match_buf(&pattern[..]).parse(&input[..]), Err(()));
}

#[test]
fn literal_matches_whole_input() {
    let pattern = [4u8, 5, 6];
    let input = [4u8, 5, 6];
    let (value, rest) = match_buf(&pattern[..]).parse(&input[..]).unwrap();
    assert_eq!(value, &[4u8, 5, 6][..]);
    assert!(rest.is_empty());
}

#[test]
fn literal_rejects_mismatch_in_first_element() {
    let pattern = [1u8, 2];
    let input = [0u8, 2, 3];
    assert_eq!(match_buf(&pattern[..]).parse(&input[..]), Err(()));
}

#[test]
fn literal_rejects_mismatch_in_last_element() {
    let pattern = [1u8, 2, 3];
    let input = [1u8, 2, 4, 5];
    assert_eq!(match_buf(&pattern[..]).parse(&input[..]), Err(()));
}

#[test]
fn literal_value_is_taken_from_the_input() {
    let pattern = [1u8, 2];
    let input = [1u8, 2, 3];
    let (value, rest) = match_buf(&pattern[..]).parse(&input[..]).unwrap();
    assert!(std::ptr::eq(value.as_ptr(), input.as_ptr()));
    assert!(std::ptr::eq(rest.as_ptr(), input[2..].as_ptr()));
}

#[test]
fn literal_over_characters() {
    let pattern = ['l', 'e', 't'];
    let input = ['l', 'e', 't', ' ', 'x'];
    let (value, rest) = match_buf(&pattern[..]).parse(&input[..]).unwrap();
    assert_eq!(value, &['l', 'e', 't'][..]);
    assert_eq!(rest, &[' ', 'x'][..]);
}

#[test]
fn literal_over_strings() {
    let pattern = ["fn", "main"];
    let input = ["fn", "main", "(", ")"];
    let (value, rest) = match_buf(&pattern[..]).parse(&input[..]).unwrap();
    assert_eq!(value, &["fn", "main"][..]);
    assert_eq!(rest, &["(", ")"][..]);
    let other = ["fn", "other"];
    assert_eq!(match_buf(&pattern[..]).parse(&other[..]), Err(()));
}

#[test]
fn literal_can_be_used_many_times() {
    let pattern = [1u8];
    let first = [1u8, 2];
    let second = [2u8, 1];
    let parser = match_buf(&pattern[..]);
    assert_eq!(parser.parse(&first[..]), Ok((&[1u8][..], &[2u8][..])));
    assert_eq!(parser.parse(&second[..]), Err(()));
    assert_eq!(parser.parse(&first[..]), Ok((&[1u8][..], &[2u8][..])));
}
