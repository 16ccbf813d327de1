use boyia::text::{
    bytes_eq, decimal_bytes, gen_hash_code, index_of, replace_bytes, split_bytes, substring_bytes,
    trim_bytes,
};

#[test]
fn hash_of_empty_buffer_is_zero() {
    assert_eq!(gen_hash_code(b""), 0);
}

#[test]
fn hash_is_djb2() {
    // 5381 * 33 + 'a', then * 33 + 'b', then * 33 + 'c'
    assert_eq!(gen_hash_code(b"a"), 5381 * 33 + 97);
    assert_eq!(gen_hash_code(b"abc"), 193485963);
}

#[test]
fn hash_reads_high_bytes_as_signed() {
    assert_eq!(gen_hash_code(&[0xFF]), 5381 * 33 - 1);
}

#[test]
fn bytes_eq_compares_contents() {
    assert!(bytes_eq(b"abc", b"abc"));
    assert!(!bytes_eq(b"abc", b"abd"));
    assert!(!bytes_eq(b"abc", b"ab"));
}

#[test]
fn index_of_finds_first_match_from_position() {
    assert_eq!(index_of(b"hello world", b"o", 0), Some(4));
    assert_eq!(index_of(b"hello world", b"o", 5), Some(7));
    assert_eq!(index_of(b"hello world", b"xyz", 0), None);
    assert_eq!(index_of(b"hello", b"", 2), Some(2));
}

#[test]
fn index_of_from_past_end_is_none() {
    assert_eq!(index_of(b"abc", b"", 3), None);
    assert_eq!(index_of(b"abc", b"c", 7), None);
}

#[test]
fn split_on_delimiter() {
    let parts = split_bytes(b"a,b,,c", b",");
    assert_eq!(parts, vec![b"a".to_vec(), b"b".to_vec(), b"".to_vec(), b"c".to_vec()]);
    assert_eq!(split_bytes(b"abc", b","), vec![b"abc".to_vec()]);
    assert_eq!(split_bytes(b"", b","), vec![b"".to_vec()]);
    assert_eq!(split_bytes(b"a--b--", b"--"), vec![b"a".to_vec(), b"b".to_vec(), b"".to_vec()]);
}

#[test]
fn split_on_empty_delimiter_cuts_characters() {
    let parts = split_bytes("h\u{e9}!".as_bytes(), b"");
    assert_eq!(parts, vec![b"h".to_vec(), "\u{e9}".as_bytes().to_vec(), b"!".to_vec()]);
    assert!(split_bytes(b"", b"").is_empty());
}

#[test]
fn replace_every_occurrence() {
    assert_eq!(replace_bytes(b"a-b-c", b"-", b"+"), b"a+b+c".to_vec());
    assert_eq!(replace_bytes(b"aaa", b"aa", b"b"), b"ba".to_vec());
    assert_eq!(replace_bytes(b"abc", b"x", b"y"), b"abc".to_vec());
    assert_eq!(replace_bytes(b"ab", b"", b"x"), b"xaxbx".to_vec());
}

#[test]
fn substring_clamps_and_swaps() {
    assert_eq!(substring_bytes(b"hello", 1, 3), b"el".to_vec());
    assert_eq!(substring_bytes(b"hello", 3, 1), b"el".to_vec());
    assert_eq!(substring_bytes(b"hello", 2, 99), b"llo".to_vec());
    assert_eq!(substring_bytes(b"hello", 9, 99), b"".to_vec());
}

#[test]
fn trim_drops_ascii_whitespace_at_both_ends() {
    assert_eq!(trim_bytes(b"  hi there \n\t"), b"hi there".to_vec());
    assert_eq!(trim_bytes(b"   "), b"".to_vec());
    assert_eq!(trim_bytes(b"x"), b"x".to_vec());
}

#[test]
fn decimal_text_of_integers() {
    assert_eq!(decimal_bytes(0), b"0".to_vec());
    assert_eq!(decimal_bytes(-42), b"-42".to_vec());
    assert_eq!(decimal_bytes(1234567890123), b"1234567890123".to_vec());
    assert_eq!(decimal_bytes(i64::MIN), b"-9223372036854775808".to_vec());
}

fn join(parts: &[Vec<u8>], delim: &[u8]) -> Vec<u8> {
    let mut out = Vec::new();
    for (i, p) in parts.iter().enumerate() {
        if i > 0 {
            out.extend_from_slice(delim);
        }
        out.extend_from_slice(p);
    }
    out
}

#[test]
fn split_then_join_gives_back_the_text() {
    for (s, d) in [("a,b,,c", ","), ("--x----y--", "--"), ("none", ";"), ("", "x"), ("h\u{e9}llo", "")] {
        let parts = split_bytes(s.as_bytes(), d.as_bytes());
        assert_eq!(join(&parts, d.as_bytes()), s.as_bytes().to_vec());
    }
}

#[test]
fn replacing_a_text_by_itself_changes_nothing() {
    assert_eq!(replace_bytes(b"abcabc", b"bc", b"bc"), b"abcabc".to_vec());
    assert_eq!(replace_bytes(b"abc", b"", b""), b"abc".to_vec());
}

#[test]
fn trimming_twice_is_trimming_once() {
    let once = trim_bytes(b" \t x y \r\n");
    assert_eq!(trim_bytes(&once), once);
    assert_eq!(once, b"x y".to_vec());
}
