use split_last::{Predicate, SplitLast};

fn by_std_char(text: &str, pat: char) -> &str {
    text.strip_suffix(pat).unwrap_or(text).split(pat).last().unwrap()
}

fn by_std_str<'a>(text: &'a str, pat: &str) -> &'a str {
    text.strip_suffix(pat).unwrap_or(text).split(pat).last().unwrap()
}

fn words_over(alphabet: &[char], max_len: usize) -> Vec<String> {
    let mut all = vec![String::new()];
    let mut from = 0;
    for _ in 0..max_len {
        let upto = all.len();
        for i in from..upto {
            for c in alphabet {
                let mut longer = all[i].clone();
                longer.push(*c);
                all.push(longer);
            }
        }
        from = upto;
    }
    all
}

#[test]
fn test_it() {
    let result = "test".split_last('/').expect("oops");
    assert_eq!(result, "test");

    let result = "test/".split_last("/").expect("oops");
    assert_eq!(result, "test");

    let result = "/test".split_last('/').expect("oops");
    assert_eq!(result, "test");

    let result = "/test/".split_last('/').expect("oops");
    assert_eq!(result, "test");

    let result = "/some/long//test/".split_last('/').expect("oops");
    assert_eq!(result, "test");
}

#[test]
fn text_without_delimiter_is_returned_whole() {
    assert_eq!("test".split_last('/').unwrap(), "test");
    assert_eq!("test".split_last("/").unwrap(), "test");
    assert_eq!("no delimiter here".split_last("::").unwrap(), "no delimiter here");
}

#[test]
fn one_trailing_delimiter_is_left_out() {
    assert_eq!("test/".split_last('/').unwrap(), "test");
    assert_eq!("/test/".split_last('/').unwrap(), "test");
    assert_eq!("some/simple/test/with_trailing/".split_last('/').unwrap(), "with_trailing");
    assert_eq!("a::b::".split_last("::").unwrap(), "b");
}

#[test]
fn leading_and_inner_delimiters() {
    assert_eq!("/test".split_last('/').unwrap(), "test");
    assert_eq!("/some/simple/test".split_last('/').unwrap(), "test");
    assert_eq!("/some/long//test/".split_last('/').unwrap(), "test");
    assert_eq!("/some/long//test".split_last("/").unwrap(), "test");
}

#[test]
fn only_one_trailing_delimiter_is_left_out() {
    assert_eq!("a//".split_last('/').unwrap(), "");
    assert_eq!("a///".split_last('/').unwrap(), "");
    assert_eq!("a//".split_last("/").unwrap(), "");
    assert_eq!("//".split_last('/').unwrap(), "");
    assert_eq!("/".split_last('/').unwrap(), "");
    assert_eq!("a::b::::".split_last("::").unwrap(), "");
}

#[test]
fn empty_text_gives_the_empty_segment() {
    assert_eq!("".split_last('/').unwrap(), "");
    assert_eq!("".split_last("/").unwrap(), "");
    assert_eq!("".split_last("").unwrap(), "");
    assert_eq!("".split_last(Predicate::new(|c: char| c == '/')).unwrap(), "");
}

#[test]
fn empty_pattern_gives_the_empty_segment() {
    assert_eq!("abc".split_last("").unwrap(), "");
    assert_eq!("a".split_last("").unwrap(), "");
    assert_eq!(by_std_str("abc", ""), "");
}

#[test]
fn pattern_longer_than_text() {
    assert_eq!("ab".split_last("abc").unwrap(), "ab");
    assert_eq!("".split_last("abc").unwrap(), "");
}

#[test]
fn text_that_is_the_pattern() {
    assert_eq!("abc".split_last("abc").unwrap(), "");
    assert_eq!("/".split_last("/").unwrap(), "");
}

#[test]
fn occurrences_are_found_from_the_left() {
    // "aa" is found at the front of what is left of "aaaa" without its last
    // "aa", and not entered again.
    assert_eq!("aaaa".split_last("aa").unwrap(), "");
    assert_eq!("aaa".split_last("aa").unwrap(), "a");
    assert_eq!("aaaaa".split_last("aa").unwrap(), "a");
    assert_eq!("xaaay".split_last("aa").unwrap(), "ay");
    assert_eq!("abababa".split_last("aba").unwrap(), "b");
}

#[test]
fn predicate_patterns() {
    let is_separator = |c: char| c == '/' || c == ':';
    assert_eq!("a/b:c".split_last(Predicate::new(is_separator)).unwrap(), "c");
    assert_eq!("a/b:c:".split_last(Predicate::new(is_separator)).unwrap(), "c");
    assert_eq!("a/b:c:/".split_last(Predicate::new(is_separator)).unwrap(), "");
    assert_eq!("abc".split_last(Predicate::new(is_separator)).unwrap(), "abc");
    assert_eq!(
        "one two\tthree\n".split_last(Predicate::new(char::is_whitespace)).unwrap(),
        "three"
    );
    assert_eq!("a1b22c".split_last(Predicate(|c: char| c.is_ascii_digit())).unwrap(), "c");
}

#[test]
fn predicate_that_captures() {
    let delimiter = String::from(";,");
    let found = "k=v;x=y,last".split_last(Predicate::new(|c: char| delimiter.contains(c)));
    assert_eq!(found.unwrap(), "last");
}

#[test]
fn characters_of_several_bytes() {
    assert_eq!("héllo/wörld/".split_last('/').unwrap(), "wörld");
    assert_eq!("α→β→γ".split_last('→').unwrap(), "γ");
    assert_eq!("α→β→γ→".split_last("→").unwrap(), "γ");
    assert_eq!("日本語、テキスト、".split_last("、").unwrap(), "テキスト");
    assert_eq!("naïve".split_last('ï').unwrap(), "ve");
    assert_eq!("a😀b😀".split_last('😀').unwrap(), "b");
}

#[test]
fn result_is_a_part_of_the_text() {
    let owner = String::from("/some/long//test/");
    let text = owner.as_str();
    let found = text.split_last('/').unwrap();
    let offset = text.find("test").unwrap();
    assert!(std::ptr::eq(found, &text[offset..offset + 4]));

    let whole = text.split_last('#').unwrap();
    assert!(std::ptr::eq(whole, text));
}

#[test]
fn result_outlives_the_pattern() {
    let owner = String::from("left--right");
    let text = owner.as_str();
    let found = {
        let pat = String::from("--");
        text.split_last(pat.as_str()).unwrap()
    };
    assert_eq!(found, "right");
}

#[test]
fn splitting_again_changes_nothing() {
    for text in ["/some/long//test/", "a//", "aaaaa", "", "x", "a/b"] {
        let once = text.split_last('/').unwrap();
        assert_eq!(once.split_last('/').unwrap(), once);
        let once = text.split_last("aa").unwrap();
        assert_eq!(once.split_last("aa").unwrap(), once);
        let once = text.split_last("").unwrap();
        assert_eq!(once.split_last("").unwrap(), once);
    }
}

#[test]
fn agrees_with_std_on_character_patterns() {
    for owner in words_over(&['a', 'b', '/'], 6) {
        let text = owner.as_str();
        let found = text.split_last('/').unwrap();
        assert_eq!(found, by_std_char(text, '/'), "text {:?}", text);
        let by_predicate = text.split_last(Predicate::new(|c: char| c == '/')).unwrap();
        assert_eq!(by_predicate, found, "text {:?}", text);
    }
}

#[test]
fn agrees_with_std_on_string_patterns() {
    let texts = words_over(&['a', 'b'], 8);
    for pat in words_over(&['a', 'b'], 3) {
        for owner in &texts {
            let text = owner.as_str();
            let found = text.split_last(pat.as_str()).unwrap();
            assert_eq!(found, by_std_str(text, &pat), "text {:?}, pattern {:?}", text, pat);
        }
    }
}

#[test]
fn agrees_with_std_on_characters_of_several_bytes() {
    for owner in words_over(&['é', '→', 'x'], 5) {
        let text = owner.as_str();
        for pat in ["→", "é→", "x", "→→", "éx"] {
            let found = text.split_last(pat).unwrap();
            assert_eq!(found, by_std_str(text, pat), "text {:?}, pattern {:?}", text, pat);
        }
        assert_eq!(text.split_last('→').unwrap(), by_std_char(text, '→'));
    }
}

#[test]
fn long_text() {
    let mut owner = String::new();
    for i in 0..20_000 {
        owner.push_str("segment");
        owner.push_str(&i.to_string());
        owner.push('/');
    }
    let text = owner.as_str();
    assert_eq!(text.split_last('/').unwrap(), "segment19999");
    assert_eq!(text.split_last("/").unwrap(), "segment19999");
    assert_eq!(text.split_last("t19998/").unwrap(), "segment19999/");
}
