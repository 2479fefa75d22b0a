use local_ai::digest::{digest_fields, digest_text};
use local_ai::id_map::IdMap;
use local_ai::ids::AIConversationId;
use local_ai::paths::{
    are_same_path, is_path_at_most, join_path, path_extension, path_file_name, path_file_stem,
    path_is_child, path_is_within,
};
use local_ai::text::{
    blank, decimal_i64, decimal_text, ellipsize, is_text_at_most, str_contains, trim,
};
use local_ai::tokens::{distinct_texts, split_lexemes};
use std::path::Path;

#[test]
fn digests_are_hexadecimal_and_framed() {
    assert_eq!(
        digest_text(b""),
        "e3b0c44298fc1c149afbf4c8996fb92427ae41e4649b934ca495991b7852b855"
    );
    assert_ne!(
        digest_fields(&vec![b"ab".to_vec(), b"c".to_vec()]),
        digest_fields(&vec![b"a".to_vec(), b"bc".to_vec()])
    );
}

#[test]
fn paths_agree_with_the_standard_library() {
    let samples = [
        "", "/", "a", "/a", "a/b", "/a/b", "a//b/", "./a", "../a", "/a/./b", "a-b", "a.b/c", "/a-b/c",
        "/a/b.tar.gz", ".hidden", "a/..", "-",
    ];
    for a in samples {
        assert_eq!(
            path_file_name(a).as_deref(),
            Path::new(a).file_name().and_then(|name| name.to_str())
        );
        assert_eq!(
            path_extension(a).as_deref(),
            Path::new(a).extension().and_then(|name| name.to_str())
        );
        assert_eq!(
            path_file_stem(a).as_deref(),
            Path::new(a).file_stem().and_then(|name| name.to_str())
        );
        for b in samples {
            assert_eq!(are_same_path(a, b), Path::new(a) == Path::new(b));
            assert_eq!(path_is_within(a, b), Path::new(a).starts_with(b));
            assert_eq!(is_path_at_most(a, b), Path::new(a) <= Path::new(b));
            assert_eq!(join_path(a, b), Path::new(a).join(b).to_str().unwrap());
        }
    }
    assert!(path_is_child("/a/b", "/a"));
    assert!(!path_is_child("/a/b/c", "/a"));
}

#[test]
fn texts_agree_with_the_standard_library() {
    for s in ["", " a ", "\u{a0}é\u{2003}", "\n\t", "a b"] {
        assert_eq!(trim(s), s.trim());
        assert_eq!(blank(s), s.trim().is_empty());
    }
    for a in ["", "a", "ab", "b", "é", "\u{10000}", "\u{ffff}"] {
        for b in ["", "a", "ab", "b", "é", "\u{10000}", "\u{ffff}"] {
            assert_eq!(is_text_at_most(a, b), a <= b);
            assert_eq!(str_contains(a, b), a.contains(b));
        }
    }
    assert_eq!(decimal_text(0), "0");
    assert_eq!(decimal_text(u64::MAX), u64::MAX.to_string());
    assert_eq!(decimal_i64(i64::MIN), i64::MIN.to_string());
    assert_eq!(ellipsize("abcd", 3), "ab…");
    assert_eq!(ellipsize("abc", 3), "abc");
    assert_eq!(ellipsize("abc", 0), "…");
}

#[test]
fn lexemes_are_lowered_words() {
    assert_eq!(split_lexemes("Fn_Name(ÄB-c)"), ["fn", "name", "äb", "c"]);
    let words = split_lexemes("a b a");
    assert_eq!(distinct_texts(&words), ["a", "b"]);
}

#[test]
fn identities_are_random_uuids() {
    let a = AIConversationId::new();
    let b = AIConversationId::new();
    assert_ne!(a, b);
    assert_eq!(a.text().len(), 36);
    assert_eq!(a.text().as_bytes()[14], b'4');
}

#[test]
fn maps_hold_the_last_value() {
    let mut map = IdMap::new();
    assert!(map.is_empty());
    map.insert(1, "a");
    map.insert(2, "b");
    map.insert(1, "c");
    assert_eq!(map.get(1), Some(&"c"));
    assert_eq!(map.keys().len(), 2);
    assert_eq!(map.take(1), Some("c"));
    assert!(!map.remove(1));
    assert!(map.contains(2));
}
