use nil::base::FileId;
use nil::ir::{Literal, Path, PathAnchor};
use nil::literal::{lower_literal_token, lower_path, lower_search_path};
use nil::syntax::LiteralToken;
use nil::text::{chars_of, copy_range, normalize_path, push_unescaped, string_of};

fn normalized(text: &str) -> (usize, String) {
    normalize_path(&chars_of(text), 0)
}

#[test]
fn normalize_drops_empty_and_dot_segments() {
    assert_eq!(normalized(""), (0, String::new()));
    assert_eq!(normalized("a"), (0, "a".to_string()));
    assert_eq!(normalized("a//b/./c/"), (0, "a/b/c".to_string()));
    assert_eq!(normalized("./."), (0, String::new()));
    assert_eq!(normalized("..."), (0, "...".to_string()));
}

#[test]
fn normalize_resolves_parent_segments() {
    assert_eq!(normalized("../a/../../.b/./c"), (2, ".b/c".to_string()));
    assert_eq!(normalized("foo/bar/../baz"), (0, "foo/baz".to_string()));
    assert_eq!(normalized("ab/.."), (0, String::new()));
    assert_eq!(normalized("a/b/c/../.."), (0, "a".to_string()));
    assert_eq!(normalized("../../.."), (3, String::new()));
    assert_eq!(normalized("a/../../b"), (1, "b".to_string()));
}

#[test]
fn normalize_from_an_offset() {
    assert_eq!(normalize_path(&chars_of("~/a/../b"), 1), (0, "b".to_string()));
    assert_eq!(normalize_path(&chars_of("abc"), 3), (0, String::new()));
}

#[test]
fn path_anchors() {
    let file = FileId(7);
    assert_eq!(
        lower_path(file, "../a/../../.b/./c"),
        Path { anchor: PathAnchor::Relative(file), supers: 2, raw_segments: ".b/c".to_string() }
    );
    assert_eq!(
        lower_path(file, "/../a/../../.b/./c"),
        Path { anchor: PathAnchor::Absolute, supers: 0, raw_segments: ".b/c".to_string() }
    );
    assert_eq!(
        lower_path(file, "~/x"),
        Path { anchor: PathAnchor::Home, supers: 0, raw_segments: "x".to_string() }
    );
    assert_eq!(
        lower_path(file, ""),
        Path { anchor: PathAnchor::Relative(file), supers: 0, raw_segments: String::new() }
    );
}

#[test]
fn search_paths() {
    assert_eq!(
        lower_search_path("<nixpkgs>"),
        Path {
            anchor: PathAnchor::Search("nixpkgs".to_string()),
            supers: 0,
            raw_segments: String::new()
        }
    );
    assert_eq!(
        lower_search_path("<nixpkgs/lib/../pkgs>"),
        Path {
            anchor: PathAnchor::Search("nixpkgs".to_string()),
            supers: 0,
            raw_segments: "pkgs".to_string()
        }
    );
    assert_eq!(
        lower_search_path("<>"),
        Path { anchor: PathAnchor::Search(String::new()), supers: 0, raw_segments: String::new() }
    );
    assert_eq!(
        lower_search_path("<"),
        Path { anchor: PathAnchor::Search(String::new()), supers: 0, raw_segments: String::new() }
    );
}

#[test]
fn literal_tokens() {
    let file = FileId(0);
    assert_eq!(
        lower_literal_token(file, &LiteralToken::Int("42".to_string())),
        Some(Literal::Int(42))
    );
    assert_eq!(
        lower_literal_token(file, &LiteralToken::Int("-7".to_string())),
        Some(Literal::Int(-7))
    );
    assert_eq!(
        lower_literal_token(file, &LiteralToken::Int("+7".to_string())),
        Some(Literal::Int(7))
    );
    assert_eq!(lower_literal_token(file, &LiteralToken::Int(String::new())), None);
    assert_eq!(lower_literal_token(file, &LiteralToken::Int("-".to_string())), None);
    assert_eq!(
        lower_literal_token(file, &LiteralToken::Int("9223372036854775808".to_string())),
        None
    );
    assert_eq!(
        lower_literal_token(file, &LiteralToken::Int("-9223372036854775808".to_string())),
        Some(Literal::Int(i64::MIN))
    );
    assert_eq!(
        lower_literal_token(file, &LiteralToken::Float(2.5f64.to_bits())),
        Some(Literal::Float(2.5f64.to_bits()))
    );
    assert_eq!(
        lower_literal_token(file, &LiteralToken::Uri("https://example.org".to_string())),
        Some(Literal::String("https://example.org".to_string()))
    );
}

#[test]
fn escapes() {
    let mut out = "x".to_string();
    push_unescaped(&mut out, "\\n");
    push_unescaped(&mut out, "\\r");
    push_unescaped(&mut out, "\\t");
    push_unescaped(&mut out, "\\\\");
    push_unescaped(&mut out, "\\$");
    push_unescaped(&mut out, "\\💗");
    push_unescaped(&mut out, "'''");
    push_unescaped(&mut out, "");
    assert_eq!(out, "x\n\r\t\\$💗''");
}

#[test]
fn characters_and_ranges() {
    let v = chars_of("a💗c");
    assert_eq!(v, vec!['a', '💗', 'c']);
    assert_eq!(string_of(&v, 1, 3), "💗c");
    assert_eq!(string_of(&v, 2, 2), "");
    assert_eq!(copy_range(&v, 0, 2), vec!['a', '💗']);
}
