use multi_repo::path::{
    is_absolute, path_as_text, path_behind_first, path_behind_names, path_byte_components,
    path_components, path_join, path_parent, path_within, same_path,
};
use multi_repo::sort::{sort, Ranked};
use multi_repo::string_set::StringSet;
use multi_repo::sync::SourceReport;
use multi_repo::text::{
    comes_before, contains_text, decimal_text, integer_text, part_first, part_last, split_bytes,
    split_text, strip_prefix, strip_suffix, to_lower, trim, trim_class, trim_end, CharClass,
};
use multi_repo::text_map::TextMap;

#[test]
fn texts_are_split_like_std_splits_them() {
    for text in ["", "a", "a/b", "/a//b/", "\u{e9}/x"] {
        let expected: Vec<String> = text.split('/').map(|piece| piece.to_owned()).collect();
        assert_eq!(split_text(text, '/'), expected);
        let bytes: Vec<Vec<u8>> =
            text.as_bytes().split(|byte| *byte == b'/').map(|piece| piece.to_vec()).collect();
        assert_eq!(split_bytes(text.as_bytes(), b'/'), bytes);
        let parts = |pair: (&str, &str)| (pair.0.to_owned(), pair.1.to_owned());
        assert_eq!(part_first(text, '/'), text.split_once('/').map(parts));
        assert_eq!(part_last(text, '/'), text.rsplit_once('/').map(parts));
    }
}

#[test]
fn texts_are_trimmed_like_std_trims_them() {
    for text in ["", " a ", "\u{3000}a\u{85}b\n\t", "\u{200b}a", "\u{1680}\u{2028}"] {
        assert_eq!(trim(text), text.trim());
    }
    assert_eq!(trim_end("/a//", CharClass::Slash), "/a");
    assert_eq!(trim_class("//a/b//", CharClass::Slash), "a/b");
    assert_eq!(trim_class("<a>", CharClass::AngleBracket), "a");
}

#[test]
fn texts_are_compared_like_std_compares_them() {
    let texts = ["", "a", "ab", "b", "B", "\u{e9}", "\u{ff41}", "\u{1f600}"];
    for left in texts {
        for right in texts {
            assert_eq!(comes_before(left, right), left < right);
            assert_eq!(contains_text(left, right), left.contains(right));
            assert_eq!(strip_prefix(left, right).as_deref(), left.strip_prefix(right));
        }
    }
    assert_eq!(strip_suffix("a.git", ".git"), "a");
    assert_eq!(strip_suffix("a", ".git"), "a");
    assert_eq!(to_lower("GitHub.COM-1"), "github.com-1");
}

#[test]
fn numbers_are_written_in_decimal() {
    for number in [0, 7, 10, 4096, u64::MAX] {
        assert_eq!(decimal_text(number), number.to_string());
    }
    for number in [0, -1, 42, i64::MIN, i64::MAX] {
        assert_eq!(integer_text(number), number.to_string());
    }
}

#[test]
fn paths_behave_like_those_of_std() {
    let paths = ["", "/", "a", "a/b", "/a/b/", "a//b", "./a", "a/./b", "../a", "/..", "a/.."];
    for text in paths {
        let path = std::path::Path::new(text);
        assert_eq!(is_absolute(text), path.is_absolute(), "{text}");
        let expected: Vec<String> = path
            .components()
            .map(|part| part.as_os_str().to_str().unwrap().to_owned())
            .collect();
        assert_eq!(path_components(text), expected, "{text}");
        let bytes: Vec<Vec<u8>> = expected.iter().map(|part| part.as_bytes().to_vec()).collect();
        assert_eq!(path_byte_components(text.as_bytes()), bytes, "{text}");
        assert_eq!(
            path_parent(text).as_deref(),
            path.parent().map(|parent| parent.to_str().unwrap()),
            "{text}"
        );
        for other in paths {
            let second = std::path::Path::new(other);
            assert_eq!(path_join(text, other), path.join(second).to_str().unwrap());
            assert_eq!(path_within(text, other), path.starts_with(second), "{text} {other}");
            assert_eq!(same_path(text, other), path == second, "{text} {other}");
        }
    }
    assert_eq!(path_behind_first("~/a/b"), "a/b");
    assert_eq!(path_behind_names(b"/r//s/a/b", 2), b"a/b");
    assert_eq!(path_behind_names(b"/r/s", 2), b"");
    assert_eq!(path_as_text(Some("/r"), "shown").unwrap(), "/r");
    assert!(path_as_text(None, "/\u{fffd}").is_err());
}

#[test]
fn sets_keep_texts_once_and_in_order() {
    let mut set = StringSet::new();
    assert!(set.is_empty());
    assert!(set.insert("b".into()));
    assert!(set.insert("a".into()));
    assert!(!set.insert("b".into()));
    assert_eq!(set.to_list(), vec!["a", "b"]);
    assert_eq!(set.len(), 2);
    assert!(set.contains("a"));
    let mut other = StringSet::from_list(&vec!["c".into(), "b".into()]);
    assert!(set.meets(&other));
    set.remove("b");
    set.remove("unknown");
    assert!(!set.contains("b"));
    assert!(!set.meets(&other));
    other.extend(&set);
    assert_eq!(other.to_list(), vec!["a", "b", "c"]);
    assert_eq!(other.clone(), other);
}

#[test]
fn maps_hold_one_value_for_each_name() {
    let mut map: TextMap<u32> = TextMap::new();
    assert_eq!(map.insert("b".into(), 1), None);
    assert_eq!(map.insert("a".into(), 2), None);
    assert_eq!(map.insert("b".into(), 3), Some(1));
    assert_eq!(map.get("b"), Some(&3));
    assert_eq!(map.get("c"), None);
    assert_eq!((map.name_at(0).as_str(), *map.value_at(0)), ("a", 2));
    assert_eq!(map.remove("a"), Some(2));
    assert_eq!(map.remove("a"), None);
    assert_eq!(map.len(), 1);
    assert_eq!(map.into_parts(), (vec!["b".to_owned()], vec![3]));
}

#[test]
fn sorting_is_stable() {
    let report = |source: &str, discovered: usize| SourceReport {
        source: source.into(),
        discovered,
        error: None,
    };
    let sorted = sort(vec![report("b", 1), report("a", 2), report("b", 3), report("a", 4)]);
    let found: Vec<(&str, usize)> =
        sorted.iter().map(|report| (report.source.as_str(), report.discovered)).collect();
    assert_eq!(found, vec![("a", 2), ("a", 4), ("b", 1), ("b", 3)]);
    assert!(sorted[0].is_before(&sorted[2]));
}
