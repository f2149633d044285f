use pkg::error::{wrap_io_err, Error, IoError, IoErrorKind};
use pkg::name_map::NameMap;
use pkg::number::{read_number, write_number};
use pkg::package::{PackageError, PackageName};
use pkg::path::join;
use pkg::text::{
    ends_with, eq_ignore_ascii_case, lines, place, split_once, split_text, starts_with,
    strip_prefix, trim, until, white_space, Edge, Place,
};
use std::path::Path;

const SAMPLES: [&str; 14] = [
    "", " ", "a", "A", "\n", "a\nb", "a\r\nb\r\n", "\u{a0}x\u{2003}", "\"q\"", "a/b", "/a", "a/",
    "\u{1f600}\u{e9}", "//",
];

#[test]
fn white_space_is_that_of_unicode() {
    let mut n: u32 = 0;
    while n <= 0x10ffff {
        if let Some(c) = char::from_u32(n) {
            assert_eq!(white_space(c), c.is_whitespace(), "U+{n:04X}");
        }
        n += 1;
    }
}

#[test]
fn texts_are_cut_as_std_cuts_them() {
    for s in SAMPLES {
        assert_eq!(trim(s, Edge::Blank), s.trim());
        assert_eq!(trim(s, Edge::Quote), s.trim_matches('"'));
        assert_eq!(lines(s), s.lines().collect::<Vec<&str>>());
        assert_eq!(starts_with(s, '/'), s.starts_with('/'));
        assert_eq!(ends_with(s, '/'), s.ends_with('/'));
        assert_eq!(split_once(s, '/'), s.split_once('/'));
        assert_eq!(until(s, '/'), s.split('/').next().unwrap());
        for t in SAMPLES {
            assert_eq!(strip_prefix(s, t), s.strip_prefix(t));
            assert_eq!(split_text(s, t), s.split_once(t));
            assert_eq!(eq_ignore_ascii_case(s, t), s.eq_ignore_ascii_case(t));
        }
    }
    assert_eq!(lines("a\rb\n\nc\r\r\nd\r"), "a\rb\n\nc\r\r\nd\r".lines().collect::<Vec<&str>>());
}

#[test]
fn texts_are_ordered_as_std_orders_them() {
    for s in SAMPLES {
        for t in SAMPLES {
            let expected = if s < t {
                Place::Before
            } else if s == t {
                Place::Same
            } else {
                Place::After
            };
            assert_eq!(place(s, t), expected);
        }
    }
}

#[test]
fn paths_are_joined_as_std_joins_them() {
    for s in SAMPLES {
        for t in SAMPLES {
            assert_eq!(join(s, t), Path::new(s).join(t).to_str().unwrap());
        }
    }
    assert_eq!(join("/", "etc/pkg.d"), "/etc/pkg.d");
    assert_eq!(join("/tmp/x", "a"), "/tmp/x/a");
    assert_eq!(join("/tmp/x/", "a"), "/tmp/x/a");
}

#[test]
fn numbers_are_written_and_read_as_std_does() {
    for n in [0u64, 1, 9, 10, 99, 100, 1_000_000_007, u64::MAX - 1, u64::MAX] {
        assert_eq!(write_number(n), format!("{n}"));
        assert_eq!(read_number(&write_number(n)), Some(n));
    }
    for s in [
        "", "+", "-", "+0", "-0", "00012", "+00012", "1 ", " 1", "1_000", "0x10", "++1",
        "18446744073709551615", "18446744073709551616", "99999999999999999999", "\u{661}", "1.0",
    ] {
        assert_eq!(read_number(s), s.parse::<u64>().ok(), "{s:?}");
    }
}

#[test]
fn a_map_keeps_its_names_in_order() {
    let mut map: NameMap<String> = NameMap::new();
    assert_eq!(map.len(), 0);
    for name in ["m", "b", "z", "", "ba", "b"] {
        map.insert(name.to_string(), format!("<{name}>"));
    }
    let names: Vec<&str> = (0..map.len()).map(|i| map.name_at(i)).collect();
    assert_eq!(names, ["", "b", "ba", "m", "z"]);
    assert_eq!(map.get("ba"), Some(&"<ba>".to_string()));
    assert_eq!(map.get("c"), None);
    assert_eq!(map.insert("m".to_string(), "new".to_string()), Some("<m>".to_string()));
    assert_eq!(map.insert("n".to_string(), "n".to_string()), None);
    let copy = map.duplicate();
    map.replace_at(0, "changed".to_string());
    assert_eq!(copy.value_at(0), "<>");
    assert_eq!(map.value_at(0), "changed");
    assert_eq!(copy.get("m"), Some(&"new".to_string()));
}

#[test]
fn a_package_name_is_one_path_component() {
    for good in [
        "a", ".", "a.b", ".a", "a.", "host:name", "host:", "host:a.b", "\u{e9}", "a b", "a\\b", "-",
    ] {
        let name = PackageName::new(good).unwrap();
        assert_eq!(name.as_str(), good);
        assert_eq!(name.clone().as_str(), good);
    }
    for bad in [
        "", "..", "a.b.c", "a..b", "a/b", "/", "a\0b", "a:b", ":", "x:y:z", "host:a:b", "ahost:b",
        "../etc",
    ] {
        match PackageName::new(bad) {
            Err(PackageError::PackageNameInvalid(s)) => assert_eq!(s, bad),
            other => panic!("expected PackageNameInvalid, got {other:?}"),
        }
    }
}

#[test]
fn a_denied_permission_is_an_error_of_its_own() {
    let io = |kind| IoError { kind, message: "m".to_string() };
    assert!(matches!(
        wrap_io_err(io(IoErrorKind::PermissionDenied), "/p", "Reading"),
        Error::MissingPermissions
    ));
    for kind in [IoErrorKind::NotFound, IoErrorKind::InvalidInput, IoErrorKind::Other] {
        match wrap_io_err(io(kind), "/p", "Reading") {
            Error::IO(source, path, context) => {
                assert_eq!(source.kind, kind);
                assert_eq!(source.message, "m");
                assert_eq!(path, "/p");
                assert_eq!(context, "Reading");
            }
            other => panic!("expected IO, got {other:?}"),
        }
    }
}
