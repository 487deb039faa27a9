use btrbak::path;
use btrbak::spelling::{display, name_to_text, path_to_bytes};
use btrbak::text;
use std::path::Path;

const PATHS: [&str; 26] = [
    "", "/", "//", ".", "..", "./", "/.", "/..", "a", "a/", "a/b", "/a", "/a/", "/a/b", "/a//b",
    "/a/./b", "/a/../b", "a/..", "a/.", "./a", "//a//", "/boot/efi", "vmlinuz.old.img", ".hidden",
    "/x/.hidden.", "äö/ü",
];

fn text_of(p: &Path) -> String {
    p.to_str().unwrap().to_string()
}

#[test]
fn paths_behave_like_std() {
    for p in PATHS {
        let std_path = Path::new(p);
        assert_eq!(
            path::file_name(p),
            std_path.file_name().map(|n| n.to_str().unwrap().to_string()),
            "name of {:?}",
            p
        );
        assert_eq!(path::parent(p), std_path.parent().map(text_of), "parent of {:?}", p);
        assert_eq!(path::root_dir(p), std_path == Path::new("/"), "root of {:?}", p);
        let parts: Vec<String> = std_path
            .components()
            .map(|c| c.as_os_str().to_str().unwrap().to_string())
            .collect();
        assert_eq!(path::components(p), parts, "components of {:?}", p);
        for q in PATHS {
            assert_eq!(path::join(p, q), text_of(&std_path.join(q)), "{:?} joined to {:?}", q, p);
        }
    }
}

#[test]
fn extensions_behave_like_std() {
    for p in ["a", "a.b", "a.b.c", ".a", ".a.b", "a.", "x.conf", "a..b"] {
        let std_path = Path::new(p);
        let (stem, extension) = path::split_extension(p);
        assert_eq!(stem, std_path.file_stem().unwrap().to_str().unwrap(), "stem of {:?}", p);
        assert_eq!(
            extension,
            std_path.extension().map(|e| e.to_str().unwrap().to_string()),
            "extension of {:?}",
            p
        );
    }
}

#[test]
fn paths_are_rebased() {
    assert_eq!(path::rebased("/mnt/@", "/boot/vmlinuz"), "/mnt/@/boot/vmlinuz");
    assert_eq!(path::only_names("/boot/../efi/./x"), "boot/efi/x");
    assert_eq!(path::only_names("/"), "");
}

#[test]
fn white_space_is_that_of_std() {
    for n in 0..=0x10_FFFFu32 {
        if let Some(c) = char::from_u32(n) {
            assert_eq!(text::white(c), c.is_whitespace(), "U+{:04X}", n);
        }
    }
}

const TEXTS: [&str; 16] = [
    "", " ", "a", " a ", "a b", "a\nb", "a\r\nb\r\n", "\n", "\n\n", "\r", "a\rb", "  a\t\u{a0}b\u{3000} ",
    "a:b:c", ":", "::", "1 2  3\n4",
];

#[test]
fn texts_behave_like_std() {
    for t in TEXTS {
        assert_eq!(text::trim(t), t.trim(), "trim {:?}", t);
        assert_eq!(text::lines(t), t.lines().collect::<Vec<_>>(), "lines {:?}", t);
        assert_eq!(text::words(t), t.split_whitespace().collect::<Vec<_>>(), "words {:?}", t);
        assert_eq!(text::split(t, ':'), t.split(':').collect::<Vec<_>>(), "split {:?}", t);
        assert_eq!(text::replace(t, ' ', '_'), t.replace(' ', "_"), "replace {:?}", t);
        for u in TEXTS {
            assert_eq!(text::contains(t, u), t.contains(u), "{:?} in {:?}", u, t);
            assert_eq!(text::starts_with(t, u), t.starts_with(u), "{:?} before {:?}", u, t);
            assert_eq!(text::same(t, u), t == u);
        }
    }
    let list: Vec<String> = vec!["a".to_string(), "b".to_string(), "c".to_string()];
    assert_eq!(text::join(&list, ", "), list.join(", "));
    assert_eq!(text::join(&vec![], ", "), "");
}

#[test]
fn numbers_behave_like_std() {
    for t in [
        "", "0", "7", "007", "+7", "+", "-", "-0", "-1", "12a", " 1", "1 ", "18446744073709551615",
        "18446744073709551616", "99999999999999999999999", "++1", "\u{0661}",
    ] {
        match (text::parse(t), t.parse::<u64>()) {
            (Ok(a), Ok(b)) => assert_eq!(a, b, "{:?}", t),
            (Err(a), Err(b)) => assert_eq!(a.message(), b.to_string(), "{:?}", t),
            _ => panic!("{:?} is judged differently", t),
        }
    }
    for n in [0, 9, 10, 12_345, u64::MAX] {
        assert_eq!(text::number(n), n.to_string());
        assert!(matches!(text::parse(&text::number(n)), Ok(m) if m == n));
    }
}

#[test]
fn every_name_can_be_told_from_its_text() {
    assert_eq!(name_to_text(&b"plain".to_vec()), "plain");
    assert_eq!(name_to_text(&"\u{e4}\u{1f600}".as_bytes().to_vec()), "\u{e4}\u{1f600}");
    assert_eq!(name_to_text(&b"a\xff/\xc3\xa4".to_vec()), "a\0ff/\0c3\0a4");
    let mut texts: Vec<String> = Vec::new();
    for a in 1..=255u8 {
        for b in [b'/', b'0', b'f', 0x7f, 0x80, 0xa4, 0xc3, 0xff] {
            let name = vec![a, b, b'8', b'0'];
            let text = name_to_text(&name);
            assert_eq!(path_to_bytes(&text), name);
            texts.push(text);
        }
    }
    texts.sort();
    texts.dedup();
    assert_eq!(texts.len(), 255 * 8);
}

#[test]
fn texts_stand_for_their_encoding() {
    for t in ["", "/a b/\u{e4}", "\u{fffd}\u{10ffff}", "\0", "\0f", "\07f", "\0fg", "x\0/80"] {
        assert_eq!(path_to_bytes(t), t.as_bytes());
    }
    assert_eq!(path_to_bytes("/\u{e4}/\080z"), b"/\xc3\xa4/\x80z");
}

#[test]
fn what_is_no_text_is_shown_with_replacements() {
    assert_eq!(display("/\u{e4} b"), "/\u{e4} b");
    assert_eq!(display("/x/\0ff\0c3\0a4"), "/x/\u{fffd}\u{e4}");
}
