use omake::cli::{args_to_submake_str, conventional_names, find_makefile};
use omake::opts::{listed, Opts};
use omake::text::{
    chars_of, digit_char, find_char_from, is_space_char, push_decimal, push_signed_decimal,
    push_spaces, push_str, same_str, same_text, skip_spaces_from, slice_of, split_lines,
    split_words, string_of, string_of_range, trim_bounds, word_end_from,
};

fn chars(s: &str) -> Vec<char> {
    s.chars().collect()
}

fn strings(items: &[&str]) -> Vec<String> {
    items.iter().map(|s| s.to_string()).collect()
}

#[test]
fn text_whitespace_is_what_the_standard_library_says() {
    for code in 0..=0x3100u32 {
        if let Some(c) = char::from_u32(code) {
            assert_eq!(is_space_char(c), c.is_whitespace(), "U+{:04X}", code);
        }
    }
    assert!(!is_space_char('\u{10FFFF}'));
    assert!(!is_space_char('\u{FEFF}'));
}

#[test]
fn text_chars_and_strings_round_trip() {
    for s in ["", "a", "héllo wörld", "tab\there", "日本語"] {
        assert_eq!(chars_of(s), chars(s));
        assert_eq!(string_of(&chars(s)), s);
    }
    assert_eq!(string_of_range(&chars("hello"), 1, 3), "el");
    assert_eq!(string_of_range(&chars("hello"), 2, 2), "");
    assert_eq!(slice_of(&chars("hello"), 0, 5), chars("hello"));
    assert_eq!(slice_of(&chars("hello"), 3, 5), chars("lo"));
}

#[test]
fn text_same_text() {
    assert!(same_text(&chars("abc"), &chars("abc")));
    assert!(!same_text(&chars("abc"), &chars("abd")));
    assert!(!same_text(&chars("abc"), &chars("ab")));
    assert!(same_text(&chars(""), &chars("")));
    assert!(same_str("SHELL", "SHELL"));
    assert!(!same_str("SHELL", "shell"));
}

#[test]
fn text_scanning() {
    let v = chars("  ab  c ");
    assert_eq!(skip_spaces_from(&v, 0), 2);
    assert_eq!(skip_spaces_from(&v, 2), 2);
    assert_eq!(skip_spaces_from(&v, 7), 8);
    assert_eq!(skip_spaces_from(&v, 8), 8);
    assert_eq!(word_end_from(&v, 2), 4);
    assert_eq!(word_end_from(&v, 6), 7);
    assert_eq!(word_end_from(&v, 0), 0);
    assert_eq!(find_char_from(&v, 'c', 0), 6);
    assert_eq!(find_char_from(&v, 'a', 3), 8);
    assert_eq!(find_char_from(&v, 'z', 0), 8);
}

#[test]
fn text_trim_bounds_agree_with_trim() {
    for s in ["", " ", "   \t\n", "a", "  a", "a  ", "  a b  ", "\u{a0}x\u{3000}", "no-space"] {
        let v = chars(s);
        let (a, b) = trim_bounds(&v);
        let got: String = v[a..b].iter().collect();
        assert_eq!(got, s.trim(), "{:?}", s);
    }
}

#[test]
fn text_words_agree_with_split_whitespace() {
    for s in ["", "   ", "one", " one  two\tthree\n", "a\u{2003}b", "  x"] {
        let expected: Vec<String> = s.split_whitespace().map(|w| w.to_string()).collect();
        assert_eq!(split_words(&chars(s)), expected, "{:?}", s);
    }
}

#[test]
fn text_lines() {
    assert_eq!(split_lines(""), Vec::<String>::new());
    assert_eq!(split_lines("a"), strings(&["a"]));
    assert_eq!(split_lines("a\n"), strings(&["a"]));
    assert_eq!(split_lines("a\nb"), strings(&["a", "b"]));
    assert_eq!(split_lines("a\n\nb\n"), strings(&["a", "", "b"]));
    assert_eq!(split_lines("\n"), strings(&[""]));
    assert_eq!(split_lines("a\r\nb\r\n"), strings(&["a", "b"]));
    assert_eq!(split_lines("a\r\rb\r"), strings(&["a\r\rb\r"]));
    assert_eq!(split_lines("a\r\r\n"), strings(&["a\r"]));
    for s in ["x\ny\r\nz", "\r\n\r\n", "one\n\ttwo\n", "\n\n\nlast"] {
        let expected: Vec<String> = s.lines().map(|l| l.to_string()).collect();
        assert_eq!(split_lines(s), expected, "{:?}", s);
    }
}

#[test]
fn text_numbers() {
    for (d, c) in "0123456789".chars().enumerate() {
        assert_eq!(digit_char(d as u8), c);
    }
    for n in [0u128, 7, 10, 99, 100, 12345, u64::MAX as u128, u128::MAX] {
        let mut out = chars("n=");
        push_decimal(&mut out, n);
        assert_eq!(string_of(&out), format!("n={}", n));
    }
    for n in [0i32, 1, -1, 42, -42, i32::MAX, i32::MIN] {
        let mut out = Vec::new();
        push_signed_decimal(&mut out, n);
        assert_eq!(string_of(&out), n.to_string());
    }
    let mut out = chars("a");
    push_spaces(&mut out, 3);
    push_str(&mut out, "b");
    push_spaces(&mut out, 0);
    assert_eq!(string_of(&out), "a   b");
}

#[test]
fn opts_default_and_listed() {
    let opts = Opts::default();
    assert!(!opts.always_make && !opts.ignore_errors && !opts.just_print);
    assert!(opts.old_file.is_empty() && opts.new_file.is_empty());
    let list = strings(&["a", "b c"]);
    assert!(listed(&list, "a"));
    assert!(listed(&list, "b c"));
    assert!(!listed(&list, "b"));
    assert!(!listed(&Vec::new(), ""));
}

#[test]
fn cli_conventional_names() {
    assert_eq!(
        conventional_names(),
        vec!["makefile", "Makefile", "BSDmakefile", "BSDMakefile", "GNUmakefile", "GNUMakefile"]
    );
}

#[test]
fn cli_find_makefile() {
    assert_eq!(find_makefile(&strings(&[]), &strings(&[])), None);
    assert_eq!(
        find_makefile(&strings(&["src", "Makefile"]), &strings(&["Makefile"])).as_deref(),
        Some("Makefile")
    );
    // The order of the conventional names decides.
    assert_eq!(
        find_makefile(
            &strings(&["GNUmakefile", "Makefile", "makefile"]),
            &strings(&["GNUmakefile", "Makefile", "makefile"])
        )
        .as_deref(),
        Some("makefile")
    );
    // A name as the directory lists it goes before one that only answers.
    assert_eq!(
        find_makefile(&strings(&["Makefile"]), &strings(&["makefile", "Makefile"])).as_deref(),
        Some("Makefile")
    );
    // A directory of the right name is no makefile.
    assert_eq!(
        find_makefile(&strings(&["makefile", "BSDmakefile"]), &strings(&["BSDmakefile"])).as_deref(),
        Some("BSDmakefile")
    );
    // Without a listing the files that answer decide.
    assert_eq!(
        find_makefile(&strings(&[]), &strings(&["GNUMakefile", "BSDMakefile"])).as_deref(),
        Some("BSDMakefile")
    );
    assert_eq!(find_makefile(&strings(&["MAKEFILE"]), &strings(&[])), None);
}

#[test]
fn cli_submake_flags() {
    assert_eq!(args_to_submake_str(&strings(&[])), "");
    assert_eq!(args_to_submake_str(&strings(&["make"])), "");
    assert_eq!(args_to_submake_str(&strings(&["make", "-B", "all"])), "-B");
    assert_eq!(args_to_submake_str(&strings(&["make", "-B", "-n", "-i"])), "-Bni");
    assert_eq!(
        args_to_submake_str(&strings(&["make", "--just-print", "-B", "--always-make"])),
        "-B --just-print --always-make"
    );
    assert_eq!(args_to_submake_str(&strings(&["make", "--dry-run"])), " --dry-run");
    // Flags that are not handed down, and arguments with a space.
    assert_eq!(
        args_to_submake_str(&strings(&["-j", "-C", "dir", "-f", "-o", "-W", "-k", "-x y", "--a b"])),
        "-k"
    );
    assert_eq!(args_to_submake_str(&strings(&["-"])), "-");
    assert_eq!(args_to_submake_str(&strings(&["--"])), " --");
    assert_eq!(args_to_submake_str(&strings(&["-jobs", "-C."])), "-jobsC.");
}
