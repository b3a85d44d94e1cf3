use anystr::anystr::{
    py_add, py_bytes_splitlines, py_center, py_endswith, py_isupper, py_islower, py_ljust,
    py_partition, py_removeprefix, py_rpartition, py_removesuffix, py_rjust, py_starts_ends_with, py_strip,
    py_zfill,
};
use anystr::args::{ExpandTabsArgs, SplitArgs, SplitLinesArgs, StartsEndsWithArgs};
use anystr::element::AnyChar;
use anystr::index::{adjust_indices, saturate_to_isize, BigIndex, StringRange};
use anystr::matcher::{single_or_tuple_any, AffixArg, PyError};
use anystr::search::{py_count, py_find};
use anystr::split::{py_join, py_rsplit, py_split, rsplit_on, split_on};

fn chars(s: &str) -> Vec<char> {
    s.chars().collect()
}

fn pieces(v: &[&[u8]]) -> Vec<Vec<u8>> {
    v.iter().map(|p| p.to_vec()).collect()
}

#[test]
fn split_on_whitespace_drops_edges() {
    let r = py_split(&b"  a  b "[..], SplitArgs::<Vec<u8>> { sep: None, maxsplit: -1 });
    match r {
        Ok(v) => assert_eq!(v, pieces(&[b"a", b"b"])),
        Err(_) => panic!("split failed"),
    }
}

#[test]
fn split_on_whitespace_with_limit_keeps_rest() {
    let r = py_split(&b"  a  b c "[..], SplitArgs::<Vec<u8>> { sep: None, maxsplit: 1 });
    match r {
        Ok(v) => assert_eq!(v, pieces(&[b"a", b"b c "])),
        Err(_) => panic!("split failed"),
    }
}

#[test]
fn split_on_separator_keeps_empty_pieces() {
    let r = py_split(&b"a,b,,c"[..], SplitArgs { sep: Some(b",".to_vec()), maxsplit: -1 });
    match r {
        Ok(v) => assert_eq!(v, pieces(&[b"a", b"b", b"", b"c"])),
        Err(_) => panic!("split failed"),
    }
}

#[test]
fn split_on_separator_with_limit() {
    let r = py_split(&b"a,b,,c"[..], SplitArgs { sep: Some(b",".to_vec()), maxsplit: 2 });
    match r {
        Ok(v) => assert_eq!(v, pieces(&[b"a", b"b", b",c"])),
        Err(_) => panic!("split failed"),
    }
}

#[test]
fn split_on_empty_separator_is_value_error() {
    let r = py_split(&b"a,b,,c"[..], SplitArgs { sep: Some(Vec::new()), maxsplit: -1 });
    assert!(matches!(r, Err(PyError::ValueError(_))));
}

#[test]
fn split_with_sentinel_separator_gives_whole() {
    let r = py_split(&b"a,b"[..], SplitArgs::<Option<Vec<u8>>> { sep: Some(None), maxsplit: -1 });
    match r {
        Ok(v) => assert_eq!(v, pieces(&[b"a,b"])),
        Err(_) => panic!("split failed"),
    }
    let r = py_split(&b"a,b"[..], SplitArgs::<Option<Vec<u8>>> { sep: Some(Some(Vec::new())), maxsplit: 0 });
    assert!(matches!(r, Err(PyError::ValueError(_))));
}

#[test]
fn split_chars_on_separator() {
    let r = py_split(&chars("αβγβ"), SplitArgs { sep: Some(chars("β")), maxsplit: -1 });
    match r {
        Ok(v) => assert_eq!(v, vec![chars("α"), chars("γ"), chars("")]),
        Err(_) => panic!("split failed"),
    }
}

#[test]
fn split_then_join_gives_text_back() {
    let text = b"x--y----z--";
    let parts = split_on(&text[..], &b"--"[..], -1);
    let items: Vec<Result<Vec<u8>, PyError>> = parts.into_iter().map(Ok).collect();
    match py_join(&b"--"[..], items) {
        Ok(j) => assert_eq!(j, text.to_vec()),
        Err(_) => panic!("join failed"),
    }
}

#[test]
fn join_empty_and_error() {
    match py_join(&b", "[..], Vec::new()) {
        Ok(j) => assert!(j.is_empty()),
        Err(_) => panic!("join failed"),
    }
    let items = vec![
        Ok(b"a".to_vec()),
        Err(PyError::TypeError("int".to_string())),
        Err(PyError::ValueError("later".to_string())),
    ];
    match py_join(&b", "[..], items) {
        Err(PyError::TypeError(m)) => assert_eq!(m, "int"),
        _ => panic!("the first error was not returned"),
    }
    let items = vec![Ok(b"a".to_vec()), Ok(b"b".to_vec()), Ok(b"c".to_vec())];
    match py_join(&b", "[..], items) {
        Ok(j) => assert_eq!(j, b"a, b, c".to_vec()),
        Err(_) => panic!("join failed"),
    }
}

#[test]
fn center_biases_odd_margin() {
    assert_eq!(py_center(&b"x"[..], 4, b' '), b" x  ".to_vec());
    assert_eq!(py_center(&b"ab"[..], 5, b'*'), b"**ab*".to_vec());
    assert_eq!(py_center(&b"abc"[..], 2, b'*'), b"abc".to_vec());
    assert_eq!(py_center(&b"abc"[..], 10, b'-').len(), 10);
}

#[test]
fn ljust_and_rjust_pad_to_width() {
    assert_eq!(py_ljust(&b"ab"[..], 5, b'.'), b"ab...".to_vec());
    assert_eq!(py_rjust(&b"ab"[..], 5, b'.'), b"...ab".to_vec());
    assert_eq!(py_ljust(&b"abcdef"[..], 3, b'.'), b"abcdef".to_vec());
    assert_eq!(py_rjust(&chars("é"), 3, 'ü'), chars("üüé"));
}

#[test]
fn removesuffix_scenarios() {
    assert_eq!(py_removesuffix(&b"file.txt"[..], &b".txt"[..]), &b"file"[..]);
    assert_eq!(py_removesuffix(&b"file.txt"[..], &b".md"[..]), &b"file.txt"[..]);
    assert_eq!(py_removesuffix(&b"t"[..], &b"longer"[..]), &b"t"[..]);
}

#[test]
fn removeprefix_twice_is_once() {
    let once = py_removeprefix(&b"abcabd"[..], &b"ab"[..]);
    assert_eq!(once, &b"cabd"[..]);
    assert_eq!(py_removeprefix(once, &b"ab"[..]), once);
    assert_eq!(py_removeprefix(&b"a"[..], &b"abc"[..]), &b"a"[..]);
}

#[test]
fn splitlines_keeps_crlf_as_one_terminator() {
    let r = py_bytes_splitlines(&b"a\r\nb\rc"[..], SplitLinesArgs { keepends: true });
    assert_eq!(r, pieces(&[b"a\r\n", b"b\r", b"c"]));
    let r = py_bytes_splitlines(&b"a\r\nb\rc"[..], SplitLinesArgs { keepends: false });
    assert_eq!(r, pieces(&[b"a", b"b", b"c"]));
    let r = py_bytes_splitlines(&b"x\n\ny\n"[..], SplitLinesArgs { keepends: false });
    assert_eq!(r, pieces(&[b"x", b"", b"y"]));
    assert!(py_bytes_splitlines(&b""[..], SplitLinesArgs { keepends: true }).is_empty());
}

#[test]
fn zfill_after_sign() {
    assert_eq!(py_zfill(&b"-42"[..], 5), b"-0042".to_vec());
    assert_eq!(py_zfill(&b"42"[..], 5), b"00042".to_vec());
    assert_eq!(py_zfill(&b"+7"[..], 3), b"+07".to_vec());
    assert_eq!(py_zfill(&b"12345"[..], 3), b"12345".to_vec());
    assert_eq!(py_zfill(&b"1"[..], -4), b"1".to_vec());
}

#[test]
fn case_classification() {
    assert!(py_islower(&b"abc1"[..]));
    assert!(!py_isupper(&b"abc1"[..]));
    assert!(py_isupper(&b"AB-C"[..]));
    assert!(!py_islower(&b"aB"[..]));
    assert!(!py_isupper(&b"aB"[..]));
    assert!(!py_islower(&b"123"[..]));
    assert!(!py_isupper(&b"123"[..]));
    assert!(py_islower(&chars("éa")));
    assert!(py_isupper(&chars("ÉA")));
    assert!(!py_islower(&chars("É")));
}

#[test]
fn char_properties() {
    assert_eq!('é'.bytes_len(), 2);
    assert_eq!('a'.bytes_len(), 1);
    assert_eq!('€'.bytes_len(), 3);
    assert!('\u{2003}'.is_whitespace());
    assert!(!b'x'.is_whitespace());
}

#[test]
fn strip_variants() {
    assert_eq!(py_strip(&b"  hi \n"[..], None), &b"hi"[..]);
    assert_eq!(py_strip(&b"xxhixyx"[..], Some(&b"xy"[..])), &b"hi"[..]);
    assert_eq!(py_strip(&b" hi "[..], Some(&b""[..])), &b" hi "[..]);
    assert_eq!(py_strip(&b"xxxx"[..], Some(&b"x"[..])), &b""[..]);
    assert_eq!(py_strip(&chars("\u{2003}ü "), None), &chars("ü")[..]);
}

#[test]
fn partition_cases() {
    match py_partition(&b"key=value=x"[..], &b"="[..]) {
        Ok((f, m, b)) => {
            assert_eq!(f, b"key".to_vec());
            assert!(m);
            assert_eq!(b, b"value=x".to_vec());
        }
        Err(_) => panic!("partition failed"),
    }
    match py_partition(&b"novalue"[..], &b"="[..]) {
        Ok((f, m, b)) => {
            assert_eq!(f, b"novalue".to_vec());
            assert!(!m);
            assert!(b.is_empty());
        }
        Err(_) => panic!("partition failed"),
    }
    assert!(matches!(py_partition(&b"a"[..], &b""[..]), Err(PyError::ValueError(_))));
}

#[test]
fn add_concatenates() {
    assert_eq!(py_add(&b"ab"[..], &b"cd"[..]), b"abcd".to_vec());
}

#[test]
fn find_and_count_in_range() {
    let s = &b"abcabcab"[..];
    assert_eq!(py_find(s, &b"ab"[..], 0..8), Some(0));
    assert_eq!(py_find(s, &b"ab"[..], 1..8), Some(3));
    assert_eq!(py_find(s, &b"ab"[..], 4..5), None);
    assert_eq!(py_find(s, &b"ab"[..], 6..2), None);
    assert_eq!(py_count(s, &b"ab"[..], 0..8), 3);
    assert_eq!(py_count(s, &b"ab"[..], 1..8), 2);
    assert_eq!(py_count(s, &b""[..], 0..3), 4);
    assert_eq!(py_count(&b"aaaa"[..], &b"aa"[..], 0..4), 2);
    assert_eq!(py_count(s, &b"ab"[..], 5..1), 0);
}

#[test]
fn adjust_indices_clamps() {
    let r = adjust_indices(None, None, 5);
    assert_eq!((r.start, r.end), (0, 5));
    let r = adjust_indices(Some(BigIndex::from_i64(-2)), Some(BigIndex::from_i64(100)), 5);
    assert_eq!((r.start, r.end), (3, 5));
    let r = adjust_indices(Some(BigIndex::from_i64(-9)), Some(BigIndex::from_i64(-1)), 5);
    assert_eq!((r.start, r.end), (0, 4));
    let r = adjust_indices(Some(BigIndex::from_i64(7)), Some(BigIndex::from_i64(-9)), 5);
    assert_eq!((r.start, r.end), (7, 0));
    assert!(!r.is_normal());
    let huge = BigIndex { negative: false, magnitude: vec![0, 1] };
    let tiny = BigIndex { negative: true, magnitude: vec![5, 0, 3] };
    let r = adjust_indices(Some(tiny), Some(huge), 5);
    assert_eq!((r.start, r.end), (0, 5));
}

#[test]
fn saturation_never_wraps() {
    let huge = BigIndex { negative: false, magnitude: vec![7, 0, 1] };
    assert_eq!(saturate_to_isize(&huge), isize::MAX);
    let low = BigIndex { negative: true, magnitude: vec![u64::MAX] };
    assert_eq!(saturate_to_isize(&low), isize::MIN);
    let edge = BigIndex { negative: true, magnitude: vec![1u64 << 63, 0] };
    assert_eq!(saturate_to_isize(&edge), isize::MIN);
    let fits = BigIndex { negative: true, magnitude: vec![12, 0, 0] };
    assert_eq!(saturate_to_isize(&fits), -12);
    let empty = BigIndex { negative: false, magnitude: Vec::new() };
    assert_eq!(saturate_to_isize(&empty), 0);
    assert_eq!(saturate_to_isize(&BigIndex::from_i64(i64::MIN)), isize::MIN);
}

#[test]
fn tabsize_of_negative_is_zero() {
    assert_eq!(ExpandTabsArgs { tabsize: -3 }.tabsize(), 0);
    assert_eq!(ExpandTabsArgs { tabsize: 8 }.tabsize(), 8);
}

#[test]
fn tuple_matcher() {
    let obj = AffixArg::Tuple(vec![
        AffixArg::Value(1u32),
        AffixArg::Tuple(vec![AffixArg::Value(4u32)]),
        AffixArg::Other("str".to_string()),
    ]);
    let is_four = |x: &u32| *x == 4;
    let msg = |o: &AffixArg<u32>| match o {
        AffixArg::Other(n) => format!("got {}", n),
        _ => String::new(),
    };
    assert!(matches!(single_or_tuple_any(&obj, &is_four, &msg), Ok(true)));
    let is_nine = |x: &u32| *x == 9;
    match single_or_tuple_any(&obj, &is_nine, &msg) {
        Err(PyError::TypeError(m)) => assert_eq!(m, "got str"),
        _ => panic!("expected a type error"),
    }
    let empty: AffixArg<u32> = AffixArg::Tuple(Vec::new());
    assert!(matches!(single_or_tuple_any(&empty, &is_nine, &msg), Ok(false)));
}

#[test]
fn starts_ends_with_tuple_and_range() {
    let s = &b"hello world"[..];
    let args = StartsEndsWithArgs {
        affix: AffixArg::Tuple(vec![AffixArg::Value(b"xx".to_vec()), AffixArg::Value(b"wor".to_vec())]),
        start: Some(BigIndex::from_i64(6)),
        end: None,
    };
    assert!(matches!(py_starts_ends_with(s, args, "startswith", "bytes", false), Ok(true)));
    let args = StartsEndsWithArgs {
        affix: AffixArg::Value(b"llo".to_vec()),
        start: None,
        end: Some(BigIndex::from_i64(-6)),
    };
    assert!(matches!(py_starts_ends_with(s, args, "endswith", "bytes", true), Ok(true)));
    let args = StartsEndsWithArgs {
        affix: AffixArg::Other("int".to_string()),
        start: Some(BigIndex::from_i64(8)),
        end: Some(BigIndex::from_i64(2)),
    };
    assert!(matches!(py_starts_ends_with(s, args, "startswith", "bytes", false), Ok(false)));
    let args: StartsEndsWithArgs<Vec<u8>> = StartsEndsWithArgs {
        affix: AffixArg::Other("int".to_string()),
        start: None,
        end: None,
    };
    match py_starts_ends_with(s, args, "startswith", "bytes", false) {
        Err(PyError::TypeError(m)) => {
            assert_eq!(m, "startswith first arg must be bytes or a tuple of bytes, not int")
        }
        _ => panic!("expected a type error"),
    }
    assert!(py_endswith(s, &b"world"[..]));
}

#[test]
fn get_value_without_range() {
    let args: StartsEndsWithArgs<Vec<u8>> = StartsEndsWithArgs {
        affix: AffixArg::Value(b"a".to_vec()),
        start: None,
        end: None,
    };
    let (_, range) = args.get_value(4);
    assert!(range.is_none());
    let args: StartsEndsWithArgs<Vec<u8>> = StartsEndsWithArgs {
        affix: AffixArg::Value(b"a".to_vec()),
        start: None,
        end: Some(BigIndex::from_i64(2)),
    };
    let (_, range) = args.get_value(4);
    assert_eq!(range, Some(0..2));
}

#[test]
fn rsplit_on_separator_from_the_right() {
    let r = py_rsplit(&b"a,b,,c"[..], SplitArgs { sep: Some(b",".to_vec()), maxsplit: 1 });
    match r {
        Ok(v) => assert_eq!(v, pieces(&[b"a,b,", b"c"])),
        Err(_) => panic!("rsplit failed"),
    }
    let r = py_rsplit(&b"a,b,,c"[..], SplitArgs { sep: Some(b",".to_vec()), maxsplit: -1 });
    match r {
        Ok(v) => assert_eq!(v, pieces(&[b"a", b"b", b"", b"c"])),
        Err(_) => panic!("rsplit failed"),
    }
    assert_eq!(rsplit_on(&b"aXXbXXXc"[..], &b"XX"[..], -1), pieces(&[b"a", b"bX", b"c"]));
    let r = py_rsplit(&b"a"[..], SplitArgs { sep: Some(Vec::new()), maxsplit: -1 });
    assert!(matches!(r, Err(PyError::ValueError(_))));
}

#[test]
fn rsplit_on_whitespace_from_the_right() {
    let r = py_rsplit(&b"  a  b c "[..], SplitArgs::<Vec<u8>> { sep: None, maxsplit: 1 });
    match r {
        Ok(v) => assert_eq!(v, pieces(&[b"  a  b", b"c"])),
        Err(_) => panic!("rsplit failed"),
    }
    let r = py_rsplit(&b"  a  b c "[..], SplitArgs::<Vec<u8>> { sep: None, maxsplit: -1 });
    match r {
        Ok(v) => assert_eq!(v, pieces(&[b"a", b"b", b"c"])),
        Err(_) => panic!("rsplit failed"),
    }
    let r = py_rsplit(&b"   "[..], SplitArgs::<Vec<u8>> { sep: None, maxsplit: 0 });
    match r {
        Ok(v) => assert!(v.is_empty()),
        Err(_) => panic!("rsplit failed"),
    }
}

#[test]
fn rpartition_at_last_occurrence() {
    match py_rpartition(&b"key=value=x"[..], &b"="[..]) {
        Ok((f, m, b)) => {
            assert_eq!(f, b"key=value".to_vec());
            assert!(m);
            assert_eq!(b, b"x".to_vec());
        }
        Err(_) => panic!("rpartition failed"),
    }
    match py_rpartition(&b"novalue"[..], &b"="[..]) {
        Ok((f, m, b)) => {
            assert!(f.is_empty());
            assert!(!m);
            assert_eq!(b, b"novalue".to_vec());
        }
        Err(_) => panic!("rpartition failed"),
    }
    assert!(matches!(py_rpartition(&b"a"[..], &b""[..]), Err(PyError::ValueError(_))));
}

#[test]
fn nested_offender_names_its_own_type() {
    let s = &b"hello"[..];
    let args = StartsEndsWithArgs {
        affix: AffixArg::Tuple(vec![
            AffixArg::Value(b"xy".to_vec()),
            AffixArg::Tuple(vec![AffixArg::Value(b"q".to_vec()), AffixArg::Other("float".to_string())]),
            AffixArg::Other("int".to_string()),
        ]),
        start: None,
        end: None,
    };
    match py_starts_ends_with(s, args, "endswith", "bytes", true) {
        Err(PyError::TypeError(m)) => {
            assert_eq!(m, "endswith first arg must be bytes or a tuple of bytes, not float")
        }
        _ => panic!("expected a type error"),
    }
}
