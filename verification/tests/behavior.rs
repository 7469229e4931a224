use ltsv::is_field_byte;
use ltsv::is_label_byte;
use ltsv::parse;
use ltsv::tokenize;
use ltsv::validate;
use ltsv::Error;
use ltsv::ErrorKind;
use ltsv::Pair;
use ltsv::PairToken;

fn pair(label: &str, field: &str) -> Pair {
    Pair { label: label.as_bytes().to_vec(), field: field.as_bytes().to_vec() }
}

#[test]
fn label_byte_class() {
    for b in 0..=255u8 {
        let expected = b.is_ascii_digit()
            || b.is_ascii_uppercase()
            || b.is_ascii_lowercase()
            || b == b'_'
            || b == b'.'
            || b == b'-';
        assert_eq!(is_label_byte(b), expected);
    }
}

#[test]
fn field_byte_class() {
    for b in 0..=255u8 {
        let expected = !(b == 0x00 || b == 0x09 || b == 0x0a || b == 0x0d);
        assert_eq!(is_field_byte(b), expected);
    }
}

#[test]
fn render_then_parse_round_trip() {
    let p = pair("my_label", "with:colons and spaces");
    let rendered = p.render();
    assert_eq!(rendered, b"my_label:with:colons and spaces".to_vec());
    assert_eq!(parse(&rendered), Ok(vec![vec![p]]));
}

#[test]
fn render_joined_by_tabs() {
    let data = [pair("my_label", "testing"), pair("my_label2", "testing")];
    let mut out = Vec::new();
    out.extend_from_slice(&data[0].render());
    out.push(b'\t');
    out.extend_from_slice(&data[1].render());
    assert_eq!(out, b"my_label:testing\tmy_label2:testing".to_vec());
    assert_eq!(parse(&out), Ok(vec![data.to_vec()]));
}

#[test]
fn validate_is_idempotent() {
    let good: &[u8] = b"host:127.0.0.1\tident:-";
    assert_eq!(validate(good), validate(good));
    let bad: &[u8] = b"!123:testing\tmore:data";
    assert_eq!(validate(bad), validate(bad));
    assert!(validate(bad).is_err());
}

#[test]
fn first_error_is_the_label_error() {
    // both the label and the value are malformed: the label error wins
    let out = validate(b"!bad:val\rue");
    match out {
        Err(e) => {
            assert_eq!(e.kind, ErrorKind::InvalidLabel);
            assert_eq!(e.txt, b"!bad".to_vec());
            assert_eq!((e.start, e.end), (0, 4));
        },
        Ok(()) => panic!("expected an error"),
    }
}

#[test]
fn three_pairs_on_one_line() {
    let out = parse(b"host:127.0.0.1\tident:-\tuser:frank");
    assert_eq!(
        out,
        Ok(vec![vec![pair("host", "127.0.0.1"), pair("ident", "-"), pair("user", "frank")]])
    );
    let table = tokenize(b"host:127.0.0.1\tident:-\tuser:frank").run().unwrap();
    assert!(table[0].iter().all(|t| t.line == 0));
}

#[test]
fn empty_input_has_no_records() {
    assert_eq!(parse(b""), Ok(vec![]));
    assert_eq!(validate(b""), Ok(()));
}

#[test]
fn empty_line_yields_empty_record() {
    let out = parse(b"a:1\n\nb:2");
    assert_eq!(out, Ok(vec![vec![pair("a", "1")], vec![], vec![pair("b", "2")]]));
}

#[test]
fn final_newline_leaves_no_trailing_record() {
    let out = tokenize(b"mylabel:1\nmylabel:2\n").run().unwrap();
    assert_eq!(out.len(), 2);
    assert_eq!(out[0][0].line, 0);
    assert_eq!(out[1][0].line, 1);
}

#[test]
fn carriage_return_before_newline_is_terminator() {
    let out = parse(b"a:1\r\nb:2");
    assert_eq!(out, Ok(vec![vec![pair("a", "1")], vec![pair("b", "2")]]));
}

#[test]
fn carriage_return_without_newline_is_content() {
    let out = validate(b"a:1\r");
    assert_eq!(out, Err(Error::invalid_field(b"1\r").put_span(2, 4)));
}

#[test]
fn empty_label_is_invalid() {
    let out = validate(b":value");
    assert_eq!(out, Err(Error::invalid_label(b"").put_span(0, 0)));
}

#[test]
fn empty_value_is_valid() {
    assert_eq!(parse(b"a:"), Ok(vec![vec![pair("a", "")]]));
}

#[test]
fn trailing_tab_yields_empty_invalid_pair() {
    let out = validate(b"a:1\t");
    assert_eq!(out, Err(Error::invalid_pair(b"").put_span(4, 4)));
}

#[test]
fn spans_stay_correct_after_an_error() {
    // the cursor advances past an invalid field, so the next span is exact
    let mut data = tokenize(b"bad\tok:fine");
    let mut rec = data.next().unwrap();
    match rec.next().unwrap() {
        Err(e) => {
            assert_eq!(e.kind, ErrorKind::InvalidPair);
            assert_eq!((e.start, e.end), (0, 3));
        },
        Ok(_) => panic!("expected an error"),
    }
    match rec.next().unwrap() {
        Ok(t) => {
            assert_eq!((t.start, t.end), (4, 11));
            assert_eq!(t.label, b"ok".to_vec());
            assert_eq!(t.field, b"fine".to_vec());
        },
        Err(_) => panic!("expected a pair"),
    }
    assert!(rec.next().is_none());
}

#[test]
fn adjacent_pairs_abut_across_one_tab() {
    let out = tokenize(b"aa:xx\tb:\tcc:y").run().unwrap();
    let row = &out[0];
    assert_eq!(row.len(), 3);
    for i in 0..row.len() - 1 {
        assert_eq!(row[i + 1].start, row[i].end + 1);
    }
    assert_eq!(row[0].end - row[0].start, 5);
    assert_eq!(row[1].end - row[1].start, 2);
    assert_eq!(row[2].end - row[2].start, 4);
}

#[test]
fn token_validate_checks_label_then_field() {
    assert!(PairToken::new(b"ok", b"value").validate().is_ok());
    let label_err = PairToken::new(b"!x", b"bad\tvalue").validate().unwrap_err();
    assert_eq!(label_err.kind, ErrorKind::InvalidLabel);
    let field_err = PairToken::new(b"ok", b"bad\tvalue").validate().unwrap_err();
    assert_eq!(field_err.kind, ErrorKind::InvalidField);
}

#[test]
fn error_setters_and_builders_agree() {
    let mut a = Error::invalid_pair(b"oops");
    a.set_line(3);
    a.set_span(5, 9);
    let b = Error::invalid_pair(b"oops").put_line(3).put_span(5, 9);
    assert_eq!(a, b);
    assert_eq!((b.line, b.start, b.end), (3, 5, 9));
    assert_eq!(b.kind, ErrorKind::InvalidPair);
}

#[test]
fn collector_reports_first_error_only() {
    // second line carries the first error in scan order
    let out = tokenize(b"a:1\tb:2\nc\td:4\t!e:5").run();
    assert_eq!(out, Err(Error::invalid_pair(b"c").put_line(1).put_span(0, 1)));
}

#[test]
fn lazy_filtering_preserves_order() {
    let mut data = tokenize(b"!123:x\ta:1\tnosep\tb:2\tc:bad\rbyte\td:3");
    let mut kept = Vec::new();
    while let Some(mut rec) = data.next() {
        while let Some(item) = rec.next() {
            if let Ok(t) = item {
                kept.push(Pair::from(t));
            }
        }
    }
    assert_eq!(kept, vec![pair("a", "1"), pair("b", "2"), pair("d", "3")]);
}
