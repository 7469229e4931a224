use ltsv::parse;
use ltsv::tokenize;
use ltsv::validate;
use ltsv::Error;
use ltsv::Pair;
use ltsv::PairToken;

fn pair(label: &str, field: &str) -> Pair {
    Pair { label: label.as_bytes().to_vec(), field: field.as_bytes().to_vec() }
}

fn token(label: &str, field: &str, line: usize, start: usize, end: usize) -> PairToken {
    PairToken {
        label: label.as_bytes().to_vec(),
        field: field.as_bytes().to_vec(),
        line,
        start,
        end,
    }
}

#[test]
fn parse_example() {
    let expected = Ok(vec![vec![
        pair("host", "127.0.0.1"),
        pair("ident", "-"),
        pair("user", "frank"),
        pair("time", "[10/Oct/2000:13:55:36 -0700]"),
        pair("req", "GET /apache_pb.gif HTTP/1.0"),
        pair("status", "200"),
        pair("size", "2326"),
        pair("referer", "http://www.example.com/start.html"),
        pair("ua", "Mozilla/4.08 [en] (Win98; I ;Nav)"),
    ]]);
    let out = parse(b"host:127.0.0.1\tident:-\tuser:frank\ttime:[10/Oct/2000:13:55:36 -0700]\treq:GET /apache_pb.gif HTTP/1.0\tstatus:200\tsize:2326\treferer:http://www.example.com/start.html\tua:Mozilla/4.08 [en] (Win98; I ;Nav)");

    assert_eq!(expected, out);
}

#[test]
fn ignore_invalid_parts() {
    let expected = vec![pair("mylabel", "testing"), pair("more", "data")];
    let mut out =
        tokenize(b"!123:testing\tmylabel:testing\ttest\tinvalidfield:testing\rstuff\tmore:data");

    let mut fields = Vec::new();

    while let Some(mut line) = out.next() {
        while let Some(field) = line.next() {
            if let Ok(field) = field {
                fields.push(Pair::from(field))
            }
        }
    }

    assert_eq!(fields, expected)
}

#[test]
fn tokenize_test() {
    let expected = vec![
        vec![
            token("mylabel", "1", 0, 0, 9),
            token("otherlabel", "testing", 0, 10, 28),
        ],
        vec![
            token("mylabel", "2", 1, 0, 9),
            token("otherlabel", "more_testing", 1, 10, 33),
        ],
    ];

    let data = b"mylabel:1\totherlabel:testing\nmylabel:2\totherlabel:more_testing\n";

    let out = tokenize(data).run();

    assert_eq!(Ok(expected), out);
}

#[test]
fn tokenize_multiline() {
    let expected = vec![
        vec![token("mylabel", "1", 0, 0, 9)],
        vec![token("mylabel", "2", 1, 0, 9)],
        vec![token("mylabel", "3", 2, 0, 9)],
        vec![token("mylabel", "4", 3, 0, 9)],
        vec![token("mylabel", "5", 4, 0, 9)],
    ];

    let data = b"mylabel:1\nmylabel:2\nmylabel:3\nmylabel:4\nmylabel:5\n";

    let out = tokenize(data).run();

    assert_eq!(Ok(expected), out);
}

#[test]
fn lib_tokenize_test() {
    let mut pairs: [Pair; 3] = [Pair::default(), Pair::default(), Pair::default()];

    let data = b"mylabel1:1\tmylabel2:testing\tmylabel3:1234";

    let mut out = tokenize(data);

    let mut counter = 0;

    while let Some(mut line) = out.next() {
        while let Some(p) = line.next() {
            if let Ok(x) = p {
                pairs[counter] = Pair::from(x);
                counter += 1;
            }
        }
    }

    assert_eq!(
        pairs,
        [
            pair("mylabel1", "1"),
            pair("mylabel2", "testing"),
            pair("mylabel3", "1234"),
        ]
    )
}

#[test]
fn invalid_label() {
    let expected = Err(Error::invalid_label(b"!123").put_span(0, 4));
    let out = validate(b"!123:testing");
    assert_eq!(expected, out);
    assert_eq!(b"!123", &b"!123:testing"[0..4]);
}

#[test]
fn invalid_field() {
    let expected = Err(Error::invalid_field(b"testing\rstuff").put_span(8, 21));
    let out = validate(b"mylabel:testing\rstuff");
    assert_eq!(expected, out);
    assert_eq!(b"testing\rstuff", &b"mylabel:testing\rstuff"[8..21]);
}

#[test]
fn invalid_pair() {
    let expected = Err(Error::invalid_pair(b"stuff").put_span(16, 21));
    let out = validate(b"mylabel:testing\tstuff");
    assert_eq!(expected, out);
    assert_eq!(b"stuff", &b"mylabel:testing\tstuff"[16..21]);
}
