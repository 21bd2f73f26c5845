use k2_codegen::fmt_native::{parse, Align, Spec, Step, Verb};

fn literal(s: &Step) -> &[u8] {
    match s {
        Step::Literal(b) => b,
        Step::Placeholder { .. } => panic!("a placeholder"),
    }
}

fn placeholder(s: &Step) -> (usize, Spec) {
    match s {
        Step::Literal(_) => panic!("a literal"),
        Step::Placeholder { arg_index, spec } => (*arg_index, *spec),
    }
}

#[test]
fn escapes_and_lone_closing_brace() {
    let steps = parse(b"a{{b}}c}d").unwrap();
    assert_eq!(steps.len(), 1);
    assert_eq!(literal(&steps[0]), b"a{b}c}d");
}

#[test]
fn placeholders_are_numbered() {
    let steps = parse(b"x={d} y={s}{x}!").unwrap();
    assert_eq!(steps.len(), 6);
    assert_eq!(literal(&steps[0]), b"x=");
    assert_eq!(placeholder(&steps[1]).0, 0);
    assert_eq!(placeholder(&steps[1]).1.verb, Verb::Decimal);
    assert_eq!(literal(&steps[2]), b" y=");
    assert_eq!(placeholder(&steps[3]).0, 1);
    assert_eq!(placeholder(&steps[3]).1.verb, Verb::Str);
    assert_eq!(placeholder(&steps[4]).0, 2);
    assert_eq!(placeholder(&steps[4]).1.verb, Verb::Hex { upper: false });
    assert_eq!(literal(&steps[5]), b"!");
}

#[test]
fn all_verbs() {
    let verbs: [(&[u8], Verb); 8] = [
        (b"{}", Verb::Default),
        (b"{s}", Verb::Str),
        (b"{d}", Verb::Decimal),
        (b"{c}", Verb::Char),
        (b"{x}", Verb::Hex { upper: false }),
        (b"{X}", Verb::Hex { upper: true }),
        (b"{b}", Verb::Bin),
        (b"{o}", Verb::Oct),
    ];
    for (text, verb) in verbs {
        let steps = parse(text).unwrap();
        assert_eq!(placeholder(&steps[0]).1.verb, verb);
    }
}

#[test]
fn fill_align_and_width() {
    let steps = parse(b"{d:*>10}{s:<4}{d:7}{x:^}").unwrap();
    let a = placeholder(&steps[0]).1;
    assert_eq!((a.fill, a.align, a.width), (b'*', Align::Right, 10));
    let b = placeholder(&steps[1]).1;
    assert_eq!((b.fill, b.align, b.width), (b' ', Align::Left, 4));
    let c = placeholder(&steps[2]).1;
    assert_eq!((c.fill, c.align, c.width), (b' ', Align::Unset, 7));
    let d = placeholder(&steps[3]).1;
    assert_eq!((d.fill, d.align, d.width), (b' ', Align::Center, 0));
}

#[test]
fn bytes_that_are_no_digits_are_passed_over_in_a_width() {
    let steps = parse(b"{d:>1z2}").unwrap();
    assert_eq!(placeholder(&steps[0]).1.width, 12);
}

#[test]
fn errors() {
    assert_eq!(
        parse(b"a{d").unwrap_err(),
        "unterminated `{` in format string"
    );
    assert_eq!(parse(b"{q}").unwrap_err(), "unknown format verb `{q}`");
    assert_eq!(parse(b"{dd:>3}").unwrap_err(), "unknown format verb `{dd}`");
    assert_eq!(
        parse(b"{\xff}").unwrap_err(),
        "unknown format verb `{\u{fffd}}`"
    );
}

#[test]
fn the_first_error_is_reported() {
    assert_eq!(parse(b"{q}{").unwrap_err(), "unknown format verb `{q}`");
}

#[test]
fn empty_format() {
    assert!(parse(b"").unwrap().is_empty());
}
