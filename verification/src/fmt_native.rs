//! Parsing of a constant print format string into render steps.
//!
//! `{{` and `}}` stand for single braces, a lone `}` for itself, and
//! `{verb:[fill]align width}` for the next positional argument.
use vstd::prelude::*;

verus! {

/// One step of a parsed format string.
#[derive(Clone, Debug)]
pub enum Step {
    /// Emit these bytes.
    Literal(Vec<u8>),
    /// Render a positional argument.
    Placeholder {
        /// The argument's position.
        arg_index: usize,
        /// How to render it.
        spec: Spec,
    },
}

/// The renderer of a placeholder.
#[derive(Clone, Copy, PartialEq, Eq, Structural, Debug)]
pub enum Verb {
    /// `{}`: by the argument's type.
    Default,
    /// `{s}`: a string.
    Str,
    /// `{d}`: a decimal integer.
    Decimal,
    /// `{c}`: a code point.
    Char,
    /// `{x}` or, with `upper`, `{X}`: hexadecimal.
    Hex { upper: bool },
    /// `{b}`: binary.
    Bin,
    /// `{o}`: octal.
    Oct,
}

/// The alignment within a width.
#[derive(Clone, Copy, PartialEq, Eq, Structural, Debug)]
pub enum Align {
    /// None asked for: nothing is padded.
    Unset,
    /// `<`
    Left,
    /// `>`
    Right,
    /// `^`
    Center,
}

/// How a placeholder renders its argument.
#[derive(Clone, Copy, PartialEq, Eq, Structural, Debug)]
pub struct Spec {
    /// The renderer.
    pub verb: Verb,
    /// The byte to pad with.
    pub fill: u8,
    /// The alignment.
    pub align: Align,
    /// The width; 0 is none.
    pub width: usize,
}

// ---------------------------------------------------------------------------
//  The grammar
// ---------------------------------------------------------------------------

/// What a [`Step`] holds.
pub enum StepView {
    Literal(Seq<u8>),
    Placeholder { arg_index: nat, spec: Spec },
}

impl View for Step {
    type V = StepView;

    open spec fn view(&self) -> StepView {
        match *self {
            Step::Literal(b) => StepView::Literal(b@),
            Step::Placeholder { arg_index, spec } => StepView::Placeholder {
                arg_index: arg_index as nat,
                spec,
            },
        }
    }
}

/// What a list of steps holds.
pub open spec fn step_views(s: Seq<Step>) -> Seq<StepView> {
    Seq::new(s.len(), |i: int| s[i]@)
}

/// One unit of a format string.
pub enum Token {
    /// A byte to emit.
    Byte(u8),
    /// A placeholder.
    Hole(Spec),
}

/// The first position of `b` in `s` from `from` on.
pub open spec fn find(s: Seq<u8>, from: int, b: u8) -> Option<int>
    decreases s.len() - from,
{
    if from < 0 || from >= s.len() {
        None
    } else if s[from] == b {
        Some(from)
    } else {
        find(s, from + 1, b)
    }
}

/// The text of `bytes`, with replacement characters where they are not UTF-8:
/// what `String::from_utf8_lossy` returns.
pub uninterp spec fn utf8_lossy(bytes: Seq<u8>) -> Seq<char>;

/// The message for an unknown verb.
pub open spec fn unknown_verb(verb: Seq<u8>) -> Seq<char> {
    "unknown format verb `{"@ + utf8_lossy(verb) + "}`"@
}

/// The renderer that a verb names.
pub open spec fn verb_of(verb: Seq<u8>) -> Result<Verb, Seq<char>> {
    if verb.len() == 0 {
        Ok(Verb::Default)
    } else if verb == seq![0x73u8] {
        Ok(Verb::Str)
    } else if verb == seq![0x64u8] {
        Ok(Verb::Decimal)
    } else if verb == seq![0x63u8] {
        Ok(Verb::Char)
    } else if verb == seq![0x78u8] {
        Ok(Verb::Hex { upper: false })
    } else if verb == seq![0x58u8] {
        Ok(Verb::Hex { upper: true })
    } else if verb == seq![0x62u8] {
        Ok(Verb::Bin)
    } else if verb == seq![0x6Fu8] {
        Ok(Verb::Oct)
    } else {
        Err(unknown_verb(verb))
    }
}

/// Whether `c` is `<`, `>` or `^`.
pub open spec fn is_align(c: u8) -> bool {
    c == 0x3C || c == 0x3E || c == 0x5E
}

/// The alignment that `c` names.
pub open spec fn align_named(c: u8) -> Align {
    if c == 0x3C {
        Align::Left
    } else if c == 0x3E {
        Align::Right
    } else if c == 0x5E {
        Align::Center
    } else {
        Align::Unset
    }
}

/// The number that the digits of `s` spell, other bytes passed over, modulo the
/// word size.
pub open spec fn width_of(s: Seq<u8>) -> int
    decreases s.len(),
{
    if s.len() == 0 {
        0
    } else if 0x30 <= s.last() <= 0x39 {
        (width_of(s.drop_last()) * 10 + (s.last() - 0x30)) % (usize::MAX + 1)
    } else {
        width_of(s.drop_last())
    }
}

/// What stands in front of the first colon.
pub open spec fn verb_part(body: Seq<u8>) -> Seq<u8> {
    match find(body, 0, 0x3A) {
        Some(p) => body.take(p),
        None => body,
    }
}

/// What stands behind the first colon.
pub open spec fn layout_part(body: Seq<u8>) -> Seq<u8> {
    match find(body, 0, 0x3A) {
        Some(p) => body.skip(p + 1),
        None => Seq::empty(),
    }
}

/// A placeholder's body.
pub open spec fn spec_of(body: Seq<u8>) -> Result<Spec, Seq<char>> {
    let rest = layout_part(body);
    match verb_of(verb_part(body)) {
        Err(e) => Err(e),
        Ok(verb) => if rest.len() >= 2 && is_align(rest[1]) {
            Ok(
                Spec {
                    verb,
                    fill: rest[0],
                    align: align_named(rest[1]),
                    width: width_of(rest.skip(2)) as usize,
                },
            )
        } else if rest.len() >= 1 && is_align(rest[0]) {
            Ok(
                Spec {
                    verb,
                    fill: 0x20,
                    align: align_named(rest[0]),
                    width: width_of(rest.skip(1)) as usize,
                },
            )
        } else {
            Ok(Spec { verb, fill: 0x20, align: Align::Unset, width: width_of(rest) as usize })
        },
    }
}

/// `t` in front of what follows.
pub open spec fn before(t: Seq<Token>, rest: Result<Seq<Token>, Seq<char>>) -> Result<
    Seq<Token>,
    Seq<char>,
> {
    match rest {
        Ok(r) => Ok(t + r),
        Err(e) => Err(e),
    }
}

/// The units of `fmt` from position `i` on, or the first error.
pub open spec fn tokens(fmt: Seq<u8>, i: int) -> Result<Seq<Token>, Seq<char>>
    decreases fmt.len() - i,
{
    if i < 0 || i >= fmt.len() {
        Ok(Seq::empty())
    } else if fmt[i] == 0x7B {
        if i + 1 < fmt.len() && fmt[i + 1] == 0x7B {
            before(seq![Token::Byte(0x7B)], tokens(fmt, i + 2))
        } else {
            match find(fmt, i + 1, 0x7D) {
                None => Err("unterminated `{` in format string"@),
                Some(c) => if i + 1 <= c < fmt.len() {
                    match spec_of(fmt.subrange(i + 1, c)) {
                        Err(e) => Err(e),
                        Ok(s) => before(seq![Token::Hole(s)], tokens(fmt, c + 1)),
                    }
                } else {
                    Ok(Seq::empty())
                },
            }
        }
    } else if fmt[i] == 0x7D && i + 1 < fmt.len() && fmt[i + 1] == 0x7D {
        before(seq![Token::Byte(0x7D)], tokens(fmt, i + 2))
    } else {
        before(seq![Token::Byte(fmt[i])], tokens(fmt, i + 1))
    }
}

/// Steps under construction.
pub struct Group {
    /// The finished steps.
    pub steps: Seq<StepView>,
    /// The literal run that is still open.
    pub lit: Seq<u8>,
    /// The number of placeholders.
    pub args: nat,
}

/// The finished steps with the open run closed.
pub open spec fn flush(g: Group) -> Seq<StepView> {
    if g.lit.len() > 0 {
        g.steps.push(StepView::Literal(g.lit))
    } else {
        g.steps
    }
}

/// Runs of bytes as literals, placeholders numbered in order.
pub open spec fn group(t: Seq<Token>) -> Group
    decreases t.len(),
{
    if t.len() == 0 {
        Group { steps: Seq::empty(), lit: Seq::empty(), args: 0 }
    } else {
        let g = group(t.drop_last());
        match t.last() {
            Token::Byte(b) => Group { lit: g.lit.push(b), ..g },
            Token::Hole(spec) => Group {
                steps: flush(g).push(StepView::Placeholder { arg_index: g.args, spec }),
                lit: Seq::empty(),
                args: g.args + 1,
            },
        }
    }
}

/// The steps of a format string, or the first error.
pub open spec fn parsed(fmt: Seq<u8>) -> Result<Seq<StepView>, Seq<char>> {
    match tokens(fmt, 0) {
        Ok(t) => Ok(flush(group(t))),
        Err(e) => Err(e),
    }
}

// ---------------------------------------------------------------------------
//  The parser
// ---------------------------------------------------------------------------

fn position(s: &[u8], from: usize, b: u8) -> (r: Option<usize>)
    ensures
        r matches Some(p) ==> find(s@, from as int, b) == Some(p as int) && from <= p < s@.len(),
        r is None ==> find(s@, from as int, b) is None,
{
    let mut i: usize = from;
    while i < s.len()
        invariant
            from <= i,
            find(s@, from as int, b) == find(s@, i as int, b),
        decreases s@.len() - i,
    {
        if s[i] == b {
            return Some(i);
        }
        i = i + 1;
    }
    None
}

/// `String::from_utf8_lossy`: on UTF-8 it is the text that the bytes encode, and
/// in every case it depends on the bytes alone.
#[verifier::external_body]
fn lossy(bytes: &[u8]) -> (r: String)
    ensures
        r@ == utf8_lossy(bytes@),
        vstd::utf8::valid_utf8(bytes@) ==> r@ == vstd::utf8::decode_utf8(bytes@),
{
    String::from_utf8_lossy(bytes).into_owned()
}

fn parse_verb(verb: &[u8]) -> (r: Result<Verb, String>)
    ensures
        r matches Ok(v) ==> verb_of(verb@) == Ok::<Verb, Seq<char>>(v),
        r matches Err(e) ==> verb_of(verb@) == Err::<Verb, Seq<char>>(e@),
{
    if verb.len() == 0 {
        return Ok(Verb::Default);
    }
    if verb.len() == 1 {
        let c: u8 = verb[0];
        assert(verb@ =~= seq![c]);
        let known: Option<Verb> = if c == 0x73 {
            Some(Verb::Str)
        } else if c == 0x64 {
            Some(Verb::Decimal)
        } else if c == 0x63 {
            Some(Verb::Char)
        } else if c == 0x78 {
            Some(Verb::Hex { upper: false })
        } else if c == 0x58 {
            Some(Verb::Hex { upper: true })
        } else if c == 0x62 {
            Some(Verb::Bin)
        } else if c == 0x6F {
            Some(Verb::Oct)
        } else {
            None
        };
        proof {
            assert(seq![c][0] == c);
            assert(seq![0x73u8][0] == 0x73);
            assert(seq![0x64u8][0] == 0x64);
            assert(seq![0x63u8][0] == 0x63);
            assert(seq![0x78u8][0] == 0x78);
            assert(seq![0x58u8][0] == 0x58);
            assert(seq![0x62u8][0] == 0x62);
            assert(seq![0x6Fu8][0] == 0x6F);
        }
        match known {
            Some(v) => {
                return Ok(v);
            },
            None => {},
        }
    }
    let mut msg = String::from_str("unknown format verb `{");
    let text = lossy(verb);
    msg.append(text.as_str());
    msg.append("}`");
    assert(msg@ =~= unknown_verb(verb@));
    Err(msg)
}

fn align_of(c: u8) -> (r: Align)
    ensures
        r == align_named(c),
{
    if c == 0x3C {
        Align::Left
    } else if c == 0x3E {
        Align::Right
    } else if c == 0x5E {
        Align::Center
    } else {
        Align::Unset
    }
}

fn is_align_byte(c: u8) -> (r: bool)
    ensures
        r == is_align(c),
{
    c == 0x3C || c == 0x3E || c == 0x5E
}

fn parse_width(s: &[u8], from: usize) -> (r: usize)
    requires
        from <= s@.len(),
    ensures
        r == width_of(s@.skip(from as int)),
{
    let mut width: usize = 0;
    let mut i: usize = from;
    let ghost rest = s@.skip(from as int);
    assert(rest.take(0) =~= Seq::empty());
    while i < s.len()
        invariant
            from <= i <= s@.len(),
            rest == s@.skip(from as int),
            width == width_of(rest.take(i - from)),
        decreases s@.len() - i,
    {
        let c: u8 = s[i];
        proof {
            let t = rest.take(i - from + 1);
            assert(t.drop_last() =~= rest.take(i - from));
            assert(t.last() == c);
        }
        if 0x30 <= c && c <= 0x39 {
            let next: u128 = (width as u128) * 10 + (c - 0x30) as u128;
            width = (next % (usize::MAX as u128 + 1)) as usize;
        }
        i = i + 1;
    }
    assert(rest.take(i - from) =~= rest);
    width
}

fn parse_spec(spec: &[u8]) -> (r: Result<Spec, String>)
    ensures
        r matches Ok(v) ==> spec_of(spec@) == Ok::<Spec, Seq<char>>(v),
        r matches Err(e) ==> spec_of(spec@) == Err::<Spec, Seq<char>>(e@),
{
    let len: usize = spec.len();
    let colon = position(spec, 0, 0x3A);
    let (verb_end, start): (usize, usize) = match colon {
        Some(p) => (p, p + 1),
        None => (len, len),
    };
    let verb_bytes = vstd::slice::slice_subrange(spec, 0, verb_end);
    proof {
        assert(verb_bytes@ =~= verb_part(spec@));
        assert(spec@.skip(start as int) =~= layout_part(spec@));
    }
    let verb = match parse_verb(verb_bytes) {
        Ok(v) => v,
        Err(e) => {
            return Err(e);
        },
    };
    let ghost rest = layout_part(spec@);
    let left: usize = len - start;
    if left >= 2 && is_align_byte(spec[start + 1]) {
        assert(rest[0] == spec@[start as int] && rest[1] == spec@[start + 1]);
        let width: usize = parse_width(spec, start + 2);
        assert(spec@.skip(start + 2) =~= rest.skip(2));
        return Ok(Spec { verb, fill: spec[start], align: align_of(spec[start + 1]), width });
    }
    if left >= 1 && is_align_byte(spec[start]) {
        assert(rest[0] == spec@[start as int]);
        if left >= 2 {
            assert(rest[1] == spec@[start + 1]);
        }
        let width: usize = parse_width(spec, start + 1);
        assert(spec@.skip(start + 1) =~= rest.skip(1));
        return Ok(Spec { verb, fill: 0x20, align: align_of(spec[start]), width });
    }
    if left >= 1 {
        assert(rest[0] == spec@[start as int]);
    }
    if left >= 2 {
        assert(rest[1] == spec@[start + 1]);
    }
    let width: usize = parse_width(spec, start);
    Ok(Spec { verb, fill: 0x20, align: Align::Unset, width })
}

proof fn before_assoc(a: Seq<Token>, t: Token, rest: Result<Seq<Token>, Seq<char>>)
    ensures
        before(a, before(seq![t], rest)) == before(a.push(t), rest),
{
    match rest {
        Ok(r) => {
            assert(a + (seq![t] + r) =~= a.push(t) + r);
        },
        Err(_) => {},
    }
}

/// Parses a format string.
pub fn parse(fmt: &[u8]) -> (r: Result<Vec<Step>, String>)
    ensures
        r matches Ok(steps) ==> parsed(fmt@) == Ok::<Seq<StepView>, Seq<char>>(step_views(steps@)),
        r matches Err(e) ==> parsed(fmt@) == Err::<Seq<StepView>, Seq<char>>(e@),
{
    let mut steps: Vec<Step> = Vec::new();
    let mut lit: Vec<u8> = Vec::new();
    let mut i: usize = 0;
    let mut next_arg: usize = 0;
    let ghost mut done: Seq<Token> = Seq::empty();
    proof {
        match tokens(fmt@, 0) {
            Ok(r) => {
                assert(done + r =~= r);
            },
            Err(_) => {},
        }
        assert(step_views(steps@) =~= Seq::empty());
        assert(lit@ =~= Seq::empty());
    }
    while i < fmt.len()
        invariant
            i <= fmt@.len(),
            next_arg <= i,
            tokens(fmt@, 0) == before(done, tokens(fmt@, i as int)),
            group(done) == (Group { steps: step_views(steps@), lit: lit@, args: next_arg as nat }),
        decreases fmt@.len() - i,
    {
        let b: u8 = fmt[i];
        if b == 0x7B && !(i + 1 < fmt.len() && fmt[i + 1] == 0x7B) {
            let close: usize = match position(fmt, i + 1, 0x7D) {
                Some(c) => c,
                None => {
                    return Err(String::from_str("unterminated `{` in format string"));
                },
            };
            let body = vstd::slice::slice_subrange(fmt, i + 1, close);
            let spec = match parse_spec(body) {
                Ok(s) => s,
                Err(e) => {
                    return Err(e);
                },
            };
            let ghost s0 = step_views(steps@);
            let ghost g = group(done);
            if lit.len() > 0 {
                steps.push(Step::Literal(lit));
                lit = Vec::new();
                assert(step_views(steps@) =~= flush(g));
            }
            let ghost s1 = step_views(steps@);
            steps.push(Step::Placeholder { arg_index: next_arg, spec });
            proof {
                let t = Token::Hole(spec);
                before_assoc(done, t, tokens(fmt@, close + 1));
                let next = done.push(t);
                assert(next.drop_last() =~= done);
                assert(lit@ =~= Seq::empty());
                assert(step_views(steps@) =~= s1.push(
                    StepView::Placeholder { arg_index: next_arg as nat, spec },
                ));
                done = next;
            }
            next_arg = next_arg + 1;
            i = close + 1;
        } else {
            let two = (b == 0x7B || b == 0x7D) && i + 1 < fmt.len() && fmt[i + 1] == b;
            lit.push(b);
            proof {
                let t = Token::Byte(b);
                before_assoc(
                    done,
                    t,
                    tokens(
                        fmt@,
                        if two {
                            i + 2
                        } else {
                            i + 1
                        },
                    ),
                );
                let next = done.push(t);
                assert(next.drop_last() =~= done);
                done = next;
            }
            i = if two {
                i + 2
            } else {
                i + 1
            };
        }
    }
    proof {
        assert(done + Seq::<Token>::empty() =~= done);
    }
    let ghost g = group(done);
    if lit.len() > 0 {
        steps.push(Step::Literal(lit));
        assert(step_views(steps@) =~= flush(g));
    }
    Ok(steps)
}

// ---------------------------------------------------------------------------
//  Laws
// ---------------------------------------------------------------------------

/// `s` with every brace doubled.
pub open spec fn escape(s: Seq<u8>) -> Seq<u8>
    decreases s.len(),
{
    if s.len() == 0 {
        s
    } else if s[0] == 0x7B || s[0] == 0x7D {
        seq![s[0], s[0]] + escape(s.skip(1))
    } else {
        seq![s[0]] + escape(s.skip(1))
    }
}

/// Every byte of `s` as a unit of its own.
pub open spec fn byte_tokens(s: Seq<u8>) -> Seq<Token> {
    Seq::new(s.len(), |i: int| Token::Byte(s[i]))
}

proof fn escaped_tokens(pre: Seq<u8>, s: Seq<u8>)
    ensures
        tokens(pre + escape(s), pre.len() as int) == Ok::<Seq<Token>, Seq<char>>(byte_tokens(s)),
    decreases s.len(),
{
    let f = pre + escape(s);
    if s.len() == 0 {
        assert(byte_tokens(s) =~= Seq::empty());
    } else {
        let rest = s.skip(1);
        let unit: Seq<u8> = if s[0] == 0x7B || s[0] == 0x7D {
            seq![s[0], s[0]]
        } else {
            seq![s[0]]
        };
        escaped_tokens(pre + unit, rest);
        assert(f =~= pre + unit + escape(rest));
        assert(f[pre.len() as int] == unit[0]);
        if unit.len() == 2 {
            assert(f[pre.len() as int + 1] == unit[1]);
        }
        assert(seq![Token::Byte(s[0])] + byte_tokens(rest) =~= byte_tokens(s));
    }
}

proof fn group_bytes(s: Seq<u8>)
    ensures
        group(byte_tokens(s)) == (Group { steps: Seq::empty(), lit: s, args: 0 }),
    decreases s.len(),
{
    if s.len() == 0 {
        assert(s =~= Seq::empty());
    } else {
        let t = byte_tokens(s);
        group_bytes(s.drop_last());
        assert(t.drop_last() =~= byte_tokens(s.drop_last()));
        assert(s.drop_last().push(s.last()) =~= s);
    }
}

/// A text with its braces doubled parses to that text as one literal.
pub proof fn escaped_text_is_literal(s: Seq<u8>)
    ensures
        parsed(escape(s)) == Ok::<Seq<StepView>, Seq<char>>(
            if s.len() > 0 {
                seq![StepView::Literal(s)]
            } else {
                Seq::empty()
            },
        ),
{
    escaped_tokens(Seq::empty(), s);
    assert(Seq::<u8>::empty() + escape(s) =~= escape(s));
    group_bytes(s);
    if s.len() > 0 {
        assert(Seq::<StepView>::empty().push(StepView::Literal(s)) =~= seq![StepView::Literal(s)]);
    }
}

/// How many of the steps are placeholders.
pub open spec fn hole_count(s: Seq<StepView>) -> nat
    decreases s.len(),
{
    if s.len() == 0 {
        0
    } else {
        hole_count(s.drop_last()) + if s.last() is Placeholder {
            1nat
        } else {
            0nat
        }
    }
}

/// Whether placeholders are numbered from 0 in order and literals are nonempty
/// and never adjacent.
pub open spec fn well_numbered(s: Seq<StepView>) -> bool {
    &&& forall|i: int|
        0 <= i < s.len() && (#[trigger] s[i]) is Placeholder ==> s[i]->Placeholder_arg_index
            == hole_count(s.take(i))
    &&& forall|i: int|
        0 <= i < s.len() && (#[trigger] s[i]) is Literal ==> s[i]->Literal_0.len() > 0 && (i + 1
            < s.len() ==> s[i + 1] is Placeholder)
}

proof fn push_numbered(s: Seq<StepView>, x: StepView)
    requires
        well_numbered(s),
        x is Placeholder ==> x->Placeholder_arg_index == hole_count(s),
        x is Literal ==> x->Literal_0.len() > 0 && (s.len() > 0 ==> s.last() is Placeholder),
    ensures
        well_numbered(s.push(x)),
        hole_count(s.push(x)) == hole_count(s) + if x is Placeholder {
            1nat
        } else {
            0nat
        },
{
    let t = s.push(x);
    assert(t.drop_last() =~= s);
    assert forall|i: int| 0 <= i < t.len() && (#[trigger] t[i]) is Placeholder implies t[i]->Placeholder_arg_index
        == hole_count(t.take(i)) by {
        if i < s.len() {
            assert(s[i] == t[i]);
            assert(t.take(i) =~= s.take(i));
        } else {
            assert(t.take(i) =~= s);
        }
    }
    assert forall|i: int| 0 <= i < t.len() && (#[trigger] t[i]) is Literal implies t[i]->Literal_0.len()
        > 0 && (i + 1 < t.len() ==> t[i + 1] is Placeholder) by {
        if i < s.len() {
            assert(s[i] == t[i]);
            if i + 1 < s.len() {
                assert(s[i + 1] == t[i + 1]);
            } else {
                assert(s.last() == t[i]);
            }
        }
    }
}

proof fn group_numbered(t: Seq<Token>)
    ensures
        well_numbered(group(t).steps),
        hole_count(group(t).steps) == group(t).args,
        group(t).steps.len() > 0 ==> group(t).steps.last() is Placeholder,
    decreases t.len(),
{
    if t.len() > 0 {
        let g = group(t.drop_last());
        group_numbered(t.drop_last());
        match t.last() {
            Token::Byte(_) => {},
            Token::Hole(spec) => {
                if g.lit.len() > 0 {
                    push_numbered(g.steps, StepView::Literal(g.lit));
                }
                push_numbered(flush(g), StepView::Placeholder { arg_index: g.args, spec });
            },
        }
    }
}

/// Placeholders consume the arguments in order, one each, and literal runs are
/// nonempty and maximal.
pub proof fn placeholders_in_order(fmt: Seq<u8>)
    ensures
        parsed(fmt) matches Ok(s) ==> well_numbered(s),
{
    match tokens(fmt, 0) {
        Ok(t) => {
            group_numbered(t);
            let g = group(t);
            if g.lit.len() > 0 {
                push_numbered(g.steps, StepView::Literal(g.lit));
            }
        },
        Err(_) => {},
    }
}

} // verus!
