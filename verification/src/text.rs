//! Strings: comparison, parts and decimal numbers.
use vstd::prelude::*;

use crate::bytes::same_bytes;

verus! {

/// Whether two strings are equal.
pub fn same_str(a: &str, b: &str) -> (r: bool)
    ensures
        r == (a@ == b@),
{
    let r = same_bytes(a.as_bytes(), b.as_bytes());
    proof {
        vstd::utf8::encode_utf8_decode_utf8(a@);
        vstd::utf8::encode_utf8_decode_utf8(b@);
    }
    r
}

/// Whether a string starts with another.
pub fn has_prefix(s: &str, prefix: &str) -> (r: bool)
    ensures
        r == prefix@.is_prefix_of(s@),
{
    let n: usize = prefix.unicode_len();
    if s.unicode_len() < n {
        return false;
    }
    let mut i: usize = 0;
    while i < n
        invariant
            n == prefix@.len(),
            n <= s@.len(),
            i <= n,
            forall|k: int| 0 <= k < i ==> s@[k] == prefix@[k],
        decreases n - i,
    {
        if s.get_char(i) != prefix.get_char(i) {
            assert(s@.subrange(0, n as int)[i as int] != prefix@[i as int]);
            return false;
        }
        i = i + 1;
    }
    assert(prefix@ =~= s@.subrange(0, n as int));
    true
}

/// The position behind the last slash of `s`.
pub open spec fn behind_slash(s: Seq<char>) -> int
    decreases s.len(),
{
    if s.len() == 0 {
        0
    } else if s.last() == '/' {
        s.len() as int
    } else {
        behind_slash(s.drop_last())
    }
}

/// The last component of a path.
pub open spec fn base_of(s: Seq<char>) -> Seq<char> {
    s.skip(behind_slash(s))
}

proof fn behind_slash_in_range(s: Seq<char>)
    ensures
        0 <= behind_slash(s) <= s.len(),
    decreases s.len(),
{
    if s.len() > 0 {
        behind_slash_in_range(s.drop_last());
    }
}

/// The last component of a path.
pub fn basename(path: &str) -> (r: &str)
    ensures
        r@ == base_of(path@),
{
    let n: usize = path.unicode_len();
    let mut i: usize = n;
    proof {
        assert(path@.take(n as int) =~= path@);
        behind_slash_in_range(path@);
    }
    while i > 0
        invariant
            i <= n == path@.len(),
            behind_slash(path@) == behind_slash(path@.take(i as int)),
            0 <= behind_slash(path@) <= n,
        decreases i,
    {
        let ghost t = path@.take(i as int);
        assert(t.last() == path@[i - 1]);
        assert(t.drop_last() =~= path@.take(i - 1));
        if path.get_char(i - 1) == '/' {
            assert(path@.subrange(i as int, n as int) =~= base_of(path@));
            return path.substring_char(i, n);
        }
        i = i - 1;
    }
    assert(base_of(path@) =~= path@);
    path
}

/// The decimal digit of `d`.
pub open spec fn digit(d: int) -> char {
    if d == 0 {
        '0'
    } else if d == 1 {
        '1'
    } else if d == 2 {
        '2'
    } else if d == 3 {
        '3'
    } else if d == 4 {
        '4'
    } else if d == 5 {
        '5'
    } else if d == 6 {
        '6'
    } else if d == 7 {
        '7'
    } else if d == 8 {
        '8'
    } else {
        '9'
    }
}

/// The decimal digits of `n`.
pub open spec fn decimal(n: nat) -> Seq<char>
    decreases n,
{
    if n < 10 {
        seq![digit(n as int)]
    } else {
        decimal(n / 10).push(digit((n % 10) as int))
    }
}

fn digit_str(d: u32) -> (r: &'static str)
    requires
        d < 10,
    ensures
        r@ == seq![digit(d as int)],
{
    proof {
        reveal_strlit("0");
        reveal_strlit("1");
        reveal_strlit("2");
        reveal_strlit("3");
        reveal_strlit("4");
        reveal_strlit("5");
        reveal_strlit("6");
        reveal_strlit("7");
        reveal_strlit("8");
        reveal_strlit("9");
    }
    let r: &'static str = if d == 0 {
        "0"
    } else if d == 1 {
        "1"
    } else if d == 2 {
        "2"
    } else if d == 3 {
        "3"
    } else if d == 4 {
        "4"
    } else if d == 5 {
        "5"
    } else if d == 6 {
        "6"
    } else if d == 7 {
        "7"
    } else if d == 8 {
        "8"
    } else {
        "9"
    };
    assert(r@ =~= seq![digit(d as int)]);
    r
}

/// Appends `n` in decimal.
pub fn push_decimal(s: &mut String, n: u32)
    ensures
        final(s)@ == old(s)@ + decimal(n as nat),
    decreases n,
{
    if n < 10 {
        s.append(digit_str(n));
    } else {
        push_decimal(s, n / 10);
        s.append(digit_str(n % 10));
        assert(s@ =~= old(s)@ + decimal(n as nat));
    }
}

/// Appends a number of up to 128 bits in decimal.
pub fn push_number(s: &mut String, n: u128)
    ensures
        final(s)@ == old(s)@ + decimal(n as nat),
    decreases n,
{
    if n < 10 {
        s.append(digit_str(n as u32));
    } else {
        push_number(s, n / 10);
        s.append(digit_str((n % 10) as u32));
        assert(s@ =~= old(s)@ + decimal(n as nat));
    }
}

proof fn decimal_digits(n: nat)
    ensures
        decimal(n).len() >= 1,
        n >= 10 ==> decimal(n).len() >= 2,
    decreases n,
{
    if n >= 10 {
        decimal_digits(n / 10);
    }
}

proof fn digit_injective(x: int, y: int)
    requires
        0 <= x < 10,
        0 <= y < 10,
        digit(x) == digit(y),
    ensures
        x == y,
{
    assert(digit(x) as u32 == 48 + x);
    assert(digit(y) as u32 == 48 + y);
}

/// Different numbers have different decimals.
pub proof fn decimal_injective(a: nat, b: nat)
    requires
        decimal(a) == decimal(b),
    ensures
        a == b,
    decreases a,
{
    decimal_digits(a);
    decimal_digits(b);
    if a >= 10 && b >= 10 {
        assert(decimal(a).drop_last() =~= decimal(a / 10));
        assert(decimal(b).drop_last() =~= decimal(b / 10));
        assert(decimal(a).last() == digit((a % 10) as int));
        assert(decimal(b).last() == digit((b % 10) as int));
        digit_injective((a % 10) as int, (b % 10) as int);
        decimal_injective(a / 10, b / 10);
    } else if a < 10 && b < 10 {
        assert(decimal(a)[0] == digit(a as int));
        assert(decimal(b)[0] == digit(b as int));
        digit_injective(a as int, b as int);
    } else if a >= 10 {
        assert(decimal(b).len() == 1);
    } else {
        assert(decimal(a).len() == 1);
    }
}

/// Whether `c` may stand in a symbol.
pub open spec fn symbol_char(c: char) -> bool {
    ('a' <= c && c <= 'z') || ('A' <= c && c <= 'Z') || ('0' <= c && c <= '9') || c == '_'
}

/// `s` with every other character as `_`.
pub open spec fn symbol_chars(s: Seq<char>) -> Seq<char> {
    Seq::new(
        s.len(),
        |i: int|
            if symbol_char(s[i]) {
                s[i]
            } else {
                '_'
            },
    )
}

/// A valid symbol made of a name.
pub open spec fn symbol_of(s: Seq<char>) -> Seq<char> {
    if s.len() == 0 {
        seq!['_']
    } else {
        symbol_chars(s)
    }
}

/// A valid symbol made of a name: other characters become `_`.
pub fn sanitize_symbol(name: &str) -> (r: String)
    ensures
        r@ == symbol_of(name@),
{
    proof {
        reveal_strlit("_");
        assert("_"@ =~= seq!['_']);
    }
    let n: usize = name.unicode_len();
    let mut out = String::from_str("");
    let mut i: usize = 0;
    proof {
        reveal_strlit("");
        assert(out@ =~= symbol_chars(name@.take(0)));
    }
    while i < n
        invariant
            i <= n == name@.len(),
            out@ == symbol_chars(name@.take(i as int)),
            "_"@ == seq!['_'],
        decreases n - i,
    {
        let c = name.get_char(i);
        if ('a' <= c && c <= 'z') || ('A' <= c && c <= 'Z') || ('0' <= c && c <= '9') || c == '_' {
            out.append(name.substring_char(i, i + 1));
        } else {
            out.append("_");
        }
        assert(out@ =~= symbol_chars(name@.take(i + 1)));
        i = i + 1;
    }
    assert(name@.take(i as int) =~= name@);
    if n == 0 {
        out.append("_");
        assert(out@ =~= seq!['_']);
    }
    out
}

/// Whether `s` is among the first `n` of `names`.
pub open spec fn taken(names: Seq<Seq<char>>, s: Seq<char>) -> bool {
    exists|i: int| 0 <= i < names.len() && #[trigger] names[i] == s
}

/// What a list of strings holds.
pub open spec fn string_views(v: Seq<String>) -> Seq<Seq<char>> {
    Seq::new(v.len(), |i: int| v[i]@)
}

/// The candidate with number `n` for a symbol.
pub open spec fn numbered(base: Seq<char>, n: nat) -> Seq<char> {
    base + seq!['_'] + decimal(n)
}

/// The first candidate from number `n` on that is not taken.
pub open spec fn first_free(base: Seq<char>, names: Seq<Seq<char>>, n: nat, fuel: nat) -> Seq<char>
    decreases fuel,
{
    if fuel == 0 || !taken(names, numbered(base, n)) {
        numbered(base, n)
    } else {
        first_free(base, names, n + 1, (fuel - 1) as nat)
    }
}

/// `base` itself where it is free, else the first free one of `base_2`, `base_3`,
/// and so on.
pub open spec fn unique(base: Seq<char>, names: Seq<Seq<char>>) -> Seq<char> {
    if !taken(names, base) {
        base
    } else {
        first_free(base, names, 2, names.len())
    }
}

fn is_taken(names: &Vec<String>, s: &str) -> (r: bool)
    ensures
        r == taken(string_views(names@), s@),
{
    let mut i: usize = 0;
    while i < names.len()
        invariant
            i <= names@.len(),
            forall|k: int| 0 <= k < i ==> #[trigger] string_views(names@)[k] != s@,
        decreases names@.len() - i,
    {
        if same_str(names[i].as_str(), s) {
            assert(string_views(names@)[i as int] == s@);
            return true;
        }
        i = i + 1;
    }
    false
}

/// `base`, or the first free one of `base_2`, `base_3` and so on.
pub fn unique_symbol(base: &str, used: &Vec<String>) -> (r: String)
    requires
        used@.len() < 0xFFFF_FFFE,
    ensures
        r@ == unique(base@, string_views(used@)),
{
    if !is_taken(used, base) {
        return String::from_str(base);
    }
    let ghost names = string_views(used@);
    let mut n: u32 = 2;
    let mut left: usize = used.len();
    proof {
        reveal_strlit("_");
        assert("_"@ =~= seq!['_']);
    }
    loop
        invariant
            names == string_views(used@),
            left <= used@.len() < 0xFFFF_FFFE,
            n + left == 2 + used@.len(),
            unique(base@, names) == first_free(base@, names, n as nat, left as nat),
            "_"@ == seq!['_'],
        decreases left,
    {
        let mut c = String::from_str(base);
        c.append("_");
        push_decimal(&mut c, n);
        assert(c@ =~= numbered(base@, n as nat));
        if left == 0 || !is_taken(used, c.as_str()) {
            return c;
        }
        n = n + 1;
        left = left - 1;
    }
}

/// The positions of the names in `names` that equal a candidate from `n` on, for
/// `fuel` candidates, are all different.
proof fn candidates_take_room(
    base: Seq<char>,
    names: Seq<Seq<char>>,
    n: nat,
    fuel: nat,
) -> (at: Seq<
    int,
>)
    requires
        forall|k: nat| n <= k < n + fuel ==> taken(names, #[trigger] numbered(base, k)),
    ensures
        at.len() == fuel,
        forall|i: int|
            0 <= i < fuel ==> 0 <= #[trigger] at[i] < names.len() && names[at[i]] == numbered(
                base,
                (n + i) as nat,
            ),
    decreases fuel,
{
    if fuel == 0 {
        Seq::empty()
    } else {
        let before = candidates_take_room(base, names, n, (fuel - 1) as nat);
        let last = (n + fuel - 1) as nat;
        assert(taken(names, numbered(base, last)));
        let k = choose|k: int| 0 <= k < names.len() && #[trigger] names[k] == numbered(base, last);
        before.push(k)
    }
}

proof fn numbered_injective(base: Seq<char>, a: nat, b: nat)
    requires
        numbered(base, a) == numbered(base, b),
    ensures
        a == b,
{
    assert(numbered(base, a).skip(base.len() as int + 1) =~= decimal(a));
    assert(numbered(base, b).skip(base.len() as int + 1) =~= decimal(b));
    decimal_injective(a, b);
}

proof fn first_free_is_free(base: Seq<char>, names: Seq<Seq<char>>, n: nat, fuel: nat)
    requires
        exists|k: nat| n <= k <= n + fuel && !taken(names, #[trigger] numbered(base, k)),
    ensures
        !taken(names, first_free(base, names, n, fuel)),
    decreases fuel,
{
    let k = choose|k: nat| n <= k <= n + fuel && !taken(names, #[trigger] numbered(base, k));
    if fuel > 0 && taken(names, numbered(base, n)) {
        assert(k != n);
        assert(n + 1 <= k <= n + 1 + (fuel - 1));
        first_free_is_free(base, names, n + 1, (fuel - 1) as nat);
    }
}

/// A sequence of different numbers below `n` has at most `n` entries.
proof fn pigeonhole(at: Seq<int>, n: nat)
    requires
        forall|i: int| 0 <= i < at.len() ==> 0 <= #[trigger] at[i] < n,
        forall|i: int, j: int| 0 <= i < j < at.len() ==> #[trigger] at[i] != #[trigger] at[j],
    ensures
        at.len() <= n,
{
    assert(at.no_duplicates());
    at.unique_seq_to_set();
    let all = vstd::set_lib::set_int_range(0, n as int);
    vstd::set_lib::lemma_int_range(0, n as int);
    assert(at.to_set().subset_of(all));
    vstd::set_lib::lemma_len_subset(at.to_set(), all);
}

/// The symbol that is chosen is not taken.
pub proof fn unique_is_free(base: Seq<char>, names: Seq<Seq<char>>)
    ensures
        !taken(names, unique(base, names)),
{
    if taken(names, base) {
        if forall|k: nat|
            2 <= k < 2 + (names.len() + 1) ==> taken(names, #[trigger] numbered(base, k)) {
            let at = candidates_take_room(base, names, 2, names.len() + 1);
            assert forall|i: int, j: int| 0 <= i < j < at.len() implies #[trigger] at[i]
                != #[trigger] at[j] by {
                if at[i] == at[j] {
                    numbered_injective(base, (2 + i) as nat, (2 + j) as nat);
                }
            }
            pigeonhole(at, names.len());
        }
        assert(exists|k: nat|
            2 <= k <= 2 + names.len() && !taken(names, #[trigger] numbered(base, k)));
        first_free_is_free(base, names, 2, names.len());
    }
}

} // verus!
