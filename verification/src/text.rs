//! Text: numbers written out, names quoted and ordered, and paths taken apart.

use vstd::prelude::*;

verus! {

/// The digit for `d`.
pub open spec fn digit(d: nat) -> char {
    if d == 0 {
        '0'
    } else if d == 1 {
        '1'
    } else if d == 2 {
        '2'
    } else if d == 3 {
        '3'
    } else if d == 4 {
        '4'
    } else if d == 5 {
        '5'
    } else if d == 6 {
        '6'
    } else if d == 7 {
        '7'
    } else if d == 8 {
        '8'
    } else if d == 9 {
        '9'
    } else if d == 10 {
        'a'
    } else if d == 11 {
        'b'
    } else if d == 12 {
        'c'
    } else if d == 13 {
        'd'
    } else if d == 14 {
        'e'
    } else {
        'f'
    }
}

/// `n` in decimal, without leading zeros.
pub open spec fn decimal(n: nat) -> Seq<char>
    decreases n,
{
    if n < 10 {
        seq![digit(n)]
    } else {
        decimal(n / 10).push(digit(n % 10))
    }
}

/// `n` in decimal, with a minus sign where it is negative.
pub open spec fn signed_decimal(n: int) -> Seq<char> {
    if n < 0 {
        seq!['-'] + decimal((-n) as nat)
    } else {
        decimal(n as nat)
    }
}

/// The last `width` hexadecimal digits of `n`, leading zeros included.
pub open spec fn hex(n: nat, width: nat) -> Seq<char>
    decreases width,
{
    if width == 0 {
        Seq::empty()
    } else {
        hex(n / 16, (width - 1) as nat).push(digit(n % 16))
    }
}

/// `String::push` appends one character.
pub assume_specification[ String::push ](s: &mut String, c: char)
    ensures
        final(s)@ == old(s)@.push(c),
;

fn write_digit(d: u64) -> (r: char)
    requires
        d < 16,
    ensures
        r == digit(d as nat),
{
    match d {
        0 => '0',
        1 => '1',
        2 => '2',
        3 => '3',
        4 => '4',
        5 => '5',
        6 => '6',
        7 => '7',
        8 => '8',
        9 => '9',
        10 => 'a',
        11 => 'b',
        12 => 'c',
        13 => 'd',
        14 => 'e',
        _ => 'f',
    }
}

/// `n` in decimal.
pub fn write_decimal(n: u64) -> (r: String)
    ensures
        r@ == decimal(n as nat),
    decreases n,
{
    if n < 10 {
        let mut out = String::new();
        out.push(write_digit(n));
        proof {
            assert(out@ =~= seq![digit(n as nat)]);
        }
        out
    } else {
        let mut out = write_decimal(n / 10);
        out.push(write_digit(n % 10));
        out
    }
}

/// `n` in decimal, signed.
pub fn write_signed(n: i64) -> (r: String)
    ensures
        r@ == signed_decimal(n as int),
{
    if n < 0 {
        let size: u64 = if n == i64::MIN {
            0x8000_0000_0000_0000
        } else {
            (-n) as u64
        };
        let mut out = String::new();
        out.push('-');
        out.append(write_decimal(size).as_str());
        proof {
            assert(out@ =~= seq!['-'] + decimal((-n) as nat));
        }
        out
    } else {
        write_decimal(n as u64)
    }
}

fn write_hex(n: u64, width: usize) -> (r: String)
    ensures
        r@ == hex(n as nat, width as nat),
    decreases width,
{
    if width == 0 {
        let out = String::new();
        proof {
            assert(out@ =~= Seq::<char>::empty());
        }
        out
    } else {
        let mut out = write_hex(n / 16, width - 1);
        out.push(write_digit(n % 16));
        out
    }
}

/// `n` as eight hexadecimal digits.
pub fn write_hex8(n: u32) -> (r: String)
    ensures
        r@ == hex(n as nat, 8),
{
    write_hex(n as u64, 8)
}

/// Text with another behind it.
pub fn joined(a: &str, b: &str) -> (r: String)
    ensures
        r@ == a@ + b@,
{
    let mut out = a.to_owned();
    out.append(b);
    out
}

/// What the standard library's debug formatting makes of a string: quotes around
/// it, and escapes inside.
pub uninterp spec fn quoted(s: Seq<char>) -> Seq<char>;

/// `format!("{:?}", s)`: the string as a programmer would write it. The contract
/// says that the result depends on the characters of `s` alone.
#[verifier::external_body]
pub(crate) fn write_quoted(s: &str) -> (r: String)
    ensures
        r@ == quoted(s@),
{
    format!("{:?}", s)
}

/// Where the first dot of `s` stands, or its end.
pub open spec fn dot_at(s: Seq<char>) -> int
    decreases s.len(),
{
    if s.len() == 0 || s[0] == '.' {
        0
    } else {
        1 + dot_at(s.drop_first())
    }
}

/// Whether `s` has a dot.
pub open spec fn has_dot(s: Seq<char>) -> bool {
    dot_at(s) < s.len()
}

/// What stands before the first dot.
pub open spec fn before_dot(s: Seq<char>) -> Seq<char> {
    s.take(dot_at(s))
}

/// What stands behind the first dot: nothing where there is none.
pub open spec fn after_dot(s: Seq<char>) -> Seq<char> {
    if has_dot(s) {
        s.skip(dot_at(s) + 1)
    } else {
        Seq::empty()
    }
}

/// The first dot stands within `s` or at its end, is a dot in the first case, and
/// has none before it.
pub proof fn dot_bounds(s: Seq<char>)
    ensures
        0 <= dot_at(s) <= s.len(),
        dot_at(s) < s.len() ==> s[dot_at(s)] == '.',
        forall|i: int| 0 <= i < dot_at(s) ==> s[i] != '.',
    decreases s.len(),
{
    if s.len() > 0 && s[0] != '.' {
        let rest = s.drop_first();
        dot_bounds(rest);
        assert forall|i: int| 0 <= i < dot_at(s) implies s[i] != '.' by {
            if i > 0 {
                assert(rest[i - 1] != '.');
            }
        }
    }
}

/// A place with a dot, or the end, behind characters that are none, is the first.
pub proof fn dot_found(s: Seq<char>, i: int)
    requires
        0 <= i <= s.len(),
        i < s.len() ==> s[i] == '.',
        forall|j: int| 0 <= j < i ==> s[j] != '.',
    ensures
        dot_at(s) == i,
    decreases s.len(),
{
    if i > 0 {
        let rest = s.drop_first();
        assert forall|j: int| 0 <= j < i - 1 implies rest[j] != '.' by {
            assert(s[j + 1] != '.');
        }
        dot_found(rest, i - 1);
        assert(s[0] != '.');
    }
}

/// The place of the first dot, in characters.
pub fn find_dot(s: &str) -> (r: usize)
    ensures
        r == dot_at(s@),
        r <= s@.len(),
{
    let n: usize = s.unicode_len();
    let mut i: usize = 0;
    while i < n && s.get_char(i) != '.'
        invariant
            i <= n == s@.len(),
            forall|j: int| 0 <= j < i ==> s@[j] != '.',
        decreases n - i,
    {
        i = i + 1;
    }
    proof {
        dot_found(s@, i as int);
    }
    i
}

/// The parts between the dots of `s`, the empty ones left out.
pub open spec fn pieces(s: Seq<char>) -> Seq<Seq<char>>
    decreases s.len(),
{
    if s.len() == 0 {
        Seq::empty()
    } else {
        let rest = if 0 <= dot_at(s) < s.len() {
            pieces(s.skip(dot_at(s) + 1))
        } else {
            Seq::empty()
        };
        if dot_at(s) == 0 {
            rest
        } else {
            seq![before_dot(s)] + rest
        }
    }
}

/// The characters of each text.
pub open spec fn views(s: Seq<String>) -> Seq<Seq<char>> {
    Seq::new(s.len(), |i: int| s[i]@)
}

/// `s` taken apart at its dots.
pub fn split_dots(s: &str) -> (r: Vec<String>)
    ensures
        views(r@) == pieces(s@),
{
    let n: usize = s.unicode_len();
    let mut out: Vec<String> = Vec::new();
    let mut at: usize = 0;
    proof {
        assert(s@.skip(0) =~= s@);
        assert(views(out@) + pieces(s@) =~= pieces(s@));
    }
    while at < n
        invariant
            at <= n == s@.len(),
            views(out@) + pieces(s@.skip(at as int)) == pieces(s@),
        decreases n - at,
    {
        let rest: &str = s.substring_char(at, n);
        let len: usize = find_dot(rest);
        let ghost left = s@.skip(at as int);
        let ghost before = views(out@);
        proof {
            assert(rest@ =~= left);
            dot_bounds(left);
        }
        if len > 0 {
            out.push(rest.substring_char(0, len).to_owned());
            proof {
                assert(views(out@) =~= before.push(before_dot(left)));
            }
        }
        if len < n - at {
            proof {
                assert(left.skip(len + 1) =~= s@.skip(at + len + 1));
                assert(views(out@) + pieces(s@.skip(at + len + 1)) =~= before + pieces(left));
            }
            at = at + len + 1;
        } else {
            proof {
                assert(s@.skip(n as int).len() == 0);
                assert(views(out@) + pieces(s@.skip(n as int)) =~= before + pieces(left));
            }
            at = n;
        }
    }
    proof {
        assert(s@.skip(at as int).len() == 0);
        assert(views(out@) =~= pieces(s@));
    }
    out
}

/// The number that `s` writes in decimal digits.
pub open spec fn digits_value(s: Seq<char>) -> Option<nat>
    decreases s.len(),
{
    if s.len() == 0 {
        Some(0)
    } else {
        match digits_value(s.drop_last()) {
            Some(n) => if '0' <= s.last() <= '9' {
                Some((10 * n + (s.last() as int - '0' as int)) as nat)
            } else {
                None
            },
            None => None,
        }
    }
}

/// The number that `s` writes: digits, at least one, behind a plus sign or none.
pub open spec fn number(s: Seq<char>) -> Option<nat> {
    let digits = if s.len() > 0 && s[0] == '+' {
        s.skip(1)
    } else {
        s
    };
    if digits.len() == 0 {
        None
    } else {
        digits_value(digits)
    }
}

/// More digits never make a smaller number, nor a number of what is none.
proof fn digits_grow(s: Seq<char>, i: int)
    requires
        0 <= i <= s.len(),
    ensures
        match digits_value(s.take(i)) {
            None => digits_value(s) is None,
            Some(a) => match digits_value(s) {
                None => true,
                Some(b) => a <= b,
            },
        },
    decreases s.len(),
{
    if i == s.len() {
        assert(s.take(i) =~= s);
    } else {
        assert(s.drop_last().take(i) =~= s.take(i));
        digits_grow(s.drop_last(), i);
    }
}

fn digit_value(c: char) -> (r: Option<usize>)
    ensures
        r == (if '0' <= c <= '9' {
            Some((c as int - '0' as int) as usize)
        } else {
            None
        }),
{
    match c {
        '0' => Some(0),
        '1' => Some(1),
        '2' => Some(2),
        '3' => Some(3),
        '4' => Some(4),
        '5' => Some(5),
        '6' => Some(6),
        '7' => Some(7),
        '8' => Some(8),
        '9' => Some(9),
        _ => None,
    }
}

/// The number that `s` writes, where there is one and a `usize` holds it.
pub fn parse_index(s: &str) -> (r: Option<usize>)
    ensures
        r == (match number(s@) {
            Some(n) => if n <= usize::MAX {
                Some(n as usize)
            } else {
                None
            },
            None => None,
        }),
{
    let n: usize = s.unicode_len();
    let start: usize = if n > 0 && s.get_char(0) == '+' {
        1
    } else {
        0
    };
    if start >= n {
        return None;
    }
    let ghost digits = s@.skip(start as int);
    let mut value: usize = 0;
    let mut i: usize = start;
    proof {
        assert(s@.skip(0) =~= s@);
        assert(digits.take(0).len() == 0);
    }
    while i < n
        invariant
            start <= i <= n == s@.len(),
            digits == s@.skip(start as int),
            digits_value(digits.take(i - start)) == Some(value as nat),
            start < n,
            number(s@) == digits_value(digits),
        decreases n - i,
    {
        let c: char = s.get_char(i);
        proof {
            let next = digits.take(i - start + 1);
            assert(next.drop_last() =~= digits.take(i - start));
            assert(next.last() == c);
            digits_grow(digits, i - start + 1);
        }
        let d: usize = match digit_value(c) {
            Some(d) => d,
            None => {
                return None;
            },
        };
        match value.checked_mul(10) {
            Some(tens) => match tens.checked_add(d) {
                Some(next) => {
                    value = next;
                },
                None => {
                    return None;
                },
            },
            None => {
                return None;
            },
        }
        i = i + 1;
    }
    proof {
        assert(digits.take(i - start) =~= digits);
    }
    Some(value)
}

/// A number written out in decimal reads back as itself.
pub proof fn decimal_reads_back(n: nat)
    ensures
        number(decimal(n)) == Some(n),
        digits_value(decimal(n)) == Some(n),
        decimal(n).len() > 0,
        !decimal(n).contains('.'),
        !decimal(n).contains('+'),
    decreases n,
{
    if n < 10 {
        assert(decimal(n).drop_last() =~= Seq::empty());
        assert(decimal(n) =~= seq![digit(n)]);
        assert(digits_value(decimal(n).drop_last()) == Some(0nat));
    } else {
        decimal_reads_back(n / 10);
        let front = decimal(n / 10);
        assert(decimal(n).drop_last() =~= front);
        assert(decimal(n).last() == digit(n % 10));
        assert forall|i: int| 0 <= i < decimal(n).len() implies decimal(n)[i] != '.' && decimal(
            n,
        )[i] != '+' by {
            if i < front.len() {
                assert(front.contains(front[i]));
            }
        }
    }
    assert(decimal(n)[0] != '+') by {
        assert(decimal(n).contains(decimal(n)[0]));
    }
}

/// Whether `a` comes before `b`: by the first character in which they differ, and
/// a text before what it is the beginning of.
pub open spec fn before(a: Seq<char>, b: Seq<char>) -> bool
    decreases a.len(),
{
    if b.len() == 0 {
        false
    } else if a.len() == 0 {
        true
    } else if a[0] == b[0] {
        before(a.drop_first(), b.drop_first())
    } else {
        (a[0] as int) < b[0] as int
    }
}

/// Texts are in order one way only, and two that are not in order either way are
/// the same.
pub proof fn order_is_total(a: Seq<char>, b: Seq<char>)
    ensures
        a == b ==> !before(a, b),
        before(a, b) ==> !before(b, a),
        !before(a, b) && !before(b, a) ==> a == b,
    decreases a.len(),
{
    if a.len() > 0 && b.len() > 0 {
        order_is_total(a.drop_first(), b.drop_first());
        if a[0] == b[0] && a.drop_first() == b.drop_first() {
            assert(a =~= seq![a[0]] + a.drop_first());
            assert(b =~= seq![b[0]] + b.drop_first());
        }
    } else if a.len() == 0 && b.len() == 0 {
        assert(a =~= b);
    }
}

/// The order of texts carries over.
pub proof fn order_carries(a: Seq<char>, b: Seq<char>, c: Seq<char>)
    requires
        before(a, b),
        before(b, c),
    ensures
        before(a, c),
    decreases a.len(),
{
    if a.len() > 0 && a[0] == b[0] && b[0] == c[0] {
        order_carries(a.drop_first(), b.drop_first(), c.drop_first());
    }
}

/// Whether `a` comes before `b`.
pub fn comes_before(a: &str, b: &str) -> (r: bool)
    ensures
        r == before(a@, b@),
{
    let n: usize = a.unicode_len();
    let m: usize = b.unicode_len();
    let mut i: usize = 0;
    proof {
        assert(a@.skip(0) =~= a@);
        assert(b@.skip(0) =~= b@);
    }
    loop
        invariant
            i <= n == a@.len(),
            i <= m == b@.len(),
            before(a@, b@) == before(a@.skip(i as int), b@.skip(i as int)),
        decreases n - i,
    {
        if i == m {
            return false;
        }
        if i == n {
            return true;
        }
        let x: char = a.get_char(i);
        let y: char = b.get_char(i);
        if x != y {
            return (x as u32) < y as u32;
        }
        proof {
            assert(a@.skip(i as int).drop_first() =~= a@.skip(i + 1));
            assert(b@.skip(i as int).drop_first() =~= b@.skip(i + 1));
        }
        i = i + 1;
    }
}

/// `s` without the `c`s that it ends in.
pub open spec fn trimmed(s: Seq<char>, c: char) -> Seq<char>
    decreases s.len(),
{
    if s.len() > 0 && s.last() == c {
        trimmed(s.drop_last(), c)
    } else {
        s
    }
}

/// `s` without the `c`s that it ends in.
pub fn trim_end(s: &str, c: char) -> (r: String)
    ensures
        r@ == trimmed(s@, c),
{
    let mut n: usize = s.unicode_len();
    proof {
        assert(s@.take(n as int) =~= s@);
    }
    while n > 0 && s.get_char(n - 1) == c
        invariant
            n <= s@.len(),
            trimmed(s@.take(n as int), c) == trimmed(s@, c),
        decreases n,
    {
        proof {
            assert(s@.take(n as int).drop_last() =~= s@.take(n - 1));
        }
        n = n - 1;
    }
    let out: String = s.substring_char(0, n).to_owned();
    proof {
        assert(out@ =~= s@.take(n as int));
    }
    out
}

} // verus!
