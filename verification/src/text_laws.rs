//! What is written can be read: digits stand for their numbers, a path comes apart at its
//! dots, and a value is shown as what it is.

use vstd::arithmetic::power::pow;
use vstd::prelude::*;
use crate::float::{F32, below};
use crate::reflect::FieldRange;
use crate::text::{
    before, before_dot, decimal, decimal_reads_back, digit, dot_found, hex, number, pieces,
    signed_decimal, trimmed,
};
use crate::tweak::{TweakFieldView, ValueView, marked, shortened, shown, step_of};

verus! {

/// The digits go from `0` to `9` and then from `a` to `f`.
pub proof fn digits_are_in_order(d: nat)
    requires
        d < 16,
    ensures
        d < 10 ==> digit(d) as int == '0' as int + d,
        d >= 10 ==> digit(d) as int == 'a' as int + (d - 10),
{
}

/// A number in hexadecimal has as many digits as asked for, and each is that of its own
/// place.
pub proof fn a_hex_digit_is_of_its_place(n: nat, width: nat, k: nat)
    requires
        k < width,
    ensures
        hex(n, width).len() == width,
        hex(n, width)[width - 1 - k] == digit((n as int / pow(16, k) % 16) as nat),
    decreases width,
{
    let front = hex(n / 16, (width - 1) as nat);
    hex_len(n / 16, (width - 1) as nat);
    if k == 0 {
        vstd::arithmetic::power::lemma_pow0(16);
        assert(n as int / 1 == n) by {
            vstd::arithmetic::div_mod::lemma_div_basics(n as int);
        }
        assert(hex(n, width)[width - 1] == digit(n % 16));
    } else {
        a_hex_digit_is_of_its_place(n / 16, (width - 1) as nat, (k - 1) as nat);
        assert(hex(n, width)[width - 1 - k] == front[width - 1 - k]);
        vstd::arithmetic::power::lemma_pow_positive(16, (k - 1) as nat);
        vstd::arithmetic::div_mod::lemma_div_denominator(n as int, 16, pow(16, (k - 1) as nat));
        assert(pow(16, k) == 16 * pow(16, (k - 1) as nat)) by {
            reveal(pow);
        }
    }
}

proof fn hex_len(n: nat, width: nat)
    ensures
        hex(n, width).len() == width,
    decreases width,
{
    if width > 0 {
        hex_len(n / 16, (width - 1) as nat);
    }
}

/// A number with a sign reads back: a minus where it is below zero, and its size in digits.
pub proof fn a_signed_number_reads_back(n: int)
    ensures
        n >= 0 ==> number(signed_decimal(n)) == Some(n as nat),
        n < 0 ==> signed_decimal(n).len() > 1 && signed_decimal(n)[0] == '-' && number(
            signed_decimal(n).skip(1),
        ) == Some((-n) as nat),
{
    if n < 0 {
        decimal_reads_back((-n) as nat);
        assert(signed_decimal(n).skip(1) =~= decimal((-n) as nat));
    } else {
        decimal_reads_back(n as nat);
    }
}

/// Trimming takes off every `c` that a text ends in, and nothing else.
pub proof fn only_the_end_is_trimmed(s: Seq<char>, c: char)
    ensures
        trimmed(s, c).is_prefix_of(s),
        forall|i: int| trimmed(s, c).len() <= i < s.len() ==> #[trigger] s[i] == c,
        trimmed(s, c).len() > 0 ==> trimmed(s, c).last() != c,
    decreases s.len(),
{
    if s.len() > 0 && s.last() == c {
        only_the_end_is_trimmed(s.drop_last(), c);
        let t = trimmed(s.drop_last(), c);
        assert(t =~= s.subrange(0, t.len() as int));
        assert forall|i: int| t.len() <= i < s.len() implies #[trigger] s[i] == c by {
            if i < s.len() - 1 {
                assert(s.drop_last()[i] == s[i]);
            }
        }
    } else {
        assert(s =~= s.subrange(0, s.len() as int));
    }
}

/// A text without a dot is one piece, and of one with a dot the pieces are those in front
/// of it and those behind. Nothing has no piece.
pub proof fn a_path_comes_apart_at_its_dots(a: Seq<char>, b: Seq<char>)
    requires
        !a.contains('.'),
    ensures
        pieces(Seq::<char>::empty()) == Seq::<Seq<char>>::empty(),
        a.len() > 0 ==> pieces(a) == seq![a],
        a.len() > 0 ==> pieces(a + seq!['.'] + b) == seq![a] + pieces(b),
        pieces(seq!['.'] + b) == pieces(b),
{
    assert forall|i: int| 0 <= i < a.len() implies a[i] != '.' by {
        assert(a.contains(a[i]));
    }
    if a.len() > 0 {
        dot_found(a, a.len() as int);
        assert(before_dot(a) =~= a);
        assert(pieces(a) =~= seq![a]);
        let s = a + seq!['.'] + b;
        dot_found(s, a.len() as int);
        assert(before_dot(s) =~= a);
        assert(s.skip(a.len() as int + 1) =~= b);
    }
    let t = seq!['.'] + b;
    dot_found(t, 0);
    assert(t.skip(1) =~= b);
}

/// A number with decimals is shortened by the zeros that it ends in and a point left bare,
/// and by nothing else; one of which nothing or a sign is left is zero.
pub proof fn a_number_loses_only_what_it_does_not_need(s: Seq<char>)
    ensures
        ({
            let r = shortened(s);
            ||| r == seq!['0']
            ||| {
                &&& r.is_prefix_of(s)
                &&& forall|i: int|
                    r.len() <= i < s.len() ==> #[trigger] s[i] == '0' || s[i] == '.'
                &&& r.len() > 0 && r.last() != '.'
                &&& r.last() == '0' ==> r.len() < s.len() && s[r.len() as int] == '.'
            }
        }),
{
    let t = trimmed(s, '0');
    let u = trimmed(t, '.');
    only_the_end_is_trimmed(s, '0');
    only_the_end_is_trimmed(t, '.');
    assert forall|i: int| u.len() <= i < s.len() implies #[trigger] s[i] == '0' || s[i] == '.' by {
        if i < t.len() {
            assert(t[i] == s[i]);
        }
    }
    assert(u =~= s.subrange(0, u.len() as int));
    if u.len() > 0 && u.last() == '0' {
        assert(u.len() < t.len());
        assert(t[u.len() as int] == '.');
        assert(s[u.len() as int] == t[u.len() as int]);
    }
}

/// A value is shown as what it is: a switch as on or off, a whole number in digits, a
/// choice by its name, and a float by its decimals.
pub proof fn a_value_is_shown_as_what_it_is(v: ValueView, decimals: Seq<char>)
    ensures
        v matches ValueView::Bool(b) ==> b ==> shown(v, decimals) == seq!['o', 'n'],
        v matches ValueView::Bool(b) ==> !b ==> shown(v, decimals) == seq!['o', 'f', 'f'],
        v matches ValueView::Int(n) ==> shown(v, decimals) == signed_decimal(n as int),
        v matches ValueView::Choice(name) ==> shown(v, decimals) == name,
        v is Float ==> shown(v, decimals) == shortened(decimals),
{
}

/// A press is worth the step that was declared, where one was; else a hundredth of the
/// range for a float, and one for anything else.
pub proof fn a_press_is_worth_a_step(range: FieldRange, value: ValueView, hundredth: F32)
    ensures
        below(F32(0), range.step) ==> step_of(range, value, hundredth) == range.step,
        !below(F32(0), range.step) && value is Float ==> step_of(range, value, hundredth)
            == hundredth,
        !below(F32(0), range.step) && !(value is Float) ==> step_of(range, value, hundredth) == F32(
            0x3f80_0000,
        ),
{
}

/// A leaf is marked where there is an override for its path, and is as it was otherwise.
pub proof fn what_is_overridden_is_marked(
    fields: Seq<TweakFieldView>,
    overrides: Map<Seq<char>, ValueView>,
    i: int,
)
    requires
        0 <= i < fields.len(),
    ensures
        marked(fields, overrides).len() == fields.len(),
        marked(fields, overrides)[i].overridden <==> overrides.contains_key(fields[i].path),
        marked(fields, overrides)[i].path == fields[i].path,
        marked(fields, overrides)[i].label == fields[i].label,
        marked(fields, overrides)[i].value == fields[i].value,
        marked(fields, overrides)[i].range == fields[i].range,
        marked(fields, overrides)[i].root == fields[i].root,
        marked(fields, overrides)[i].choices == fields[i].choices,
{
}

/// Texts are in the order of a dictionary: by the first character in which they differ, the
/// lower first; and what another one begins with comes before it.
pub proof fn texts_are_in_the_order_of_a_dictionary(a: Seq<char>, b: Seq<char>, i: int)
    requires
        0 <= i <= a.len(),
        i <= b.len(),
        forall|j: int| 0 <= j < i ==> a[j] == b[j],
        i < a.len() && i < b.len() ==> a[i] != b[i],
    ensures
        i < a.len() && i < b.len() ==> before(a, b) == ((a[i] as int) < b[i] as int),
        i == a.len() && i < b.len() ==> before(a, b),
        i == b.len() ==> !before(a, b),
    decreases i,
{
    if i > 0 {
        assert(a[0] == b[0]);
        let (c, d) = (a.drop_first(), b.drop_first());
        assert forall|j: int| 0 <= j < i - 1 implies c[j] == d[j] by {
            assert(a[j + 1] == b[j + 1]);
        }
        texts_are_in_the_order_of_a_dictionary(c, d, i - 1);
    }
}

} // verus!
