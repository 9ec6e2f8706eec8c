//! Building blocks for text: decimal numerals and joined lists.

use vstd::prelude::*;

verus! {

/// The views of a sequence of strings, in order.
pub open spec fn texts(items: Seq<String>) -> Seq<Seq<char>> {
    items.map_values(|s: String| s@)
}

/// The character that writes the digit `d`.
pub open spec fn digit(d: nat) -> char
    recommends
        d < 10,
{
    if d == 0 {
        '0'
    } else if d == 1 {
        '1'
    } else if d == 2 {
        '2'
    } else if d == 3 {
        '3'
    } else if d == 4 {
        '4'
    } else if d == 5 {
        '5'
    } else if d == 6 {
        '6'
    } else if d == 7 {
        '7'
    } else if d == 8 {
        '8'
    } else {
        '9'
    }
}

/// The decimal numeral of `n`: most significant digit first, no leading zero.
pub open spec fn decimal(n: nat) -> Seq<char>
    decreases n,
{
    if n < 10 {
        seq![digit(n)]
    } else {
        decimal(n / 10).push(digit(n % 10))
    }
}

/// The items of `items` in order, with `sep` between each two neighbours.
pub open spec fn joined(items: Seq<Seq<char>>, sep: Seq<char>) -> Seq<char>
    decreases items.len(),
{
    if items.len() == 0 {
        Seq::empty()
    } else if items.len() == 1 {
        items[0]
    } else {
        joined(items.drop_last(), sep) + sep + items.last()
    }
}

/// The digit `d` as a text of one character.
fn digit_text(d: usize) -> (s: &'static str)
    requires
        d < 10,
    ensures
        s@ == seq![digit(d as nat)],
{
    proof {
        reveal_strlit("0");
        reveal_strlit("1");
        reveal_strlit("2");
        reveal_strlit("3");
        reveal_strlit("4");
        reveal_strlit("5");
        reveal_strlit("6");
        reveal_strlit("7");
        reveal_strlit("8");
        reveal_strlit("9");
    }
    let s = if d == 0 {
        "0"
    } else if d == 1 {
        "1"
    } else if d == 2 {
        "2"
    } else if d == 3 {
        "3"
    } else if d == 4 {
        "4"
    } else if d == 5 {
        "5"
    } else if d == 6 {
        "6"
    } else if d == 7 {
        "7"
    } else if d == 8 {
        "8"
    } else {
        "9"
    };
    assert(s@ =~= seq![digit(d as nat)]);
    s
}

/// Appends the decimal numeral of `n` to `out`.
pub fn push_decimal(out: &mut String, n: usize)
    ensures
        final(out)@ == old(out)@ + decimal(n as nat),
    decreases n,
{
    if n >= 10 {
        push_decimal(out, n / 10);
    }
    out.append(digit_text(n % 10));
    assert(out@ =~= old(out)@ + decimal(n as nat));
}

/// The decimal numeral of `n`.
pub fn decimal_string(n: usize) -> (out: String)
    ensures
        out@ == decimal(n as nat),
{
    let mut out = String::new();
    push_decimal(&mut out, n);
    assert(out@ =~= decimal(n as nat));
    out
}

/// Joins `items` in order, writing `sep` between each two neighbours.
pub fn join(items: &Vec<String>, sep: &str) -> (out: String)
    ensures
        out@ == joined(texts(items@), sep@),
{
    let mut out = String::new();
    let mut i: usize = 0;
    assert(texts(items@).take(0) =~= Seq::<Seq<char>>::empty());
    while i < items.len()
        invariant
            i <= items.len(),
            out@ == joined(texts(items@).take(i as int), sep@),
        decreases items.len() - i,
    {
        if i > 0 {
            out.append(sep);
        }
        out.append(items[i].as_str());
        proof {
            let before = texts(items@).take(i as int);
            let after = texts(items@).take(i + 1);
            assert(after.drop_last() =~= before);
            assert(after.last() == items@[i as int]@);
            assert(out@ =~= joined(after, sep@));
        }
        i += 1;
    }
    assert(texts(items@).take(items.len() as int) =~= texts(items@));
    out
}

/// The digit that `c` writes; zero for any other character.
pub open spec fn digit_value(c: char) -> nat {
    if c == '1' {
        1
    } else if c == '2' {
        2
    } else if c == '3' {
        3
    } else if c == '4' {
        4
    } else if c == '5' {
        5
    } else if c == '6' {
        6
    } else if c == '7' {
        7
    } else if c == '8' {
        8
    } else if c == '9' {
        9
    } else {
        0
    }
}

/// The number that the decimal numeral `digits` writes.
pub open spec fn decimal_value(digits: Seq<char>) -> nat
    decreases digits.len(),
{
    if digits.len() == 0 {
        0
    } else {
        decimal_value(digits.drop_last()) * 10 + digit_value(digits.last())
    }
}

/// The decimal numeral of a number writes that number, and begins with a
/// zero only for zero itself.
pub proof fn lemma_decimal_reads_back(n: nat)
    ensures
        decimal_value(decimal(n)) == n,
        decimal(n).len() > 0,
        n > 0 ==> decimal(n).first() != '0',
    decreases n,
{
    if n < 10 {
        assert(decimal(n).drop_last() =~= Seq::<char>::empty());
        assert(decimal_value(decimal(n).drop_last()) == 0);
    } else {
        lemma_decimal_reads_back(n / 10);
        assert(decimal(n).drop_last() =~= decimal(n / 10));
        assert(decimal(n).first() == decimal(n / 10).first());
    }
}

/// Whether `c` writes a digit.
pub open spec fn is_digit(c: char) -> bool {
    c == digit(digit_value(c))
}

/// A decimal numeral holds digits only.
pub proof fn lemma_decimal_is_digits(n: nat)
    ensures
        forall|k: int| 0 <= k < decimal(n).len() ==> is_digit(#[trigger] decimal(n)[k]),
    decreases n,
{
    if n >= 10 {
        lemma_decimal_is_digits(n / 10);
    }
    assert forall|k: int| 0 <= k < decimal(n).len() implies is_digit(
        #[trigger] decimal(n)[k],
    ) by {
        if n >= 10 {
            if k < decimal(n / 10).len() {
                assert(decimal(n)[k] == decimal(n / 10)[k]);
            } else {
                assert(decimal(n)[k] == digit(n % 10));
            }
        } else {
            assert(decimal(n)[k] == digit(n));
        }
    }
}

/// A character of a joined list comes from the separator or from one of
/// the items.
pub proof fn lemma_joined_member(items: Seq<Seq<char>>, sep: Seq<char>, c: char)
    requires
        joined(items, sep).contains(c),
    ensures
        sep.contains(c) || exists|i: int| 0 <= i < items.len() && (#[trigger] items[i]).contains(c),
    decreases items.len(),
{
    if items.len() == 1 {
        assert(items[0].contains(c));
    } else if items.len() > 1 {
        let front = joined(items.drop_last(), sep);
        let whole = joined(items, sep);
        let k = choose|k: int| 0 <= k < whole.len() && whole[k] == c;
        if k < front.len() {
            assert(front[k] == c);
            lemma_joined_member(items.drop_last(), sep, c);
            if !sep.contains(c) {
                let i = choose|i: int|
                    0 <= i < items.drop_last().len() && (#[trigger] items.drop_last()[i]).contains(
                        c,
                    );
                assert(items[i] == items.drop_last()[i]);
            }
        } else if k < front.len() + sep.len() {
            assert(sep[k - front.len()] == c);
        } else {
            assert(items.last()[k - front.len() - sep.len()] == c);
            assert(items[items.len() - 1].contains(c));
        }
    }
}

/// Joining two lists in a row joins each and puts one separator between
/// them: the items keep their order.
pub proof fn lemma_joined_concat(a: Seq<Seq<char>>, b: Seq<Seq<char>>, sep: Seq<char>)
    requires
        a.len() > 0,
        b.len() > 0,
    ensures
        joined(a + b, sep) == joined(a, sep) + sep + joined(b, sep),
    decreases b.len(),
{
    if b.len() == 1 {
        assert((a + b).drop_last() =~= a);
        assert(joined(a + b, sep) =~= joined(a, sep) + sep + joined(b, sep));
    } else {
        lemma_joined_concat(a, b.drop_last(), sep);
        assert((a + b).drop_last() =~= a + b.drop_last());
        assert(joined(a + b, sep) =~= joined(a, sep) + sep + joined(b, sep));
    }
}

} // verus!
