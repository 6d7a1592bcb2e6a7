//! Strings as sequences of characters: their lexicographic order and the
//! decimal rendering of numbers.

use vstd::prelude::*;
use vstd::std_specs::iter::IteratorSpec;

verus! {

/// The outcome of comparing two strings.
#[derive(Clone, Copy, Debug, PartialEq, Eq, Structural)]
pub enum Order {
    Less,
    Equal,
    Greater,
}

/// `a` comes strictly before `b` in lexicographic order by code point.
pub open spec fn lex_less(a: Seq<char>, b: Seq<char>) -> bool
    decreases a.len(),
{
    if b.len() == 0 {
        false
    } else if a.len() == 0 {
        true
    } else if a[0] != b[0] {
        a[0] < b[0]
    } else {
        lex_less(a.drop_first(), b.drop_first())
    }
}

/// No string comes before itself.
pub proof fn lemma_lex_irreflexive(a: Seq<char>)
    ensures
        !lex_less(a, a),
    decreases a.len(),
{
    if a.len() > 0 {
        lemma_lex_irreflexive(a.drop_first());
    }
}

/// Of two strings at most one comes before the other.
pub proof fn lemma_lex_asymmetric(a: Seq<char>, b: Seq<char>)
    requires
        lex_less(a, b),
    ensures
        !lex_less(b, a),
    decreases a.len(),
{
    if a.len() > 0 && b.len() > 0 && a[0] == b[0] {
        lemma_lex_asymmetric(a.drop_first(), b.drop_first());
    }
}

/// The order is transitive.
pub proof fn lemma_lex_transitive(a: Seq<char>, b: Seq<char>, c: Seq<char>)
    requires
        lex_less(a, b),
        lex_less(b, c),
    ensures
        lex_less(a, c),
    decreases a.len(),
{
    if a.len() > 0 && b.len() > 0 && c.len() > 0 && a[0] == b[0] && b[0] == c[0] {
        lemma_lex_transitive(a.drop_first(), b.drop_first(), c.drop_first());
    }
}

/// Every string of `s` comes strictly before those that follow it.
pub open spec fn ascending(s: Seq<Seq<char>>) -> bool {
    forall|i: int, j: int| 0 <= i < j < s.len() ==> lex_less(#[trigger] s[i], #[trigger] s[j])
}

/// An ascending sequence holds no string twice.
pub proof fn lemma_ascending_no_duplicates(s: Seq<Seq<char>>)
    requires
        ascending(s),
    ensures
        s.no_duplicates(),
{
    assert forall|i: int, j: int| 0 <= i < s.len() && 0 <= j < s.len() && i != j implies s[i]
        != s[j] by {
        lemma_lex_irreflexive(s[i]);
        if i < j {
            assert(lex_less(s[i], s[j]));
        } else {
            assert(lex_less(s[j], s[i]));
        }
    }
}

/// Putting `name` between the strings before it and those after it keeps a
/// sequence ascending.
pub proof fn lemma_insert_ascending(s: Seq<Seq<char>>, at: int, name: Seq<char>)
    requires
        ascending(s),
        0 <= at <= s.len(),
        forall|k: int| 0 <= k < at ==> lex_less(#[trigger] s[k], name),
        at < s.len() ==> lex_less(name, s[at]),
    ensures
        ascending(s.insert(at, name)),
{
    let t = s.insert(at, name);
    assert forall|i: int, j: int| 0 <= i < j < t.len() implies lex_less(
        #[trigger] t[i],
        #[trigger] t[j],
    ) by {
        if j == at {
            assert(t[i] == s[i]);
        } else if i == at {
            assert(t[j] == s[j - 1]);
            if j - 1 > at {
                assert(lex_less(s[at], s[j - 1]));
                lemma_lex_transitive(name, s[at], s[j - 1]);
            }
        } else {
            let oi = if i < at { i } else { i - 1 };
            let oj = if j < at { j } else { j - 1 };
            assert(t[i] == s[oi]);
            assert(t[j] == s[oj]);
            assert(lex_less(s[oi], s[oj]));
        }
    }
}

/// Two ascending sequences that hold the same strings are the same sequence.
pub proof fn lemma_ascending_unique(s: Seq<Seq<char>>, t: Seq<Seq<char>>)
    requires
        ascending(s),
        ascending(t),
        s.to_set() == t.to_set(),
    ensures
        s == t,
    decreases s.len(),
{
    if s.len() == 0 {
        if t.len() > 0 {
            assert(t.contains(t[0]));
            assert(t.to_set().contains(t[0]));
            assert(s.contains(t[0]));
        }
        assert(s =~= t);
    } else if t.len() == 0 {
        assert(s.contains(s[0]));
        assert(s.to_set().contains(s[0]));
        assert(t.contains(s[0]));
    } else {
        // the two least strings agree
        assert(s.contains(s[0]));
        assert(t.to_set().contains(s[0]));
        assert(t.contains(s[0]));
        let p = choose|p: int| 0 <= p < t.len() && t[p] == s[0];
        assert(t.contains(t[0]));
        assert(s.to_set().contains(t[0]));
        assert(s.contains(t[0]));
        let q = choose|q: int| 0 <= q < s.len() && s[q] == t[0];
        if p > 0 {
            assert(lex_less(t[0], t[p]));
            if q > 0 {
                assert(lex_less(s[0], s[q]));
                lemma_lex_asymmetric(t[0], t[p]);
            } else {
                lemma_lex_irreflexive(t[0]);
            }
        }
        assert(s[0] == t[0]);
        let s1 = s.drop_first();
        let t1 = t.drop_first();
        assert(ascending(s1)) by {
            assert forall|i: int, j: int| 0 <= i < j < s1.len() implies lex_less(
                #[trigger] s1[i],
                #[trigger] s1[j],
            ) by {
                assert(lex_less(s[i + 1], s[j + 1]));
            }
        }
        assert(ascending(t1)) by {
            assert forall|i: int, j: int| 0 <= i < j < t1.len() implies lex_less(
                #[trigger] t1[i],
                #[trigger] t1[j],
            ) by {
                assert(lex_less(t[i + 1], t[j + 1]));
            }
        }
        assert(s1.to_set() =~= t1.to_set()) by {
            assert forall|x: Seq<char>| s1.contains(x) <==> t1.contains(x) by {
                lemma_lex_irreflexive(x);
                if s1.contains(x) {
                    let i = choose|i: int| 0 <= i < s1.len() && s1[i] == x;
                    assert(s[i + 1] == x);
                    assert(lex_less(s[0], s[i + 1]));
                    assert(s.contains(x));
                    assert(t.to_set().contains(x));
                    assert(t.contains(x));
                    let j = choose|j: int| 0 <= j < t.len() && t[j] == x;
                    assert(j != 0);
                    assert(t1[j - 1] == x);
                }
                if t1.contains(x) {
                    let i = choose|i: int| 0 <= i < t1.len() && t1[i] == x;
                    assert(t[i + 1] == x);
                    assert(lex_less(t[0], t[i + 1]));
                    assert(t.contains(x));
                    assert(s.to_set().contains(x));
                    assert(s.contains(x));
                    let j = choose|j: int| 0 <= j < s.len() && s[j] == x;
                    assert(j != 0);
                    assert(s1[j - 1] == x);
                }
            }
        }
        lemma_ascending_unique(s1, t1);
        assert(s =~= seq![s[0]] + s1);
        assert(t =~= seq![t[0]] + t1);
    }
}

/// Two sequences with equal heads are equal exactly when their tails are.
proof fn lemma_equal_heads(a: Seq<char>, b: Seq<char>)
    requires
        a.len() > 0,
        b.len() > 0,
        a[0] == b[0],
    ensures
        (a == b) <==> (a.drop_first() == b.drop_first()),
{
    if a.drop_first() == b.drop_first() {
        assert(a =~= seq![a[0]] + a.drop_first());
        assert(b =~= seq![b[0]] + b.drop_first());
    }
}

/// Compares two strings in lexicographic order by code point.
pub fn order_of(a: &str, b: &str) -> (r: Order)
    ensures
        r == Order::Less <==> lex_less(a@, b@),
        r == Order::Equal <==> a@ == b@,
        r == Order::Greater <==> lex_less(b@, a@),
{
    broadcast use vstd::string::group_string_axioms;

    let mut left = a.chars();
    let mut right = b.chars();
    loop
        invariant
            lex_less(a@, b@) == lex_less(left.remaining(), right.remaining()),
            lex_less(b@, a@) == lex_less(right.remaining(), left.remaining()),
            (a@ == b@) == (left.remaining() == right.remaining()),
            left.decrease() is Some,
        decreases left.decrease()->0,
    {
        let ghost rest_left = left.remaining();
        let ghost rest_right = right.remaining();
        let x = left.next();
        let y = right.next();
        match (x, y) {
            (None, None) => {
                assert(rest_left =~= rest_right);
                return Order::Equal;
            },
            (None, Some(_)) => {
                return Order::Less;
            },
            (Some(_), None) => {
                return Order::Greater;
            },
            (Some(p), Some(q)) => {
                if p < q {
                    return Order::Less;
                }
                if q < p {
                    return Order::Greater;
                }
                proof {
                    lemma_equal_heads(rest_left, rest_right);
                }
            },
        }
    }
}

/// The character that stands for the decimal digit `d`.
pub open spec fn digit(d: nat) -> char {
    if d == 0 {
        '0'
    } else if d == 1 {
        '1'
    } else if d == 2 {
        '2'
    } else if d == 3 {
        '3'
    } else if d == 4 {
        '4'
    } else if d == 5 {
        '5'
    } else if d == 6 {
        '6'
    } else if d == 7 {
        '7'
    } else if d == 8 {
        '8'
    } else {
        '9'
    }
}

/// The decimal digits of `n`, most significant first, without leading zeros.
pub open spec fn decimal(n: nat) -> Seq<char>
    decreases n,
{
    if n < 10 {
        seq![digit(n)]
    } else {
        decimal(n / 10).push(digit(n % 10))
    }
}

/// `n` in decimal, filled with zeros on the left to a width of two; the sign
/// of a negative number counts towards the width.
pub open spec fn zero_padded(n: int) -> Seq<char> {
    if n < 0 {
        seq!['-'] + decimal((-n) as nat)
    } else if n < 10 {
        seq!['0'] + decimal(n as nat)
    } else {
        decimal(n as nat)
    }
}

/// A number has at least one digit, and from ten on at least two.
pub proof fn lemma_decimal_len(n: nat)
    ensures
        decimal(n).len() >= 1,
        n >= 10 ==> decimal(n).len() >= 2,
    decreases n,
{
    if n >= 10 {
        lemma_decimal_len(n / 10);
    }
}

/// The first digit of a number is no sign, and it is no zero unless the
/// number is zero.
pub proof fn lemma_decimal_first(n: nat)
    ensures
        decimal(n)[0] != '-',
        n >= 1 ==> decimal(n)[0] != '0',
    decreases n,
{
    if n >= 10 {
        lemma_decimal_first(n / 10);
        lemma_decimal_len(n / 10);
    }
}

/// Different numbers have different digits.
pub proof fn lemma_decimal_injective(a: nat, b: nat)
    requires
        decimal(a) == decimal(b),
    ensures
        a == b,
    decreases a,
{
    lemma_decimal_len(a);
    lemma_decimal_len(b);
    if a < 10 && b < 10 {
        assert(decimal(a)[0] == digit(a));
        assert(decimal(b)[0] == digit(b));
    } else if a >= 10 && b >= 10 {
        let front_a = decimal(a / 10);
        let front_b = decimal(b / 10);
        assert(decimal(a).last() == digit(a % 10));
        assert(decimal(b).last() == digit(b % 10));
        assert(decimal(a).drop_last() =~= front_a);
        assert(decimal(b).drop_last() =~= front_b);
        lemma_decimal_injective(a / 10, b / 10);
    }
}

/// Different numbers have different renderings of width two, so no two
/// numbers share a key.
pub proof fn lemma_zero_padded_injective(a: int, b: int)
    requires
        zero_padded(a) == zero_padded(b),
    ensures
        a == b,
{
    let first_a = if a < 0 { (-a) as nat } else { a as nat };
    let first_b = if b < 0 { (-b) as nat } else { b as nat };
    lemma_decimal_first(first_a);
    lemma_decimal_first(first_b);
    lemma_decimal_len(first_a);
    lemma_decimal_len(first_b);
    let rest_a = if a < 10 { zero_padded(a).skip(1) } else { zero_padded(a) };
    let rest_b = if b < 10 { zero_padded(b).skip(1) } else { zero_padded(b) };
    assert(rest_a =~= decimal(first_a));
    assert(rest_b =~= decimal(first_b));
    assert(zero_padded(a)[0] == zero_padded(b)[0]);
    if a < 0 {
        assert(zero_padded(a)[0] == '-');
        assert(b < 0);
    } else if a < 10 {
        assert(zero_padded(a)[0] == '0');
        assert(0 <= b < 10);
    } else {
        assert(zero_padded(a)[0] == decimal(first_a)[0]);
        assert(b >= 10);
    }
    lemma_decimal_injective(first_a, first_b);
}

/// The one-character string of a decimal digit.
fn digit_str(d: u64) -> (r: &'static str)
    requires
        d < 10,
    ensures
        r@ == seq![digit(d as nat)],
{
    proof {
        reveal_strlit("0");
        reveal_strlit("1");
        reveal_strlit("2");
        reveal_strlit("3");
        reveal_strlit("4");
        reveal_strlit("5");
        reveal_strlit("6");
        reveal_strlit("7");
        reveal_strlit("8");
        reveal_strlit("9");
    }
    let r = if d == 0 {
        "0"
    } else if d == 1 {
        "1"
    } else if d == 2 {
        "2"
    } else if d == 3 {
        "3"
    } else if d == 4 {
        "4"
    } else if d == 5 {
        "5"
    } else if d == 6 {
        "6"
    } else if d == 7 {
        "7"
    } else if d == 8 {
        "8"
    } else {
        "9"
    };
    assert(r@ =~= seq![digit(d as nat)]);
    r
}

/// Renders `n` in decimal.
pub fn decimal_string(n: u64) -> (r: String)
    ensures
        r@ == decimal(n as nat),
    decreases n,
{
    if n < 10 {
        String::from_str(digit_str(n))
    } else {
        let mut r = decimal_string(n / 10);
        r.append(digit_str(n % 10));
        assert(r@ =~= decimal(n as nat));
        r
    }
}

/// Renders `n` in decimal, at least two characters wide.
pub fn zero_padded_string(n: i32) -> (r: String)
    ensures
        r@ == zero_padded(n as int),
{
    let wide: i64 = n as i64;
    if wide < 0 {
        proof {
            reveal_strlit("-");
        }
        let mut r = String::from_str("-");
        let digits = decimal_string((-wide) as u64);
        r.append(digits.as_str());
        assert(r@ =~= zero_padded(n as int));
        r
    } else if wide < 10 {
        proof {
            reveal_strlit("0");
        }
        let mut r = String::from_str("0");
        let digits = decimal_string(wide as u64);
        r.append(digits.as_str());
        assert(r@ =~= zero_padded(n as int));
        r
    } else {
        decimal_string(wide as u64)
    }
}

/// The text of a list of lines: each line, followed by a line feed.
pub open spec fn joined(lines: Seq<Seq<char>>) -> Seq<char>
    decreases lines.len(),
{
    if lines.len() == 0 {
        Seq::empty()
    } else {
        joined(lines.drop_last()) + lines.last() + seq!['\n']
    }
}

/// Puts the lines together, a line feed after each.
pub fn join_lines(lines: &Vec<String>) -> (r: String)
    ensures
        r@ == joined(lines@.map_values(|s: String| s@)),
{
    let ghost all = lines@.map_values(|s: String| s@);
    let mut r = String::new();
    let mut i: usize = 0;
    proof {
        reveal_strlit("\n");
        assert(all.take(0) =~= Seq::<Seq<char>>::empty());
    }
    while i < lines.len()
        invariant
            i <= lines.len(),
            all == lines@.map_values(|s: String| s@),
            r@ == joined(all.take(i as int)),
            "\n"@ == seq!['\n'],
        decreases lines.len() - i,
    {
        proof {
            assert(all.take(i + 1).drop_last() =~= all.take(i as int));
            assert(all.take(i + 1).last() == lines@[i as int]@);
        }
        r.append(lines[i].as_str());
        r.append("\n");
        i += 1;
    }
    proof {
        assert(all.take(i as int) =~= all);
    }
    r
}

} // verus!
