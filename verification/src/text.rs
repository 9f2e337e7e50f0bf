//! The order of texts, and numbers as text.

use vstd::prelude::*;

verus! {

/// `a` comes before `b` in the order of the characters' code points, a proper prefix before what
/// it begins.
pub open spec fn text_less(a: Seq<char>, b: Seq<char>) -> bool
    decreases a.len(),
{
    if a.len() == 0 || b.len() == 0 {
        a.len() < b.len()
    } else if a[0] != b[0] {
        (a[0] as int) < (b[0] as int)
    } else {
        text_less(a.drop_first(), b.drop_first())
    }
}

/// The characters of `text`.
pub fn chars_of(text: &str) -> (r: Vec<char>)
    ensures
        r@ == text@,
{
    let mut r: Vec<char> = Vec::new();
    for c in it: text.chars()
        invariant
            it.seq() == text@,
            r@ == text@.take(it.index() as int),
    {
        r.push(c);
        assert(r@ =~= text@.take(it.index() + 1));
    }
    assert(text@.take(text@.len() as int) =~= text@);
    r
}

/// Whether `a` comes before `b`.
pub fn text_before(a: &str, b: &str) -> (r: bool)
    ensures
        r == text_less(a@, b@),
{
    let x = chars_of(a);
    let y = chars_of(b);
    let mut i: usize = 0;
    assert(x@.skip(0) =~= a@ && y@.skip(0) =~= b@);
    while i < x.len() && i < y.len()
        invariant
            i <= x.len(),
            i <= y.len(),
            text_less(a@, b@) == text_less(x@.skip(i as int), y@.skip(i as int)),
        decreases x.len() - i,
    {
        if x[i] != y[i] {
            return x[i] < y[i];
        }
        assert(x@.skip(i as int).drop_first() =~= x@.skip(i + 1));
        assert(y@.skip(i as int).drop_first() =~= y@.skip(i + 1));
        i += 1;
    }
    x.len() < y.len()
}

/// No text comes before itself.
pub proof fn text_less_is_irreflexive(a: Seq<char>)
    ensures
        !text_less(a, a),
    decreases a.len(),
{
    if a.len() > 0 {
        text_less_is_irreflexive(a.drop_first());
    }
}

/// The order of texts is transitive.
pub proof fn text_less_is_transitive(a: Seq<char>, b: Seq<char>, c: Seq<char>)
    requires
        text_less(a, b),
        text_less(b, c),
    ensures
        text_less(a, c),
    decreases a.len(),
{
    if a.len() > 0 && a[0] == b[0] && b[0] == c[0] {
        text_less_is_transitive(a.drop_first(), b.drop_first(), c.drop_first());
    }
}

/// Of two different texts one comes before the other.
pub proof fn text_less_is_total(a: Seq<char>, b: Seq<char>)
    ensures
        text_less(a, b) || text_less(b, a) || a == b,
    decreases a.len(),
{
    if a.len() == 0 || b.len() == 0 {
        if a.len() == b.len() {
            assert(a =~= b);
        }
    } else if a[0] == b[0] {
        text_less_is_total(a.drop_first(), b.drop_first());
        if a.drop_first() == b.drop_first() {
            assert(a =~= seq![a[0]] + a.drop_first());
            assert(b =~= seq![b[0]] + b.drop_first());
        }
    }
}

/// The decimal digits of `n`.
pub open spec fn decimal(n: nat) -> Seq<char>
    decreases n,
{
    if n < 10 {
        seq![('0' as int + n) as char]
    } else {
        decimal(n / 10).push(('0' as int + n % 10) as char)
    }
}

/// `a` and `b` agree on their first `n` characters and there one of them shows that `a` comes first:
/// it ends, or has the smaller character.
pub open spec fn parts_before(a: Seq<char>, b: Seq<char>, n: int) -> bool {
    &&& 0 <= n <= a.len()
    &&& n < b.len()
    &&& forall|i: int| 0 <= i < n ==> #[trigger] a[i] == b[i]
    &&& n < a.len() ==> (a[n] as int) < (b[n] as int)
}

/// One text comes before another where, at the first place at which they part, it ends or has the
/// character with the smaller code point.
pub proof fn text_less_is_decided_where_they_part(a: Seq<char>, b: Seq<char>)
    ensures
        text_less(a, b) <==> exists|n: int| #[trigger] parts_before(a, b, n),
    decreases a.len(),
{
    if a.len() == 0 || b.len() == 0 {
        if b.len() > 0 {
            assert(parts_before(a, b, 0));
        }
    } else if a[0] != b[0] {
        if (a[0] as int) < (b[0] as int) {
            assert(parts_before(a, b, 0));
        }
        if exists|n: int| #[trigger] parts_before(a, b, n) {
            let n = choose|n: int| #[trigger] parts_before(a, b, n);
            assert(n == 0);
        }
    } else {
        let x = a.drop_first();
        let y = b.drop_first();
        text_less_is_decided_where_they_part(x, y);
        if text_less(x, y) {
            let n = choose|n: int| #[trigger] parts_before(x, y, n);
            assert forall|i: int| 0 <= i < n + 1 implies #[trigger] a[i] == b[i] by {
                if i > 0 {
                    assert(x[i - 1] == y[i - 1]);
                }
            }
            assert(n < x.len() ==> a[n + 1] == x[n]);
            assert(b[n + 1] == y[n]);
            assert(parts_before(a, b, n + 1));
        }
        if exists|n: int| #[trigger] parts_before(a, b, n) {
            let n = choose|n: int| #[trigger] parts_before(a, b, n);
            assert(n > 0);
            assert forall|i: int| 0 <= i < n - 1 implies #[trigger] x[i] == y[i] by {
                assert(a[i + 1] == b[i + 1]);
            }
            assert(parts_before(x, y, n - 1));
        }
    }
}

/// The decimal digits of a number are digits, the first of several is not zero, and read from left to
/// right they have the value of the number.
pub proof fn decimal_has_the_value(n: nat)
    ensures
        forall|i: int|
            0 <= i < decimal(n).len() ==> '0' <= #[trigger] decimal(n)[i] <= '9',
        decimal(n).len() > 0,
        decimal(n).len() > 1 ==> decimal(n)[0] != '0',
        decimal(n).fold_left(0, |value: int, digit: char| 10 * value + (digit as int - '0' as int))
            == n,
    decreases n,
{
    let read = |value: int, digit: char| 10 * value + (digit as int - '0' as int);
    let last = ('0' as int + n % 10) as char;
    assert(last as int == '0' as int + n % 10);
    if n < 10 {
        assert(decimal(n) =~= seq![last]);
        assert(decimal(n).drop_last() =~= Seq::<char>::empty());
        assert(Seq::<char>::empty().fold_left(0, read) == 0);
    } else {
        decimal_has_the_value(n / 10);
        assert(decimal(n).drop_last() =~= decimal(n / 10));
        assert(decimal(n).last() == last);
        assert(decimal(n)[0] == decimal(n / 10)[0]);
        if decimal(n / 10).len() == 1 {
            assert(n / 10 > 0);
            if n / 10 >= 10 {
                decimal_has_the_value(n / 100);
            }
        }
        assert forall|i: int| 0 <= i < decimal(n).len() implies '0' <= #[trigger] decimal(n)[i]
            <= '9' by {
            if i < decimal(n / 10).len() {
                assert(decimal(n)[i] == decimal(n / 10)[i]);
            }
        }
    }
}

} // verus!
