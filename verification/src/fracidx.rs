//! Fractional indices that order playlist items.
//!
//! A position is a string of digits `0-9A-Za-z` (ascending in ASCII, so
//! comparing keys char by char gives their numeric order). A key is an
//! integer part, whose first letter says how long it is, followed by a
//! fraction that never ends in `'0'`. Between any two keys another one fits.
use vstd::prelude::*;

use crate::strutil::{chars_of, concat, push_range, slice_of, string_of};

verus! {

// ---------------------------------------------------------------------------
// Digits
// ---------------------------------------------------------------------------

/// Number of digits in the alphabet.
pub const BASE: usize = 62;

pub open spec fn is_digit(c: char) -> bool {
    ||| '0' <= c <= '9'
    ||| 'A' <= c <= 'Z'
    ||| 'a' <= c <= 'z'
}

/// Value of a digit; a char outside the alphabet counts as `0`.
pub open spec fn digit_value(c: char) -> int {
    if '0' <= c <= '9' {
        c as int - '0' as int
    } else if 'A' <= c <= 'Z' {
        c as int - 'A' as int + 10
    } else if 'a' <= c <= 'z' {
        c as int - 'a' as int + 36
    } else {
        0
    }
}

/// The digit with value `d` (`0 <= d < 62`).
pub open spec fn digit_char(d: int) -> char {
    if d < 10 {
        ('0' as int + d) as char
    } else if d < 36 {
        ('A' as int + d - 10) as char
    } else {
        ('a' as int + d - 36) as char
    }
}

pub open spec fn all_digits(s: Seq<char>) -> bool {
    forall|i: int| 0 <= i < s.len() ==> is_digit(#[trigger] s[i])
}

pub open spec fn ascii(s: Seq<char>) -> bool {
    forall|i: int| 0 <= i < s.len() ==> (#[trigger] s[i]) <= '\u{7f}'
}

pub proof fn lemma_char_facts(c: char)
    ensures
        c == (c as int) as char,
        (c != '\0') == (c as nat != 0),
        (c <= '\u{7f}') == ((c as nat) < 128),
{
}

fn char_code(c: char) -> (r: u32)
    ensures
        r == c as nat,
{
    c as u32
}

pub open spec fn digit_values(s: Seq<char>) -> Seq<int> {
    s.map_values(|c: char| digit_value(c))
}

/// Digits back to chars, values above the alphabet clamped to its last digit.
pub open spec fn digits_to_key(ds: Seq<int>) -> Seq<char> {
    ds.map_values(|d: int| digit_char(if d < 61 { d } else { 61 }))
}

pub open spec fn zeros(n: nat) -> Seq<char> {
    Seq::new(n, |i: int| '0')
}

// ---------------------------------------------------------------------------
// Order
// ---------------------------------------------------------------------------

/// Lexicographic order of keys, char by char.
pub open spec fn key_lt(x: Seq<char>, y: Seq<char>) -> bool
    decreases x.len(),
{
    if x.len() == 0 {
        y.len() > 0
    } else if y.len() == 0 {
        false
    } else if (x[0] as u32) < (y[0] as u32) {
        true
    } else if x[0] == y[0] {
        key_lt(x.drop_first(), y.drop_first())
    } else {
        false
    }
}

// ---------------------------------------------------------------------------
// Integer parts
// ---------------------------------------------------------------------------

pub open spec fn is_head(c: char) -> bool {
    ||| 'a' <= c <= 'z'
    ||| 'A' <= c <= 'Z'
}

/// Length of the integer part that starts with `head`: `a` → 2 … `z` → 27,
/// `Z` → 2 … `A` → 27; anything else counts as 2.
pub open spec fn integer_len_spec(head: char) -> int {
    if 'a' <= head <= 'z' {
        head as int - 'a' as int + 2
    } else if 'A' <= head <= 'Z' {
        'Z' as int - head as int + 2
    } else {
        2
    }
}

pub open spec fn integer_part_spec(key: Seq<char>) -> Seq<char> {
    if key.len() == 0 {
        key
    } else if integer_len_spec(key[0]) <= key.len() {
        key.take(integer_len_spec(key[0]))
    } else {
        key
    }
}

/// The least integer part: `A` and 26 zeros. Nothing fits below it.
pub open spec fn smallest_integer() -> Seq<char> {
    seq!['A'] + zeros(26)
}

/// Adds one to a digit string, from the right; the flag is the carry out.
pub open spec fn inc_digits(ds: Seq<int>) -> (Seq<int>, bool)
    decreases ds.len(),
{
    if ds.len() == 0 {
        (ds, true)
    } else if ds.last() + 1 == 62 {
        let (p, c) = inc_digits(ds.drop_last());
        (p.push(0), c)
    } else {
        (ds.drop_last().push(ds.last() + 1), false)
    }
}

/// Subtracts one from a digit string, from the right; the flag is the borrow.
pub open spec fn dec_digits(ds: Seq<int>) -> (Seq<int>, bool)
    decreases ds.len(),
{
    if ds.len() == 0 {
        (ds, true)
    } else if ds.last() == 0 {
        let (p, c) = dec_digits(ds.drop_last());
        (p.push(61), c)
    } else {
        (ds.drop_last().push(ds.last() - 1), false)
    }
}

pub open spec fn drop_last_or_empty(ds: Seq<int>) -> Seq<int> {
    if ds.len() == 0 {
        ds
    } else {
        ds.drop_last()
    }
}

/// The next integer part; `None` above the largest one.
pub open spec fn increment_spec(x: Seq<char>) -> Option<Seq<char>> {
    if x.len() == 0 {
        None
    } else {
        let head = x[0];
        let (nd, carry) = inc_digits(digit_values(x.drop_first()));
        if !carry {
            Some(seq![head] + digits_to_key(nd))
        } else if head == 'Z' {
            Some(seq!['a', '0'])
        } else if head == 'z' {
            None
        } else {
            let next = (head as int + 1) as char;
            if (next as int) > ('a' as int) {
                Some(seq![next] + digits_to_key(nd.push(0)))
            } else {
                Some(seq![next] + digits_to_key(drop_last_or_empty(nd)))
            }
        }
    }
}

/// The previous integer part; `None` below the smallest one.
pub open spec fn decrement_spec(x: Seq<char>) -> Option<Seq<char>> {
    if x.len() == 0 {
        None
    } else {
        let head = x[0];
        let (nd, borrow) = dec_digits(digit_values(x.drop_first()));
        if !borrow {
            Some(seq![head] + digits_to_key(nd))
        } else if head == 'a' {
            Some(seq!['Z', 'z'])
        } else if head == 'A' {
            None
        } else {
            let prev = (head as int - 1) as char;
            if (prev as int) < ('Z' as int) {
                Some(seq![prev] + digits_to_key(nd.push(61)))
            } else {
                Some(seq![prev] + digits_to_key(drop_last_or_empty(nd)))
            }
        }
    }
}

// ---------------------------------------------------------------------------
// Fractions
// ---------------------------------------------------------------------------

/// How many leading chars of `b` agree with `a` padded on the right by `'0'`.
pub open spec fn common_len(a: Seq<char>, b: Seq<char>) -> nat
    decreases b.len(),
{
    if b.len() == 0 {
        0
    } else {
        let x = if a.len() == 0 { '0' } else { a[0] };
        if x == b[0] {
            1 + common_len(if a.len() == 0 { a } else { a.drop_first() }, b.drop_first())
        } else {
            0
        }
    }
}

pub open spec fn opt_len(b: Option<Seq<char>>) -> nat {
    match b {
        Some(s) => s.len(),
        None => 0,
    }
}

pub open spec fn first_digit_or(s: Seq<char>, dflt: int) -> int {
    if s.len() == 0 {
        dflt
    } else {
        digit_value(s[0])
    }
}

/// A fraction strictly between `a` and `b`; `b = None` stands for 1.
pub open spec fn midpoint_spec(a: Seq<char>, b: Option<Seq<char>>) -> Seq<char>
    decreases a.len() + opt_len(b),
{
    let common: nat = match b {
        Some(bb) => common_len(a, bb),
        None => 0,
    };
    if b is Some && common > 0 {
        let bb = b->0;
        let tail_a = if common <= a.len() { a.skip(common as int) } else { Seq::<char>::empty() };
        proof {
            lemma_common_len_bound(a, bb);
        }
        bb.take(common as int) + midpoint_spec(tail_a, Some(bb.skip(common as int)))
    } else {
        let da = first_digit_or(a, 0);
        let db = match b {
            Some(bb) => first_digit_or(bb, 62),
            None => 62,
        };
        if db > da + 1 {
            seq![digit_char((da + db + 1) / 2)]
        } else if b is Some && b->0.len() > 1 {
            b->0.take(1)
        } else {
            let head = if a.len() == 0 { '0' } else { a[0] };
            proof {
                lemma_digit_value_range(if a.len() == 0 { '0' } else { a[0] });
            }
            seq![head] + midpoint_spec(if a.len() == 0 { a } else { a.drop_first() }, None)
        }
    }
}

// ---------------------------------------------------------------------------
// Keys
// ---------------------------------------------------------------------------

/// A key as `between` produces it: a valid integer part followed by a
/// fraction of digits that does not end in `'0'`.
pub open spec fn well_formed_key(k: Seq<char>) -> bool {
    &&& k.len() >= 1
    &&& is_head(k[0])
    &&& k.len() >= integer_len_spec(k[0])
    &&& all_digits(k.drop_first())
    &&& (k.len() > integer_len_spec(k[0]) ==> k.last() != '0')
}

/// A key that another key can be placed before.
pub open spec fn valid_key(k: Seq<char>) -> bool {
    well_formed_key(k) && k != smallest_integer()
}

pub open spec fn opt_str_view(s: Option<&str>) -> Option<Seq<char>> {
    match s {
        Some(s) => Some(s@),
        None => None,
    }
}

/// The key that `between` returns.
pub open spec fn between_spec(after: Option<Seq<char>>, before: Option<Seq<char>>) -> Seq<char> {
    match (after, before) {
        (None, None) => seq!['a', '0'],
        (None, Some(b)) => {
            let ib = integer_part_spec(b);
            let fb = b.skip(ib.len() as int);
            if ib == smallest_integer() {
                ib + midpoint_spec(Seq::empty(), Some(fb))
            } else if key_lt(ib, b) {
                ib
            } else {
                match decrement_spec(ib) {
                    Some(p) => p,
                    None => ib + midpoint_spec(Seq::empty(), Some(fb)),
                }
            }
        },
        (Some(a), None) => {
            let ia = integer_part_spec(a);
            match increment_spec(ia) {
                Some(n) => n,
                None => ia + midpoint_spec(a.skip(ia.len() as int), None),
            }
        },
        (Some(a), Some(b)) => {
            let ia = integer_part_spec(a);
            let fa = a.skip(ia.len() as int);
            let ib = integer_part_spec(b);
            let fb = b.skip(ib.len() as int);
            if ia == ib {
                ia + midpoint_spec(fa, Some(fb))
            } else {
                match increment_spec(ia) {
                    Some(n) => if key_lt(n, b) {
                        n
                    } else {
                        ia + midpoint_spec(fa, None)
                    },
                    None => ia + midpoint_spec(fa, None),
                }
            }
        },
    }
}

// ---------------------------------------------------------------------------
// Basic lemmas
// ---------------------------------------------------------------------------

pub proof fn lemma_common_len_bound(a: Seq<char>, b: Seq<char>)
    ensures
        common_len(a, b) <= b.len(),
    decreases b.len(),
{
    if b.len() > 0 {
        lemma_common_len_bound(if a.len() == 0 { a } else { a.drop_first() }, b.drop_first());
    }
}

pub proof fn lemma_digit_value_range(c: char)
    ensures
        0 <= digit_value(c) < 62,
        is_digit(c) ==> digit_char(digit_value(c)) == c,
{
}


pub proof fn lemma_digit_char(d: int)
    requires
        0 <= d < 62,
    ensures
        is_digit(digit_char(d)),
        digit_value(digit_char(d)) == d,
        digit_char(d) as u32 <= 0x7f,
{
}

pub proof fn lemma_digit_order(c1: char, c2: char)
    requires
        is_digit(c1),
        is_digit(c2),
    ensures
        ((c1 as u32) < (c2 as u32)) == (digit_value(c1) < digit_value(c2)),
        (c1 == c2) == (digit_value(c1) == digit_value(c2)),
{
}

pub proof fn lemma_lt_irrefl(x: Seq<char>)
    ensures
        !key_lt(x, x),
    decreases x.len(),
{
    if x.len() > 0 {
        lemma_lt_irrefl(x.drop_first());
    }
}

pub proof fn lemma_lt_asym(x: Seq<char>, y: Seq<char>)
    requires
        key_lt(x, y),
    ensures
        !key_lt(y, x),
        x != y,
    decreases x.len(),
{
    lemma_lt_irrefl(x);
    if x.len() > 0 && y.len() > 0 && x[0] == y[0] {
        lemma_lt_asym(x.drop_first(), y.drop_first());
    }
}

pub proof fn lemma_lt_trans(x: Seq<char>, y: Seq<char>, z: Seq<char>)
    requires
        key_lt(x, y),
        key_lt(y, z),
    ensures
        key_lt(x, z),
    decreases x.len(),
{
    if x.len() > 0 && y.len() > 0 && z.len() > 0 && x[0] == y[0] && y[0] == z[0] {
        lemma_lt_trans(x.drop_first(), y.drop_first(), z.drop_first());
    }
}

/// A common prefix does not change the comparison.
pub proof fn lemma_lt_prefix(p: Seq<char>, x: Seq<char>, y: Seq<char>)
    ensures
        key_lt(p + x, p + y) == key_lt(x, y),
    decreases p.len(),
{
    if p.len() > 0 {
        assert((p + x).drop_first() =~= p.drop_first() + x);
        assert((p + y).drop_first() =~= p.drop_first() + y);
        lemma_lt_prefix(p.drop_first(), x, y);
    } else {
        assert(p + x =~= x);
        assert(p + y =~= y);
    }
}

/// A proper prefix comes first.
pub proof fn lemma_lt_extend(x: Seq<char>, y: Seq<char>)
    ensures
        key_lt(x, x + y) == (y.len() > 0),
        !key_lt(x + y, x),
    decreases x.len(),
{
    if x.len() > 0 {
        assert((x + y).drop_first() =~= x.drop_first() + y);
        lemma_lt_extend(x.drop_first(), y);
    } else {
        assert(x + y =~= y);
    }
}

/// Two distinct strings of the same length are ordered within that length,
/// whatever follows them.
pub proof fn lemma_lt_same_len(x: Seq<char>, y: Seq<char>, s: Seq<char>, t: Seq<char>)
    requires
        x.len() == y.len(),
        x != y,
    ensures
        key_lt(x + s, y + t) == key_lt(x, y),
    decreases x.len(),
{
    if x.len() == 0 {
        assert(x =~= y);
    } else if x[0] == y[0] {
        assert((x + s).drop_first() =~= x.drop_first() + s);
        assert((y + t).drop_first() =~= y.drop_first() + t);
        if x.drop_first() =~= y.drop_first() {
            assert forall|i: int| 0 <= i < x.len() implies x[i] == y[i] by {
                if i > 0 {
                    assert(x[i] == x.drop_first()[i - 1]);
                    assert(y[i] == y.drop_first()[i - 1]);
                }
            }
            assert(x =~= y);
        }
        lemma_lt_same_len(x.drop_first(), y.drop_first(), s, t);
    }
}


pub open spec fn pad_at(a: Seq<char>, i: int) -> char {
    if i < a.len() {
        a[i]
    } else {
        '0'
    }
}

pub proof fn lemma_common_len(a: Seq<char>, b: Seq<char>)
    ensures
        common_len(a, b) <= b.len(),
        forall|i: int| 0 <= i < common_len(a, b) ==> pad_at(a, i) == b[i],
        common_len(a, b) < b.len() ==> pad_at(a, common_len(a, b) as int) != b[common_len(a, b) as int],
    decreases b.len(),
{
    if b.len() > 0 {
        let a2 = if a.len() == 0 { a } else { a.drop_first() };
        lemma_common_len(a2, b.drop_first());
        let x = if a.len() == 0 { '0' } else { a[0] };
        if x == b[0] {
            assert forall|i: int| 0 <= i < common_len(a, b) implies pad_at(a, i) == b[i] by {
                if i > 0 {
                    assert(pad_at(a2, i - 1) == b.drop_first()[i - 1]);
                }
            }
        }
    }
}

/// Trailing-zero-free digit string: the shape of a fraction.
pub open spec fn is_fraction(s: Seq<char>) -> bool {
    all_digits(s) && (s.len() > 0 ==> s.last() != '0')
}

/// `midpoint` lands strictly between its bounds and yields a fraction.
pub proof fn lemma_midpoint(a: Seq<char>, b: Option<Seq<char>>)
    requires
        is_fraction(a),
        b is Some ==> is_fraction(b->0) && key_lt(a, b->0),
    ensures
        midpoint_spec(a, b).len() > 0,
        is_fraction(midpoint_spec(a, b)),
        key_lt(a, midpoint_spec(a, b)),
        b is Some ==> key_lt(midpoint_spec(a, b), b->0),
    decreases a.len() + opt_len(b),
{
    let r = midpoint_spec(a, b);
    let common: nat = match b {
        Some(bb) => common_len(a, bb),
        None => 0,
    };
    if b is Some && common > 0 {
        let bb = b->0;
        lemma_common_len(a, bb);
        let c = common as int;
        if c == bb.len() {
            if a.len() >= bb.len() {
                assert(a =~= bb + a.skip(bb.len() as int));
                lemma_lt_extend(bb, a.skip(bb.len() as int));
            } else {
                assert(bb.last() == pad_at(a, bb.len() - 1));
            }
            assert(false);
        }
        let p = bb.take(c);
        let b2 = bb.skip(c);
        assert(bb =~= p + b2);
        assert(all_digits(p));
        assert(b2.len() > 0 && b2.last() == bb.last());
        assert(is_fraction(b2));
        if c <= a.len() {
            let a2 = a.skip(c);
            assert(a =~= p + a2);
            lemma_lt_prefix(p, a2, b2);
            assert(is_fraction(a2)) by {
                if a2.len() > 0 {
                    assert(a2.last() == a.last());
                }
            }
            lemma_midpoint(a2, Some(b2));
            let r2 = midpoint_spec(a2, Some(b2));
            assert(r =~= p + r2);
            lemma_lt_prefix(p, a2, r2);
            lemma_lt_prefix(p, r2, b2);
            assert(r.last() == r2.last());
        } else {
            let a2 = Seq::<char>::empty();
            assert(key_lt(a2, b2));
            lemma_midpoint(a2, Some(b2));
            let r2 = midpoint_spec(a2, Some(b2));
            assert(r =~= p + r2);
            lemma_lt_prefix(p, r2, b2);
            assert(r.last() == r2.last());
            let ext = p.skip(a.len() as int) + r2;
            assert(p =~= a + p.skip(a.len() as int)) by {
                assert forall|i: int| 0 <= i < a.len() implies p[i] == a[i] by {
                    assert(pad_at(a, i) == bb[i]);
                }
            }
            assert(r =~= a + ext);
            lemma_lt_extend(a, ext);
        }
    } else {
        let da = first_digit_or(a, 0);
        let db = match b {
            Some(bb) => first_digit_or(bb, 62),
            None => 62,
        };
        if a.len() > 0 {
            lemma_digit_value_range(a[0]);
        }
        if b is Some {
            let bb = b->0;
            assert(bb.len() > 0);
            lemma_common_len(a, bb);
            assert(pad_at(a, 0) != bb[0]);
            if a.len() == 0 {
                lemma_digit_order('0', bb[0]);
            } else {
                lemma_digit_order(a[0], bb[0]);
            }
            assert(da < db);
        }
        if db > da + 1 {
            let m = (da + db + 1) / 2;
            lemma_digit_char(m);
            assert(r =~= seq![digit_char(m)]);
            if a.len() > 0 {
                lemma_digit_order(a[0], digit_char(m));
            }
            if b is Some {
                lemma_digit_order(digit_char(m), b->0[0]);
            }
            lemma_digit_order('0', digit_char(m));
        } else if b is Some && b->0.len() > 1 {
            let bb = b->0;
            assert(r =~= bb.take(1));
            assert(bb =~= r + bb.skip(1));
            lemma_lt_extend(r, bb.skip(1));
            lemma_digit_order('0', bb[0]);
            if a.len() > 0 {
                lemma_digit_order(a[0], bb[0]);
            }
        } else {
            let head = if a.len() == 0 { '0' } else { a[0] };
            let a2 = if a.len() == 0 { a } else { a.drop_first() };
            assert(is_fraction(a2)) by {
                if a2.len() > 0 {
                    assert(a2.last() == a.last());
                }
            }
            lemma_midpoint(a2, None);
            let r2 = midpoint_spec(a2, None);
            assert(r =~= seq![head] + r2);
            assert(r.last() == r2.last());
            if a.len() > 0 {
                assert(a =~= seq![head] + a2);
                lemma_lt_prefix(seq![head], a2, r2);
            }
            if b is Some {
                let bb = b->0;
                lemma_digit_order(head, bb[0]);
            }
        }
    }
}


pub open spec fn valid_integer(x: Seq<char>) -> bool {
    &&& x.len() >= 1
    &&& is_head(x[0])
    &&& x.len() == integer_len_spec(x[0])
    &&& all_digits(x.drop_first())
}

pub proof fn lemma_digits_roundtrip(x: Seq<char>)
    requires
        all_digits(x),
    ensures
        digits_to_key(digit_values(x)) == x,
{
    assert forall|i: int| 0 <= i < x.len() implies digits_to_key(digit_values(x))[i] == x[i] by {
        lemma_digit_value_range(x[i]);
    }
    assert(digits_to_key(digit_values(x)) =~= x);
}

/// Incrementing a digit string: without carry the result is larger, with
/// carry every digit was the last one and the result is all zeros.
pub proof fn lemma_inc_digits(x: Seq<char>)
    requires
        all_digits(x),
    ensures
        ({
            let (nd, c) = inc_digits(digit_values(x));
            let y = digits_to_key(nd);
            &&& nd.len() == x.len()
            &&& forall|i: int| 0 <= i < nd.len() ==> 0 <= #[trigger] nd[i] < 62
            &&& all_digits(y)
            &&& y.len() == x.len()
            &&& (!c ==> key_lt(x, y))
            &&& (c ==> nd =~= Seq::new(x.len(), |i: int| 0int))
            &&& (c ==> y =~= zeros(x.len()))
        }),
    decreases x.len(),
{
    let ds = digit_values(x);
    let (nd, c) = inc_digits(ds);
    if x.len() > 0 {
        let x2 = x.drop_last();
        assert(digit_values(x2) =~= ds.drop_last());
        lemma_inc_digits(x2);
        lemma_digit_value_range(x.last());
        let xl = x.last();
        assert(x =~= x2 + seq![xl]);
        if ds.last() + 1 == 62 {
            let (p, c2) = inc_digits(ds.drop_last());
            let y2 = digits_to_key(p);
            assert(digits_to_key(nd) =~= y2 + seq![digit_char(0)]);
            lemma_digit_char(0);
            if !c2 {
                lemma_lt_asym(x2, y2);
                lemma_lt_same_len(x2, y2, seq![xl], seq![digit_char(0)]);
            }
        } else {
            let v = ds.last() + 1;
            lemma_digit_char(v);
            lemma_digits_roundtrip(x2);
            assert(digits_to_key(nd) =~= x2 + seq![digit_char(v)]);
            lemma_digit_order(xl, digit_char(v));
            lemma_lt_prefix(x2, seq![xl], seq![digit_char(v)]);
        }
    } else {
        assert(digits_to_key(nd) =~= zeros(0));
    }
}

/// Decrementing a digit string: without borrow the result is smaller, with
/// borrow every digit was `0` and the result is all `z`.
pub proof fn lemma_dec_digits(x: Seq<char>)
    requires
        all_digits(x),
    ensures
        ({
            let (nd, c) = dec_digits(digit_values(x));
            let y = digits_to_key(nd);
            &&& nd.len() == x.len()
            &&& forall|i: int| 0 <= i < nd.len() ==> 0 <= #[trigger] nd[i] < 62
            &&& all_digits(y)
            &&& y.len() == x.len()
            &&& (!c ==> key_lt(y, x))
            &&& (c ==> x =~= zeros(x.len()))
            &&& (c ==> nd =~= Seq::new(x.len(), |i: int| 61int))
        }),
    decreases x.len(),
{
    let ds = digit_values(x);
    let (nd, c) = dec_digits(ds);
    if x.len() > 0 {
        let x2 = x.drop_last();
        assert(digit_values(x2) =~= ds.drop_last());
        lemma_dec_digits(x2);
        lemma_digit_value_range(x.last());
        let xl = x.last();
        assert(x =~= x2 + seq![xl]);
        if ds.last() == 0 {
            let (p, c2) = dec_digits(ds.drop_last());
            let y2 = digits_to_key(p);
            assert(digits_to_key(nd) =~= y2 + seq![digit_char(61)]);
            lemma_digit_char(61);
            if !c2 {
                lemma_lt_asym(y2, x2);
                lemma_lt_same_len(y2, x2, seq![digit_char(61)], seq![xl]);
            } else {
                assert(x =~= zeros(x.len())) by {
                    assert forall|i: int| 0 <= i < x.len() implies x[i] == '0' by {
                        if i < x2.len() {
                            assert(x[i] == x2[i]);
                        }
                    }
                }
            }
        } else {
            let v = ds.last() - 1;
            lemma_digit_char(v);
            lemma_digits_roundtrip(x2);
            assert(digits_to_key(nd) =~= x2 + seq![digit_char(v)]);
            lemma_digit_order(digit_char(v), xl);
            lemma_lt_prefix(x2, seq![digit_char(v)], seq![xl]);
        }
    } else {
        assert(x =~= zeros(0));
    }
}

pub proof fn lemma_increment(x: Seq<char>)
    requires
        valid_integer(x),
    ensures
        increment_spec(x) is Some ==> valid_integer(increment_spec(x)->0) && key_lt(x, increment_spec(x)->0),
{
    let d = x.drop_first();
    assert(x =~= seq![x[0]] + d);
    lemma_inc_digits(d);
    let (nd, c) = inc_digits(digit_values(d));
    let head = x[0];
    if !c {
        let n = seq![head] + digits_to_key(nd);
        assert(n.drop_first() =~= digits_to_key(nd));
        lemma_lt_prefix(seq![head], d, digits_to_key(nd));
    } else if head == 'Z' {
    } else if head == 'z' {
    } else {
        let next = (head as int + 1) as char;
        if (next as int) > ('a' as int) {
            let n = seq![next] + digits_to_key(nd.push(0));
            assert(digits_to_key(nd.push(0)) =~= zeros((d.len() + 1) as nat));
            assert(n.drop_first() =~= digits_to_key(nd.push(0)));
        } else {
            let m = drop_last_or_empty(nd);
            let n = seq![next] + digits_to_key(m);
            assert(digits_to_key(m) =~= zeros((d.len() - 1) as nat));
            assert(n.drop_first() =~= digits_to_key(m));
        }
    }
}

pub proof fn lemma_decrement(x: Seq<char>)
    requires
        valid_integer(x),
        x != smallest_integer(),
    ensures
        decrement_spec(x) is Some,
        valid_integer(decrement_spec(x)->0),
        key_lt(decrement_spec(x)->0, x),
{
    let d = x.drop_first();
    assert(x =~= seq![x[0]] + d);
    lemma_dec_digits(d);
    let (nd, c) = dec_digits(digit_values(d));
    let head = x[0];
    if !c {
        let p = seq![head] + digits_to_key(nd);
        assert(p.drop_first() =~= digits_to_key(nd));
        lemma_lt_prefix(seq![head], digits_to_key(nd), d);
    } else if head == 'a' {
        let p = seq!['Z', 'z'];
        assert(p.drop_first() =~= seq!['z']);
    } else if head == 'A' {
        assert(x =~= smallest_integer());
    } else {
        let prev = (head as int - 1) as char;
        if (prev as int) < ('Z' as int) {
            let m = nd.push(61);
            let p = seq![prev] + digits_to_key(m);
            assert(digits_to_key(m) =~= Seq::new((d.len() + 1) as nat, |i: int| 'z'));
            assert(p.drop_first() =~= digits_to_key(m));
        } else {
            let m = drop_last_or_empty(nd);
            let p = seq![prev] + digits_to_key(m);
            assert(digits_to_key(m) =~= Seq::new((d.len() - 1) as nat, |i: int| 'z'));
            assert(p.drop_first() =~= digits_to_key(m));
        }
    }
}

/// Distinct integer parts decide the order of the keys that start with them.
pub proof fn lemma_integer_decides(x: Seq<char>, y: Seq<char>, s: Seq<char>, t: Seq<char>)
    requires
        valid_integer(x),
        valid_integer(y),
        x != y,
    ensures
        key_lt(x + s, y + t) == key_lt(x, y),
{
    if x[0] == y[0] {
        lemma_lt_same_len(x, y, s, t);
    } else {
        assert((x + s)[0] == x[0]);
        assert((y + t)[0] == y[0]);
    }
}

/// A key splits into its integer part and its fraction.
pub proof fn lemma_split_key(k: Seq<char>)
    requires
        well_formed_key(k),
    ensures
        valid_integer(integer_part_spec(k)),
        integer_part_spec(k).len() == integer_len_spec(k[0]),
        is_fraction(k.skip(integer_part_spec(k).len() as int)),
        k =~= integer_part_spec(k) + k.skip(integer_part_spec(k).len() as int),
{
    let ip = integer_part_spec(k);
    let f = k.skip(ip.len() as int);
    assert(ip.drop_first() =~= k.drop_first().take(ip.len() - 1));
    assert forall|i: int| 0 <= i < f.len() implies is_digit(f[i]) by {
        assert(f[i] == k.drop_first()[ip.len() - 1 + i]);
    }
    if f.len() > 0 {
        assert(f.last() == k.last());
    }
}

/// Every well-formed key is at least the smallest integer part.
pub proof fn lemma_smallest_is_least(k: Seq<char>)
    requires
        well_formed_key(k),
    ensures
        k == smallest_integer() || key_lt(smallest_integer(), k),
{
    let s = smallest_integer();
    if k[0] != 'A' {
        assert(s[0] == 'A');
    } else {
        let t = k.take(27);
        assert(k =~= t + k.skip(27));
        assert(s =~= seq!['A'] + zeros(26));
        assert(t =~= seq!['A'] + t.drop_first());
        if t == s {
            if k.len() > 27 {
                lemma_lt_extend(s, k.skip(27));
            } else {
                assert(k =~= s);
            }
        } else {
            assert(t.drop_first() =~= k.drop_first().take(26));
            lemma_zeros_least(t.drop_first());
            lemma_lt_prefix(seq!['A'], zeros(26), t.drop_first());
            assert(s.len() == t.len());
            lemma_lt_same_len(s, t, Seq::empty(), k.skip(27));
            assert(s + Seq::<char>::empty() =~= s);
        }
    }
}

pub proof fn lemma_zeros_least(t: Seq<char>)
    requires
        all_digits(t),
    ensures
        t =~= zeros(t.len()) || key_lt(zeros(t.len()), t),
    decreases t.len(),
{
    if t.len() > 0 {
        lemma_zeros_least(t.drop_first());
        let z = zeros(t.len());
        assert(z.drop_first() =~= zeros((t.len() - 1) as nat));
        lemma_digit_order('0', t[0]);
        if t[0] == '0' && t.drop_first() =~= zeros((t.len() - 1) as nat) {
            assert forall|i: int| 0 <= i < t.len() implies t[i] == z[i] by {
                if i > 0 {
                    assert(t[i] == t.drop_first()[i - 1]);
                }
            }
            assert(t =~= z);
        }
    }
}

/// The order law of `between`: on valid keys the result lands strictly
/// between its bounds and is itself a key that can be bisected again.
pub proof fn lemma_between(a: Option<Seq<char>>, b: Option<Seq<char>>)
    requires
        a is Some ==> valid_key(a->0),
        b is Some ==> valid_key(b->0),
        a is Some && b is Some ==> key_lt(a->0, b->0),
    ensures
        well_formed_key(between_spec(a, b)),
        a is Some ==> key_lt(a->0, between_spec(a, b)) && valid_key(between_spec(a, b)),
        b is Some ==> key_lt(between_spec(a, b), b->0),
        a is None && b is None ==> valid_key(between_spec(a, b)),
{
    let r = between_spec(a, b);
    let e = Seq::<char>::empty();
    match (a, b) {
        (None, None) => {
            assert(r.drop_first() =~= seq!['0']);
            assert(r != smallest_integer()) by {
                assert(r.len() != smallest_integer().len());
            }
        },
        (None, Some(bk)) => {
            lemma_split_key(bk);
            let ib = integer_part_spec(bk);
            let fb = bk.skip(ib.len() as int);
            if ib == smallest_integer() {
                if fb.len() == 0 {
                    assert(bk =~= ib);
                }
                lemma_midpoint(e, Some(fb));
                let r2 = midpoint_spec(e, Some(fb));
                assert(r =~= ib + r2);
                lemma_lt_prefix(ib, r2, fb);
                assert(r.drop_first() =~= ib.drop_first() + r2);
                assert(r.last() == r2.last());
            } else if key_lt(ib, bk) {
                assert(r == ib);
                assert(ib + e =~= ib);
            } else {
                if fb.len() > 0 {
                    lemma_lt_extend(ib, fb);
                }
                assert(bk =~= ib);
                lemma_decrement(ib);
                let p = decrement_spec(ib)->0;
                assert(p + e =~= p);
            }
        },
        (Some(ak), None) => {
            lemma_split_key(ak);
            let ia = integer_part_spec(ak);
            let fa = ak.skip(ia.len() as int);
            lemma_increment(ia);
            match increment_spec(ia) {
                Some(n) => {
                    lemma_lt_asym(ia, n);
                    lemma_integer_decides(ia, n, fa, e);
                    assert(n + e =~= n);
                },
                None => {
                    lemma_midpoint(fa, None);
                    let r2 = midpoint_spec(fa, None);
                    assert(r =~= ia + r2);
                    lemma_lt_prefix(ia, fa, r2);
                    assert(r.drop_first() =~= ia.drop_first() + r2);
                    assert(r.last() == r2.last());
                },
            }
            lemma_smallest_is_least(ak);
            if ak != smallest_integer() {
                lemma_lt_trans(smallest_integer(), ak, r);
            }
            lemma_lt_asym(smallest_integer(), r);
        },
        (Some(ak), Some(bk)) => {
            lemma_split_key(ak);
            lemma_split_key(bk);
            let ia = integer_part_spec(ak);
            let fa = ak.skip(ia.len() as int);
            let ib = integer_part_spec(bk);
            let fb = bk.skip(ib.len() as int);
            if ia == ib {
                lemma_lt_prefix(ia, fa, fb);
                lemma_midpoint(fa, Some(fb));
                let r2 = midpoint_spec(fa, Some(fb));
                assert(r =~= ia + r2);
                lemma_lt_prefix(ia, fa, r2);
                lemma_lt_prefix(ia, r2, fb);
                assert(r.drop_first() =~= ia.drop_first() + r2);
                assert(r.last() == r2.last());
            } else {
                lemma_integer_decides(ia, ib, fa, fb);
                lemma_increment(ia);
                let took = match increment_spec(ia) {
                    Some(n) => key_lt(n, bk),
                    None => false,
                };
                if took {
                    let n = increment_spec(ia)->0;
                    lemma_lt_asym(ia, n);
                    lemma_integer_decides(ia, n, fa, e);
                    assert(n + e =~= n);
                } else {
                    lemma_midpoint(fa, None);
                    let r2 = midpoint_spec(fa, None);
                    assert(r =~= ia + r2);
                    lemma_lt_prefix(ia, fa, r2);
                    lemma_integer_decides(ia, ib, r2, fb);
                    assert(r.drop_first() =~= ia.drop_first() + r2);
                    assert(r.last() == r2.last());
                }
            }
            lemma_smallest_is_least(ak);
            if ak != smallest_integer() {
                lemma_lt_trans(smallest_integer(), ak, r);
            }
            lemma_lt_asym(smallest_integer(), r);
        },
    }
}


// ---------------------------------------------------------------------------
// Executable code
// ---------------------------------------------------------------------------

pub open spec fn ints(ds: Seq<usize>) -> Seq<int> {
    ds.map_values(|d: usize| d as int)
}

pub open spec fn opt_seq(v: Option<Vec<char>>) -> Option<Seq<char>> {
    match v {
        Some(v) => Some(v@),
        None => None,
    }
}

pub open spec fn opt_ref_seq(v: Option<&Vec<char>>) -> Option<Seq<char>> {
    match v {
        Some(v) => Some(v@),
        None => None,
    }
}

fn digit_of(c: char) -> (d: usize)
    ensures
        d == digit_value(c),
        d < BASE,
{
    if '0' <= c && c <= '9' {
        (c as u32 - '0' as u32) as usize
    } else if 'A' <= c && c <= 'Z' {
        (c as u32 - 'A' as u32 + 10) as usize
    } else if 'a' <= c && c <= 'z' {
        (c as u32 - 'a' as u32 + 36) as usize
    } else {
        0
    }
}

fn digit_to_char(d: usize) -> (c: char)
    requires
        d < BASE,
    ensures
        c == digit_char(d as int),
{
    if d < 10 {
        (48u8 + d as u8) as char
    } else if d < 36 {
        (65u8 + (d - 10) as u8) as char
    } else {
        (97u8 + (d - 36) as u8) as char
    }
}

/// Digits back to chars; a value past the alphabet becomes its last digit.
fn to_key(digits: &Vec<usize>) -> (k: Vec<char>)
    ensures
        k@ == digits_to_key(ints(digits@)),
{
    let mut k: Vec<char> = Vec::new();
    let mut i: usize = 0;
    while i < digits.len()
        invariant
            i <= digits.len(),
            k@ == digits_to_key(ints(digits@)).take(i as int),
        decreases digits.len() - i,
    {
        let d = digits[i];
        let c = digit_to_char(if d < BASE - 1 { d } else { BASE - 1 });
        k.push(c);
        i += 1;
        assert(k@ =~= digits_to_key(ints(digits@)).take(i as int));
    }
    assert(k@ =~= digits_to_key(ints(digits@)));
    k
}

/// Digit values of `s[from..]`.
fn digits_from(s: &Vec<char>, from: usize) -> (ds: Vec<usize>)
    requires
        from <= s.len(),
    ensures
        ints(ds@) == digit_values(s@.skip(from as int)),
        forall|i: int| 0 <= i < ds.len() ==> ds[i] < BASE,
{
    let mut ds: Vec<usize> = Vec::new();
    let mut i = from;
    while i < s.len()
        invariant
            from <= i <= s.len(),
            ints(ds@) == digit_values(s@.subrange(from as int, i as int)),
            forall|j: int| 0 <= j < ds.len() ==> ds[j] < BASE,
        decreases s.len() - i,
    {
        let ghost before = ds@;
        ds.push(digit_of(s[i]));
        assert(s@.subrange(from as int, i + 1) =~= s@.subrange(from as int, i as int).push(s@[i as int]));
        assert(ints(ds@) =~= ints(before).push(digit_value(s@[i as int])));
        i += 1;
        assert(ints(ds@) =~= digit_values(s@.subrange(from as int, i as int)));
    }
    assert(s@.subrange(from as int, s.len() as int) =~= s@.skip(from as int));
    ds
}

/// Adds one in place, from the right; returns the carry out.
fn increment_digits(ds: &mut Vec<usize>) -> (carry: bool)
    requires
        forall|i: int| 0 <= i < old(ds).len() ==> old(ds)[i] < BASE,
    ensures
        (ints(final(ds)@), carry) == inc_digits(ints(old(ds)@)),
        forall|i: int| 0 <= i < final(ds).len() ==> final(ds)[i] < BASE,
    decreases old(ds).len(),
{
    let ghost start = ints(ds@);
    match ds.pop() {
        None => {
            assert(ints(ds@) =~= start);
            true
        },
        Some(last) => {
            assert(start.drop_last() =~= ints(ds@));
            if last + 1 == BASE {
                let c = increment_digits(ds);
                ds.push(0);
                proof {
                    let (p, c2) = inc_digits(start.drop_last());
                    assert(ints(ds@) =~= p.push(0));
                }
                c
            } else {
                ds.push(last + 1);
                assert(ints(ds@) =~= start.drop_last().push(start.last() + 1));
                false
            }
        },
    }
}

/// Subtracts one in place, from the right; returns the borrow out.
fn decrement_digits(ds: &mut Vec<usize>) -> (borrow: bool)
    requires
        forall|i: int| 0 <= i < old(ds).len() ==> old(ds)[i] < BASE,
    ensures
        (ints(final(ds)@), borrow) == dec_digits(ints(old(ds)@)),
        forall|i: int| 0 <= i < final(ds).len() ==> final(ds)[i] < BASE,
    decreases old(ds).len(),
{
    let ghost start = ints(ds@);
    match ds.pop() {
        None => {
            assert(ints(ds@) =~= start);
            true
        },
        Some(last) => {
            assert(start.drop_last() =~= ints(ds@));
            if last == 0 {
                let c = decrement_digits(ds);
                ds.push(BASE - 1);
                proof {
                    let (p, c2) = dec_digits(start.drop_last());
                    assert(ints(ds@) =~= p.push(61));
                }
                c
            } else {
                ds.push(last - 1);
                assert(ints(ds@) =~= start.drop_last().push(start.last() - 1));
                false
            }
        },
    }
}

/// How many chars the integer part takes, from its first letter.
fn integer_len(head: char) -> (n: usize)
    ensures
        n == integer_len_spec(head),
{
    if 'a' <= head && head <= 'z' {
        (head as u32 - 'a' as u32) as usize + 2
    } else if 'A' <= head && head <= 'Z' {
        ('Z' as u32 - head as u32) as usize + 2
    } else {
        2
    }
}

fn integer_part(key: &Vec<char>) -> (ip: Vec<char>)
    ensures
        ip@ == integer_part_spec(key@),
{
    if key.len() == 0 {
        return Vec::new();
    }
    let len = integer_len(key[0]);
    if len <= key.len() {
        let ip = slice_of(key, 0, len);
        assert(ip@ =~= key@.take(len as int));
        ip
    } else {
        let ip = slice_of(key, 0, key.len());
        assert(ip@ =~= key@);
        ip
    }
}

/// The next integer part. `None` when there is no room above.
fn increment_integer(x: &Vec<char>) -> (r: Option<Vec<char>>)
    requires
        ascii(x@),
    ensures
        opt_seq(r) == increment_spec(x@),
{
    if x.len() == 0 {
        return None;
    }
    let head = x[0];
    let mut digits = digits_from(x, 1);
    proof {
        assert(x@.skip(1) =~= x@.drop_first());
    }
    let carry = increment_digits(&mut digits);
    if !carry {
        let mut out = vec![head];
        let tail = to_key(&digits);
        push_range(&mut out, &tail, 0, tail.len());
        assert(out@ =~= seq![head] + digits_to_key(ints(digits@)));
        return Some(out);
    }
    if head == 'Z' {
        let out = vec!['a', '0'];
        assert(out@ =~= seq!['a', '0']);
        return Some(out);
    }
    if head == 'z' {
        return None;
    }
    proof {
        lemma_char_facts(head);
    }
    let h: u32 = char_code(head);
    let n: u8 = (h + 1) as u8;
    let next = n as char;
    proof {
        lemma_char_facts(next);
        lemma_char_facts((head as int + 1) as char);
    }
    let ghost nd = ints(digits@);
    if next > 'a' {
        digits.push(0);
        assert(ints(digits@) =~= nd.push(0));
    } else {
        let _ = digits.pop();
        assert(ints(digits@) =~= drop_last_or_empty(nd));
    }
    let mut out = vec![next];
    let tail = to_key(&digits);
    push_range(&mut out, &tail, 0, tail.len());
    assert(out@ =~= seq![next] + digits_to_key(ints(digits@)));
    Some(out)
}

/// The previous integer part. `None` when there is no room below.
fn decrement_integer(x: &Vec<char>) -> (r: Option<Vec<char>>)
    requires
        ascii(x@),
        x.len() > 0 ==> x[0] != '\0',
    ensures
        opt_seq(r) == decrement_spec(x@),
{
    if x.len() == 0 {
        return None;
    }
    let head = x[0];
    let mut digits = digits_from(x, 1);
    proof {
        assert(x@.skip(1) =~= x@.drop_first());
    }
    let borrow = decrement_digits(&mut digits);
    if !borrow {
        let mut out = vec![head];
        let tail = to_key(&digits);
        push_range(&mut out, &tail, 0, tail.len());
        assert(out@ =~= seq![head] + digits_to_key(ints(digits@)));
        return Some(out);
    }
    if head == 'a' {
        let out = vec!['Z', 'z'];
        assert(out@ =~= seq!['Z', 'z']);
        return Some(out);
    }
    if head == 'A' {
        return None;
    }
    proof {
        lemma_char_facts(head);
    }
    let h: u32 = char_code(head);
    let n: u8 = (h - 1) as u8;
    let prev = n as char;
    proof {
        lemma_char_facts(prev);
        lemma_char_facts((head as int - 1) as char);
    }
    let ghost nd = ints(digits@);
    if 'Z' > prev {
        digits.push(BASE - 1);
        assert(ints(digits@) =~= nd.push(61));
    } else {
        let _ = digits.pop();
        assert(ints(digits@) =~= drop_last_or_empty(nd));
    }
    let mut out = vec![prev];
    let tail = to_key(&digits);
    push_range(&mut out, &tail, 0, tail.len());
    assert(out@ =~= seq![prev] + digits_to_key(ints(digits@)));
    Some(out)
}


fn pad_char(a: &Vec<char>, i: usize) -> (c: char)
    ensures
        c == pad_at(a@, i as int),
{
    if i < a.len() {
        a[i]
    } else {
        '0'
    }
}

/// How many leading chars of `b` agree with `a` padded by `'0'`.
fn common_prefix(a: &Vec<char>, b: &Vec<char>) -> (n: usize)
    ensures
        n == common_len(a@, b@),
{
    let mut i: usize = 0;
    while i < b.len() && pad_char(a, i) == b[i]
        invariant
            i <= b.len(),
            forall|j: int| 0 <= j < i ==> pad_at(a@, j) == b@[j],
        decreases b.len() - i,
    {
        i += 1;
    }
    proof {
        lemma_common_len(a@, b@);
        let c = common_len(a@, b@) as int;
        if (i as int) < c {
            assert(pad_at(a@, i as int) == b@[i as int]);
        }
        if c < i {
            assert(pad_at(a@, c) == b@[c]);
        }
    }
    i
}

/// A fraction strictly between `a` and `b` (`None` stands for 1).
fn midpoint(a: &Vec<char>, b: Option<&Vec<char>>) -> (r: Vec<char>)
    ensures
        r@ == midpoint_spec(a@, opt_ref_seq(b)),
    decreases a@.len() + opt_len(opt_ref_seq(b)),
{
    if let Some(bb) = b {
        let common = common_prefix(a, bb);
        if common > 0 {
            proof {
                lemma_common_len_bound(a@, bb@);
            }
            let tail_a = if common <= a.len() {
                slice_of(a, common, a.len())
            } else {
                Vec::new()
            };
            let rest_b = slice_of(bb, common, bb.len());
            let mut out = slice_of(bb, 0, common);
            proof {
                assert(tail_a@ =~= (if common <= a.len() { a@.skip(common as int) } else { Seq::<char>::empty() }));
                assert(rest_b@ =~= bb@.skip(common as int));
                assert(out@ =~= bb@.take(common as int));
            }
            let m = midpoint(&tail_a, Some(&rest_b));
            push_range(&mut out, &m, 0, m.len());
            assert(m@.subrange(0, m@.len() as int) =~= m@);
            return out;
        }
    }
    let da: usize = if a.len() == 0 { 0 } else { digit_of(a[0]) };
    let db: usize = match b {
        Some(bb) => if bb.len() > 0 { digit_of(bb[0]) } else { BASE },
        None => BASE,
    };
    if db > da + 1 {
        let c = digit_to_char((da + db + 1) / 2);
        let out = vec![c];
        assert(out@ =~= seq![c]);
        return out;
    }
    if let Some(bb) = b {
        if bb.len() > 1 {
            let out = vec![bb[0]];
            assert(out@ =~= bb@.take(1));
            return out;
        }
    }
    let head = if a.len() == 0 { '0' } else { a[0] };
    let rest_a = if a.len() == 0 { Vec::new() } else { slice_of(a, 1, a.len()) };
    proof {
        assert(rest_a@ =~= (if a@.len() == 0 { a@ } else { a@.drop_first() }));
    }
    let m = midpoint(&rest_a, None);
    let mut out = vec![head];
    push_range(&mut out, &m, 0, m.len());
    assert(out@ =~= seq![head] + m@);
    out
}

/// `x < y`, char by char.
fn key_less(x: &Vec<char>, y: &Vec<char>) -> (r: bool)
    ensures
        r == key_lt(x@, y@),
{
    let mut i: usize = 0;
    assert(x@.skip(0) =~= x@);
    assert(y@.skip(0) =~= y@);
    while i < x.len() && i < y.len() && x[i] == y[i]
        invariant
            i <= x.len(),
            i <= y.len(),
            key_lt(x@, y@) == key_lt(x@.skip(i as int), y@.skip(i as int)),
        decreases x.len() - i,
    {
        proof {
            assert(x@.skip(i as int).drop_first() =~= x@.skip(i + 1));
            assert(y@.skip(i as int).drop_first() =~= y@.skip(i + 1));
        }
        i += 1;
    }
    if i == x.len() {
        i < y.len()
    } else if i == y.len() {
        false
    } else {
        proof {
            lemma_char_facts(x@[i as int]);
            lemma_char_facts(y@[i as int]);
        }
        char_code(x[i]) < char_code(y[i])
    }
}

/// A position strictly between `after` and `before`.
///
/// `after = None` means "before everything" and `before = None` "after
/// everything"; with both `None` it returns the first position of an empty
/// list.
pub fn between(after: Option<&str>, before: Option<&str>) -> (r: String)
    requires
        after is Some ==> ascii(after->0@),
        before is Some ==> ascii(before->0@),
        before is Some && before->0@.len() > 0 ==> before->0@[0] != '\0',
    ensures
        r@ == between_spec(opt_str_view(after), opt_str_view(before)),
        ({
            let a = opt_str_view(after);
            let b = opt_str_view(before);
            (a is Some ==> valid_key(a->0)) && (b is Some ==> valid_key(b->0)) && (a is Some
                && b is Some ==> key_lt(a->0, b->0)) ==> {
                &&& well_formed_key(r@)
                &&& a is Some ==> key_lt(a->0, r@) && valid_key(r@)
                &&& b is Some ==> key_lt(r@, b->0) && (valid_key(r@) || r@ == smallest_integer())
                &&& a is None && b is None ==> valid_key(r@)
            }
        }),
{
    let a = match after {
        Some(s) => Some(chars_of(s)),
        None => None,
    };
    let b = match before {
        Some(s) => Some(chars_of(s)),
        None => None,
    };
    let out = between_chars(&a, &b);
    proof {
        let a0 = opt_str_view(after);
        let b0 = opt_str_view(before);
        if (a0 is Some ==> valid_key(a0->0)) && (b0 is Some ==> valid_key(b0->0)) && (a0 is Some
            && b0 is Some ==> key_lt(a0->0, b0->0)) {
            lemma_between(a0, b0);
        }
    }
    string_of(&out)
}

fn between_chars(a: &Option<Vec<char>>, b: &Option<Vec<char>>) -> (r: Vec<char>)
    requires
        a is Some ==> ascii(a->0@),
        b is Some ==> ascii(b->0@),
        b is Some && b->0@.len() > 0 ==> b->0@[0] != '\0',
    ensures
        r@ == between_spec(opt_seq(*a), opt_seq(*b)),
{
    match (a, b) {
        (None, None) => {
            let out = vec!['a', '0'];
            assert(out@ =~= seq!['a', '0']);
            out
        },
        (None, Some(bk)) => {
            let ib = integer_part(bk);
            let fb = slice_of(bk, ib.len(), bk.len());
            assert(fb@ =~= bk@.skip(ib@.len() as int));
            let smallest = smallest_integer_exec();
            if vec_eq(&ib, &smallest) {
                let e: Vec<char> = Vec::new();
                let m = midpoint(&e, Some(&fb));
                return concat(&ib, &m);
            }
            if ib.len() < bk.len() {
                proof {
                    assert(bk@ =~= ib@ + fb@);
                    lemma_lt_extend(ib@, fb@);
                }
                return ib;
            }
            proof {
                assert(bk@ =~= ib@ + fb@);
                lemma_lt_extend(ib@, fb@);
                assert(ascii(ib@)) by {
                    assert forall|i: int| 0 <= i < ib@.len() implies ib@[i] <= '\u{7f}' by {
                        assert(ib@[i] == bk@[i]);
                    }
                }
            }
            match decrement_integer(&ib) {
                Some(p) => p,
                None => {
                    let e: Vec<char> = Vec::new();
                    let m = midpoint(&e, Some(&fb));
                    concat(&ib, &m)
                },
            }
        },
        (Some(ak), None) => {
            let ia = integer_part(ak);
            proof {
                assert(ascii(ia@)) by {
                    assert forall|i: int| 0 <= i < ia@.len() implies ia@[i] <= '\u{7f}' by {
                        assert(ia@[i] == ak@[i]);
                    }
                }
            }
            match increment_integer(&ia) {
                Some(n) => n,
                None => {
                    let fa = slice_of(ak, ia.len(), ak.len());
                    assert(fa@ =~= ak@.skip(ia@.len() as int));
                    let m = midpoint(&fa, None);
                    concat(&ia, &m)
                },
            }
        },
        (Some(ak), Some(bk)) => {
            let ia = integer_part(ak);
            let fa = slice_of(ak, ia.len(), ak.len());
            assert(fa@ =~= ak@.skip(ia@.len() as int));
            let ib = integer_part(bk);
            let fb = slice_of(bk, ib.len(), bk.len());
            assert(fb@ =~= bk@.skip(ib@.len() as int));
            if vec_eq(&ia, &ib) {
                let m = midpoint(&fa, Some(&fb));
                return concat(&ia, &m);
            }
            proof {
                assert(ascii(ia@)) by {
                    assert forall|i: int| 0 <= i < ia@.len() implies ia@[i] <= '\u{7f}' by {
                        assert(ia@[i] == ak@[i]);
                    }
                }
            }
            match increment_integer(&ia) {
                Some(n) => {
                    if key_less(&n, bk) {
                        n
                    } else {
                        let m = midpoint(&fa, None);
                        concat(&ia, &m)
                    }
                },
                None => {
                    let m = midpoint(&fa, None);
                    concat(&ia, &m)
                },
            }
        },
    }
}

fn smallest_integer_exec() -> (s: Vec<char>)
    ensures
        s@ == smallest_integer(),
{
    let mut s = vec!['A'];
    let mut i: usize = 0;
    while i < 26
        invariant
            i <= 26,
            s@ == seq!['A'] + zeros(i as nat),
        decreases 26 - i,
    {
        s.push('0');
        i += 1;
        assert(s@ =~= seq!['A'] + zeros(i as nat));
    }
    s
}

fn vec_eq(x: &Vec<char>, y: &Vec<char>) -> (r: bool)
    ensures
        r == (x@ == y@),
{
    if x.len() != y.len() {
        return false;
    }
    let mut i: usize = 0;
    while i < x.len()
        invariant
            x.len() == y.len(),
            i <= x.len(),
            forall|j: int| 0 <= j < i ==> x@[j] == y@[j],
        decreases x.len() - i,
    {
        if x[i] != y[i] {
            return false;
        }
        i += 1;
    }
    assert(x@ =~= y@);
    true
}


/// The `i`-th key that `append_many(last, _)` produces.
pub open spec fn appended_key(last: Option<Seq<char>>, i: nat) -> Seq<char>
    decreases i,
{
    if i == 0 {
        between_spec(last, None)
    } else {
        between_spec(Some(appended_key(last, (i - 1) as nat)), None)
    }
}

pub proof fn lemma_valid_key_ascii(k: Seq<char>)
    requires
        well_formed_key(k),
    ensures
        ascii(k),
{
    assert forall|i: int| 0 <= i < k.len() implies k[i] <= '\u{7f}' by {
        if i > 0 {
            assert(k[i] == k.drop_first()[i - 1]);
        }
    }
}

/// Whether `s` is a key that positions can be placed after or before: a
/// well-formed key other than the least integer part.
pub fn is_valid_key(s: &str) -> (r: bool)
    ensures
        r == valid_key(s@),
{
    let k = chars_of(s);
    if k.len() == 0 {
        return false;
    }
    let head = k[0];
    if !(('a' <= head && head <= 'z') || ('A' <= head && head <= 'Z')) {
        return false;
    }
    let n = integer_len(head);
    if k.len() < n {
        return false;
    }
    let mut i: usize = 1;
    while i < k.len()
        invariant
            1 <= i <= k@.len(),
            k@ == s@,
            forall|j: int| 0 <= j < i - 1 ==> is_digit(#[trigger] k@.drop_first()[j]),
        decreases k.len() - i,
    {
        let c = k[i];
        if !(('0' <= c && c <= '9') || ('A' <= c && c <= 'Z') || ('a' <= c && c <= 'z')) {
            assert(!is_digit(k@.drop_first()[i - 1]));
            return false;
        }
        i += 1;
    }
    assert(all_digits(k@.drop_first()));
    if k.len() > n && k[k.len() - 1] == '0' {
        return false;
    }
    !vec_eq(&k, &smallest_integer_exec())
}

/// Positions for appending `count` items to a list whose last position is
/// `last`, in increasing order.
pub fn append_many(last: Option<&str>, count: usize) -> (out: Vec<String>)
    requires
        last is Some ==> valid_key(last->0@),
    ensures
        out.len() == count,
        forall|i: int| 0 <= i < count ==> (#[trigger] out[i])@ == appended_key(opt_str_view(last), i as nat),
        forall|i: int| 0 <= i < count ==> valid_key((#[trigger] out[i])@),
        forall|i: int, j: int| 0 <= i < j < count ==> key_lt((#[trigger] out[i])@, (#[trigger] out[j])@),
        last is Some && count > 0 ==> key_lt(last->0@, out[0]@),
{
    let mut out: Vec<String> = Vec::new();
    let mut previous: Option<Vec<char>> = match last {
        Some(s) => Some(chars_of(s)),
        None => None,
    };
    let mut i: usize = 0;
    while i < count
        invariant
            i <= count,
            out.len() == i,
            forall|j: int| 0 <= j < i ==> (#[trigger] out[j])@ == appended_key(opt_str_view(last), j as nat),
            forall|j: int| 0 <= j < i ==> valid_key((#[trigger] out[j])@),
            forall|j: int, k: int| 0 <= j < k < i ==> key_lt((#[trigger] out[j])@, (#[trigger] out[k])@),
            i == 0 ==> opt_seq(previous) == opt_str_view(last),
            i > 0 ==> opt_seq(previous) == Some(out[i - 1]@),
            last is Some ==> valid_key(last->0@),
            last is Some && i > 0 ==> key_lt(last->0@, out[0]@),
        decreases count - i,
    {
        proof {
            if previous is Some {
                lemma_valid_key_ascii(previous->0@);
            }
            lemma_between(opt_seq(previous), None);
        }
        let next = between_chars(&previous, &None);
        let s = string_of(&next);
        proof {
            assert(next@ == appended_key(opt_str_view(last), i as nat));
            assert forall|j: int| 0 <= j < i implies key_lt((#[trigger] out[j])@, next@) by {
                if j < i - 1 {
                    lemma_lt_trans(out[j]@, out[i - 1]@, next@);
                }
            }
        }
        out.push(s);
        previous = Some(next);
        i += 1;
    }
    out
}

/// The `i`-th key placed, again and again, before the first item of a
/// list whose first position is `first`.
pub open spec fn prepended_key(first: Option<Seq<char>>, i: nat) -> Seq<char>
    decreases i,
{
    if i == 0 {
        between_spec(None, first)
    } else {
        between_spec(None, Some(prepended_key(first, (i - 1) as nat)))
    }
}

/// Prepending again and again keeps the list sorted: every prepended key
/// is a valid key that lies before the one prepended just before it (and
/// the first before `first`), as long as none of them is the least integer
/// part, before which nothing can be placed.
pub proof fn lemma_prepend_sorted(first: Option<Seq<char>>, n: nat)
    requires
        first is Some ==> valid_key(first->0),
        forall|i: nat| i < n ==> #[trigger] prepended_key(first, i) != smallest_integer(),
    ensures
        forall|i: nat| i < n ==> valid_key(#[trigger] prepended_key(first, i)),
        forall|i: nat, j: nat|
            #![trigger prepended_key(first, i), prepended_key(first, j)]
            j == i + 1 && j <= n ==> key_lt(prepended_key(first, j), prepended_key(first, i)),
        first is Some ==> key_lt(prepended_key(first, 0), first->0),
    decreases n,
{
    lemma_between(None, first);
    if n > 0 {
        let m = (n - 1) as nat;
        lemma_prepend_sorted(first, m);
        assert(prepended_key(first, m) != smallest_integer());
        if m > 0 {
            assert(valid_key(prepended_key(first, (m - 1) as nat)));
            lemma_between(None, Some(prepended_key(first, (m - 1) as nat)));
        }
        assert(valid_key(prepended_key(first, m)));
        lemma_between(None, Some(prepended_key(first, m)));
        assert(key_lt(prepended_key(first, n), prepended_key(first, m)));
    }
}

} // verus!
