//! Text as sequences of characters.

use vstd::prelude::*;

verus! {

/// `String::push` appends one character to the end of the string.
pub assume_specification[ String::push ](s: &mut String, c: char)
    ensures
        final(s)@ == old(s)@.push(c),
;

/// The characters of `s`, in order.
pub fn chars_of(s: &str) -> (r: Vec<char>)
    ensures
        r@ == s@,
{
    let mut out: Vec<char> = Vec::new();
    let n: usize = s.unicode_len();
    let mut i: usize = 0;
    while i < n
        invariant
            n == s@.len(),
            i <= n,
            out@ == s@.take(i as int),
        decreases n - i,
    {
        out.push(s.get_char(i));
        i = i + 1;
    }
    out
}

/// The string made of the characters of `v`, in order.
pub fn text_of(v: &Vec<char>) -> (r: String)
    ensures
        r@ == v@,
{
    let mut out = String::new();
    let mut i: usize = 0;
    while i < v.len()
        invariant
            i <= v.len(),
            out@ == v@.take(i as int),
        decreases v.len() - i,
    {
        out.push(v[i]);
        i = i + 1;
    }
    out
}

/// Whether `a` and `b` hold the same characters.
pub fn same_text(a: &str, b: &str) -> (r: bool)
    ensures
        r == (a@ == b@),
{
    let x = a.to_owned();
    let y = b.to_owned();
    x == y
}

/// Appends the characters of `tail` to `out`.
pub fn append(out: &mut Vec<char>, tail: &Vec<char>)
    ensures
        final(out)@ == old(out)@ + tail@,
{
    let mut i: usize = 0;
    while i < tail.len()
        invariant
            i <= tail.len(),
            out@ == old(out)@ + tail@.take(i as int),
        decreases tail.len() - i,
    {
        out.push(tail[i]);
        i = i + 1;
    }
}

/// A copy of `text`.
pub fn copy(text: &Vec<char>) -> (r: Vec<char>)
    ensures
        r@ == text@,
{
    let mut out: Vec<char> = Vec::new();
    append(&mut out, text);
    assert(out@ =~= text@);
    out
}

/// Appends the characters of `tail` to `out`.
pub fn append_str(out: &mut Vec<char>, tail: &str)
    ensures
        final(out)@ == old(out)@ + tail@,
{
    let chars = chars_of(tail);
    append(out, &chars);
}

/// The character of the decimal digit `d`.
pub open spec fn digit(d: nat) -> char
    recommends
        d < 10,
{
    ((0x30 + d) as u8) as char
}

/// The decimal numeral of `n`, without leading zeros.
pub open spec fn digits(n: nat) -> Seq<char>
    decreases n,
{
    if n < 10 {
        seq![digit(n)]
    } else {
        digits(n / 10).push(digit(n % 10))
    }
}

/// The decimal numeral of `x`, with a minus sign where `x` is negative.
pub open spec fn numeral(x: int) -> Seq<char> {
    if x < 0 {
        seq!['-'] + digits((-x) as nat)
    } else {
        digits(x as nat)
    }
}

/// The number of decimal places that a fraction is held with. Fractions are
/// decimal, not binary floating point: a sum of two of them is exact.
pub const PLACES: u32 = 18;

/// One whole, in units of the last decimal place of a fraction.
pub const UNIT: i128 = 1_000_000_000_000_000_000;

/// The last `places` decimal digits of `r`, with leading zeros.
pub open spec fn padded(r: nat, places: nat) -> Seq<char>
    decreases places,
{
    if places == 0 {
        Seq::empty()
    } else {
        padded(r / 10, (places - 1) as nat).push(digit(r % 10))
    }
}

/// The decimal places of the part `r` of a fraction below one, given in
/// units of the last of `places` places, without trailing zeros.
pub open spec fn decimals(r: nat, places: nat) -> Seq<char>
    decreases places,
{
    if places == 0 || r == 0 {
        Seq::empty()
    } else if r % 10 == 0 {
        decimals(r / 10, (places - 1) as nat)
    } else {
        padded(r, places)
    }
}

/// The shortest decimal text of the fraction that `x` holds in units of the
/// last decimal place: a whole number prints without a point, any other
/// number with the places up to its last one that is not zero.
pub open spec fn fraction_text(x: int) -> Seq<char> {
    let m = if x < 0 {
        -x
    } else {
        x
    };
    (if x < 0 {
        seq!['-']
    } else {
        Seq::empty()
    }) + digits((m / (UNIT as int)) as nat) + (if m % (UNIT as int) == 0 {
        Seq::empty()
    } else {
        seq!['.'] + decimals((m % (UNIT as int)) as nat, PLACES as nat)
    })
}

/// Appends the last `places` decimal digits of `r`, with leading zeros.
fn append_padded(out: &mut Vec<char>, r: u128, places: u32)
    ensures
        final(out)@ == old(out)@ + padded(r as nat, places as nat),
    decreases places,
{
    if places > 0 {
        append_padded(out, r / 10, places - 1);
        let d: u8 = (r % 10) as u8;
        out.push((0x30u8 + d) as char);
        assert(out@ =~= old(out)@ + padded(r as nat, places as nat));
    } else {
        assert(out@ =~= old(out)@ + padded(r as nat, places as nat));
    }
}

/// Appends the shortest decimal text of the fraction `x`.
pub fn append_fraction(out: &mut Vec<char>, x: i128)
    ensures
        final(out)@ == old(out)@ + fraction_text(x as int),
{
    let m: u128 = if x == i128::MIN {
        0x8000_0000_0000_0000_0000_0000_0000_0000u128
    } else if x < 0 {
        (-x) as u128
    } else {
        x as u128
    };
    if x < 0 {
        out.push('-');
    }
    let ghost signed = out@;
    append_digits(out, m / (UNIT as u128));
    let mut r: u128 = m % (UNIT as u128);
    let mut places: u32 = PLACES;
    if r != 0 {
        out.push('.');
        let ghost pointed = out@;
        while places > 0 && r % 10 == 0
            invariant
                r != 0,
                decimals(r as nat, places as nat) == decimals(
                    (m % (UNIT as u128)) as nat,
                    PLACES as nat,
                ),
                out@ == pointed,
            decreases places,
        {
            r = r / 10;
            places = places - 1;
        }
        append_padded(out, r, places);
        assert(decimals(r as nat, places as nat) == padded(r as nat, places as nat));
    }
    assert(out@ =~= old(out)@ + fraction_text(x as int));
}

/// Appends the decimal numeral of `n` to `out`.
pub fn append_digits(out: &mut Vec<char>, n: u128)
    ensures
        final(out)@ == old(out)@ + digits(n as nat),
    decreases n,
{
    if n >= 10 {
        append_digits(out, n / 10);
    }
    let d: u8 = (n % 10) as u8;
    out.push((0x30u8 + d) as char);
    assert(out@ =~= old(out)@ + digits(n as nat));
}

/// Appends the decimal numeral of `x` to `out`.
pub fn append_numeral(out: &mut Vec<char>, x: i128)
    ensures
        final(out)@ == old(out)@ + numeral(x as int),
{
    if x < 0 {
        out.push('-');
        let n: u128 = if x == i128::MIN {
            0x8000_0000_0000_0000_0000_0000_0000_0000u128
        } else {
            (-x) as u128
        };
        append_digits(out, n);
        assert(out@ =~= old(out)@ + numeral(x as int));
    } else {
        append_digits(out, x as u128);
    }
}

/// Whether `text` holds exactly the characters of `word`.
pub fn is_text(text: &Vec<char>, word: &str) -> (r: bool)
    ensures
        r == (text@ == word@),
{
    let other = chars_of(word);
    same(text, &other)
}

/// Whether `a` comes before `b`, or is `b`, in the lexicographic order of
/// their characters' code points.
pub open spec fn precedes(a: Seq<char>, b: Seq<char>) -> bool
    decreases a.len(),
{
    if a.len() == 0 {
        true
    } else if b.len() == 0 {
        false
    } else if a[0] != b[0] {
        (a[0] as u32) < (b[0] as u32)
    } else {
        precedes(a.skip(1), b.skip(1))
    }
}

/// Whether `a` and `b` are the same sequence of characters.
pub fn same(a: &Vec<char>, b: &Vec<char>) -> (r: bool)
    ensures
        r == (a@ == b@),
{
    if a.len() != b.len() {
        return false;
    }
    let mut i: usize = 0;
    while i < a.len()
        invariant
            i <= a.len(),
            a.len() == b.len(),
            a@.take(i as int) == b@.take(i as int),
        decreases a.len() - i,
    {
        if a[i] != b[i] {
            return false;
        }
        assert(a@.take(i + 1) =~= a@.take(i as int).push(a@[i as int]));
        assert(b@.take(i + 1) =~= b@.take(i as int).push(b@[i as int]));
        i = i + 1;
    }
    assert(a@ =~= a@.take(i as int));
    assert(b@ =~= b@.take(i as int));
    true
}

/// Skipping a common prefix does not change the order of two sequences.
proof fn lemma_precedes_skip(a: Seq<char>, b: Seq<char>, i: int)
    requires
        0 <= i <= a.len(),
        i <= b.len(),
        a.take(i) == b.take(i),
    ensures
        precedes(a, b) == precedes(a.skip(i), b.skip(i)),
    decreases i,
{
    if i > 0 {
        assert(a[0] == a.take(i)[0]);
        assert(b[0] == b.take(i)[0]);
        assert(a.skip(1).take(i - 1) =~= a.take(i).skip(1));
        assert(b.skip(1).take(i - 1) =~= b.take(i).skip(1));
        lemma_precedes_skip(a.skip(1), b.skip(1), i - 1);
        assert(a.skip(1).skip(i - 1) =~= a.skip(i));
        assert(b.skip(1).skip(i - 1) =~= b.skip(i));
    } else {
        assert(a.skip(0) =~= a);
        assert(b.skip(0) =~= b);
    }
}

/// Whether `a` comes before `b`, or is `b`, in lexicographic order.
pub fn le(a: &Vec<char>, b: &Vec<char>) -> (r: bool)
    ensures
        r == precedes(a@, b@),
{
    let mut i: usize = 0;
    while i < a.len() && i < b.len()
        invariant
            i <= a.len(),
            i <= b.len(),
            a@.take(i as int) == b@.take(i as int),
        decreases a.len() - i,
    {
        if a[i] != b[i] {
            proof {
                lemma_precedes_skip(a@, b@, i as int);
            }
            return (a[i] as u32) < (b[i] as u32);
        }
        assert(a@.take(i + 1) =~= a@.take(i as int).push(a@[i as int]));
        assert(b@.take(i + 1) =~= b@.take(i as int).push(b@[i as int]));
        i = i + 1;
    }
    proof {
        lemma_precedes_skip(a@, b@, i as int);
    }
    i == a.len()
}

/// The order is reflexive.
pub proof fn lemma_precedes_reflexive(a: Seq<char>)
    ensures
        precedes(a, a),
    decreases a.len(),
{
    if a.len() > 0 {
        lemma_precedes_reflexive(a.skip(1));
    }
}

/// The order is total: of two sequences one precedes the other.
pub proof fn lemma_precedes_total(a: Seq<char>, b: Seq<char>)
    ensures
        precedes(a, b) || precedes(b, a),
    decreases a.len(),
{
    if a.len() > 0 && b.len() > 0 {
        if a[0] == b[0] {
            lemma_precedes_total(a.skip(1), b.skip(1));
        } else {
            vstd::utf8::char_u32_cast(a[0], a[0] as u32);
            vstd::utf8::char_u32_cast(b[0], b[0] as u32);
        }
    }
}

/// The order is antisymmetric: two sequences that precede each other are one.
pub proof fn lemma_precedes_antisymmetric(a: Seq<char>, b: Seq<char>)
    requires
        precedes(a, b),
        precedes(b, a),
    ensures
        a == b,
    decreases a.len(),
{
    if a.len() > 0 {
        lemma_precedes_antisymmetric(a.skip(1), b.skip(1));
        assert(a =~= seq![a[0]] + a.skip(1));
        assert(b =~= seq![b[0]] + b.skip(1));
    } else {
        assert(a =~= b);
    }
}

/// The order is transitive.
pub proof fn lemma_precedes_transitive(a: Seq<char>, b: Seq<char>, c: Seq<char>)
    requires
        precedes(a, b),
        precedes(b, c),
    ensures
        precedes(a, c),
    decreases a.len(),
{
    if a.len() > 0 && a[0] == b[0] && b[0] == c[0] {
        lemma_precedes_transitive(a.skip(1), b.skip(1), c.skip(1));
    }
}

/// `sorted` with `x` put in before the first item whose key does not come
/// before the key of `x`.
pub open spec fn inserted<T>(sorted: Seq<T>, x: T, key: spec_fn(T) -> Seq<char>) -> Seq<T>
    decreases sorted.len(),
{
    if sorted.len() == 0 {
        seq![x]
    } else if precedes(key(x), key(sorted[0])) {
        seq![x] + sorted
    } else {
        seq![sorted[0]] + inserted(sorted.skip(1), x, key)
    }
}

/// Where `x` goes into a sequence: `inserted` puts it at the first index
/// whose key does not come before the key of `x`.
pub proof fn lemma_inserted_at<T>(sorted: Seq<T>, x: T, key: spec_fn(T) -> Seq<char>, p: int)
    requires
        0 <= p <= sorted.len(),
        forall|j: int| 0 <= j < p ==> !precedes(key(x), key(#[trigger] sorted[j])),
        p < sorted.len() ==> precedes(key(x), key(sorted[p])),
    ensures
        inserted(sorted, x, key) == sorted.insert(p, x),
    decreases p,
{
    if sorted.len() == 0 {
        assert(seq![x] =~= sorted.insert(p, x));
    } else if p == 0 {
        assert(seq![x] + sorted =~= sorted.insert(0, x));
    } else {
        let rest = sorted.skip(1);
        assert forall|j: int| 0 <= j < p - 1 implies !precedes(key(x), key(#[trigger] rest[j])) by {
            assert(rest[j] == sorted[j + 1]);
        }
        assert(!precedes(key(x), key(sorted[0])));
        lemma_inserted_at(rest, x, key, p - 1);
        assert(seq![sorted[0]] + rest.insert(p - 1, x) =~= sorted.insert(p, x));
    }
}

/// The items in the order of their keys: each put into its place among
/// those before it.
pub open spec fn arranged<T>(items: Seq<T>, key: spec_fn(T) -> Seq<char>) -> Seq<T>
    decreases items.len(),
{
    if items.len() == 0 {
        Seq::empty()
    } else {
        inserted(arranged(items.drop_last(), key), items.last(), key)
    }
}

/// Whether the keys of the items stand in lexicographic order.
pub open spec fn ordered<T>(items: Seq<T>, key: spec_fn(T) -> Seq<char>) -> bool {
    forall|i: int, j: int|
        0 <= i < j < items.len() ==> precedes(key(#[trigger] items[i]), key(#[trigger] items[j]))
}

/// Whether no two items have the same key.
pub open spec fn distinct<T>(items: Seq<T>, key: spec_fn(T) -> Seq<char>) -> bool {
    forall|i: int, j: int|
        0 <= i < items.len() && 0 <= j < items.len() && i != j ==> key(#[trigger] items[i]) != key(
            #[trigger] items[j],
        )
}

/// Putting an item into a sequence adds that item and nothing else.
pub proof fn lemma_inserted_holds<T>(sorted: Seq<T>, x: T, key: spec_fn(T) -> Seq<char>)
    ensures
        inserted(sorted, x, key).len() == sorted.len() + 1,
        forall|y: T| #[trigger] inserted(sorted, x, key).contains(y) <==> y == x || sorted.contains(y),
    decreases sorted.len(),
{
    let r = inserted(sorted, x, key);
    if sorted.len() == 0 {
        assert(r[0] == x);
    } else if precedes(key(x), key(sorted[0])) {
        assert(r[0] == x);
        assert forall|y: T| #[trigger] r.contains(y) <==> y == x || sorted.contains(y) by {
            if sorted.contains(y) {
                let k = choose|k: int| 0 <= k < sorted.len() && sorted[k] == y;
                assert(r[k + 1] == y);
            }
        }
    } else {
        let rest = sorted.skip(1);
        let tail = inserted(rest, x, key);
        lemma_inserted_holds(rest, x, key);
        assert forall|y: T| #[trigger] r.contains(y) <==> y == x || sorted.contains(y) by {
            if r.contains(y) {
                let k = choose|k: int| 0 <= k < r.len() && r[k] == y;
                if k > 0 {
                    assert(tail[k - 1] == y);
                    assert(tail.contains(y));
                    if rest.contains(y) {
                        let m = choose|m: int| 0 <= m < rest.len() && rest[m] == y;
                        assert(sorted[m + 1] == y);
                    }
                } else {
                    assert(sorted[0] == y);
                }
            }
            if y == x || sorted.contains(y) {
                if y == x {
                    assert(tail.contains(y));
                    let k = choose|k: int| 0 <= k < tail.len() && tail[k] == y;
                    assert(r[k + 1] == y);
                } else {
                    let m = choose|m: int| 0 <= m < sorted.len() && sorted[m] == y;
                    if m == 0 {
                        assert(r[0] == y);
                    } else {
                        assert(rest[m - 1] == y);
                        assert(tail.contains(y));
                        let k = choose|k: int| 0 <= k < tail.len() && tail[k] == y;
                        assert(r[k + 1] == y);
                    }
                }
            }
        }
    }
}

/// Putting an item into an ordered sequence keeps the order.
pub proof fn lemma_inserted_ordered<T>(sorted: Seq<T>, x: T, key: spec_fn(T) -> Seq<char>)
    requires
        ordered(sorted, key),
    ensures
        ordered(inserted(sorted, x, key), key),
    decreases sorted.len(),
{
    let r = inserted(sorted, x, key);
    if sorted.len() == 0 {
    } else if precedes(key(x), key(sorted[0])) {
        assert forall|i: int, j: int| 0 <= i < j < r.len() implies precedes(
            key(#[trigger] r[i]),
            key(#[trigger] r[j]),
        ) by {
            if i == 0 {
                assert(r[j] == sorted[j - 1]);
                if j > 1 {
                    assert(precedes(key(sorted[0]), key(sorted[j - 1])));
                    lemma_precedes_transitive(key(x), key(sorted[0]), key(sorted[j - 1]));
                }
            } else {
                assert(r[i] == sorted[i - 1] && r[j] == sorted[j - 1]);
            }
        }
    } else {
        let rest = sorted.skip(1);
        let tail = inserted(rest, x, key);
        assert forall|i: int, j: int| 0 <= i < j < rest.len() implies precedes(
            key(#[trigger] rest[i]),
            key(#[trigger] rest[j]),
        ) by {
            assert(rest[i] == sorted[i + 1] && rest[j] == sorted[j + 1]);
        }
        lemma_inserted_ordered(rest, x, key);
        lemma_inserted_holds(rest, x, key);
        lemma_precedes_total(key(x), key(sorted[0]));
        assert forall|i: int, j: int| 0 <= i < j < r.len() implies precedes(
            key(#[trigger] r[i]),
            key(#[trigger] r[j]),
        ) by {
            if i == 0 {
                assert(r[j] == tail[j - 1]);
                assert(tail.contains(tail[j - 1]));
                if tail[j - 1] != x {
                    let m = choose|m: int| 0 <= m < rest.len() && rest[m] == tail[j - 1];
                    assert(sorted[m + 1] == rest[m]);
                    assert(precedes(key(sorted[0]), key(sorted[m + 1])));
                }
            } else {
                assert(r[i] == tail[i - 1] && r[j] == tail[j - 1]);
            }
        }
    }
}

/// Putting an item with a new key into a sequence of distinct keys keeps
/// the keys distinct.
pub proof fn lemma_inserted_distinct<T>(sorted: Seq<T>, x: T, key: spec_fn(T) -> Seq<char>)
    requires
        distinct(sorted, key),
        forall|k: int| 0 <= k < sorted.len() ==> key(#[trigger] sorted[k]) != key(x),
    ensures
        distinct(inserted(sorted, x, key), key),
    decreases sorted.len(),
{
    let r = inserted(sorted, x, key);
    if sorted.len() == 0 {
    } else if precedes(key(x), key(sorted[0])) {
        assert forall|i: int, j: int|
            0 <= i < r.len() && 0 <= j < r.len() && i != j implies key(#[trigger] r[i]) != key(
            #[trigger] r[j],
        ) by {
            if i > 0 {
                assert(r[i] == sorted[i - 1]);
            }
            if j > 0 {
                assert(r[j] == sorted[j - 1]);
            }
        }
    } else {
        let rest = sorted.skip(1);
        let tail = inserted(rest, x, key);
        assert forall|i: int, j: int|
            0 <= i < rest.len() && 0 <= j < rest.len() && i != j implies key(#[trigger] rest[i])
            != key(#[trigger] rest[j]) by {
            assert(rest[i] == sorted[i + 1] && rest[j] == sorted[j + 1]);
        }
        assert forall|k: int| 0 <= k < rest.len() implies key(#[trigger] rest[k]) != key(x) by {
            assert(rest[k] == sorted[k + 1]);
        }
        lemma_inserted_distinct(rest, x, key);
        lemma_inserted_holds(rest, x, key);
        assert forall|k: int| 0 <= k < tail.len() implies key(#[trigger] tail[k]) != key(
            sorted[0],
        ) by {
            assert(tail.contains(tail[k]));
            if tail[k] != x {
                let m = choose|m: int| 0 <= m < rest.len() && rest[m] == tail[k];
                assert(sorted[m + 1] == rest[m]);
            }
        }
        assert forall|i: int, j: int|
            0 <= i < r.len() && 0 <= j < r.len() && i != j implies key(#[trigger] r[i]) != key(
            #[trigger] r[j],
        ) by {
            if i > 0 {
                assert(r[i] == tail[i - 1]);
            }
            if j > 0 {
                assert(r[j] == tail[j - 1]);
            }
        }
    }
}

/// The arranged items are exactly the given items, in the order of their
/// keys, and distinct keys stay distinct.
pub proof fn lemma_arranged<T>(items: Seq<T>, key: spec_fn(T) -> Seq<char>)
    ensures
        arranged(items, key).len() == items.len(),
        forall|x: T| #[trigger] arranged(items, key).contains(x) <==> items.contains(x),
        ordered(arranged(items, key), key),
        distinct(items, key) ==> distinct(arranged(items, key), key),
    decreases items.len(),
{
    if items.len() > 0 {
        let front = items.drop_last();
        let e = items.last();
        lemma_arranged(front, key);
        lemma_inserted_holds(arranged(front, key), e, key);
        lemma_inserted_ordered(arranged(front, key), e, key);
        assert forall|x: T| #[trigger] arranged(items, key).contains(x) <==> items.contains(x) by {
            if items.contains(x) {
                let k = choose|k: int| 0 <= k < items.len() && items[k] == x;
                if k < front.len() {
                    assert(front[k] == x);
                }
            }
            if front.contains(x) {
                let k = choose|k: int| 0 <= k < front.len() && front[k] == x;
                assert(items[k] == x);
            }
        }
        if distinct(items, key) {
            assert forall|i: int, j: int|
                0 <= i < front.len() && 0 <= j < front.len() && i != j implies key(
                #[trigger] front[i],
            ) != key(#[trigger] front[j]) by {
                assert(front[i] == items[i] && front[j] == items[j]);
            }
            let c = arranged(front, key);
            assert forall|k: int| 0 <= k < c.len() implies key(#[trigger] c[k]) != key(e) by {
                assert(c.contains(c[k]));
                let m = choose|m: int| 0 <= m < front.len() && front[m] == c[k];
                assert(items[m] == front[m]);
                assert(items[items.len() - 1] == e);
            }
            lemma_inserted_distinct(c, e, key);
        }
    } else {
        assert(arranged(items, key).len() == 0);
    }
}

/// Two ordered sequences of distinct keys that hold the same items are the
/// same sequence.
pub proof fn lemma_order_unique<T>(a: Seq<T>, b: Seq<T>, key: spec_fn(T) -> Seq<char>)
    requires
        ordered(a, key),
        ordered(b, key),
        distinct(a, key),
        distinct(b, key),
        forall|x: T| a.contains(x) <==> b.contains(x),
    ensures
        a == b,
    decreases a.len(),
{
    if a.len() == 0 {
        if b.len() > 0 {
            assert(b.contains(b[0]));
        }
        assert(a =~= b);
    } else {
        assert(a.contains(a[0]));
        let m = choose|m: int| 0 <= m < b.len() && b[m] == a[0];
        assert(b.contains(b[0]));
        let k = choose|k: int| 0 <= k < a.len() && a[k] == b[0];
        lemma_precedes_total(key(a[0]), key(a[0]));
        lemma_precedes_total(key(b[0]), key(b[0]));
        assert(precedes(key(a[0]), key(a[k])));
        assert(precedes(key(b[0]), key(b[m])));
        lemma_precedes_antisymmetric(key(a[0]), key(b[0]));
        assert(k == 0);
        let ra = a.skip(1);
        let rb = b.skip(1);
        assert forall|i: int, j: int| 0 <= i < j < ra.len() implies precedes(
            key(#[trigger] ra[i]),
            key(#[trigger] ra[j]),
        ) by {
            assert(ra[i] == a[i + 1] && ra[j] == a[j + 1]);
        }
        assert forall|i: int, j: int| 0 <= i < j < rb.len() implies precedes(
            key(#[trigger] rb[i]),
            key(#[trigger] rb[j]),
        ) by {
            assert(rb[i] == b[i + 1] && rb[j] == b[j + 1]);
        }
        assert forall|i: int, j: int|
            0 <= i < ra.len() && 0 <= j < ra.len() && i != j implies key(#[trigger] ra[i]) != key(
            #[trigger] ra[j],
        ) by {
            assert(ra[i] == a[i + 1] && ra[j] == a[j + 1]);
        }
        assert forall|i: int, j: int|
            0 <= i < rb.len() && 0 <= j < rb.len() && i != j implies key(#[trigger] rb[i]) != key(
            #[trigger] rb[j],
        ) by {
            assert(rb[i] == b[i + 1] && rb[j] == b[j + 1]);
        }
        assert forall|x: T| ra.contains(x) <==> rb.contains(x) by {
            if ra.contains(x) {
                let i = choose|i: int| 0 <= i < ra.len() && ra[i] == x;
                assert(a[i + 1] == x);
                assert(a.contains(x));
                let j = choose|j: int| 0 <= j < b.len() && b[j] == x;
                assert(key(a[i + 1]) != key(a[0]));
                assert(j != 0);
                assert(rb[j - 1] == x);
            }
            if rb.contains(x) {
                let i = choose|i: int| 0 <= i < rb.len() && rb[i] == x;
                assert(b[i + 1] == x);
                assert(b.contains(x));
                let j = choose|j: int| 0 <= j < a.len() && a[j] == x;
                assert(key(b[i + 1]) != key(b[0]));
                assert(j != 0);
                assert(ra[j - 1] == x);
            }
        }
        lemma_order_unique(ra, rb, key);
        assert(a =~= seq![a[0]] + ra);
        assert(b =~= seq![b[0]] + rb);
    }
}

} // verus!
