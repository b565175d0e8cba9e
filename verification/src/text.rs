//! Text: ordering, membership, sorting and decimal notation.

use vstd::prelude::*;
use vstd::relations::{sorted_by, total_ordering};
use vstd::utf8::encode_utf8;

verus! {

/// The contents of a sequence of strings.
pub open spec fn texts(strings: Seq<String>) -> Seq<Seq<char>> {
    strings.map_values(|s: String| s@)
}

/// Lexicographic order on byte sequences: `a` is a proper prefix of `b`, or is smaller at the
/// first position where the two differ.
pub open spec fn bytes_less(a: Seq<u8>, b: Seq<u8>) -> bool {
    exists|n: int|
        #![trigger a.take(n)]
        {
            &&& 0 <= n <= a.len()
            &&& n < b.len()
            &&& a.take(n) == b.take(n)
            &&& n < a.len() ==> a[n] < b[n]
        }
}

/// The order of strings: that of their UTF-8 bytes.
pub open spec fn text_less(a: Seq<char>, b: Seq<char>) -> bool {
    bytes_less(encode_utf8(a), encode_utf8(b))
}

/// The order of strings, equality included.
pub open spec fn text_at_most(a: Seq<char>, b: Seq<char>) -> bool {
    a == b || text_less(a, b)
}

/// The strings in ascending order, each as often as it occurs.
pub open spec fn sorted_texts(s: Seq<Seq<char>>) -> Seq<Seq<char>> {
    s.sort_by(|a: Seq<char>, b: Seq<char>| text_at_most(a, b))
}

proof fn lemma_bytes_less_irreflexive(a: Seq<u8>)
    ensures
        !bytes_less(a, a),
{
}

proof fn lemma_bytes_less_transitive(a: Seq<u8>, b: Seq<u8>, c: Seq<u8>)
    requires
        bytes_less(a, b),
        bytes_less(b, c),
    ensures
        bytes_less(a, c),
{
    let n = choose|n: int|
        #![trigger a.take(n)]
        0 <= n <= a.len() && n < b.len() && a.take(n) == b.take(n) && (n < a.len() ==> a[n] < b[n]);
    let m = choose|m: int|
        #![trigger b.take(m)]
        0 <= m <= b.len() && m < c.len() && b.take(m) == c.take(m) && (m < b.len() ==> b[m] < c[m]);
    let k = if n < m { n } else { m };
    assert(a.take(k) =~= c.take(k)) by {
        assert forall|i: int| 0 <= i < k implies a[i] == c[i] by {
            assert(a.take(n)[i] == b.take(n)[i]);
            assert(b.take(m)[i] == c.take(m)[i]);
        }
    }
    if n < m {
        assert(b.take(m)[n] == c.take(m)[n]);
    } else if m < n {
        assert(a.take(n)[m] == b.take(n)[m]);
    }
}

proof fn lemma_bytes_less_connected(a: Seq<u8>, b: Seq<u8>)
    ensures
        a == b || bytes_less(a, b) || bytes_less(b, a),
    decreases a.len(),
{
    if a.len() == 0 {
        if b.len() == 0 {
            assert(a =~= b);
        } else {
            assert(a.take(0) =~= b.take(0));
        }
    } else if b.len() == 0 {
        assert(b.take(0) =~= a.take(0));
    } else if a[0] != b[0] {
        assert(a.take(0) =~= b.take(0));
        assert(b.take(0) =~= a.take(0));
    } else {
        let x = a.skip(1);
        let y = b.skip(1);
        lemma_bytes_less_connected(x, y);
        if x == y {
            assert(a =~= seq![a[0]] + x);
            assert(b =~= seq![b[0]] + y);
        } else if bytes_less(x, y) {
            lemma_bytes_less_prepend(a, b);
        } else {
            lemma_bytes_less_prepend(b, a);
        }
    }
}

proof fn lemma_bytes_less_prepend(a: Seq<u8>, b: Seq<u8>)
    requires
        a.len() > 0,
        b.len() > 0,
        a[0] == b[0],
        bytes_less(a.skip(1), b.skip(1)),
    ensures
        bytes_less(a, b),
{
    let x = a.skip(1);
    let y = b.skip(1);
    let n = choose|n: int|
        #![trigger x.take(n)]
        0 <= n <= x.len() && n < y.len() && x.take(n) == y.take(n) && (n < x.len() ==> x[n] < y[n]);
    assert(a.take(n + 1) =~= b.take(n + 1)) by {
        assert forall|i: int| 0 <= i < n + 1 implies a[i] == b[i] by {
            if i > 0 {
                assert(x.take(n)[i - 1] == y.take(n)[i - 1]);
            }
        }
    }
    if n < x.len() {
        assert(a[n + 1] == x[n]);
        assert(b[n + 1] == y[n]);
    }
}

/// No string is less than itself, and of two different strings exactly one is less.
pub proof fn lemma_text_order(a: Seq<char>, b: Seq<char>)
    ensures
        !text_less(a, a),
        text_less(a, b) ==> a != b && !text_less(b, a),
        a == b || text_less(a, b) || text_less(b, a),
{
    lemma_bytes_less_irreflexive(encode_utf8(a));
    lemma_bytes_less_connected(encode_utf8(a), encode_utf8(b));
    if bytes_less(encode_utf8(a), encode_utf8(b)) && bytes_less(encode_utf8(b), encode_utf8(a)) {
        lemma_bytes_less_transitive(encode_utf8(a), encode_utf8(b), encode_utf8(a));
    }
    vstd::utf8::encode_utf8_decode_utf8(a);
    vstd::utf8::encode_utf8_decode_utf8(b);
}

/// The order of strings is transitive.
pub proof fn lemma_text_order_transitive(a: Seq<char>, b: Seq<char>, c: Seq<char>)
    requires
        text_less(a, b),
        text_less(b, c),
    ensures
        text_less(a, c),
{
    lemma_bytes_less_transitive(encode_utf8(a), encode_utf8(b), encode_utf8(c));
}

/// Whether one string comes before another.
pub fn str_less(a: &str, b: &str) -> (less: bool)
    ensures
        less == text_less(a@, b@),
{
    let x = a.as_bytes();
    let y = b.as_bytes();
    let mut i: usize = 0;
    while i < x.len() && i < y.len() && x[i] == y[i]
        invariant
            0 <= i <= x@.len(),
            i <= y@.len(),
            x@.take(i as int) == y@.take(i as int),
        decreases x@.len() - i,
    {
        assert(x@.take(i + 1) =~= x@.take(i as int).push(x@[i as int]));
        assert(y@.take(i + 1) =~= y@.take(i as int).push(y@[i as int]));
        i = i + 1;
    }
    let less = i < y.len() && (i == x.len() || x[i] < y[i]);
    proof {
        if !less {
            if bytes_less(x@, y@) {
                let n = choose|n: int|
                    #![trigger x@.take(n)]
                    0 <= n <= x@.len() && n < y@.len() && x@.take(n) == y@.take(n) && (n < x@.len()
                        ==> x@[n] < y@[n]);
                if n < i {
                    assert(x@.take(i as int)[n] == y@.take(i as int)[n]);
                } else if n > i {
                    assert(x@.take(n)[i as int] == y@.take(n)[i as int]);
                }
            }
        }
    }
    less
}

/// The order of strings is a total order.
proof fn lemma_text_total()
    ensures
        total_ordering(|a: Seq<char>, b: Seq<char>| text_at_most(a, b)),
{
    let leq = |a: Seq<char>, b: Seq<char>| text_at_most(a, b);
    assert forall|a: Seq<char>, b: Seq<char>| #[trigger] leq(a, b) && #[trigger] leq(b, a) implies a
        == b by {
        lemma_text_order(a, b);
    }
    assert forall|a: Seq<char>, b: Seq<char>, c: Seq<char>| #[trigger]
        leq(a, b) && #[trigger] leq(b, c) implies leq(a, c) by {
        if a != b && b != c {
            lemma_text_order_transitive(a, b, c);
        }
    }
    assert forall|a: Seq<char>, b: Seq<char>| #[trigger] leq(a, b) || #[trigger] leq(b, a) by {
        lemma_text_order(a, b);
    }
}

/// Sorting keeps exactly the strings that were there, and leaves them in order.
pub proof fn lemma_sorted_texts(s: Seq<Seq<char>>)
    ensures
        sorted_texts(s).to_multiset() == s.to_multiset(),
        sorted_texts(s).len() == s.len(),
        forall|x: Seq<char>| sorted_texts(s).contains(x) <==> s.contains(x),
        forall|i: int, j: int|
            0 <= i < j < s.len() ==> text_at_most(
                #[trigger] sorted_texts(s)[i],
                #[trigger] sorted_texts(s)[j],
            ),
{
    let leq = |a: Seq<char>, b: Seq<char>| text_at_most(a, b);
    lemma_text_total();
    s.lemma_sort_by_ensures(leq);
    broadcast use vstd::seq_lib::group_to_multiset_ensures;

    let t = sorted_texts(s);
    assert(t.to_multiset() == s.to_multiset());
    assert(t.to_multiset().len() == t.len());
    assert(s.to_multiset().len() == s.len());
    assert forall|x: Seq<char>| t.contains(x) <==> s.contains(x) by {
        assert(t.contains(x) <==> t.to_multiset().count(x) > 0);
        assert(s.contains(x) <==> s.to_multiset().count(x) > 0);
    }
    assert forall|i: int, j: int| 0 <= i < j < s.len() implies text_at_most(
        #[trigger] t[i],
        #[trigger] t[j],
    ) by {
        assert(leq(t[i], t[j]));
    }
}

/// Sorts strings in ascending order.
pub fn sort_strings(strings: Vec<String>) -> (sorted: Vec<String>)
    ensures
        texts(sorted@) == sorted_texts(texts(strings@)),
{
    broadcast use vstd::seq_lib::group_to_multiset_ensures;
    broadcast use vstd::multiset::group_multiset_axioms;

    let ghost leq = |a: Seq<char>, b: Seq<char>| text_at_most(a, b);
    let ghost all = texts(strings@);
    let mut rest = strings;
    let mut sorted: Vec<String> = Vec::new();
    proof {
        assert(texts(sorted@) =~= Seq::<Seq<char>>::empty());
    }
    while rest.len() > 0
        invariant
            leq == (|a: Seq<char>, b: Seq<char>| text_at_most(a, b)),
            sorted_by(texts(sorted@), leq),
            all.to_multiset() =~= texts(sorted@).to_multiset().add(texts(rest@).to_multiset()),
        decreases rest@.len(),
    {
        let ghost rest_before = texts(rest@);
        let ghost sorted_before = texts(sorted@);
        let next = rest.pop().unwrap();
        let mut i: usize = 0;
        while i < sorted.len() && !str_less(next.as_str(), sorted[i].as_str())
            invariant
                0 <= i <= sorted@.len(),
                forall|j: int| 0 <= j < i ==> !text_less(next@, (#[trigger] sorted@[j])@),
            decreases sorted@.len() - i,
        {
            i = i + 1;
        }
        let ghost text = next@;
        sorted.insert(i, next);
        proof {
            assert(texts(rest@) =~= rest_before.drop_last());
            assert(rest_before =~= texts(rest@).push(text));
            assert(texts(sorted@) =~= sorted_before.insert(i as int, text));
            lemma_insert_multiset(sorted_before, i as int, text);
            lemma_push_multiset(texts(rest@), text);
            lemma_text_total();
            assert forall|a: int, b: int| 0 <= a < b < texts(sorted@).len() implies #[trigger] leq(
                texts(sorted@)[a],
                texts(sorted@)[b],
            ) by {
                let t = texts(sorted@);
                if b < i {
                    assert(leq(sorted_before[a], sorted_before[b]));
                } else if a > i {
                    assert(leq(sorted_before[a - 1], sorted_before[b - 1]));
                } else if a < i && b == i {
                    lemma_text_order(text, sorted_before[a]);
                } else if a < i && b > i {
                    assert(leq(sorted_before[a], sorted_before[b - 1]));
                } else {
                    let next_up = sorted_before[i as int];
                    if b - 1 > i {
                        assert(leq(next_up, sorted_before[b - 1]));
                        if next_up != sorted_before[b - 1] {
                            lemma_text_order_transitive(text, next_up, sorted_before[b - 1]);
                        }
                    }
                }
            }
        }
    }
    proof {
        assert(texts(rest@) =~= Seq::<Seq<char>>::empty());
        lemma_text_total();
        all.lemma_sort_by_ensures(leq);
        assert(texts(rest@).to_multiset() =~= vstd::multiset::Multiset::<Seq<char>>::empty());
        assert(texts(sorted@).to_multiset() =~= sorted_texts(all).to_multiset());
        vstd::seq_lib::lemma_sorted_unique(texts(sorted@), sorted_texts(all), leq);
    }
    sorted
}

proof fn lemma_push_multiset(s: Seq<Seq<char>>, x: Seq<char>)
    ensures
        s.push(x).to_multiset() =~= s.to_multiset().insert(x),
{
    broadcast use vstd::seq_lib::group_to_multiset_ensures;

}

proof fn lemma_insert_multiset(s: Seq<Seq<char>>, i: int, x: Seq<char>)
    requires
        0 <= i <= s.len(),
    ensures
        s.insert(i, x).to_multiset() =~= s.to_multiset().insert(x),
{
    broadcast use vstd::seq_lib::group_to_multiset_ensures;

    assert(s.insert(i, x) =~= s.take(i).push(x) + s.skip(i));
    assert(s =~= s.take(i) + s.skip(i));
    vstd::seq_lib::lemma_multiset_commutative(s.take(i).push(x), s.skip(i));
    vstd::seq_lib::lemma_multiset_commutative(s.take(i), s.skip(i));
}

/// Whether a string is among those of a list.
pub fn contains_str(strings: &Vec<String>, wanted: &str) -> (found: bool)
    ensures
        found == texts(strings@).contains(wanted@),
{
    let mut i: usize = 0;
    while i < strings.len()
        invariant
            0 <= i <= strings@.len(),
            forall|j: int| 0 <= j < i ==> (#[trigger] strings@[j])@ != wanted@,
        decreases strings@.len() - i,
    {
        if same_str(strings[i].as_str(), wanted) {
            assert(texts(strings@)[i as int] == wanted@);
            return true;
        }
        i = i + 1;
    }
    assert forall|j: int| 0 <= j < texts(strings@).len() implies texts(strings@)[j] != wanted@ by {
        assert(strings@[j]@ != wanted@);
    }
    false
}

/// Whether two strings have the same contents.
pub fn same_str(a: &str, b: &str) -> (same: bool)
    ensures
        same == (a@ == b@),
{
    let same = !str_less(a, b) && !str_less(b, a);
    proof {
        lemma_text_order(a@, b@);
    }
    same
}

/// The character for a decimal digit.
pub open spec fn digit(d: int) -> char {
    (d + 48) as char
}

/// The decimal notation of a natural number.
pub open spec fn decimal_nat(n: nat) -> Seq<char>
    decreases n,
{
    if n < 10 {
        seq![digit(n as int)]
    } else {
        decimal_nat(n / 10).push(digit((n % 10) as int))
    }
}

/// The decimal notation of an integer.
pub open spec fn decimal(n: int) -> Seq<char> {
    if n < 0 {
        seq!['-'] + decimal_nat((-n) as nat)
    } else {
        decimal_nat(n as nat)
    }
}

fn digit_str(d: u64) -> (s: &'static str)
    requires
        d < 10,
    ensures
        s@ == seq![digit(d as int)],
{
    proof {
        reveal_strlit("0");
        reveal_strlit("1");
        reveal_strlit("2");
        reveal_strlit("3");
        reveal_strlit("4");
        reveal_strlit("5");
        reveal_strlit("6");
        reveal_strlit("7");
        reveal_strlit("8");
        reveal_strlit("9");
    }
    let s = match d {
        0 => "0",
        1 => "1",
        2 => "2",
        3 => "3",
        4 => "4",
        5 => "5",
        6 => "6",
        7 => "7",
        8 => "8",
        _ => "9",
    };
    assert(s@ =~= seq![digit(d as int)]);
    s
}

fn append_digits(out: &mut String, n: u64)
    ensures
        final(out)@ == old(out)@ + decimal_nat(n as nat),
    decreases n,
{
    if n >= 10 {
        append_digits(out, n / 10);
    }
    out.append(digit_str(n % 10));
    proof {
        if n >= 10 {
            assert(old(out)@ + decimal_nat(n as nat) =~= (old(out)@ + decimal_nat((n / 10) as nat))
                + seq![digit((n % 10) as int)]);
        }
    }
}

/// Appends the decimal notation of an integer.
pub fn append_decimal(out: &mut String, n: i64)
    ensures
        final(out)@ == old(out)@ + decimal(n as int),
{
    if n < 0 {
        proof {
            reveal_strlit("-");
        }
        out.append("-");
        let magnitude: u64 = if n == i64::MIN {
            9223372036854775808
        } else {
            (-n) as u64
        };
        append_digits(out, magnitude);
        assert(final(out)@ =~= old(out)@ + decimal(n as int));
    } else {
        append_digits(out, n as u64);
    }
}

/// Appends the decimal notation of a count.
pub fn append_count(out: &mut String, n: usize)
    ensures
        final(out)@ == old(out)@ + decimal(n as int),
{
    append_digits(out, n as u64);
}

} // verus!
