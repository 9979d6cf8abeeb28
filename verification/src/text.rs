//! Text building and ordering on top of `String`.

use vstd::prelude::*;
use vstd::relations::*;
use vstd::seq_lib::*;

verus! {

/// The character that denotes the decimal digit `d`.
pub open spec fn digit_char(d: nat) -> char
    recommends
        d < 10,
{
    ('0' as int + d) as char
}

/// The decimal numeral of `n`, without leading zeros.
pub open spec fn decimal(n: nat) -> Seq<char>
    decreases n,
{
    if n < 10 {
        seq![digit_char(n)]
    } else {
        decimal(n / 10).push(digit_char(n % 10))
    }
}

/// The texts of a sequence of strings.
pub open spec fn texts(strings: Seq<String>) -> Seq<Seq<char>> {
    strings.map_values(|s: String| s@)
}

/// The text of an optional string.
pub open spec fn text_of(string: Option<String>) -> Option<Seq<char>> {
    match string {
        Some(s) => Some(s@),
        None => None,
    }
}

/// The parts in order, with `separator` between each two neighbours.
pub open spec fn joined(parts: Seq<Seq<char>>, separator: Seq<char>) -> Seq<char>
    decreases parts.len(),
{
    if parts.len() == 0 {
        Seq::empty()
    } else if parts.len() == 1 {
        parts[0]
    } else {
        joined(parts.drop_last(), separator) + separator + parts.last()
    }
}

/// Lexicographic order by code point.
pub open spec fn text_le(a: Seq<char>, b: Seq<char>) -> bool
    decreases a.len(),
{
    if a.len() == 0 {
        true
    } else if b.len() == 0 {
        false
    } else if a[0] == b[0] {
        text_le(a.drop_first(), b.drop_first())
    } else {
        a[0] < b[0]
    }
}

/// `text_le` as a function value, the form in which sorting takes it.
pub open spec fn text_order() -> spec_fn(Seq<char>, Seq<char>) -> bool {
    |a: Seq<char>, b: Seq<char>| text_le(a, b)
}

/// The texts in ascending lexicographic order.
pub open spec fn sorted_texts(parts: Seq<Seq<char>>) -> Seq<Seq<char>> {
    parts.sort_by(text_order())
}

proof fn lemma_text_le_reflexive(a: Seq<char>)
    ensures
        text_le(a, a),
    decreases a.len(),
{
    if a.len() > 0 {
        lemma_text_le_reflexive(a.drop_first());
    }
}

proof fn lemma_text_le_antisymmetric(a: Seq<char>, b: Seq<char>)
    requires
        text_le(a, b),
        text_le(b, a),
    ensures
        a == b,
    decreases a.len(),
{
    if a.len() > 0 && b.len() > 0 {
        lemma_text_le_antisymmetric(a.drop_first(), b.drop_first());
        assert(a =~= seq![a[0]] + a.drop_first());
        assert(b =~= seq![b[0]] + b.drop_first());
    } else {
        assert(a =~= b);
    }
}

proof fn lemma_text_le_transitive(a: Seq<char>, b: Seq<char>, c: Seq<char>)
    requires
        text_le(a, b),
        text_le(b, c),
    ensures
        text_le(a, c),
    decreases a.len(),
{
    if a.len() > 0 && b.len() > 0 && c.len() > 0 && a[0] == b[0] && b[0] == c[0] {
        lemma_text_le_transitive(a.drop_first(), b.drop_first(), c.drop_first());
    }
}

proof fn lemma_text_le_total(a: Seq<char>, b: Seq<char>)
    ensures
        text_le(a, b) || text_le(b, a),
    decreases a.len(),
{
    if a.len() > 0 && b.len() > 0 {
        lemma_text_le_total(a.drop_first(), b.drop_first());
    }
}

/// Lexicographic order by code point is a total order.
pub proof fn lemma_text_order_is_total()
    ensures
        total_ordering(text_order()),
{
    let le = text_order();
    assert forall|a: Seq<char>| #[trigger] le(a, a) by {
        lemma_text_le_reflexive(a);
    }
    assert forall|a: Seq<char>, b: Seq<char>| #[trigger] le(a, b) && #[trigger] le(b, a) implies a
        == b by {
        lemma_text_le_antisymmetric(a, b);
    }
    assert forall|a: Seq<char>, b: Seq<char>, c: Seq<char>| #[trigger]
        le(a, b) && #[trigger] le(b, c) implies le(a, c) by {
        lemma_text_le_transitive(a, b, c);
    }
    assert forall|a: Seq<char>, b: Seq<char>| #[trigger] le(a, b) || le(b, a) by {
        lemma_text_le_total(a, b);
    }
}

/// Sorting keeps the texts, each as often as before, and puts them in ascending order.
pub proof fn lemma_sorted_texts(parts: Seq<Seq<char>>)
    ensures
        sorted_texts(parts).to_multiset() == parts.to_multiset(),
        sorted_by(sorted_texts(parts), text_order()),
{
    lemma_text_order_is_total();
    parts.lemma_sort_by_ensures(text_order());
}

/// Two texts, one after the other.
pub fn concat2(a: &str, b: &str) -> (text: String)
    ensures
        text@ == a@ + b@,
{
    a.to_owned().concat(b)
}

/// Three texts, one after the other.
pub fn concat3(a: &str, b: &str, c: &str) -> (text: String)
    ensures
        text@ == a@ + b@ + c@,
{
    a.to_owned().concat(b).concat(c)
}

/// Four texts, one after the other.
pub fn concat4(a: &str, b: &str, c: &str, d: &str) -> (text: String)
    ensures
        text@ == a@ + b@ + c@ + d@,
{
    a.to_owned().concat(b).concat(c).concat(d)
}

fn digit_text(d: u64) -> (text: &'static str)
    requires
        d < 10,
    ensures
        text@ == seq![digit_char(d as nat)],
{
    proof {
        reveal_strlit("0");
        reveal_strlit("1");
        reveal_strlit("2");
        reveal_strlit("3");
        reveal_strlit("4");
        reveal_strlit("5");
        reveal_strlit("6");
        reveal_strlit("7");
        reveal_strlit("8");
        reveal_strlit("9");
    }
    if d == 0 {
        "0"
    } else if d == 1 {
        "1"
    } else if d == 2 {
        "2"
    } else if d == 3 {
        "3"
    } else if d == 4 {
        "4"
    } else if d == 5 {
        "5"
    } else if d == 6 {
        "6"
    } else if d == 7 {
        "7"
    } else if d == 8 {
        "8"
    } else {
        "9"
    }
}

/// The decimal numeral of `n`.
pub fn decimal_text(n: u64) -> (text: String)
    ensures
        text@ == decimal(n as nat),
    decreases n,
{
    if n < 10 {
        digit_text(n).to_owned()
    } else {
        let mut text = decimal_text(n / 10);
        text.append(digit_text(n % 10));
        text
    }
}

/// Whether `a` comes no later than `b` in lexicographic order by code point.
pub fn text_at_most(a: &str, b: &str) -> (result: bool)
    ensures
        result == text_le(a@, b@),
{
    let a_len: usize = a.unicode_len();
    let b_len: usize = b.unicode_len();
    let mut i: usize = 0;
    assert(a@.skip(0) =~= a@);
    assert(b@.skip(0) =~= b@);
    while i < a_len && i < b_len
        invariant
            a_len == a@.len(),
            b_len == b@.len(),
            i <= a_len,
            i <= b_len,
            text_le(a@, b@) == text_le(a@.skip(i as int), b@.skip(i as int)),
        decreases a_len - i,
    {
        let x = a.get_char(i);
        let y = b.get_char(i);
        if x != y {
            return x < y;
        }
        assert(a@.skip(i as int).drop_first() =~= a@.skip(i + 1));
        assert(b@.skip(i as int).drop_first() =~= b@.skip(i + 1));
        i = i + 1;
    }
    a_len <= b_len
}

/// The parts in order, with `separator` between each two neighbours.
pub fn join(parts: &Vec<String>, separator: &str) -> (text: String)
    ensures
        text@ == joined(texts(parts@), separator@),
{
    let mut text = String::new();
    let mut i: usize = 0;
    while i < parts.len()
        invariant
            i <= parts.len(),
            text@ == joined(texts(parts@).take(i as int), separator@),
        decreases parts.len() - i,
    {
        proof {
            assert(texts(parts@).take(i + 1).drop_last() =~= texts(parts@).take(i as int));
            if i == 0 {
                assert(texts(parts@).take(0) =~= Seq::<Seq<char>>::empty());
                assert(text@ + parts@[0]@ =~= parts@[0]@);
            }
        }
        if i > 0 {
            text.append(separator);
        }
        text.append(parts[i].as_str());
        i = i + 1;
    }
    assert(texts(parts@).take(parts@.len() as int) =~= texts(parts@));
    text
}

/// Sort the strings in ascending lexicographic order.
pub fn sort_texts(parts: &mut Vec<String>)
    ensures
        texts(final(parts)@) == sorted_texts(texts(old(parts)@)),
{
    let ghost whole = texts(parts@);
    let mut sorted: Vec<String> = Vec::new();
    let n: usize = parts.len();
    let mut k: usize = 0;
    proof {
        lemma_text_order_is_total();
        assert(texts(sorted@) =~= Seq::<Seq<char>>::empty());
        assert(whole.take(0) =~= Seq::<Seq<char>>::empty());
    }
    while k < n
        invariant
            n == parts@.len(),
            k <= n,
            whole == texts(parts@),
            total_ordering(text_order()),
            sorted_by(texts(sorted@), text_order()),
            texts(sorted@).to_multiset() == whole.take(k as int).to_multiset(),
            sorted@.len() == k,
        decreases n - k,
    {
        insert_text(&mut sorted, parts[k].clone());
        proof {
            let x = parts@[k as int]@;
            assert(whole.take(k + 1) =~= whole.take(k as int).push(x));
            whole.take(k as int).to_multiset_ensures();
        }
        k = k + 1;
    }
    proof {
        assert(whole.take(n as int) =~= whole);
        lemma_sorted_texts(whole);
        lemma_sorted_unique(texts(sorted@), sorted_texts(whole), text_order());
    }
    *parts = sorted;
}

/// Insert a string into a sorted list so that it stays sorted.
fn insert_text(sorted: &mut Vec<String>, item: String)
    requires
        sorted_by(texts(old(sorted)@), text_order()),
        total_ordering(text_order()),
    ensures
        sorted_by(texts(final(sorted)@), text_order()),
        texts(final(sorted)@).to_multiset() == texts(old(sorted)@).to_multiset().insert(item@),
        final(sorted)@.len() == old(sorted)@.len() + 1,
{
    let ghost before = texts(sorted@);
    let ghost le = text_order();
    let mut i: usize = 0;
    while i < sorted.len() && text_at_most(sorted[i].as_str(), item.as_str())
        invariant
            i <= sorted@.len(),
            before == texts(sorted@),
            forall|j: int| 0 <= j < i ==> text_le(#[trigger] before[j], item@),
        decreases sorted@.len() - i,
    {
        assert(before[i as int] == sorted@[i as int]@);
        i = i + 1;
    }
    let ghost x = item@;
    let ghost pos = i as int;
    proof {
        if pos < before.len() {
            assert(before[pos] == sorted@[pos]@);
            lemma_text_le_total(x, before[pos]);
        }
    }
    sorted.insert(i, item);
    proof {
        let after = texts(sorted@);
        assert(after =~= before.insert(pos, x));
        before.insert_ensures(pos, x);
        to_multiset_insert(before, pos, x);
        assert forall|a: int, b: int| 0 <= a < b < after.len() implies #[trigger] le(
            after[a],
            after[b],
        ) by {
            let p = if a < pos { a } else { a - 1 };
            let q = if b < pos { b } else { b - 1 };
            if a != pos && b != pos {
                assert(after[a] == before[p] && after[b] == before[q]);
                assert(le(before[p], before[q]));
            } else if b == pos {
                assert(after[a] == before[a] && after[b] == x);
            } else {
                assert(after[a] == x && after[b] == before[q]);
                if pos < q {
                    assert(le(before[pos], before[q]));
                    lemma_text_le_transitive(x, before[pos], before[q]);
                }
            }
        }
    }
}

} // verus!
