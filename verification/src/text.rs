//! Small text operations on strings, stated over their characters.

use vstd::prelude::*;

verus! {

/// Calls `String::push`, which appends the character `c` to `s`.
#[verifier::external_body]
pub(crate) fn push_char(s: &mut String, c: char)
    ensures
        final(s)@ == old(s)@.push(c),
{
    s.push(c);
}

/// The characters of `s`, in order.
pub fn chars_of(s: &str) -> (r: Vec<char>)
    ensures
        r@ == s@,
{
    let mut out: Vec<char> = Vec::new();
    for c in iter: s.chars()
        invariant
            out@ == iter.seq().take(iter.index()),
            iter.seq() == s@,
    {
        out.push(c);
    }
    assert(out@ =~= s@);
    out
}

/// A string holding the characters `chars`.
pub fn string_of(chars: &Vec<char>) -> (r: String)
    ensures
        r@ == chars@,
{
    let mut out = String::new();
    let mut i: usize = 0;
    while i < chars.len()
        invariant
            i <= chars@.len(),
            out@ == chars@.take(i as int),
        decreases chars@.len() - i,
    {
        push_char(&mut out, chars[i]);
        i = i + 1;
        assert(out@ =~= chars@.take(i as int));
    }
    assert(chars@.take(i as int) =~= chars@);
    out
}

/// `s` with every occurrence of `pat` taken out, occurrences found from
/// the left without overlapping, as `str::replace(pat, "")` does.
pub open spec fn remove_all(s: Seq<char>, pat: Seq<char>) -> Seq<char>
    decreases s.len(),
{
    if pat.len() == 0 || s.len() < pat.len() {
        s
    } else if s.take(pat.len() as int) == pat {
        remove_all(s.skip(pat.len() as int), pat)
    } else {
        seq![s[0]] + remove_all(s.drop_first(), pat)
    }
}

/// `s` has `pat` at position `i`.
pub open spec fn occurs_at(s: Seq<char>, pat: Seq<char>, i: int) -> bool {
    0 <= i && i + pat.len() <= s.len() && s.subrange(i, i + pat.len()) == pat
}

/// Whether `s` has `pat` at position `i`.
fn matches_at(s: &Vec<char>, pat: &Vec<char>, i: usize) -> (r: bool)
    requires
        i <= s@.len(),
    ensures
        r == occurs_at(s@, pat@, i as int),
{
    if pat.len() > s.len() - i {
        return false;
    }
    let mut k: usize = 0;
    while k < pat.len()
        invariant
            i + pat@.len() <= s@.len(),
            s@.len() == s.len(),
            k <= pat@.len(),
            forall|j: int| 0 <= j < k ==> s@[i + j] == pat@[j],
        decreases pat@.len() - k,
    {
        if s[i + k] != pat[k] {
            assert(s@.subrange(i as int, i + pat@.len())[k as int] != pat@[k as int]);
            return false;
        }
        k = k + 1;
    }
    assert(s@.subrange(i as int, i + pat@.len()) =~= pat@);
    true
}

/// `s` with every occurrence of `pat` taken out (see `remove_all`).
pub fn remove_pattern(s: &Vec<char>, pat: &Vec<char>) -> (r: Vec<char>)
    ensures
        r@ == remove_all(s@, pat@),
{
    if pat.len() == 0 {
        return s.clone();
    }
    let mut out: Vec<char> = Vec::new();
    let mut i: usize = 0;
    assert(s@.skip(0) =~= s@);
    assert(out@ + remove_all(s@, pat@) =~= remove_all(s@, pat@));
    while i < s.len()
        invariant
            pat@.len() > 0,
            i <= s@.len(),
            remove_all(s@, pat@) == out@ + remove_all(s@.skip(i as int), pat@),
        decreases s@.len() - i,
    {
        let ghost rest = s@.skip(i as int);
        if matches_at(s, pat, i) {
            assert(rest.take(pat@.len() as int) =~= s@.subrange(i as int, i + pat@.len()));
            assert(rest.skip(pat@.len() as int) =~= s@.skip(i + pat@.len()));
            i = i + pat.len();
        } else {
            proof {
                assert(rest.drop_first() =~= s@.skip(i + 1));
                if rest.len() >= pat@.len() {
                    assert(rest.take(pat@.len() as int) =~= s@.subrange(i as int, i + pat@.len()));
                    assert(remove_all(rest, pat@) == seq![rest[0]] + remove_all(rest.drop_first(), pat@));
                } else {
                    assert(remove_all(rest, pat@) == rest);
                    assert(remove_all(rest.drop_first(), pat@) == rest.drop_first());
                    assert(rest =~= seq![rest[0]] + rest.drop_first());
                }
            }
            out.push(s[i]);
            i = i + 1;
            assert(out@ + remove_all(s@.skip(i as int), pat@) =~= out@.drop_last() + (seq![rest[0]] + remove_all(rest.drop_first(), pat@)));
        }
    }
    assert(s@.skip(i as int) =~= Seq::<char>::empty());
    assert(out@ =~= out@ + remove_all(s@.skip(i as int), pat@));
    out
}

/// Taking out every `c` leaves no `c`.
pub proof fn lemma_remove_all_char(s: Seq<char>, c: char)
    ensures
        !remove_all(s, seq![c]).contains(c),
    decreases s.len(),
{
    if s.len() >= 1 {
        if s.take(1) == seq![c] {
            lemma_remove_all_char(s.skip(1), c);
        } else {
            lemma_remove_all_char(s.drop_first(), c);
            assert(s[0] != c) by {
                assert(s.take(1) =~= seq![s[0]]);
            }
            let r = remove_all(s, seq![c]);
            assert(r == seq![s[0]] + remove_all(s.drop_first(), seq![c]));
            if r.contains(c) {
                let k = choose|k: int| 0 <= k < r.len() && r[k] == c;
                if k > 0 {
                    assert(remove_all(s.drop_first(), seq![c])[k - 1] == c);
                }
            }
        }
    }
}

/// `s` has no occurrence of `pat` anywhere.
pub open spec fn occurs_nowhere(s: Seq<char>, pat: Seq<char>) -> bool {
    forall|i: int| !#[trigger] occurs_at(s, pat, i)
}

/// Where `pat` occurs nowhere, taking its occurrences out changes nothing.
pub proof fn lemma_remove_all_absent(s: Seq<char>, pat: Seq<char>)
    requires
        occurs_nowhere(s, pat),
    ensures
        remove_all(s, pat) == s,
    decreases s.len(),
{
    if pat.len() > 0 && s.len() >= pat.len() {
        assert(!occurs_at(s, pat, 0));
        assert(s.take(pat.len() as int) =~= s.subrange(0, pat.len() as int));
        let t = s.drop_first();
        assert forall|i: int| !#[trigger] occurs_at(t, pat, i) by {
            if occurs_at(t, pat, i) {
                assert(s.subrange(i + 1, i + 1 + pat.len()) =~= t.subrange(i, i + pat.len()));
                assert(occurs_at(s, pat, i + 1));
            }
        }
        lemma_remove_all_absent(t, pat);
        assert(seq![s[0]] + t =~= s);
    }
}

/// Characters that cannot begin `pat` pass through untouched: taking the
/// occurrences of `pat` out of `a + b`, where `a` holds no first character
/// of `pat`, keeps `a` and works on `b` alone.
pub proof fn lemma_remove_all_keeps_prefix(a: Seq<char>, b: Seq<char>, pat: Seq<char>)
    requires
        pat.len() > 0,
        !a.contains(pat[0]),
    ensures
        remove_all(a + b, pat) == a + remove_all(b, pat),
    decreases a.len(),
{
    let s = a + b;
    if a.len() == 0 {
        assert(s =~= b);
    } else if s.len() < pat.len() {
        assert(remove_all(b, pat) == b);
    } else {
        assert(s.take(pat.len() as int)[0] != pat[0]);
        lemma_remove_all_keeps_prefix(a.drop_first(), b, pat);
        assert(s.drop_first() =~= a.drop_first() + b);
        assert(seq![a[0]] + (a.drop_first() + remove_all(b, pat)) =~= a + remove_all(b, pat));
    }
}

/// Taking out a single character keeps every other character, in order.
pub proof fn lemma_remove_all_char_filter(s: Seq<char>, c: char)
    ensures
        remove_all(s, seq![c]) == s.filter(|x: char| x != c),
    decreases s.len(),
{
    let pred = |x: char| x != c;
    if s.len() == 0 {
        reveal(Seq::filter);
    } else {
        let t = s.drop_first();
        let head = seq![s[0]];
        assert(head + t =~= s);
        Seq::filter_distributes_over_add(head, t, pred);
        reveal_with_fuel(Seq::filter, 2);
        assert(head.drop_last() =~= Seq::<char>::empty());
        assert(s.take(1) =~= head);
        assert(s.skip(1) =~= t);
        lemma_remove_all_char_filter(t, c);
        if s[0] == c {
            assert(head.filter(pred) =~= Seq::<char>::empty());
            assert(remove_all(s, seq![c]) == remove_all(t, seq![c]));
            assert(Seq::<char>::empty() + t.filter(pred) =~= t.filter(pred));
        } else {
            assert(head.filter(pred) =~= head);
        }
    }
}

/// The number that the decimal digits `t` denote, most significant first.
pub open spec fn digits_value(t: Seq<char>) -> nat
    decreases t.len(),
{
    if t.len() == 0 {
        0
    } else {
        digits_value(t.drop_last()) * 10 + (t.last() as int - 48) as nat
    }
}

/// The decimal digit `d` (below ten) as a character.
pub open spec fn digit_char(d: nat) -> char {
    ((48 + d) as u32) as char
}

/// The decimal notation of `n`, without leading zeros.
pub open spec fn decimal(n: nat) -> Seq<char>
    decreases n,
{
    if n < 10 {
        seq![digit_char(n)]
    } else {
        decimal(n / 10).push(digit_char(n % 10))
    }
}

/// The decimal notation of `n` is made of digits and denotes `n`.
pub proof fn lemma_decimal_value(n: nat)
    ensures
        decimal(n).len() > 0,
        forall|i: int| 0 <= i < decimal(n).len() ==> '0' <= #[trigger] decimal(n)[i] <= '9',
        digits_value(decimal(n)) == n,
    decreases n,
{
    if n < 10 {
        assert(digit_char(n) as int == 48 + n);
        assert(decimal(n).drop_last() =~= Seq::<char>::empty());
        assert(digits_value(decimal(n)) == digits_value(Seq::<char>::empty()) * 10 + (digit_char(n) as int - 48) as nat);
    } else {
        lemma_decimal_value(n / 10);
        let d = decimal(n);
        assert(d.drop_last() =~= decimal(n / 10));
        assert(digit_char(n % 10) as int == 48 + n % 10);
        assert(forall|i: int| 0 <= i < d.len() - 1 ==> d[i] == decimal(n / 10)[i]);
        assert(digits_value(d) == digits_value(decimal(n / 10)) * 10 + (d.last() as int - 48) as nat);
        assert((n / 10) * 10 + n % 10 == n);
    }
}

/// Appends the decimal notation of `n` to `out`.
pub fn push_decimal(out: &mut String, n: u16)
    ensures
        final(out)@ == old(out)@ + decimal(n as nat),
    decreases n,
{
    if n >= 10 {
        push_decimal(out, n / 10);
    }
    let d: u8 = (n % 10) as u8;
    let c = (48u8 + d) as char;
    assert(c == digit_char((n % 10) as nat));
    push_char(out, c);
    assert(final(out)@ =~= old(out)@ + decimal(n as nat));
}

} // verus!
