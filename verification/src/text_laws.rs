//! What holds of trimmed, lowercased, numbered and searched text.
use crate::text::all_ascii;
use crate::text::all_digits;
use crate::text::decimal;
use crate::text::digit_char;
use crate::text::digits_value;
use crate::text::found_from;
use crate::text::is_digit;
use crate::text::is_white;
use crate::text::lowercase;
use crate::text::natural_of;
use crate::text::trimmed;
use crate::text::trimmed_end;
use crate::text::trimmed_start;
use vstd::prelude::*;

verus! {

proof fn lemma_trimmed_start(s: Seq<char>) -> (a: int)
    ensures
        0 <= a <= s.len(),
        trimmed_start(s) == s.skip(a),
        forall|k: int| 0 <= k < a ==> is_white(#[trigger] s[k]),
        a < s.len() ==> !is_white(s[a]),
    decreases s.len(),
{
    if s.len() > 0 && is_white(s[0]) {
        let t = s.drop_first();
        let b = lemma_trimmed_start(t);
        assert(s.skip(b + 1) =~= t.skip(b));
        assert forall|k: int| 0 <= k < b + 1 implies is_white(#[trigger] s[k]) by {
            if k > 0 {
                assert(s[k] == t[k - 1]);
            }
        }
        b + 1
    } else {
        assert(s.skip(0) =~= s);
        0
    }
}

proof fn lemma_trimmed_end(s: Seq<char>) -> (b: int)
    ensures
        0 <= b <= s.len(),
        trimmed_end(s) == s.take(b),
        forall|k: int| b <= k < s.len() ==> is_white(#[trigger] s[k]),
        b > 0 ==> !is_white(s[b - 1]),
    decreases s.len(),
{
    if s.len() > 0 && is_white(s.last()) {
        let t = s.drop_last();
        let b = lemma_trimmed_end(t);
        assert(s.take(b) =~= t.take(b));
        assert forall|k: int| b <= k < s.len() implies is_white(#[trigger] s[k]) by {
            if k < t.len() {
                assert(s[k] == t[k]);
            }
        }
        b
    } else {
        assert(s.take(s.len() as int) =~= s);
        s.len() as int
    }
}

/// Trimming takes the whitespace at the two ends and nothing else: what is left is a run of the text
/// that neither starts nor ends with whitespace, and all that is taken is whitespace.
pub proof fn law_trim_takes_whitespace(s: Seq<char>) -> (r: (int, int))
    ensures
        0 <= r.0 <= r.1 <= s.len(),
        trimmed(s) == s.subrange(r.0, r.1),
        forall|k: int| 0 <= k < r.0 ==> is_white(#[trigger] s[k]),
        forall|k: int| r.1 <= k < s.len() ==> is_white(#[trigger] s[k]),
        trimmed(s).len() > 0 ==> !is_white(trimmed(s)[0]) && !is_white(trimmed(s).last()),
        trimmed(s).len() == 0 <==> forall|k: int| 0 <= k < s.len() ==> is_white(#[trigger] s[k]),
{
    let a = lemma_trimmed_start(s);
    let t = s.skip(a);
    let b = lemma_trimmed_end(t);
    assert(t.take(b) =~= s.subrange(a, a + b));
    assert forall|k: int| a + b <= k < s.len() implies is_white(#[trigger] s[k]) by {
        assert(s[k] == t[k - a]);
    }
    if trimmed(s).len() > 0 {
        assert(trimmed(s)[0] == s[a]);
        assert(trimmed(s).last() == t[b - 1]);
        assert(!is_white(s[a]));
    }
    (a, a + b)
}

/// A text that neither starts nor ends with whitespace is left alone.
pub proof fn law_trimmed_stays(s: Seq<char>)
    requires
        s.len() > 0 ==> !is_white(s[0]) && !is_white(s.last()),
    ensures
        trimmed(s) == s,
{
}

/// Trimming twice is trimming once.
pub proof fn law_trim_twice(s: Seq<char>)
    ensures
        trimmed(trimmed(s)) == trimmed(s),
{
    let r = law_trim_takes_whitespace(s);
    law_trimmed_stays(trimmed(s));
}

/// A text is found where it first stands, and only if it stands anywhere.
pub proof fn law_found_is_first(s: Seq<char>, p: Seq<char>, from: int)
    requires
        0 <= from,
    ensures
        match found_from(s, p, from) {
            Some(i) => from <= i <= s.len() - p.len() && s.subrange(i, i + p.len()) == p
                && forall|k: int| #![trigger s.subrange(k, k + p.len())]
                from <= k < i ==> s.subrange(k, k + p.len()) != p,
            None => forall|k: int| #![trigger s.subrange(k, k + p.len())]
                from <= k <= s.len() - p.len() ==> s.subrange(k, k + p.len()) != p,
        },
    decreases s.len() - from,
{
    if from + p.len() <= s.len() && s.subrange(from, from + p.len()) != p {
        law_found_is_first(s, p, from + 1);
    }
}

proof fn lemma_decimal(n: nat)
    ensures
        decimal(n).len() > 0,
        all_digits(decimal(n)),
        digits_value(decimal(n)) == n,
        n > 0 ==> decimal(n)[0] != '0',
    decreases n,
{
    reveal_with_fuel(digits_value, 2);
    if n < 10 {
        let d = seq![digit_char(n)];
        assert(d.drop_last() =~= Seq::empty());
        assert(digits_value(d.drop_last()) == 0);
    } else {
        lemma_decimal(n / 10);
        let head = decimal(n / 10);
        let all = decimal(n);
        assert(all.drop_last() =~= head);
        assert(all[0] == head[0]);
        assert forall|i: int| 0 <= i < all.len() implies is_digit(#[trigger] all[i]) by {
            if i < head.len() {
                assert(all[i] == head[i]);
            }
        }
    }
}

/// A number that is written in decimal is read back as itself; it has digits only, and no zero in
/// front.
pub proof fn law_decimal_reads_back(n: u64)
    ensures
        natural_of(decimal(n as nat)) == Some(n),
        all_digits(decimal(n as nat)),
        decimal(n as nat).len() > 0,
        n > 0 ==> decimal(n as nat)[0] != '0',
{
    lemma_decimal(n as nat);
    assert(is_digit(decimal(n as nat)[0]));
}

/// Lowercasing an ASCII text keeps its length and everything but capitals, which become the small
/// letters at the same place of the alphabet.
pub proof fn law_ascii_lowercase(s: Seq<char>)
    requires
        all_ascii(s),
    ensures
        lowercase(s).len() == s.len(),
        forall|i: int|
            0 <= i < s.len() ==> (if 'A' as u32 <= s[i] as u32 <= 'Z' as u32 {
                (#[trigger] lowercase(s)[i]) as u32 - 'a' as u32 == s[i] as u32 - 'A' as u32
            } else {
                lowercase(s)[i] == s[i]
            }),
{
}

} // verus!
