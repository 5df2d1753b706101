//! Reading a line identifier as an offset, and the order of chip paths.

use vstd::prelude::*;
use vstd::string::*;

verus! {

/// The character is one of the ten decimal digits.
pub open spec fn is_digit(c: char) -> bool {
    48 <= (c as int) <= 57
}

/// Every character is a decimal digit.
pub open spec fn all_digits(s: Seq<char>) -> bool {
    forall|i: int| 0 <= i < s.len() ==> is_digit(#[trigger] s[i])
}

/// The number that a run of decimal digits writes.
pub open spec fn digits_value(s: Seq<char>) -> int
    decreases s.len(),
{
    if s.len() == 0 {
        0
    } else {
        digits_value(s.drop_last()) * 10 + (s.last() as int - 48)
    }
}

/// An identifier is an offset when it is made of decimal digits alone and
/// the number they write fits 32 bits. Anything else is a name.
pub open spec fn parse_offset(s: Seq<char>) -> Option<u32> {
    if s.len() > 0 && all_digits(s) && digits_value(s) <= u32::MAX {
        Some(digits_value(s) as u32)
    } else {
        None
    }
}

proof fn lemma_digits_prefix(s: Seq<char>, k: int)
    requires
        all_digits(s),
        0 <= k <= s.len(),
    ensures
        0 <= digits_value(s.subrange(0, k)) <= digits_value(s),
    decreases s.len() - k,
{
    if k == s.len() {
        assert(s.subrange(0, k) =~= s);
        lemma_digits_nonnegative(s);
    } else {
        lemma_digits_prefix(s, k + 1);
        let t = s.subrange(0, k + 1);
        assert(t.drop_last() =~= s.subrange(0, k));
        assert(is_digit(t.last()));
        lemma_digits_nonnegative(t.drop_last());
    }
}

proof fn lemma_digits_nonnegative(s: Seq<char>)
    requires
        all_digits(s),
    ensures
        0 <= digits_value(s),
    decreases s.len(),
{
    if s.len() > 0 {
        assert(is_digit(s.last()));
        lemma_digits_nonnegative(s.drop_last());
    }
}

/// Reads an identifier as an offset.
pub fn offset_of(id: &str) -> (r: Option<u32>)
    ensures
        r == parse_offset(id@),
{
    let n = id.unicode_len();
    if n == 0 {
        return None;
    }
    let mut acc: u64 = 0;
    let mut i: usize = 0;
    while i < n
        invariant
            n == id@.len(),
            i <= n,
            all_digits(id@.subrange(0, i as int)),
            acc == digits_value(id@.subrange(0, i as int)),
            acc <= u32::MAX,
        decreases n - i,
    {
        let c = id.get_char(i);
        let cu: u32 = c as u32;
        if cu < 48 || cu > 57 {
            assert(!is_digit(id@[i as int]));
            return None;
        }
        let ghost before = id@.subrange(0, i as int);
        let ghost after = id@.subrange(0, i + 1);
        proof {
            assert(after.drop_last() =~= before);
            assert(after.last() == id@[i as int]);
            assert forall|j: int| 0 <= j < after.len() implies is_digit(#[trigger] after[j]) by {
                if j < i {
                    assert(after[j] == before[j]);
                }
            }
        }
        let d: u64 = (cu - 48) as u64;
        acc = acc * 10 + d;
        if acc > 0xffff_ffff {
            proof {
                if all_digits(id@) {
                    lemma_digits_prefix(id@, i + 1);
                }
            }
            return None;
        }
        i = i + 1;
    }
    proof {
        assert(id@.subrange(0, n as int) =~= id@);
    }
    Some(acc as u32)
}

/// `k` is where `a` is seen to sort before `b`: they agree on their first `k`
/// characters, and there `a` ends, or holds the lesser character.
pub open spec fn sorts_before_at(a: Seq<char>, b: Seq<char>, k: int) -> bool {
    &&& 0 <= k <= a.len()
    &&& k < b.len()
    &&& a.subrange(0, k) == b.subrange(0, k)
    &&& (k < a.len() ==> (a[k] as int) < (b[k] as int))
}

/// The lexicographic order of strings, by code point.
pub open spec fn sorts_before(a: Seq<char>, b: Seq<char>) -> bool {
    exists|k: int| sorts_before_at(a, b, k)
}

proof fn lemma_agree(a: Seq<char>, b: Seq<char>, k: int, j: int)
    requires
        0 <= j < k <= a.len(),
        k <= b.len(),
        a.subrange(0, k) == b.subrange(0, k),
    ensures
        a[j] == b[j],
{
    assert(a.subrange(0, k)[j] == a[j]);
    assert(b.subrange(0, k)[j] == b[j]);
}

/// No string sorts before itself, and no two sort before each other.
pub proof fn lemma_sorts_before_asymmetric(a: Seq<char>, b: Seq<char>)
    ensures
        !(sorts_before(a, b) && sorts_before(b, a)),
        sorts_before(a, b) ==> a != b,
{
    if sorts_before(a, b) {
        let k = choose|k: int| sorts_before_at(a, b, k);
        if a == b {
            assert(false);
        }
        if sorts_before(b, a) {
            let j = choose|j: int| sorts_before_at(b, a, j);
            if k < j {
                lemma_agree(b, a, j, k);
            } else if j < k {
                lemma_agree(a, b, k, j);
            }
            assert(false);
        }
    }
}

/// What sorts before a string sorts before whatever that string sorts
/// before.
pub proof fn lemma_sorts_before_transitive(a: Seq<char>, b: Seq<char>, c: Seq<char>)
    requires
        sorts_before(a, b),
        sorts_before(b, c),
    ensures
        sorts_before(a, c),
{
    let k = choose|k: int| sorts_before_at(a, b, k);
    let j = choose|j: int| sorts_before_at(b, c, j);
    let m = if k <= j { k } else { j };
    assert(a.subrange(0, m) =~= c.subrange(0, m)) by {
        assert forall|i: int| 0 <= i < m implies a[i] == c[i] by {
            lemma_agree(a, b, k, i);
            lemma_agree(b, c, j, i);
        }
    }
    if k < j {
        lemma_agree(b, c, j, k);
    } else if j < k {
        lemma_agree(a, b, k, j);
    }
    assert(sorts_before_at(a, c, m));
}

proof fn lemma_sorts_total_from(a: Seq<char>, b: Seq<char>, n: int)
    requires
        0 <= n <= a.len(),
        n <= b.len(),
        a.subrange(0, n) == b.subrange(0, n),
    ensures
        sorts_before(a, b) || a == b || sorts_before(b, a),
    decreases a.len() - n,
{
    if n == a.len() && n == b.len() {
        assert(a.subrange(0, n) =~= a);
        assert(b.subrange(0, n) =~= b);
    } else if n == a.len() {
        assert(sorts_before_at(a, b, n));
    } else if n == b.len() {
        assert(sorts_before_at(b, a, n));
    } else if a[n] == b[n] {
        assert(a.subrange(0, n + 1) =~= b.subrange(0, n + 1)) by {
            assert forall|i: int| 0 <= i < n + 1 implies a[i] == b[i] by {
                if i < n {
                    lemma_agree(a, b, n, i);
                }
            }
        }
        lemma_sorts_total_from(a, b, n + 1);
    } else if (a[n] as int) < (b[n] as int) {
        assert(sorts_before_at(a, b, n));
    } else {
        assert(sorts_before_at(b, a, n));
    }
}

/// Of two different strings one sorts before the other.
pub proof fn lemma_sorts_before_total(a: Seq<char>, b: Seq<char>)
    ensures
        sorts_before(a, b) || a == b || sorts_before(b, a),
{
    assert(a.subrange(0, 0) =~= b.subrange(0, 0));
    lemma_sorts_total_from(a, b, 0);
}

/// Whether `a` sorts before `b`.
pub fn path_less(a: &str, b: &str) -> (r: bool)
    ensures
        r == sorts_before(a@, b@),
{
    let la = a.unicode_len();
    let lb = b.unicode_len();
    let mut i: usize = 0;
    while i < la && i < lb
        invariant
            la == a@.len(),
            lb == b@.len(),
            i <= la,
            i <= lb,
            a@.subrange(0, i as int) == b@.subrange(0, i as int),
        decreases la - i,
    {
        let ca: u32 = a.get_char(i) as u32;
        let cb: u32 = b.get_char(i) as u32;
        if ca != cb {
            proof {
                if ca < cb {
                    assert(sorts_before_at(a@, b@, i as int));
                } else {
                    assert(sorts_before_at(b@, a@, i as int));
                    lemma_sorts_before_asymmetric(a@, b@);
                }
            }
            return ca < cb;
        }
        proof {
            assert(a@[i as int] == b@[i as int]);
            assert(a@.subrange(0, i + 1) =~= b@.subrange(0, i + 1)) by {
                assert forall|j: int| 0 <= j < i + 1 implies a@[j] == b@[j] by {
                    if j < i {
                        lemma_agree(a@, b@, i as int, j);
                    }
                }
            }
        }
        i = i + 1;
    }
    proof {
        if la < lb {
            assert(sorts_before_at(a@, b@, i as int));
        } else if lb < la {
            assert(sorts_before_at(b@, a@, i as int));
            lemma_sorts_before_asymmetric(a@, b@);
        } else {
            assert(a@.subrange(0, i as int) =~= a@);
            assert(b@.subrange(0, i as int) =~= b@);
            lemma_sorts_before_asymmetric(a@, b@);
        }
    }
    la < lb
}

} // verus!
