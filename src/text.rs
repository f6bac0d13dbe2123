use vstd::prelude::*;

verus! {

/// ASCII white space, as `str::trim` removes it.
pub open spec fn is_space(b: u8) -> bool {
    b == 32 || (9 <= b && b <= 13)
}

/// `s` without its leading white space.
pub open spec fn trim_start(s: Seq<u8>) -> Seq<u8>
    decreases s.len(),
{
    if s.len() > 0 && is_space(s[0]) {
        trim_start(s.drop_first())
    } else {
        s
    }
}

/// `s` without its trailing white space.
pub open spec fn trim_end(s: Seq<u8>) -> Seq<u8>
    decreases s.len(),
{
    if s.len() > 0 && is_space(s.last()) {
        trim_end(s.drop_last())
    } else {
        s
    }
}

/// `s` without white space at either end.
pub open spec fn trimmed(s: Seq<u8>) -> Seq<u8> {
    trim_end(trim_start(s))
}

/// Value of `b` as a digit in base `radix` (10 or 16), if it is one.
pub open spec fn digit_of(b: u8, radix: nat) -> Option<nat> {
    if 48 <= b <= 57 {
        Some((b - 48) as nat)
    } else if radix == 16 && 97 <= b <= 102 {
        Some((b - 87) as nat)
    } else if radix == 16 && 65 <= b <= 70 {
        Some((b - 55) as nat)
    } else {
        None
    }
}

/// Every byte of `s` is a digit in base `radix`.
pub open spec fn all_digits(s: Seq<u8>, radix: nat) -> bool {
    forall|i: int| 0 <= i < s.len() ==> (#[trigger] digit_of(s[i], radix)) is Some
}

/// Value of the digits `s` in base `radix`, most significant first.
pub open spec fn number_value(s: Seq<u8>, radix: nat) -> nat
    decreases s.len(),
{
    if s.len() == 0 {
        0
    } else {
        number_value(s.drop_last(), radix) * radix + digit_of(s.last(), radix).unwrap_or(0)
    }
}

/// What parsing `s` as an unsigned number in base `radix` gives: its value
/// when `s` is a non-empty run of digits whose value fits in a `usize`.
pub open spec fn parsed_number(s: Seq<u8>, radix: nat) -> Option<nat> {
    if s.len() > 0 && all_digits(s, radix) && number_value(s, radix) <= usize::MAX {
        Some(number_value(s, radix))
    } else {
        None
    }
}

fn digit(b: u8, radix: usize) -> (r: Option<usize>)
    ensures
        r matches Some(d) ==> digit_of(b, radix as nat) == Some(d as nat) && d < 16,
        r is None ==> digit_of(b, radix as nat) is None,
{
    if 48 <= b && b <= 57 {
        Some((b - 48) as usize)
    } else if radix == 16 && 97 <= b && b <= 102 {
        Some((b - 87) as usize)
    } else if radix == 16 && 65 <= b && b <= 70 {
        Some((b - 55) as usize)
    } else {
        None
    }
}

proof fn lemma_value_grows(s: Seq<u8>, radix: nat, i: int, j: int)
    requires
        radix >= 1,
        0 <= i <= j <= s.len(),
    ensures
        number_value(s.take(i), radix) <= number_value(s.take(j), radix),
    decreases j - i,
{
    if i < j {
        lemma_value_grows(s, radix, i, j - 1);
        assert(s.take(j).drop_last() =~= s.take(j - 1));
        let v = number_value(s.take(j - 1), radix);
        assert(v * radix >= v) by (nonlinear_arith)
            requires
                radix >= 1,
        ;
    }
}

/// Parses `s[lo..hi]` as an unsigned number in base `radix` (10 or 16).
pub fn parse_number(s: &[u8], lo: usize, hi: usize, radix: usize) -> (r: Option<usize>)
    requires
        lo <= hi <= s@.len(),
        radix == 10 || radix == 16,
    ensures
        r matches Some(v) ==> parsed_number(s@.subrange(lo as int, hi as int), radix as nat)
            == Some(v as nat),
        r is None ==> parsed_number(s@.subrange(lo as int, hi as int), radix as nat) is None,
{
    let ghost t = s@.subrange(lo as int, hi as int);
    if lo == hi {
        return None;
    }
    let mut acc: usize = 0;
    let mut i: usize = lo;
    while i < hi
        invariant
            lo <= i <= hi <= s@.len(),
            radix == 10 || radix == 16,
            t == s@.subrange(lo as int, hi as int),
            all_digits(t.take(i - lo), radix as nat),
            acc as nat == number_value(t.take(i - lo), radix as nat),
        decreases hi - i,
    {
        let k: Ghost<int> = Ghost(i - lo);
        assert(t.take(k@ + 1).drop_last() =~= t.take(k@));
        match digit(s[i], radix) {
            None => {
                assert(!all_digits(t, radix as nat)) by {
                    assert(t[k@] == s@[i as int]);
                }
                return None;
            },
            Some(d) => {
                if acc > (usize::MAX - d) / radix {
                    proof {
                        let v = acc as int;
                        assert(v * radix + d > usize::MAX) by (nonlinear_arith)
                            requires
                                v > (usize::MAX - d) / (radix as int),
                                radix == 10 || radix == 16,
                                0 <= d < 16,
                        ;
                        assert(t[k@] == s@[i as int]);
                        lemma_value_grows(t, radix as nat, k@ + 1, t.len() as int);
                        assert(t.take(t.len() as int) =~= t);
                    }
                    return None;
                }
                assert(acc * radix + d <= usize::MAX) by (nonlinear_arith)
                    requires
                        acc <= (usize::MAX - d) / (radix as int),
                        radix == 10 || radix == 16,
                        0 <= d < 16,
                ;
                assert(t[k@] == s@[i as int]);
                acc = acc * radix + d;
                i = i + 1;
                assert(all_digits(t.take(i - lo), radix as nat)) by {
                    assert forall|j: int| 0 <= j < t.take(i - lo).len() implies (#[trigger] digit_of(
                        t.take(i - lo)[j],
                        radix as nat,
                    )) is Some by {
                        if j < k@ {
                            assert(t.take(i - lo)[j] == t.take(k@)[j]);
                        }
                    }
                }
            },
        }
    }
    assert(t.take(hi - lo) =~= t);
    Some(acc)
}

/// Bounds `(lo, hi)` of `s` without white space at either end.
pub fn trim_bounds(s: &[u8]) -> (r: (usize, usize))
    ensures
        r.0 <= r.1 <= s@.len(),
        r.0 == s@.len() - trim_start(s@).len(),
        s@.subrange(r.0 as int, r.1 as int) == trimmed(s@),
{
    let n = s.len();
    let mut lo: usize = 0;
    assert(s@.subrange(0, n as int) =~= s@);
    while lo < n && (s[lo] == 32 || (9 <= s[lo] && s[lo] <= 13))
        invariant
            lo <= n == s@.len(),
            trim_start(s@) == trim_start(s@.subrange(lo as int, n as int)),
        decreases n - lo,
    {
        assert(s@.subrange(lo as int, n as int).drop_first() =~= s@.subrange(lo + 1, n as int));
        lo = lo + 1;
    }
    let ghost front = s@.subrange(lo as int, n as int);
    assert(trim_start(s@) == front);
    let mut hi: usize = n;
    while hi > lo && (s[hi - 1] == 32 || (9 <= s[hi - 1] && s[hi - 1] <= 13))
        invariant
            lo <= hi <= n == s@.len(),
            front == s@.subrange(lo as int, n as int),
            trim_end(front) == trim_end(s@.subrange(lo as int, hi as int)),
        decreases hi - lo,
    {
        assert(s@.subrange(lo as int, hi as int).drop_last() =~= s@.subrange(
            lo as int,
            hi - 1,
        ));
        hi = hi - 1;
    }
    (lo, hi)
}

/// Whether `s` and `t` hold the same bytes.
pub fn bytes_equal(s: &[u8], t: &[u8]) -> (r: bool)
    ensures
        r == (s@ == t@),
{
    if s.len() != t.len() {
        return false;
    }
    let mut i: usize = 0;
    while i < s.len()
        invariant
            s@.len() == t@.len(),
            i <= s@.len(),
            forall|j: int| 0 <= j < i ==> s@[j] == t@[j],
        decreases s@.len() - i,
    {
        if s[i] != t[i] {
            return false;
        }
        i = i + 1;
    }
    assert(s@ =~= t@);
    true
}

} // verus!
